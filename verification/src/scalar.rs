use vstd::prelude::*;

verus! {

/// Elements that support linear algebra operations.
///
/// The matrix algorithms know an element only through this interface: total
/// arithmetic operators, the additive and multiplicative identities, and a
/// test against the additive identity. Each executable operation is pinned to
/// a spec-level counterpart, so that the algorithms' contracts can name the
/// exact value an operation returns without fixing a concrete element type.
///
/// Every operation must be total for the implementing type: it returns a
/// value for all inputs (as floating-point division does) and never panics.
pub trait LinalgScalar: Sized + Copy {
    /// The value `add_val` returns.
    spec fn add_spec(self, rhs: Self) -> Self;

    /// The value `sub_val` returns.
    spec fn sub_spec(self, rhs: Self) -> Self;

    /// The value `mul_val` returns.
    spec fn mul_spec(self, rhs: Self) -> Self;

    /// The value `div_val` returns.
    spec fn div_spec(self, rhs: Self) -> Self;

    /// The additive identity.
    spec fn zero_spec() -> Self;

    /// The multiplicative identity.
    spec fn one_spec() -> Self;

    fn add_val(self, rhs: Self) -> (r: Self)
        ensures
            r == self.add_spec(rhs),
    ;

    fn sub_val(self, rhs: Self) -> (r: Self)
        ensures
            r == self.sub_spec(rhs),
    ;

    fn mul_val(self, rhs: Self) -> (r: Self)
        ensures
            r == self.mul_spec(rhs),
    ;

    fn div_val(self, rhs: Self) -> (r: Self)
        ensures
            r == self.div_spec(rhs),
    ;

    fn zero_val() -> (r: Self)
        ensures
            r == Self::zero_spec(),
    ;

    fn one_val() -> (r: Self)
        ensures
            r == Self::one_spec(),
    ;

    /// Whether this value is the additive identity.
    fn is_zero_val(self) -> (r: bool)
        ensures
            r == (self == Self::zero_spec()),
    ;
}

/// The extra capabilities the pivoted elimination needs beyond plain
/// arithmetic: negation and a magnitude comparison for partial pivoting.
///
/// As with `LinalgScalar`, both operations must be total and must not panic.
pub trait IntFloat: LinalgScalar {
    /// The value `neg_val` returns.
    spec fn neg_spec(self) -> Self;

    /// The value `abs_ge` returns: whether the magnitude of `self` is at
    /// least the magnitude of `rhs`.
    spec fn abs_ge_spec(self, rhs: Self) -> bool;

    fn neg_val(self) -> (r: Self)
        ensures
            r == self.neg_spec(),
    ;

    fn abs_ge(self, rhs: Self) -> (r: bool)
        ensures
            r == self.abs_ge_spec(rhs),
    ;
}

} // verus!
