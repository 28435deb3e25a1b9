use crate::matrix::seq_ent;
use crate::matrix::Matrix;
use crate::matrix::MatrixError;
use crate::scalar::IntFloat;
use crate::scalar::LinalgScalar;
use vstd::prelude::*;

verus! {

/// The products along the two cyclic diagonals at offset `i`, over the first
/// `len` rows of the flat `n x n` sequence `s`, multiplied left to right:
/// the forward product over `s[j][(j + i) mod n]` and the backward product
/// over `s[j][(n + i - j) mod n]`.
pub open spec fn diag_pair_prod<T: IntFloat>(s: Seq<T>, n: int, i: int, len: int) -> (T, T)
    decreases len,
{
    if len <= 1 {
        (seq_ent(s, n, 0, i % n), seq_ent(s, n, 0, (n + i) % n))
    } else {
        let prev = diag_pair_prod(s, n, i, len - 1);
        (
            prev.0.mul_spec(seq_ent(s, n, len - 1, (len - 1 + i) % n)),
            prev.1.mul_spec(seq_ent(s, n, len - 1, (n + i - (len - 1)) % n)),
        )
    }
}

/// One summand of the diagonal-expansion formula: the forward diagonal
/// product at offset `i` minus the backward diagonal product at offset `i`.
pub open spec fn laplace_term<T: IntFloat>(s: Seq<T>, n: int, i: int) -> T {
    let p = diag_pair_prod(s, n, i, n);
    p.0.sub_spec(p.1)
}

/// The sum, added left to right, of the diagonal-expansion summands at
/// offsets `0 .. cnt`.
pub open spec fn laplace_sum<T: IntFloat>(s: Seq<T>, n: int, cnt: int) -> T
    decreases cnt,
{
    if cnt <= 1 {
        laplace_term(s, n, 0)
    } else {
        laplace_sum(s, n, cnt - 1).add_spec(laplace_term(s, n, cnt - 1))
    }
}

/// The cyclic diagonal-expansion ("generalized Sarrus") determinant formula
/// for the flat `n x n` sequence `s`:
///
/// `sum over i of (prod over j of s[j][(j + i) mod n]
///                 - prod over j of s[j][(n + i - j) mod n])`.
///
/// This is the classical Sarrus rule generalized to arbitrary `n` by
/// wrapping the diagonals cyclically through the columns. It is exact for
/// `n = 3` and is not a generally correct determinant formula for `n > 3`.
pub open spec fn laplace_det_spec<T: IntFloat>(s: Seq<T>, n: int) -> T {
    laplace_sum(s, n, n)
}

impl<T: IntFloat> Matrix<T> {
    /// The diagonal-expansion summand at offset `i`.
    #[verifier::loop_isolation(false)]
    fn laplace_term_at(&self, i: usize) -> (t: T)
        requires
            self.wf(),
            self.is_square(),
            0 < self.spec_rows(),
            i < self.spec_rows(),
        ensures
            t == laplace_term(self.spec_data(), self.spec_rows(), i as int),
    {
        let n = self.rows();
        let dl = self.data_len();
        proof {
            let ii = i as int;
            let nn = n as int;
            assert(nn + ii <= nn * nn) by (nonlinear_arith)
                requires
                    0 <= ii < nn,
                    1 <= nn,
            ;
        }
        let mut fwd = self.get(0, i % n);
        let mut bwd = self.get(0, (n + i) % n);
        let mut j: usize = 1;
        while j < n
            invariant
                1 <= j <= n,
                fwd == diag_pair_prod(self.spec_data(), n as int, i as int, j as int).0,
                bwd == diag_pair_prod(self.spec_data(), n as int, i as int, j as int).1,
            decreases n - j,
        {
            proof {
                let ji = j as int;
                let ii = i as int;
                let nn = n as int;
                assert(ji + ii <= nn * nn && nn + ii <= nn * nn) by (nonlinear_arith)
                    requires
                        0 <= ji < nn,
                        0 <= ii < nn,
                        1 <= nn,
                ;
            }
            fwd = fwd.mul_val(self.get(j, (j + i) % n));
            bwd = bwd.mul_val(self.get(j, (n + i - j) % n));
            j += 1;
        }
        fwd.sub_val(bwd)
    }

    /// Computes the determinant by the cyclic diagonal-expansion formula:
    /// for each offset `i`, the product along the forward wrapped diagonal
    /// minus the product along the backward wrapped diagonal, summed over
    /// all offsets. Exact for `n = 3` (the true Sarrus rule); for `n > 3`
    /// the formula is preserved as defined even though it is not a generally
    /// correct determinant. Returns `EmptyMatrix` / `NonSquareMatrix` for
    /// input without entries or with unequal dimensions.
    #[verifier::loop_isolation(false)]
    pub fn laplace_determinant(&self) -> (r: Result<T, MatrixError>)
        requires
            self.wf(),
        ensures
            (self.spec_rows() == 0 || self.spec_cols() == 0) ==> r == Err::<T, MatrixError>(
                MatrixError::EmptyMatrix,
            ),
            (self.spec_rows() > 0 && self.spec_cols() > 0 && !self.is_square()) ==> r == Err::<
                T,
                MatrixError,
            >(MatrixError::NonSquareMatrix),
            (self.spec_rows() > 0 && self.is_square()) ==> r == Ok::<T, MatrixError>(
                laplace_det_spec(self.spec_data(), self.spec_rows()),
            ),
    {
        if self.rows() == 0 || self.cols() == 0 {
            return Err(MatrixError::EmptyMatrix);
        }
        if self.rows() != self.cols() {
            return Err(MatrixError::NonSquareMatrix);
        }
        let n = self.rows();
        let mut det = self.laplace_term_at(0);
        let mut i: usize = 1;
        while i < n
            invariant
                1 <= i <= n,
                det == laplace_sum(self.spec_data(), n as int, i as int),
            decreases n - i,
        {
            let t = self.laplace_term_at(i);
            det = det.add_val(t);
            i += 1;
        }
        Ok(det)
    }
}

} // verus!
