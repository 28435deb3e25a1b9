use crate::matrix::lemma_distinct_rows_disjoint;
use crate::matrix::lemma_flat_index_in_range;
use crate::matrix::seq_ent;
use crate::matrix::swap_rows_seq;
use crate::matrix::Matrix;
use crate::matrix::MatrixError;
use crate::scalar::IntFloat;
use crate::scalar::LinalgScalar;
use vstd::prelude::*;

verus! {

/// The row, among rows `lo..hi` of the flat sequence `s`, whose entry in
/// column `c` has the largest magnitude; ties keep the earliest row, because
/// the running maximum is only replaced on a strictly greater magnitude.
pub open spec fn pivot_scan<T: IntFloat>(s: Seq<T>, n: int, c: int, lo: int, hi: int) -> int
    decreases hi - lo,
{
    if hi <= lo + 1 {
        lo
    } else {
        let prev = pivot_scan(s, n, c, lo, hi - 1);
        if seq_ent(s, n, prev, c).abs_ge_spec(seq_ent(s, n, hi - 1, c)) {
            prev
        } else {
            hi - 1
        }
    }
}

/// One elimination update of row `i` against pivot row `row` at pivot column
/// `col`: the entry at `(i, col)` becomes zero exactly, and every entry at
/// `(i, j)` for `j` in `(col, n)` becomes `s[i][j] - s[row][j] * factor`,
/// with `factor = s[i][col] / s[row][col]`.
pub open spec fn elim_row_seq<T: IntFloat>(s: Seq<T>, n: int, row: int, col: int, i: int) -> Seq<
    T,
> {
    let factor = seq_ent(s, n, i, col).div_spec(seq_ent(s, n, row, col));
    Seq::new(
        s.len(),
        |m: int|
            if m == i * n + col {
                T::zero_spec()
            } else if i * n + col < m < i * n + n {
                s[m].sub_spec(s[m - i * n + row * n].mul_spec(factor))
            } else {
                s[m]
            },
    )
}

/// The elimination updates of rows `row + 1 .. hi` against pivot row `row`
/// at pivot column `col`, applied in ascending row order.
pub open spec fn elim_below_upto<T: IntFloat>(
    s: Seq<T>,
    n: int,
    row: int,
    col: int,
    hi: int,
) -> Seq<T>
    decreases hi - row,
{
    if hi <= row + 1 {
        s
    } else {
        elim_row_seq(elim_below_upto(s, n, row, col, hi - 1), n, row, col, hi - 1)
    }
}

/// The pivoted Gaussian elimination, one column step at a time, from cursors
/// `(col, row)` with current sign flag `sign`. Returns the reduced flat
/// sequence, the final sign flag (flipped once per row interchange), the
/// number of row interchanges performed, and the number of rank-deficient
/// columns skipped.
///
/// Each step mirrors one pass of the elimination loop: when the pivot
/// candidate at `(col, row)` is zero, rows `col..n` are scanned for the entry
/// of largest magnitude in column `row`; if even that best candidate is zero
/// the column is rank deficient and only `col` advances, otherwise the best
/// row is swapped into place (flipping the sign) when it differs from `row`.
/// Rows below `row` are then eliminated against pivot `(row, col)` and both
/// cursors advance.
pub open spec fn gauss_rec<T: IntFloat>(s: Seq<T>, n: int, col: int, row: int, sign: bool) -> (
    Seq<T>,
    bool,
    nat,
    nat,
)
    decreases n - col,
{
    if col >= n || row >= n {
        (s, sign, 0nat, 0nat)
    } else {
        if seq_ent(s, n, col, row) == T::zero_spec() {
            let imax = pivot_scan(s, n, row, col, n);
            if seq_ent(s, n, imax, row) == T::zero_spec() {
                let r = gauss_rec(s, n, col + 1, row, sign);
                (r.0, r.1, r.2, r.3 + 1)
            } else if imax != row {
                let s3 = elim_below_upto(swap_rows_seq(s, n, imax, row), n, row, col, n);
                let r = gauss_rec(s3, n, col + 1, row + 1, !sign);
                (r.0, r.1, r.2 + 1, r.3)
            } else {
                let s3 = elim_below_upto(s, n, row, col, n);
                gauss_rec(s3, n, col + 1, row + 1, sign)
            }
        } else {
            let s3 = elim_below_upto(s, n, row, col, n);
            gauss_rec(s3, n, col + 1, row + 1, sign)
        }
    }
}

/// The product of the first `cnt` diagonal entries of the flat sequence `s`,
/// multiplied left to right.
pub open spec fn diag_prod<T: IntFloat>(s: Seq<T>, n: int, cnt: int) -> T
    decreases cnt,
{
    if cnt <= 1 {
        seq_ent(s, n, 0, 0)
    } else {
        diag_prod(s, n, cnt - 1).mul_spec(seq_ent(s, n, cnt - 1, cnt - 1))
    }
}

/// The scan for a pivot row always answers with a row in the scanned range.
proof fn lemma_pivot_scan_in_range<T: IntFloat>(s: Seq<T>, n: int, c: int, lo: int, hi: int)
    requires
        lo < hi,
    ensures
        lo <= pivot_scan(s, n, c, lo, hi) < hi,
    decreases hi - lo,
{
    if hi <= lo + 1 {
    } else {
        lemma_pivot_scan_in_range(s, n, c, lo, hi - 1);
    }
}

/// How a row exchange moves entries: row `i` shows row `j`'s old entries,
/// row `j` shows row `i`'s, and every other row is untouched.
proof fn lemma_swap_rows_ent<T>(s: Seq<T>, n: int, i: int, j: int, r: int, c: int)
    requires
        s.len() == n * n,
        0 <= i < n,
        0 <= j < n,
        0 <= r < n,
        0 <= c < n,
    ensures
        seq_ent(swap_rows_seq(s, n, i, j), n, r, c) == (if r == i {
            seq_ent(s, n, j, c)
        } else if r == j {
            seq_ent(s, n, i, c)
        } else {
            seq_ent(s, n, r, c)
        }),
{
    lemma_flat_index_in_range(n, r, c);
    if r != i {
        lemma_distinct_rows_disjoint(n, r, c, i);
    }
    if r != j {
        lemma_distinct_rows_disjoint(n, r, c, j);
    }
}

/// How one elimination update moves entries: within row `i`, the pivot
/// column becomes zero and the columns after it take the update formula;
/// everything else is untouched.
proof fn lemma_elim_row_ent<T: IntFloat>(
    s: Seq<T>,
    n: int,
    row: int,
    col: int,
    i: int,
    r: int,
    c: int,
)
    requires
        s.len() == n * n,
        0 <= i < n,
        0 <= col < n,
        0 <= row < n,
        0 <= r < n,
        0 <= c < n,
    ensures
        seq_ent(elim_row_seq(s, n, row, col, i), n, r, c) == ({
            let factor = seq_ent(s, n, i, col).div_spec(seq_ent(s, n, row, col));
            if r == i && c == col {
                T::zero_spec()
            } else if r == i && col < c {
                seq_ent(s, n, r, c).sub_spec(seq_ent(s, n, row, c).mul_spec(factor))
            } else {
                seq_ent(s, n, r, c)
            }
        }),
{
    lemma_flat_index_in_range(n, r, c);
    lemma_flat_index_in_range(n, i, col);
    if r != i {
        lemma_distinct_rows_disjoint(n, r, c, i);
    }
}

/// Eliminating below a pivot row never changes the storage length.
proof fn lemma_elim_below_upto_len<T: IntFloat>(s: Seq<T>, n: int, row: int, col: int, hi: int)
    ensures
        elim_below_upto(s, n, row, col, hi).len() == s.len(),
    decreases hi - row,
{
    if hi <= row + 1 {
    } else {
        lemma_elim_below_upto_len(s, n, row, col, hi - 1);
    }
}

/// What eliminating rows `row + 1 .. hi` leaves alone: rows at or above the
/// pivot row and rows from `hi` on are untouched, eliminated rows keep their
/// entries in columns before the pivot column, and their entry in the pivot
/// column becomes zero.
proof fn lemma_elim_below_low_cols<T: IntFloat>(
    s: Seq<T>,
    n: int,
    row: int,
    col: int,
    hi: int,
    r: int,
    c: int,
)
    requires
        s.len() == n * n,
        0 <= row < n,
        0 <= col < n,
        row + 1 <= hi <= n,
        0 <= r < n,
        0 <= c < n,
    ensures
        (r <= row || r >= hi) ==> seq_ent(elim_below_upto(s, n, row, col, hi), n, r, c) == seq_ent(
            s,
            n,
            r,
            c,
        ),
        (row < r < hi && c == col) ==> seq_ent(elim_below_upto(s, n, row, col, hi), n, r, c)
            == T::zero_spec(),
        (row < r < hi && c < col) ==> seq_ent(elim_below_upto(s, n, row, col, hi), n, r, c)
            == seq_ent(s, n, r, c),
    decreases hi - row,
{
    if hi <= row + 1 {
    } else {
        let prev = elim_below_upto(s, n, row, col, hi - 1);
        lemma_elim_below_low_cols(s, n, row, col, hi - 1, r, c);
        lemma_elim_below_upto_len(s, n, row, col, hi - 1);
        lemma_elim_row_ent(prev, n, row, col, hi - 1, r, c);
    }
}

/// One full elimination step at diagonal position `col` extends the zeroed
/// lower-triangular region by one column.
proof fn lemma_elim_step_triangular<T: IntFloat>(s2: Seq<T>, n: int, col: int)
    requires
        s2.len() == n * n,
        0 <= col < n,
        forall|r2: int, c2: int|
            0 <= c2 < col && c2 < r2 < n ==> #[trigger] seq_ent(s2, n, r2, c2) == T::zero_spec(),
    ensures
        forall|r2: int, c2: int|
            0 <= c2 < col + 1 && c2 < r2 < n ==> #[trigger] seq_ent(
                elim_below_upto(s2, n, col, col, n),
                n,
                r2,
                c2,
            ) == T::zero_spec(),
{
    let s3 = elim_below_upto(s2, n, col, col, n);
    lemma_elim_below_upto_len(s2, n, col, col, n);
    assert forall|r2: int, c2: int| 0 <= c2 < col + 1 && c2 < r2 < n implies #[trigger] seq_ent(
        s3,
        n,
        r2,
        c2,
    ) == T::zero_spec() by {
        lemma_elim_below_low_cols(s2, n, col, col, n, r2, c2);
    }
}

/// The induction behind the upper-triangular law: from a state whose columns
/// before the cursor are already zeroed below the diagonal, an elimination
/// run that skips no column zeroes the rest of the lower triangle.
proof fn lemma_gauss_no_skip_triangular_rec<T: IntFloat>(s: Seq<T>, n: int, col: int, sign: bool)
    requires
        s.len() == n * n,
        0 <= col <= n,
        gauss_rec(s, n, col, col, sign).3 == 0,
        forall|r2: int, c2: int|
            0 <= c2 < col && c2 < r2 < n ==> #[trigger] seq_ent(s, n, r2, c2) == T::zero_spec(),
    ensures
        forall|r2: int, c2: int|
            0 <= c2 < r2 < n ==> #[trigger] seq_ent(gauss_rec(s, n, col, col, sign).0, n, r2, c2)
                == T::zero_spec(),
    decreases n - col,
{
    if col >= n {
        assert forall|r2: int, c2: int| 0 <= c2 < r2 < n implies #[trigger] seq_ent(
            gauss_rec(s, n, col, col, sign).0,
            n,
            r2,
            c2,
        ) == T::zero_spec() by {
            assert(seq_ent(s, n, r2, c2) == T::zero_spec());
        }
    } else {
        let row = col;
        if seq_ent(s, n, col, row) == T::zero_spec() {
            let imax = pivot_scan(s, n, row, col, n);
            lemma_pivot_scan_in_range(s, n, row, col, n);
            if seq_ent(s, n, imax, row) == T::zero_spec() {
                assert(gauss_rec(s, n, col, col, sign).3 > 0);
            } else if imax != row {
                let s2 = swap_rows_seq(s, n, imax, row);
                assert forall|r2: int, c2: int| 0 <= c2 < col && c2 < r2 < n implies #[trigger] seq_ent(
                    s2,
                    n,
                    r2,
                    c2,
                ) == T::zero_spec() by {
                    lemma_swap_rows_ent(s, n, imax, row, r2, c2);
                }
                lemma_elim_step_triangular(s2, n, col);
                lemma_elim_below_upto_len(s2, n, col, col, n);
                lemma_gauss_step_triangular_tail(elim_below_upto(s2, n, col, col, n), s, n, col, sign, !sign);
            } else {
                lemma_elim_step_triangular(s, n, col);
                lemma_elim_below_upto_len(s, n, col, col, n);
                lemma_gauss_step_triangular_tail(elim_below_upto(s, n, col, col, n), s, n, col, sign, sign);
            }
        } else {
            lemma_elim_step_triangular(s, n, col);
            lemma_elim_below_upto_len(s, n, col, col, n);
            lemma_gauss_step_triangular_tail(elim_below_upto(s, n, col, col, n), s, n, col, sign, sign);
        }
    }
}

/// The tail of one induction step: the recursion on the eliminated state
/// carries the conclusion back to the original state.
proof fn lemma_gauss_step_triangular_tail<T: IntFloat>(
    s3: Seq<T>,
    s: Seq<T>,
    n: int,
    col: int,
    sign: bool,
    sign3: bool,
)
    requires
        s3.len() == n * n,
        0 <= col < n,
        gauss_rec(s, n, col, col, sign).0 == gauss_rec(s3, n, col + 1, col + 1, sign3).0,
        gauss_rec(s3, n, col + 1, col + 1, sign3).3 == 0,
        forall|r2: int, c2: int|
            0 <= c2 < col + 1 && c2 < r2 < n ==> #[trigger] seq_ent(s3, n, r2, c2)
                == T::zero_spec(),
    ensures
        forall|r2: int, c2: int|
            0 <= c2 < r2 < n ==> #[trigger] seq_ent(gauss_rec(s, n, col, col, sign).0, n, r2, c2)
                == T::zero_spec(),
    decreases n - col, 0int,
{
    lemma_gauss_no_skip_triangular_rec(s3, n, col + 1, sign3);
    assert forall|r2: int, c2: int| 0 <= c2 < r2 < n implies #[trigger] seq_ent(
        gauss_rec(s, n, col, col, sign).0,
        n,
        r2,
        c2,
    ) == T::zero_spec() by {
        assert(seq_ent(gauss_rec(s3, n, col + 1, col + 1, sign3).0, n, r2, c2) == T::zero_spec());
    }
}

/// Law: when the elimination skips no rank-deficient column, the reduced
/// matrix is upper triangular — every entry strictly below the main diagonal
/// is the zero element. (When a fully rank-deficient column is skipped,
/// entries below the diagonal in that column keep whatever value elimination
/// left them, so the law carries the no-skip requirement.)
pub proof fn lemma_elimination_upper_triangular<T: IntFloat>(s: Seq<T>, n: int)
    requires
        s.len() == n * n,
        0 <= n,
        gauss_rec(s, n, 0, 0, true).3 == 0,
    ensures
        forall|r2: int, c2: int|
            0 <= c2 < r2 < n ==> #[trigger] seq_ent(gauss_rec(s, n, 0, 0, true).0, n, r2, c2)
                == T::zero_spec(),
{
    lemma_gauss_no_skip_triangular_rec(s, n, 0, true);
}

/// Whether the flat sequence `s` is the `n x n` identity matrix: the
/// multiplicative identity on the diagonal, the additive identity elsewhere.
pub open spec fn is_identity_seq<T: IntFloat>(s: Seq<T>, n: int) -> bool {
    &&& s.len() == n * n
    &&& forall|r: int, c: int|
        0 <= r < n && 0 <= c < n ==> #[trigger] seq_ent(s, n, r, c) == (if r == c {
            T::one_spec()
        } else {
            T::zero_spec()
        })
}

/// The arithmetic facts about the two identity elements that the identity
/// law rests on; they hold of any exact field and of IEEE floating point.
pub open spec fn identity_arith_facts<T: IntFloat>() -> bool {
    &&& T::one_spec() != T::zero_spec()
    &&& T::zero_spec().div_spec(T::one_spec()) == T::zero_spec()
    &&& T::zero_spec().mul_spec(T::zero_spec()) == T::zero_spec()
    &&& T::zero_spec().sub_spec(T::zero_spec()) == T::zero_spec()
    &&& T::one_spec().sub_spec(T::zero_spec()) == T::one_spec()
    &&& T::one_spec().mul_spec(T::one_spec()) == T::one_spec()
}

/// Eliminating one row of the identity matrix against a diagonal pivot of
/// one changes nothing: the factor is zero over one, and subtracting a
/// multiple by it leaves every entry as it was.
proof fn lemma_elim_row_identity<T: IntFloat>(s: Seq<T>, n: int, col: int, i: int)
    requires
        is_identity_seq(s, n),
        identity_arith_facts::<T>(),
        0 <= col < n,
        col < i < n,
    ensures
        elim_row_seq(s, n, col, col, i) == s,
{
    assert forall|m: int| 0 <= m < s.len() implies elim_row_seq(s, n, col, col, i)[m]
        == s[m] by {
        lemma_flat_index_in_range(n, i, col);
        if m == i * n + col {
            assert(s[m] == seq_ent(s, n, i, col));
        } else if i * n + col < m < i * n + n {
            let c = m - i * n;
            lemma_flat_index_in_range(n, col, c);
            assert(s[m] == seq_ent(s, n, i, c));
            assert(s[m - i * n + col * n] == seq_ent(s, n, col, c));
        }
    }
    assert(elim_row_seq(s, n, col, col, i) =~= s);
}

/// Eliminating every row below a diagonal pivot of one in the identity
/// matrix changes nothing.
proof fn lemma_elim_below_identity<T: IntFloat>(s: Seq<T>, n: int, col: int, hi: int)
    requires
        is_identity_seq(s, n),
        identity_arith_facts::<T>(),
        0 <= col < n,
        col + 1 <= hi <= n,
    ensures
        elim_below_upto(s, n, col, col, hi) == s,
    decreases hi - col,
{
    if hi <= col + 1 {
    } else {
        lemma_elim_below_identity(s, n, col, hi - 1);
        lemma_elim_row_identity(s, n, col, hi - 1);
    }
}

/// The induction behind the identity law: from any cursor position on the
/// diagonal, elimination leaves the identity matrix unchanged, performs no
/// row interchange and skips no column.
proof fn lemma_gauss_identity_rec<T: IntFloat>(s: Seq<T>, n: int, col: int, sign: bool)
    requires
        is_identity_seq(s, n),
        identity_arith_facts::<T>(),
        0 <= col <= n,
    ensures
        gauss_rec(s, n, col, col, sign) == (s, sign, 0nat, 0nat),
    decreases n - col,
{
    if col >= n {
    } else {
        assert(seq_ent(s, n, col, col) == T::one_spec());
        lemma_elim_below_identity(s, n, col, n);
        lemma_gauss_identity_rec(s, n, col + 1, sign);
    }
}

/// The product along the identity matrix's diagonal is the multiplicative
/// identity.
proof fn lemma_diag_prod_identity<T: IntFloat>(s: Seq<T>, n: int, cnt: int)
    requires
        is_identity_seq(s, n),
        identity_arith_facts::<T>(),
        1 <= cnt <= n,
    ensures
        diag_prod(s, n, cnt) == T::one_spec(),
    decreases cnt,
{
    if cnt <= 1 {
        assert(seq_ent(s, n, 0, 0) == T::one_spec());
    } else {
        lemma_diag_prod_identity(s, n, cnt - 1);
        assert(seq_ent(s, n, cnt - 1, cnt - 1) == T::one_spec());
    }
}

/// Law: over a scalar whose identity elements satisfy `identity_arith_facts`
/// (as those of any exact field and of IEEE floating point do), Gaussian
/// elimination leaves the identity matrix unchanged with an even number of
/// row interchanges, and the diagonal product of the result — hence the
/// Gaussian determinant of the identity matrix — is the multiplicative
/// identity, one.
pub proof fn lemma_gaussian_determinant_identity<T: IntFloat>(s: Seq<T>, n: int)
    requires
        is_identity_seq(s, n),
        identity_arith_facts::<T>(),
        1 <= n,
    ensures
        gauss_rec(s, n, 0, 0, true).0 == s,
        gauss_rec(s, n, 0, 0, true).1 == true,
        diag_prod(gauss_rec(s, n, 0, 0, true).0, n, n) == T::one_spec(),
{
    lemma_gauss_identity_rec(s, n, 0, true);
    lemma_diag_prod_identity(s, n, n);
}

/// Law: the sign flag flips exactly once per row interchange — from any
/// starting flag, the final flag equals the starting flag exactly when the
/// number of row interchanges performed is even.
pub proof fn lemma_sign_tracks_swaps<T: IntFloat>(s: Seq<T>, n: int, col: int, row: int, sign: bool)
    ensures
        gauss_rec(s, n, col, row, sign).1 == (sign == (gauss_rec(s, n, col, row, sign).2 % 2
            == 0)),
    decreases n - col,
{
    if col >= n || row >= n {
    } else if seq_ent(s, n, col, row) == T::zero_spec() {
        let imax = pivot_scan(s, n, row, col, n);
        if seq_ent(s, n, imax, row) == T::zero_spec() {
            lemma_sign_tracks_swaps(s, n, col + 1, row, sign);
        } else if imax != row {
            lemma_sign_tracks_swaps(
                elim_below_upto(swap_rows_seq(s, n, imax, row), n, row, col, n),
                n,
                col + 1,
                row + 1,
                !sign,
            );
        } else {
            lemma_sign_tracks_swaps(elim_below_upto(s, n, row, col, n), n, col + 1, row + 1, sign);
        }
    } else {
        lemma_sign_tracks_swaps(elim_below_upto(s, n, row, col, n), n, col + 1, row + 1, sign);
    }
}

impl<T: IntFloat> Matrix<T> {
    /// Row-reduces an internally created deep copy to upper-triangular form
    /// by Gaussian elimination with partial pivoting, leaving the source
    /// untouched. Returns the sign flag — `true` when an even number of row
    /// interchanges occurred — together with the reduced matrix, or
    /// `NonSquareMatrix` for non-square input.
    #[verifier::loop_isolation(false)]
    pub fn gaussian_elimination(&self) -> (r: Result<(bool, Matrix<T>), MatrixError>)
        requires
            self.wf(),
        ensures
            !self.is_square() ==> r == Err::<(bool, Matrix<T>), MatrixError>(
                MatrixError::NonSquareMatrix,
            ),
            self.is_square() ==> {
                let g = gauss_rec(self.spec_data(), self.spec_rows(), 0, 0, true);
                &&& r is Ok
                &&& r->Ok_0.0 == g.1
                &&& r->Ok_0.1.wf()
                &&& r->Ok_0.1.is_square()
                &&& r->Ok_0.1.spec_rows() == self.spec_rows()
                &&& r->Ok_0.1.spec_cols() == self.spec_cols()
                &&& r->Ok_0.1.spec_data() == g.0
            },
    {
        if self.rows() != self.cols() {
            return Err(MatrixError::NonSquareMatrix);
        }
        let n = self.rows();
        let ghost ni = n as int;
        let ghost g = gauss_rec(self.spec_data(), ni, 0, 0, true);
        let mut a = self.deep_copy();
        let mut sign: bool = true;
        let mut col: usize = 0;
        let mut row: usize = 0;
        while col < n && row < n
            invariant
                a.wf(),
                a.is_square(),
                a.spec_rows() == ni,
                a.spec_cols() == ni,
                col <= n,
                row <= n,
                gauss_rec(a.spec_data(), ni, col as int, row as int, sign).0 == g.0,
                gauss_rec(a.spec_data(), ni, col as int, row as int, sign).1 == g.1,
            decreases n - col,
        {
            let ghost s0 = a.spec_data();
            let pivot = a.get(col, row);
            if pivot.is_zero_val() {
                let mut best: usize = col;
                let mut best_val: T = pivot;
                let mut idx: usize = col + 1;
                while idx < n
                    invariant
                        col <= best < idx,
                        idx <= n,
                        best == pivot_scan(s0, ni, row as int, col as int, idx as int),
                        best_val == seq_ent(s0, ni, best as int, row as int),
                    decreases n - idx,
                {
                    let cand = a.get(idx, row);
                    if !best_val.abs_ge(cand) {
                        best = idx;
                        best_val = cand;
                    }
                    idx += 1;
                }
                if best_val.is_zero_val() {
                    // the whole column is rank deficient for this step:
                    // advance the column cursor only and retry
                    col += 1;
                    continue;
                }
                if best != row {
                    a.swap_rows(best, row);
                    sign = !sign;
                }
            }
            let ghost s1 = a.spec_data();
            let mut i: usize = row + 1;
            while i < n
                invariant
                    row < i <= n,
                    a.wf(),
                    a.is_square(),
                    a.spec_rows() == ni,
                    a.spec_cols() == ni,
                    a.spec_data() == elim_below_upto(s1, ni, row as int, col as int, i as int),
                decreases n - i,
            {
                let ghost si = a.spec_data();
                let factor = a.get(i, col).div_val(a.get(row, col));
                let ghost factor_spec = seq_ent(si, ni, i as int, col as int).div_spec(
                    seq_ent(si, ni, row as int, col as int),
                );
                a.set(i, col, T::zero_val());
                proof {
                    lemma_flat_index_in_range(ni, i as int, col as int);
                    lemma_distinct_rows_disjoint(ni, row as int, col as int, i as int);
                }
                let mut j: usize = col + 1;
                while j < n
                    invariant
                        col < j <= n,
                        a.wf(),
                        a.is_square(),
                        a.spec_rows() == ni,
                        a.spec_cols() == ni,
                        a.spec_data().len() == si.len(),
                        forall|m: int|
                            0 <= m < si.len() ==> #[trigger] a.spec_data()[m] == (if m == i as int
                                * ni + col {
                                T::zero_spec()
                            } else if i as int * ni + col < m < i as int * ni + j {
                                si[m].sub_spec(
                                    si[m - i as int * ni + row as int * ni].mul_spec(factor_spec),
                                )
                            } else {
                                si[m]
                            }),
                    decreases n - j,
                {
                    proof {
                        lemma_flat_index_in_range(ni, i as int, j as int);
                        lemma_flat_index_in_range(ni, row as int, j as int);
                        lemma_distinct_rows_disjoint(ni, row as int, j as int, i as int);
                    }
                    let upd = a.get(i, j).sub_val(a.get(row, j).mul_val(factor));
                    a.set(i, j, upd);
                    j += 1;
                }
                proof {
                    assert(a.spec_data() =~= elim_row_seq(si, ni, row as int, col as int, i as int));
                }
                i += 1;
            }
            col += 1;
            row += 1;
        }
        Ok((sign, a))
    }

    /// Runs the pivoted elimination, then computes the determinant as the
    /// product of the diagonal entries of the upper-triangular result,
    /// negated when an odd number of row interchanges occurred. Returns the
    /// reduced matrix together with the determinant, or `EmptyMatrix` /
    /// `NonSquareMatrix` for input without entries or with unequal
    /// dimensions.
    #[verifier::loop_isolation(false)]
    pub fn gaussian_determinant(&self) -> (r: Result<(Matrix<T>, T), MatrixError>)
        requires
            self.wf(),
        ensures
            (self.spec_rows() == 0 || self.spec_cols() == 0) ==> r == Err::<
                (Matrix<T>, T),
                MatrixError,
            >(MatrixError::EmptyMatrix),
            (self.spec_rows() > 0 && self.spec_cols() > 0 && !self.is_square()) ==> r == Err::<
                (Matrix<T>, T),
                MatrixError,
            >(MatrixError::NonSquareMatrix),
            (self.spec_rows() > 0 && self.is_square()) ==> {
                let g = gauss_rec(self.spec_data(), self.spec_rows(), 0, 0, true);
                let base = diag_prod(g.0, self.spec_rows(), self.spec_rows());
                &&& r is Ok
                &&& r->Ok_0.0.wf()
                &&& r->Ok_0.0.is_square()
                &&& r->Ok_0.0.spec_rows() == self.spec_rows()
                &&& r->Ok_0.0.spec_cols() == self.spec_cols()
                &&& r->Ok_0.0.spec_data() == g.0
                &&& r->Ok_0.1 == (if g.1 {
                    base
                } else {
                    base.neg_spec()
                })
            },
    {
        if self.rows() == 0 || self.cols() == 0 {
            return Err(MatrixError::EmptyMatrix);
        }
        let (sign, u) = match self.gaussian_elimination() {
            Ok(p) => p,
            Err(e) => {
                return Err(e);
            },
        };
        let n = self.rows();
        let mut base = u.get(0, 0);
        let mut i: usize = 1;
        while i < n
            invariant
                1 <= i <= n,
                base == diag_prod(u.spec_data(), n as int, i as int),
            decreases n - i,
        {
            base = base.mul_val(u.get(i, i));
            i += 1;
        }
        if sign {
            Ok((u, base))
        } else {
            Ok((u, base.neg_val()))
        }
    }
}

} // verus!
