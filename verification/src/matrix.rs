use crate::scalar::IntFloat;
use vstd::pervasive::VecAdditionalExecFns;
use vstd::prelude::*;

verus! {

/// The failures the public matrix operations report.
#[derive(Clone, Copy, Debug, PartialEq, Eq)]
pub enum MatrixError {
    /// A determinant was asked of a matrix with no rows or no columns.
    EmptyMatrix,
    /// An operation that assumes a square matrix was given a non-square one.
    NonSquareMatrix,
    /// A row or column index outside `[0, rows)` / `[0, cols)`.
    IndexOutOfRange,
    /// The operation is a declared capability with no implementation yet.
    NotImplemented,
}

/// A dense matrix stored flat in row-major order with row-stride indexing.
///
/// The entry at row `r`, column `c` lives at `data[r * rows + c]`: the stride
/// is the row count, which is only consistent for square matrices, so every
/// indexing, elimination and determinant operation requires `rows == cols`
/// and rejects non-square input explicitly.
#[derive(Debug, PartialEq, Eq)]
pub struct Matrix<T: IntFloat> {
    rows: usize,
    cols: usize,
    data: Vec<T>,
}

/// The entry of the flat sequence `s` at row `r`, column `c`, under row
/// stride `n`.
pub open spec fn seq_ent<T>(s: Seq<T>, n: int, r: int, c: int) -> T {
    s[r * n + c]
}

/// The value at flat position `m` after rows `i` and `j` (of length `n`,
/// stride `n`) exchange their entries.
pub open spec fn swap_rows_val<T>(s: Seq<T>, n: int, i: int, j: int, m: int) -> T {
    if i * n <= m < i * n + n {
        s[m - i * n + j * n]
    } else if j * n <= m < j * n + n {
        s[m - j * n + i * n]
    } else {
        s[m]
    }
}

/// The flat sequence `s` with rows `i` and `j` exchanged.
pub open spec fn swap_rows_seq<T>(s: Seq<T>, n: int, i: int, j: int) -> Seq<T> {
    Seq::new(s.len(), |m: int| swap_rows_val(s, n, i, j, m))
}

/// A flat position `r * n + c` with `c` a valid column lies inside row `r`'s
/// range and inside the matrix.
pub proof fn lemma_flat_index_in_range(n: int, r: int, c: int)
    requires
        0 <= r < n,
        0 <= c < n,
    ensures
        0 <= r * n,
        r * n + c < n * n,
        r * n <= r * n + c < r * n + n,
{
    assert(0 <= r * n && r * n + c < n * n && r * n + c < r * n + n) by (nonlinear_arith)
        requires
            0 <= r < n,
            0 <= c < n,
    ;
}

/// Distinct rows occupy disjoint flat ranges: a position inside row `r`'s
/// range lies inside row `i`'s range only when `r == i`.
pub proof fn lemma_distinct_rows_disjoint(n: int, r: int, c: int, i: int)
    requires
        0 <= r,
        0 <= i,
        r != i,
        0 <= c < n,
    ensures
        !(i * n <= r * n + c < i * n + n),
{
    assert(!(i * n <= r * n + c < i * n + n)) by (nonlinear_arith)
        requires
            0 <= r,
            0 <= i,
            r != i,
            0 <= c < n,
    ;
}

/// Law: exchanging the same two rows twice restores the flat storage
/// exactly. Composed with `swap_rows`'s contract, `swap_rows(i, j)` applied
/// twice returns the original matrix, entry for entry.
pub proof fn lemma_swap_rows_involutive<T>(s: Seq<T>, n: int, i: int, j: int)
    requires
        s.len() == n * n,
        0 <= i < n,
        0 <= j < n,
    ensures
        swap_rows_seq(swap_rows_seq(s, n, i, j), n, i, j) == s,
{
    let s1 = swap_rows_seq(s, n, i, j);
    assert forall|m: int| 0 <= m < s.len() implies swap_rows_seq(s1, n, i, j)[m] == s[m] by {
        if i * n <= m < i * n + n {
            let c = m - i * n;
            lemma_flat_index_in_range(n, i, c);
            lemma_flat_index_in_range(n, j, c);
            if i != j {
                lemma_distinct_rows_disjoint(n, j, c, i);
            }
        } else if j * n <= m < j * n + n {
            let c = m - j * n;
            lemma_flat_index_in_range(n, i, c);
            lemma_flat_index_in_range(n, j, c);
            if i != j {
                lemma_distinct_rows_disjoint(n, i, c, j);
            }
        }
    }
    assert(swap_rows_seq(swap_rows_seq(s, n, i, j), n, i, j) =~= s);
}

impl<T: IntFloat> Matrix<T> {
    /// The number of rows.
    pub closed spec fn spec_rows(self) -> int {
        self.rows as int
    }

    /// The number of columns.
    pub closed spec fn spec_cols(self) -> int {
        self.cols as int
    }

    /// The flat row-major storage.
    pub closed spec fn spec_data(self) -> Seq<T> {
        self.data@
    }

    /// The storage invariant: the flat storage holds exactly one entry per
    /// row/column position.
    pub open spec fn wf(self) -> bool {
        self.spec_data().len() == self.spec_rows() * self.spec_cols()
    }

    /// Whether the matrix is square, which all indexing and determinant
    /// operations require.
    pub open spec fn is_square(self) -> bool {
        self.spec_rows() == self.spec_cols()
    }

    /// The entry at row `r`, column `c`.
    pub open spec fn ent(self, r: int, c: int) -> T {
        seq_ent(self.spec_data(), self.spec_rows(), r, c)
    }

    /// Builds a matrix over caller-supplied storage, checking that the
    /// storage length matches the dimensions.
    pub fn new(rows: usize, cols: usize, data: Vec<T>) -> (r: Option<Matrix<T>>)
        ensures
            r is Some <==> data@.len() == rows * cols,
            r is Some ==> {
                let m = r->0;
                &&& m.wf()
                &&& m.spec_rows() == rows
                &&& m.spec_cols() == cols
                &&& m.spec_data() == data@
            },
    {
        let len = data.len();
        match rows.checked_mul(cols) {
            Some(p) => if len == p {
                Some(Matrix { rows, cols, data })
            } else {
                None
            },
            None => None,
        }
    }

    /// The number of rows.
    pub fn rows(&self) -> (r: usize)
        ensures
            r == self.spec_rows(),
    {
        self.rows
    }

    /// The number of columns.
    pub fn cols(&self) -> (r: usize)
        ensures
            r == self.spec_cols(),
    {
        self.cols
    }

    /// The length of the flat storage, as a machine word.
    pub(crate) fn data_len(&self) -> (l: usize)
        ensures
            l == self.spec_data().len(),
    {
        self.data.len()
    }

    /// Reads the entry at row `r`, column `c`.
    pub(crate) fn get(&self, r: usize, c: usize) -> (v: T)
        requires
            self.wf(),
            self.is_square(),
            r < self.spec_rows(),
            c < self.spec_cols(),
        ensures
            v == self.ent(r as int, c as int),
    {
        proof {
            lemma_flat_index_in_range(self.spec_rows(), r as int, c as int);
        }
        // reading the length shows the flat index fits in a machine word
        let len = self.data.len();
        self.data[r * self.rows + c]
    }

    /// Writes the entry at row `r`, column `c`.
    pub(crate) fn set(&mut self, r: usize, c: usize, v: T)
        requires
            old(self).wf(),
            old(self).is_square(),
            r < old(self).spec_rows(),
            c < old(self).spec_cols(),
        ensures
            final(self).wf(),
            final(self).is_square(),
            final(self).spec_rows() == old(self).spec_rows(),
            final(self).spec_cols() == old(self).spec_cols(),
            final(self).spec_data() == old(self).spec_data().update(
                r * old(self).spec_rows() + c,
                v,
            ),
    {
        proof {
            lemma_flat_index_in_range(self.spec_rows(), r as int, c as int);
        }
        // reading the length shows the flat index fits in a machine word
        let len = self.data.len();
        self.data.set(r * self.rows + c, v);
    }

    /// Returns a copy of row `i`: the sub-range of the storage of length
    /// `cols` starting at `i * rows`. Requires a square matrix (the stride is
    /// the row count) and rejects an out-of-range `i`.
    pub fn row(&self, i: usize) -> (r: Result<Vec<T>, MatrixError>)
        requires
            self.wf(),
        ensures
            !self.is_square() ==> r == Err::<Vec<T>, MatrixError>(MatrixError::NonSquareMatrix),
            self.is_square() && i >= self.spec_rows() ==> r == Err::<Vec<T>, MatrixError>(
                MatrixError::IndexOutOfRange,
            ),
            self.is_square() && i < self.spec_rows() ==> {
                &&& r is Ok
                &&& r->Ok_0@.len() == self.spec_cols()
                &&& forall|c: int|
                    0 <= c < self.spec_cols() ==> r->Ok_0@[c] == self.ent(i as int, c)
            },
    {
        if self.rows != self.cols {
            return Err(MatrixError::NonSquareMatrix);
        }
        if i >= self.rows {
            return Err(MatrixError::IndexOutOfRange);
        }
        let mut out: Vec<T> = Vec::new();
        let mut c: usize = 0;
        while c < self.cols
            invariant
                c <= self.spec_cols(),
                out@.len() == c,
                forall|k: int| 0 <= k < c ==> out@[k] == self.ent(i as int, k),
                self.wf(),
                self.is_square(),
                i < self.spec_rows(),
            decreases self.spec_cols() - c,
        {
            out.push(self.get(i, c));
            c += 1;
        }
        Ok(out)
    }

    /// Exchanges, for each column `k`, the entries at row `i` column `k` and
    /// row `j` column `k`, in place. Applied twice it restores the matrix.
    pub fn swap_rows(&mut self, i: usize, j: usize)
        requires
            old(self).wf(),
            old(self).is_square(),
            i < old(self).spec_rows(),
            j < old(self).spec_rows(),
        ensures
            final(self).wf(),
            final(self).is_square(),
            final(self).spec_rows() == old(self).spec_rows(),
            final(self).spec_cols() == old(self).spec_cols(),
            final(self).spec_data() == swap_rows_seq(
                old(self).spec_data(),
                old(self).spec_rows(),
                i as int,
                j as int,
            ),
    {
        let ghost s0 = self.spec_data();
        let ghost n = self.spec_rows();
        let mut k: usize = 0;
        while k < self.cols
            invariant
                old(self).wf(),
                old(self).is_square(),
                i < n,
                j < n,
                n == old(self).spec_rows(),
                s0 == old(self).spec_data(),
                k <= n,
                self.wf(),
                self.is_square(),
                self.spec_rows() == n,
                self.spec_cols() == n,
                self.spec_data().len() == s0.len(),
                forall|m: int|
                    0 <= m < s0.len() ==> #[trigger] self.spec_data()[m] == (if i * n <= m < i
                        * n + k {
                        s0[m - i * n + j * n]
                    } else if j * n <= m < j * n + k {
                        s0[m - j * n + i * n]
                    } else {
                        s0[m]
                    }),
            decreases n - k,
        {
            proof {
                lemma_flat_index_in_range(n, i as int, k as int);
                lemma_flat_index_in_range(n, j as int, k as int);
                if i != j {
                    lemma_distinct_rows_disjoint(n, i as int, k as int, j as int);
                    lemma_distinct_rows_disjoint(n, j as int, k as int, i as int);
                }
            }
            let a = self.get(i, k);
            let b = self.get(j, k);
            self.set(i, k, b);
            self.set(j, k, a);
            k += 1;
        }
        proof {
            assert forall|m: int| 0 <= m < s0.len() implies self.spec_data()[m] == swap_rows_val(
                s0,
                n,
                i as int,
                j as int,
                m,
            ) by {}
            assert(self.spec_data() =~= swap_rows_seq(s0, n, i as int, j as int));
        }
    }

    /// Declared eigen-decomposition entry point with no implementation yet:
    /// it reports that explicitly rather than being silently absent, so that
    /// callers can detect the gap.
    pub fn eigenvectors(&self) -> (r: Result<Matrix<T>, MatrixError>)
        ensures
            r == Err::<Matrix<T>, MatrixError>(MatrixError::NotImplemented),
    {
        Err(MatrixError::NotImplemented)
    }

    /// Declared eigen-decomposition entry point with no implementation yet:
    /// it reports that explicitly rather than being silently absent, so that
    /// callers can detect the gap.
    pub fn eigenvalues(&self) -> (r: Result<Vec<T>, MatrixError>)
        ensures
            r == Err::<Vec<T>, MatrixError>(MatrixError::NotImplemented),
    {
        Err(MatrixError::NotImplemented)
    }

    /// Returns a new matrix with identical dimensions and an independently
    /// owned copy of the storage; mutating the copy never affects the source.
    pub fn deep_copy(&self) -> (r: Matrix<T>)
        requires
            self.wf(),
        ensures
            r.wf(),
            r.spec_rows() == self.spec_rows(),
            r.spec_cols() == self.spec_cols(),
            r.spec_data() == self.spec_data(),
    {
        let mut d: Vec<T> = Vec::new();
        let mut k: usize = 0;
        while k < self.data.len()
            invariant
                k <= self.spec_data().len(),
                d@.len() == k,
                forall|m: int| 0 <= m < k ==> d@[m] == self.spec_data()[m],
            decreases self.spec_data().len() - k,
        {
            d.push(self.data[k]);
            k += 1;
        }
        proof {
            assert(d@ =~= self.spec_data());
        }
        Matrix { rows: self.rows, cols: self.cols, data: d }
    }
}

} // verus!
