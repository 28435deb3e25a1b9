use linalg::IntFloat;
use linalg::LinalgScalar;
use linalg::Matrix;
use linalg::MatrixError;

/// A double-precision scalar for exercising the library.
#[derive(Clone, Copy, Debug, PartialEq)]
struct F(f64);

impl LinalgScalar for F {
    fn add_spec(self, rhs: F) -> F {
        F(self.0 + rhs.0)
    }

    fn sub_spec(self, rhs: F) -> F {
        F(self.0 - rhs.0)
    }

    fn mul_spec(self, rhs: F) -> F {
        F(self.0 * rhs.0)
    }

    fn div_spec(self, rhs: F) -> F {
        F(self.0 / rhs.0)
    }

    fn zero_spec() -> F {
        F(0.0)
    }

    fn one_spec() -> F {
        F(1.0)
    }

    fn add_val(self, rhs: F) -> F {
        F(self.0 + rhs.0)
    }

    fn sub_val(self, rhs: F) -> F {
        F(self.0 - rhs.0)
    }

    fn mul_val(self, rhs: F) -> F {
        F(self.0 * rhs.0)
    }

    fn div_val(self, rhs: F) -> F {
        F(self.0 / rhs.0)
    }

    fn zero_val() -> F {
        F(0.0)
    }

    fn one_val() -> F {
        F(1.0)
    }

    fn is_zero_val(self) -> bool {
        self.0 == 0.0
    }
}

impl IntFloat for F {
    fn neg_spec(self) -> F {
        F(-self.0)
    }

    fn abs_ge_spec(self, rhs: F) -> bool {
        self.0.abs() >= rhs.0.abs()
    }

    fn neg_val(self) -> F {
        F(-self.0)
    }

    fn abs_ge(self, rhs: F) -> bool {
        self.0.abs() >= rhs.0.abs()
    }
}

fn mat(rows: usize, cols: usize, vals: &[f64]) -> Matrix<F> {
    let data: Vec<F> = vals.iter().map(|v| F(*v)).collect();
    Matrix::new(rows, cols, data).unwrap()
}

#[test]
fn test_nonzero_laplace_determinant() {
    assert_eq!(
        mat(3, 3, &[1., 2., 2., 2., 0., -1., -2., 1., 3.]).laplace_determinant(),
        Ok(F(-3.))
    )
}

#[test]
fn test_zero_laplace_determinant() {
    assert_eq!(
        mat(3, 3, &[1., 2., 3., 4., 5., 6., 7., 8., 9.]).laplace_determinant(),
        Ok(F(0.))
    )
}

#[test]
fn test_nonzero_gausian_elimination_determinant() {
    let res = mat(
        4,
        4,
        &[1., 3., 5., 9., 1., 3., 1., 7., 4., 3., 9., 7., 5., 2., 0., 9.],
    )
    .gaussian_determinant()
    .unwrap();
    assert_eq!(res.1, F(-376.));
    assert_eq!(
        res.0,
        mat(
            4,
            4,
            &[
                1.,
                3.,
                5.,
                9.,
                0.,
                -13.,
                -25.,
                -36.,
                0.,
                0.,
                6.307692307692307,
                -4.076923076923077,
                0.,
                0.,
                0.,
                -4.585365853658537
            ],
        )
    );
}

#[test]
fn test_swap_rows_twice_restores() {
    let source = mat(3, 3, &[1., 2., 3., 4., 5., 6., 7., 8., 9.]);
    let mut m = source.deep_copy();
    m.swap_rows(0, 2);
    assert_ne!(m, source);
    m.swap_rows(0, 2);
    assert_eq!(m, source);
    m.swap_rows(1, 1);
    assert_eq!(m, source);
}

#[test]
fn test_deep_copy_equal_and_independent() {
    let source = mat(2, 2, &[1., 2., 3., 4.]);
    let mut copy = source.deep_copy();
    assert_eq!(copy, source);
    copy.swap_rows(0, 1);
    assert_ne!(copy, source);
    assert_eq!(source, mat(2, 2, &[1., 2., 3., 4.]));
}

#[test]
fn test_elimination_upper_triangular() {
    let m = mat(
        4,
        4,
        &[2., 1., -1., 3., -4., 6., 3., 1., -2., 7., 2., 5., 8., -1., 0., 2.],
    );
    let (_, u) = m.gaussian_elimination().unwrap();
    for r in 0..4 {
        let row = u.row(r).unwrap();
        for c in 0..r {
            assert_eq!(row[c], F(0.));
        }
    }
}

#[test]
fn test_gaussian_determinant_identity() {
    for n in 1..=5 {
        let mut vals = vec![0.; n * n];
        for d in 0..n {
            vals[d * n + d] = 1.;
        }
        let (_, det) = mat(n, n, &vals).gaussian_determinant().unwrap();
        assert_eq!(det, F(1.));
    }
}

#[test]
fn test_sign_flips_once_per_swap() {
    // one row interchange: the sign flag flips and the determinant is the
    // negated diagonal product
    let m = mat(2, 2, &[0., 1., 1., 0.]);
    let (sign_positive, u) = m.gaussian_elimination().unwrap();
    assert!(!sign_positive);
    let (_, det) = m.gaussian_determinant().unwrap();
    assert_eq!(u.row(0).unwrap(), vec![F(1.), F(0.)]);
    assert_eq!(u.row(1).unwrap(), vec![F(0.), F(1.)]);
    assert_eq!(det, F(-1.));
    // no interchange: the sign flag stays positive
    let (sign_positive, _) = mat(2, 2, &[2., 0., 0., 3.]).gaussian_elimination().unwrap();
    assert!(sign_positive);
}

#[test]
fn test_rank_deficient_column_gives_zero_determinant() {
    // the first column is entirely zero: elimination skips it and the
    // determinant is zero
    let (_, det) = mat(2, 2, &[0., 0., 0., 1.]).gaussian_determinant().unwrap();
    assert_eq!(det, F(0.));
}

#[test]
fn test_laplace_matches_gaussian_for_3x3() {
    for vals in [
        [1., 2., 2., 2., 0., -1., -2., 1., 3.],
        [1., 2., 3., 4., 5., 6., 7., 8., 9.],
        [3., -1., 4., 1., 5., -9., 2., 6., 5.],
    ] {
        let m = mat(3, 3, &vals);
        let laplace = m.laplace_determinant().unwrap();
        let (_, gaussian) = m.gaussian_determinant().unwrap();
        assert!((laplace.0 - gaussian.0).abs() < 1e-9);
    }
}

#[test]
fn test_laplace_one_by_one_is_zero() {
    // for n = 1 the forward and backward diagonal products coincide, so the
    // diagonal-expansion formula yields zero whatever the entry; the Gaussian
    // determinant is the entry itself
    let m = mat(1, 1, &[7.]);
    assert_eq!(m.laplace_determinant(), Ok(F(0.)));
    let (_, det) = m.gaussian_determinant().unwrap();
    assert_eq!(det, F(7.));
}

#[test]
fn test_empty_matrix_rejected() {
    let empty = mat(0, 0, &[]);
    assert_eq!(empty.laplace_determinant(), Err(MatrixError::EmptyMatrix));
    assert_eq!(empty.gaussian_determinant(), Err(MatrixError::EmptyMatrix));
    let no_cols = mat(2, 0, &[]);
    assert_eq!(no_cols.laplace_determinant(), Err(MatrixError::EmptyMatrix));
    assert_eq!(no_cols.gaussian_determinant(), Err(MatrixError::EmptyMatrix));
}

#[test]
fn test_non_square_matrix_rejected() {
    let m = mat(2, 3, &[1., 2., 3., 4., 5., 6.]);
    assert_eq!(m.laplace_determinant(), Err(MatrixError::NonSquareMatrix));
    assert_eq!(m.gaussian_determinant(), Err(MatrixError::NonSquareMatrix));
    assert_eq!(m.gaussian_elimination(), Err(MatrixError::NonSquareMatrix));
    assert_eq!(m.row(0), Err(MatrixError::NonSquareMatrix));
}

#[test]
fn test_row_access() {
    let m = mat(3, 3, &[1., 2., 3., 4., 5., 6., 7., 8., 9.]);
    assert_eq!(m.row(1).unwrap(), vec![F(4.), F(5.), F(6.)]);
    assert_eq!(m.row(3), Err(MatrixError::IndexOutOfRange));
}

#[test]
fn test_eigen_entry_points() {
    let m = mat(2, 2, &[1., 2., 3., 4.]);
    assert_eq!(m.eigenvectors(), Err(MatrixError::NotImplemented));
    assert_eq!(m.eigenvalues(), Err(MatrixError::NotImplemented));
}

#[test]
fn test_new_checks_length() {
    assert!(Matrix::<F>::new(2, 2, vec![F(1.), F(2.), F(3.)]).is_none());
    let m = Matrix::<F>::new(2, 3, vec![F(0.); 6]).unwrap();
    assert_eq!(m.rows(), 2);
    assert_eq!(m.cols(), 3);
}
