//! A small generic dense-matrix library whose core is computing a matrix
//! determinant two ways: a cyclic diagonal-expansion formula (a generalized
//! Sarrus rule, exact only for 3 x 3 matrices) and Gaussian elimination with
//! partial pivoting that tracks the accumulated row-swap sign.
//!
//! Matrices are stored flat with row-stride indexing; all indexing and all
//! determinant operations require a square matrix, and non-square or empty
//! input is rejected explicitly.

pub mod gauss;
pub mod laplace;
pub mod matrix;
pub mod scalar;

pub use matrix::Matrix;
pub use matrix::MatrixError;
pub use scalar::IntFloat;
pub use scalar::LinalgScalar;
