//! A dense-matrix core: a capability contract for rectangular matrices, a
//! row-major backing store that satisfies it, and a restartable row iterator.
//!
//! The contract (`matrix::Matrix`) fixes a mathematical view of every matrix
//! as a sequence of rows; the backing store (`dense::DenseMatrix`) proves its
//! structural operations — construction, element access, transposition,
//! stacking, slicing, reshaping and row-vector conversion — against that view.
//! Floating-point arithmetic (elementwise kernels, norms and the QR/EVD/SVD
//! engines) is left to backends built on top of these primitives.

pub mod dense;
pub mod error;
pub mod iter;
pub mod matrix;
