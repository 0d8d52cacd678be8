use vstd::prelude::*;

verus! {

/// Every failure a matrix operation can report. All failures are returned to
/// the immediate caller as values; nothing here aborts the process.
#[derive(Clone, Copy, Debug, PartialEq, Eq, Structural)]
pub enum MatrixError {
    /// A row index, column index or index range lies outside the shape of the
    /// matrix it is applied to.
    IndexOutOfBounds,
    /// The shapes of the operands are incompatible for the requested
    /// operation.
    DimensionMismatch,
    /// An entry used as a divisor is zero, under the explicit-failure policy
    /// for elementwise division.
    DivisionByZero,
    /// An iterative algorithm exceeded its iteration cap before meeting its
    /// convergence criterion.
    NonConvergence,
}

} // verus!
