use vstd::prelude::*;

verus! {

/// The ways an operation of this library can fail.
#[derive(Debug, Clone, Copy, PartialEq, Eq, Structural)]
pub enum Error {
    /// A write past the end of a vector.
    IndexOutOfBounds,
    /// Two vectors of different lengths, or an empty pair where data is needed.
    VectorDimensionMismatch,
    /// A write outside a matrix's rows or columns.
    MatrixIndexOutOfBounds,
    /// Two matrices, or a matrix and a vector, whose shapes do not fit.
    MatDimensionMismatch,
    /// Too little data for a statistic or a loss, or a probability that is not positive.
    InsufficientData,
}

} // verus!
