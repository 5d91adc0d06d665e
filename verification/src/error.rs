//! The ways in which an operation of the simulator can be rejected.

use vstd::prelude::*;

verus! {

/// Why an operation was rejected.
///
/// Every rejection leaves the values involved untouched; none is retried.
#[derive(Clone, Copy, Debug, PartialEq, Eq, Structural)]
pub enum QuantumError {
    /// A matrix or ket dimension exceeds the fixed capacity, or a block does
    /// not fit into the matrix it should be written to.
    Size,
    /// Two operands of a matrix operation have different sizes.
    SizeMismatch,
    /// A permutation argument is not a bijection on the expected index range.
    InvalidPermutation,
    /// A gate's matrix does not have dimension `2^width`, or a gate's width
    /// differs from the width of the register it is applied to.
    DimensionMismatch,
    /// A classical register handed to a quantum register has another width
    /// than the one asked for.
    WidthMismatch,
    /// A classical register was built from a value other than 0 or 1.
    InvalidBit,
    /// A classical state does not fit into the given width.
    Range,
    /// An operation was invoked outside its permitted lifecycle stage.
    ProtocolViolation,
    /// An internal consistency check failed.
    InvariantViolation,
}

} // verus!
