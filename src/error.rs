//! Failures of the library's operations.
use vstd::prelude::*;

verus! {

/// Why an operation was refused. Every failure is a precondition violation
/// of the caller's input; none is transient.
#[derive(Clone, Copy, Debug, PartialEq, Eq)]
pub enum ProverError {
    /// The requested domain exceeds the supported root-of-unity order.
    UnsupportedSize,
    /// Witness, reference string or blinding polynomial disagree in length.
    DimensionMismatch,
    /// Persisted bytes have the wrong length or hold an unreduced coordinate.
    Deserialization,
    /// Scalars and points of a multi-scalar multiplication differ in number.
    LengthMismatch,
}

} // verus!
