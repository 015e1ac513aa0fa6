use vstd::prelude::*;

verus! {

/// The ways in which a sharing operation can be misused.
#[derive(Debug, Clone, Copy, PartialEq, Eq, Structural)]
pub enum ShareError {
    /// The threshold is zero or exceeds the number of shares.
    InvalidThreshold,
    /// Fewer shares than the threshold were handed to reconstruction.
    InsufficientShares,
    /// Two shares carry the same x-coordinate in the field.
    DuplicateCoordinate,
    /// A share carries the x-coordinate zero, which would expose the secret.
    ZeroCoordinate,
    /// A negative exponent was handed to modular exponentiation.
    InvalidExponent,
    /// Commitments were checked under field parameters other than their own.
    ParameterMismatch,
}

} // verus!
