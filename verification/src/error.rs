//! The errors of this library.

use vstd::prelude::*;

verus! {

/// Why an operation of this library gave no result.
#[derive(Debug, Clone, Copy, PartialEq, Eq, Structural)]
pub enum ShamirError {
    /// A share was requested for the identifier 0, which is reserved.
    InvalidShareId,
    /// Fewer shares were handed to recovery than the threshold asks for.
    InsufficientShares,
    /// Two shares carry the same leading identifier.
    DuplicateShareId,
    /// The shares do not all have the same length.
    MismatchedShareLength,
    /// A nonzero field element was divided by zero.
    DivisionByZero,
}

/// The outcome of an operation that yields bytes, with the bytes as a
/// sequence.
pub open spec fn outcome(r: Result<Vec<u8>, ShamirError>) -> Result<Seq<u8>, ShamirError> {
    match r {
        Ok(bytes) => Ok(bytes@),
        Err(e) => Err(e),
    }
}

} // verus!
