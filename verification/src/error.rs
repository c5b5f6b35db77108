//! The ways in which an operation of this library can fail.

use vstd::prelude::*;

verus! {

/// Why an operation gave no result.
#[derive(Clone, Copy, Debug, PartialEq, Eq, Structural)]
pub enum Error {
    /// The dimensions of the inputs do not agree.
    SizeMismatch,
    /// The interval handed to a solver is outside the supported range.
    PreconditionViolation,
    /// Two baby steps have the same fingerprint.
    HashCollision,
    /// A solver exhausted its budget.
    NotFound,
    /// Serialized jumps or a serialized table are truncated or malformed.
    Corrupt,
}

} // verus!
