//! Why a verification could not run to its verdict.
use vstd::prelude::*;

verus! {

/// The failures of a verification call; none of them is a crash.
#[derive(Debug, Clone, Copy, PartialEq, Eq, Structural)]
pub enum Error {
    /// The proof bytes end early or hold a non-canonical element.
    TranscriptError,
    /// The number of public signals differs from what the verification key expects.
    ProtocolMismatch,
    /// A required inverse does not exist.
    ArithmeticError,
}

} // verus!
