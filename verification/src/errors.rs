//! Failure taxonomy shared by every workflow step.

use vstd::prelude::*;

verus! {

/// Why a workflow step could not finish.
#[derive(Clone, Copy, Debug, PartialEq, Eq, Structural)]
pub enum Failure {
    /// An alias or address is absent from the wallet store.
    NotFound,
    /// A malformed address, amount or key string.
    InvalidInput,
    /// The chain or indexer was unreachable or timed out.
    NetworkFailure,
    /// A submission was rejected by consensus.
    ChainRejection,
    /// The wallet file could not be read or written.
    StorageFailure,
}

impl Failure {
    /// Whether retrying the whole workflow unchanged can help: only a
    /// network failure is transient; every other cause needs a changed
    /// request, a corrected store or an operator.
    pub fn is_transient(&self) -> (r: bool)
        ensures
            r == (*self is NetworkFailure),
    {
        match self {
            Failure::NetworkFailure => true,
            _ => false,
        }
    }
}

} // verus!
