//! The error taxonomy of the service.
//!
//! Every failure is terminal and surfaced to the caller with its kind
//! preserved; nothing is retried internally.

use vstd::prelude::*;

verus! {

/// The kinds of failure a construction or a query can surface.
#[derive(Clone, Copy, PartialEq, Eq, Structural, Debug)]
pub enum Error {
    /// The backend reports a finalized hash but holds no header for it:
    /// a backend inconsistency. Carries the offending hash.
    MissingFinalizedHeader(u64),
    /// No auxiliary weight entry exists for the finalized block: the
    /// chain does not record weights, or the entry was pruned. Carries
    /// the finalized hash the lookup used.
    LoadingBlockWeightFailed(u64),
    /// The chain specification document does not declare the sync-state
    /// extension slot.
    LightSyncStateExtensionNotFound,
    /// The safety gate denied the call; a policy outcome, not a fault.
    UnsafeCallRejected,
}

/// The human-readable description of each error kind.
pub open spec fn error_text(e: Error) -> Seq<char> {
    match e {
        Error::MissingFinalizedHeader(_) => "the finalized block's header is missing from the backend"@,
        Error::LoadingBlockWeightFailed(_) => "failed to load the block weight for the finalized block"@,
        Error::LightSyncStateExtensionNotFound => "the light sync state extension is not provided by the chain spec"@,
        Error::UnsafeCallRejected => "the call is unsafe and was rejected by the safety gate"@,
    }
}

impl Error {
    /// The human-readable message carried alongside the machine kind.
    pub fn message(&self) -> (r: &'static str)
        ensures
            r@ == error_text(*self),
    {
        match self {
            Error::MissingFinalizedHeader(_) => "the finalized block's header is missing from the backend",
            Error::LoadingBlockWeightFailed(_) => "failed to load the block weight for the finalized block",
            Error::LightSyncStateExtensionNotFound => "the light sync state extension is not provided by the chain spec",
            Error::UnsafeCallRejected => "the call is unsafe and was rejected by the safety gate",
        }
    }
}

} // verus!
