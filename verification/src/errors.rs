//! The ways in which the search can fail.

use vstd::prelude::*;

verus! {

/// A failure of the search. None is recovered inside this crate: each is
/// handed to the caller.
#[derive(Debug, Clone, Copy, PartialEq, Eq, Structural)]
pub enum KontekstoError {
    /// The vector index could not answer.
    IndexError,
    /// The index answered a sampling request with no vector at all.
    IndexUnavailable,
    /// A single scoring call failed.
    OracleError,
    /// Two embeddings that must have the same length do not.
    DimensionMismatch,
    /// Not one of the neighbours explored in a step could be scored.
    NoScorableNeighbors,
    /// A run with restarts was asked for without a single seed.
    NoSeeds,
}

} // verus!
