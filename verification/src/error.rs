//! The failure taxonomy of the engine.

use vstd::prelude::*;

verus! {

/// Typed failures surfaced by the engine. Operations never retry and never
/// leave a partial result behind: a failed lifecycle mutation rolls back
/// fully.
#[derive(Clone, Copy, Debug, PartialEq, Eq, Structural)]
pub enum EngineError {
    /// A named entity does not exist.
    NotFound,
    /// A status or state precondition was violated.
    InvalidTransition,
    /// The guard against a second open time entry tripped.
    ConflictingOpenEntry,
    /// A malformed date or argument.
    InvalidInput,
    /// The underlying persistence operation failed. The in-memory store never
    /// produces it; callers that mirror operations onto a real store map its
    /// failures to this variant.
    StoreFailure,
    /// Arithmetic or date overflow; not expected in practice, but checked
    /// explicitly rather than assumed.
    InternalError,
}

} // verus!
