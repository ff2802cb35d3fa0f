//! The error kinds that engine operations report.

use vstd::prelude::*;

verus! {

/// Why an engine operation was refused.
///
/// Callers map these onto their own protocol: a missing queue or job becomes
/// "not found", an illegal status change becomes a conflict, malformed queue
/// settings become a bad request, and an unreachable backing store (reported
/// by an unverified storage layer, never by the engine itself) becomes
/// "service unavailable".
#[derive(Clone, Copy, PartialEq, Eq, Debug, Structural)]
pub enum Error {
    /// The named queue does not exist.
    UnknownQueue,
    /// No job with the given ID exists.
    NotFound,
    /// The requested status change is not in the state machine's table.
    InvalidTransition,
    /// The operation is not valid for the job's current status.
    InvalidState,
    /// The backing store could not be reached.
    StorageUnavailable,
    /// The queue settings are malformed.
    InvalidSettings,
}

} // verus!
