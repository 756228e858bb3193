//! The keeper's error taxonomy.
use vstd::prelude::*;

verus! {

/// How a step of the keeper can fail.
///
/// - `RemoteReadError`: a remote read failed; retried next cycle, never
///   cached.
/// - `SubmissionError`: a broadcast failed; the pending entry is dropped and
///   the condition reconsidered next cycle.
/// - `DecodeError`: a malformed response; degrades to a placeholder record
///   and never aborts a batch.
/// - `ConfigurationError`: a whole aggregate call failed or had the wrong
///   shape, or a non-fee-market transaction was encountered — fatal, since
///   silent recovery would mask operator misconfiguration.
/// - `TransportExhaustion`: too many consecutive poll failures — fatal.
#[derive(PartialEq, Eq, Structural, Clone, Copy, Debug)]
pub enum KeeperError {
    RemoteReadError,
    SubmissionError,
    DecodeError,
    ConfigurationError,
    TransportExhaustion,
}

} // verus!
