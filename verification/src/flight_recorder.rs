//! Replay errors of the deterministic flight recorder.
use vstd::prelude::*;

verus! {

/// Errors raised when seeking a recorded replay.
#[derive(Debug, Clone, Copy, PartialEq, Eq, Structural)]
pub enum ReplayError {
    /// Requested tick lies outside the recorded window.
    TickOutOfRange {
        /// Requested tick.
        requested: u64,
        /// Earliest recorded tick.
        earliest: u64,
        /// Latest recorded tick.
        latest: u64,
    },
    /// No keyframe precedes the requested tick.
    KeyframeNotFound,
}

} // verus!
