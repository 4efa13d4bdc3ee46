//! The ways a packet, a message or a frame can be refused.

use vstd::prelude::*;

verus! {

/// What the engine reports to its caller. None of these is fatal: each says
/// that one packet, one message or one frame was set aside.
#[derive(Debug, Clone, Copy, PartialEq, Eq, Structural)]
pub enum TuioError {
    /// Malformed or truncated bytes, a message whose arguments do not fit its
    /// address, or an update that would span no time at all.
    FormatError,
    /// A message for an address this engine does not handle. Callers skip it.
    UnknownAddress,
    /// A frame whose sequence number is not newer than the last one accepted.
    StaleFrame,
    /// A `set` for a session that the frame's own alive list does not name.
    SessionInconsistency,
}

} // verus!
