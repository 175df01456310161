//! Errors surfaced by the reliability core.

use vstd::prelude::*;

verus! {

/// Everything `send` and `recv` can fail with.
#[derive(Clone, Copy, Debug, PartialEq, Eq, Structural)]
pub enum ReliableError {
    /// A payload or inbound datagram is larger than `max_packet_size`.
    ExceededMaxPacketSize,
    /// An inbound sequence is older than the receive buffer can represent.
    StalePacket,
    /// An insert below a sequence buffer's window.
    StaleSequence,
    /// A truncated or malformed packet header.
    InvalidHeader,
    /// A truncated fragment, a missing embedded header on fragment zero,
    /// a count mismatch, a duplicate id, an id out of range, or a fragment
    /// payload of the wrong size.
    InvalidFragment,
    /// An outbound packet would need more fragments than `max_fragments`.
    FragmentCountExceeded,
}

} // verus!
