//! A reliability layer for unreliable, unordered datagram transports.
//!
//! Each [`Endpoint`](endpoint::Endpoint) numbers its outbound packets with a
//! 16-bit sequence, reports which of them the peer has received through a
//! compact ack/ack-bits feedback field, fragments payloads that exceed the
//! transport's comfortable datagram size, and reassembles them on the way in.
//! Sequence-indexed state lives in fixed-capacity ring buffers
//! ([`SequenceBuffer`]) keyed by sequence number modulo capacity.

use vstd::prelude::*;

pub mod api;
pub mod bits;
pub mod endpoint;
pub mod error;
pub mod headers;
pub mod sequence;
pub mod sequence_buffer;

pub use crate::api::EndpointHandle;
pub use crate::api::Reliable;
pub use crate::api::SimpleEndpoint;
pub use crate::endpoint::Endpoint;
pub use crate::endpoint::EndpointConfig;
pub use crate::endpoint::EndpointHandler;
pub use crate::endpoint::ReassemblyData;
pub use crate::endpoint::RecvData;
pub use crate::endpoint::SentData;
pub use crate::error::ReliableError;
pub use crate::headers::FragmentHeader;
pub use crate::headers::PacketHeader;
pub use crate::sequence_buffer::SequenceBuffer;

verus! {

/// Largest number of bytes a written packet header can occupy:
/// prefix, sequence, ack, and four ack-bits bytes.
pub const RELIABLE_MAX_PACKET_HEADER_BYTES: usize = 9;

/// Bytes of the fragment header proper: prefix, sequence, id, count.
pub const RELIABLE_FRAGMENT_HEADER_BYTES: usize = 5;

} // verus!
