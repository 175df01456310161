//! The endpoint state machine: sequenced sends, ack feedback, fragmentation
//! and reassembly, and smoothed quality estimates.
//!
//! The two handler callbacks are the endpoint's only window on the world;
//! two ghost transcripts on [`Endpoint`] log every call to them, so the
//! contracts of `send` and `recv` can say exactly which bytes crossed that
//! window and what the handler answered.
//!
//! All times are in microseconds, held in `u64`. The smoothing factors of
//! the quality estimators are fixed-point fractions in parts per ten
//! thousand (`25` means `0.0025`), and the estimates themselves are held in
//! integer units: round-trip time in microseconds, packet loss in parts per
//! ten thousand, bandwidth in kilobits per second.

use vstd::prelude::*;

use crate::bits::bit_set;
use crate::error::ReliableError;
use crate::headers::FragmentHeader;
use crate::headers::PacketHeader;
use crate::sequence::lemma_current_not_stale;
use crate::sequence::sequence_add;
use crate::sequence::spec_sequence_add;
use crate::sequence::spec_sequence_sub;
use crate::sequence_buffer::SequenceBuffer;

verus! {

/// The denominator of every smoothing factor: a factor of `10_000` moves
/// an estimate all the way to each new sample.
pub const SMOOTHING_UNIT: u32 = 10_000;

/// How many fragments a payload of `len` bytes needs at `fragment_size`
/// bytes each: the quotient, rounded up.
pub open spec fn spec_num_fragments(len: int, fragment_size: int) -> int {
    (len + fragment_size - 1) / fragment_size
}

/// A new measurement of the time between a send and its ack, in
/// microseconds; zero when the clock ran backwards.
pub open spec fn spec_rtt_sample(now: u64, sent: u64) -> u64 {
    if now >= sent {
        (now - sent) as u64
    } else {
        0
    }
}

/// Exponential smoothing in fixed point: the estimate moves toward the
/// sample by `factor` parts per ten thousand of the gap, rounding toward
/// the old estimate.
pub open spec fn spec_smooth(est: u64, sample: u64, factor: u32) -> u64 {
    if est == sample {
        est
    } else if sample > est {
        (est + (sample - est) * factor / (SMOOTHING_UNIT as int)) as u64
    } else {
        (est - (est - sample) * factor / (SMOOTHING_UNIT as int)) as u64
    }
}

/// Smoothing for the round-trip estimate alone: an estimate of zero
/// adopts the first positive sample outright; after that it moves like
/// [`spec_smooth`].
pub open spec fn spec_smooth_rtt(est: u64, sample: u64, factor: u32) -> u64 {
    if est == 0 && sample > 0 {
        sample
    } else {
        spec_smooth(est, sample, factor)
    }
}

/// The ghost state the ack walk threads through the 32 bits of an inbound
/// `ack_bits` field: the ack list, the sent-buffer slot payloads, and the
/// round-trip-time estimate.
pub struct AckWalk {
    /// View of the endpoint's ack list.
    pub acks: Seq<u16>,
    /// View of the sent buffer's slot payloads.
    pub entries: Seq<Option<SentData>>,
    /// The smoothed round-trip time.
    pub rtt: u64,
}

/// One step of the ack walk: if the sent buffer holds sequence `s` not yet
/// acked and the ack list has room, append `s` to the list, mark the entry
/// acked, and fold its round-trip sample into the estimate; otherwise leave
/// everything alone.
pub open spec fn spec_ack_walk_step(
    w: AckWalk,
    tags: Seq<u32>,
    cap: int,
    s: u16,
    ack_cap: int,
    now: u64,
    factor: u32,
) -> AckWalk {
    let i = s as int % cap;
    if tags[i] == s as u32 && !w.entries[i].unwrap().acked && w.acks.len() < ack_cap {
        let e = w.entries[i].unwrap();
        AckWalk {
            acks: w.acks.push(s),
            entries: w.entries.update(i, Some(SentData { time: e.time, size: e.size, acked: true })),
            rtt: spec_smooth_rtt(w.rtt, spec_rtt_sample(now, e.time), factor),
        }
    } else {
        w
    }
}

/// The ack walk from bit `i` up: for each set bit `j` of `ack_bits`,
/// process sequence `ack - j` in order.
pub open spec fn spec_ack_walk(
    w: AckWalk,
    tags: Seq<u32>,
    cap: int,
    ack: u16,
    ack_bits: u32,
    ack_cap: int,
    now: u64,
    factor: u32,
    i: int,
) -> AckWalk
    decreases 32 - i,
{
    if 0 <= i < 32 {
        let w2 = if bit_set(ack_bits, i as u32) {
            spec_ack_walk_step(w, tags, cap, spec_sequence_sub(ack, i as u16), ack_cap, now, factor)
        } else {
            w
        };
        spec_ack_walk(w2, tags, cap, ack, ack_bits, ack_cap, now, factor, i + 1)
    } else {
        w
    }
}

/// What the ack walk does, slot by slot: it only ever appends to the ack
/// list; each appended sequence names a live sent entry that was not yet
/// acked when the walk began and is acked when it ends; and every slot is
/// either untouched or acked with its time and size kept.
pub proof fn lemma_ack_walk_properties(
    w: AckWalk,
    tags: Seq<u32>,
    cap: int,
    ack: u16,
    ack_bits: u32,
    ack_cap: int,
    now: u64,
    factor: u32,
    i: int,
)
    requires
        cap >= 1,
        tags.len() == cap,
        w.entries.len() == cap,
        forall|t: int|
            0 <= t < cap ==> (#[trigger] tags[t]) == crate::sequence_buffer::SEQUENCE_BUFFER_EMPTY
                || w.entries[t] is Some,
    ensures
        ({
            let r = spec_ack_walk(w, tags, cap, ack, ack_bits, ack_cap, now, factor, i);
            &&& w.acks.is_prefix_of(r.acks)
            &&& r.entries.len() == cap
            &&& forall|t: int|
                0 <= t < cap ==> (#[trigger] tags[t])
                    == crate::sequence_buffer::SEQUENCE_BUFFER_EMPTY || r.entries[t] is Some
            &&& forall|j: int|
                w.acks.len() <= j < r.acks.len() ==> {
                    let t = (#[trigger] r.acks[j]) as int % cap;
                    &&& tags[t] == r.acks[j] as u32
                    &&& w.entries[t] is Some
                    &&& !w.entries[t].unwrap().acked
                    &&& r.entries[t] is Some
                    &&& r.entries[t].unwrap().acked
                }
            &&& forall|t: int|
                0 <= t < cap ==> ((#[trigger] r.entries[t]) == w.entries[t] || (w.entries[t]
                    is Some && r.entries[t] is Some && r.entries[t].unwrap().acked
                    && r.entries[t].unwrap().time == w.entries[t].unwrap().time
                    && r.entries[t].unwrap().size == w.entries[t].unwrap().size))
        }),
    decreases 32 - i,
{
    if 0 <= i < 32 {
        let w2 = if bit_set(ack_bits, i as u32) {
            spec_ack_walk_step(w, tags, cap, spec_sequence_sub(ack, i as u16), ack_cap, now, factor)
        } else {
            w
        };
        lemma_ack_walk_properties(w2, tags, cap, ack, ack_bits, ack_cap, now, factor, i + 1);
        let r = spec_ack_walk(w, tags, cap, ack, ack_bits, ack_cap, now, factor, i);
        assert(r == spec_ack_walk(w2, tags, cap, ack, ack_bits, ack_cap, now, factor, i + 1));
        assert forall|j: int| w.acks.len() <= j < r.acks.len() implies {
            let t = (#[trigger] r.acks[j]) as int % cap;
            &&& tags[t] == r.acks[j] as u32
            &&& w.entries[t] is Some
            &&& !w.entries[t].unwrap().acked
            &&& r.entries[t] is Some
            &&& r.entries[t].unwrap().acked
        } by {
            let t = r.acks[j] as int % cap;
            if j < w2.acks.len() {
                assert(r.acks[j] == w2.acks[j]);
            }
        }
    }
}

/// Everything `update` does to the endpoint: the clock moves to `time`,
/// and the loss and bandwidth estimates take one smoothing step from the
/// samples the two buffers currently yield. Nothing else moves; in
/// particular, the round-trip estimate moves only inside `recv`.
pub open spec fn update_effect(pre: Endpoint, post: Endpoint, time: u64) -> bool {
    &&& post.time == time
    &&& post.rtt == pre.rtt
    &&& post.config == pre.config
    &&& post.acks == pre.acks
    &&& post.sequence == pre.sequence
    &&& post.sent_buffer == pre.sent_buffer
    &&& post.recv_buffer == pre.recv_buffer
    &&& post.reassembly_buffer == pre.reassembly_buffer
    &&& post.transmitted == pre.transmitted
    &&& post.processed == pre.processed
    &&& ({
        let (n, d) = spec_loss_stats(
            pre.sent_buffer.entry_sequences@,
            pre.sent_buffer.entries@,
            pre.config.sent_packets_buffer_size as int,
            time,
            pre.rtt,
        );
        post.packet_loss == spec_smooth(
            pre.packet_loss,
            spec_loss_sample(n, d),
            pre.config.packet_loss_smoothing_factor,
        )
    })
    &&& ({
        let st = spec_sent_stats(
            pre.sent_buffer.entry_sequences@,
            pre.sent_buffer.entries@,
            pre.config.sent_packets_buffer_size as int,
        );
        &&& post.sent_bandwidth == spec_smooth(
            pre.sent_bandwidth,
            spec_kbps(st.bytes, st.n, st.tmin, st.tmax),
            pre.config.bandwidth_smoothing_factor,
        )
        &&& post.acked_bandwidth == spec_smooth(
            pre.acked_bandwidth,
            spec_kbps(st.acked_bytes, st.n, st.tmin, st.tmax),
            pre.config.bandwidth_smoothing_factor,
        )
    })
    &&& ({
        let st = spec_recv_stats(
            pre.recv_buffer.entry_sequences@,
            pre.recv_buffer.entries@,
            pre.config.received_packets_buffer_size as int,
        );
        post.received_bandwidth == spec_smooth(
            pre.received_bandwidth,
            spec_kbps(st.bytes, st.n, st.tmin, st.tmax),
            pre.config.bandwidth_smoothing_factor,
        )
    })
}

/// Everything `reset` does: the ack list and all three buffers are
/// emptied, every buffer's window edge restarts at zero, the send sequence
/// and every quality estimate return to zero, and the clock, the
/// configuration, and the ghost call transcripts (which are history) stay.
pub open spec fn reset_effect(pre: Endpoint, post: Endpoint) -> bool {
    &&& post.config == pre.config
    &&& post.time == pre.time
    &&& post.transmitted == pre.transmitted
    &&& post.processed == pre.processed
    &&& post.sequence == 0
    &&& post.rtt == 0
    &&& post.packet_loss == 0
    &&& post.sent_bandwidth == 0
    &&& post.received_bandwidth == 0
    &&& post.acked_bandwidth == 0
    &&& post.acks@ == Seq::<u16>::empty()
    &&& forall|s: u16| !post.sent_buffer.live(s)
    &&& forall|s: u16| !post.recv_buffer.live(s)
    &&& forall|s: u16| !post.reassembly_buffer.live(s)
    &&& post.sent_buffer.sequence == 0
    &&& post.recv_buffer.sequence == 0
    &&& post.reassembly_buffer.sequence == 0
    &&& post.sent_buffer.spec_capacity() == pre.sent_buffer.spec_capacity()
    &&& post.recv_buffer.spec_capacity() == pre.recv_buffer.spec_capacity()
    &&& post.reassembly_buffer.spec_capacity() == pre.reassembly_buffer.spec_capacity()
}

/// Everything an endpoint can be configured with.
pub struct EndpointConfig {
    /// A label for this endpoint; not interpreted.
    pub name: String,
    /// Opaque id handed to the handler callbacks.
    pub index: i32,
    /// Payloads and datagrams larger than this are rejected.
    pub max_packet_size: usize,
    /// Payloads strictly larger than this are fragmented.
    pub fragment_above: usize,
    /// Hard cap on the fragments of one packet.
    pub max_fragments: u32,
    /// Payload bytes per fragment.
    pub fragment_size: usize,
    /// Most pending acks kept between `clear_acks` calls.
    pub ack_buffer_size: usize,
    /// Capacity of the sent-packet buffer.
    pub sent_packets_buffer_size: usize,
    /// Capacity of the received-packet buffer.
    pub received_packets_buffer_size: usize,
    /// Capacity of the fragment-reassembly buffer.
    pub fragment_reassembly_buffer_size: usize,
    /// Smoothing factor of the round-trip-time estimate, per ten thousand.
    pub rtt_smoothing_factor: u32,
    /// Smoothing factor of the packet-loss estimate, per ten thousand.
    pub packet_loss_smoothing_factor: u32,
    /// Smoothing factor of the bandwidth estimates, per ten thousand.
    pub bandwidth_smoothing_factor: u32,
    /// Wire overhead accounted to every packet, in bytes.
    pub packet_header_size: usize,
}

impl EndpointConfig {
    /// Bounds under which every endpoint operation stays in range: buffer
    /// capacities fit the sequence window, fragment counts fit the wire
    /// format, sizes keep the byte accounting within machine integers, and
    /// smoothing factors are genuine fractions.
    pub open spec fn valid(self) -> bool {
        &&& self.max_packet_size <= 0x10_0000
        &&& 1 <= self.fragment_size <= 0x10_0000
        &&& self.max_fragments <= 256
        &&& 1 <= self.sent_packets_buffer_size <= 32767
        &&& 1 <= self.received_packets_buffer_size <= 32767
        &&& 1 <= self.fragment_reassembly_buffer_size <= 32767
        &&& self.rtt_smoothing_factor <= SMOOTHING_UNIT
        &&& self.packet_loss_smoothing_factor <= SMOOTHING_UNIT
        &&& self.bandwidth_smoothing_factor <= SMOOTHING_UNIT
        &&& self.packet_header_size <= 0x10000
    }

    /// Runtime check of [`EndpointConfig::valid`], for callers outside the
    /// verified world.
    pub fn is_valid(&self) -> (r: bool)
        ensures
            r == self.valid(),
    {
        self.max_packet_size <= 0x10_0000 && 1 <= self.fragment_size
            && self.fragment_size <= 0x10_0000
            && self.max_fragments <= 256 && 1
            <= self.sent_packets_buffer_size && self.sent_packets_buffer_size <= 32767 && 1
            <= self.received_packets_buffer_size && self.received_packets_buffer_size <= 32767 && 1
            <= self.fragment_reassembly_buffer_size && self.fragment_reassembly_buffer_size
            <= 32767 && self.rtt_smoothing_factor <= SMOOTHING_UNIT
            && self.packet_loss_smoothing_factor <= SMOOTHING_UNIT
            && self.bandwidth_smoothing_factor <= SMOOTHING_UNIT && self.packet_header_size
            <= 0x10000
    }

    /// The default configuration with the given name.
    pub fn new(name: &str) -> (r: Self)
        ensures
            r.name@ == name@,
            r.valid(),
            r.index == 1,
            r.max_packet_size == 16384,
            r.fragment_above == 1024,
            r.max_fragments == 16,
            r.fragment_size == 1024,
            r.ack_buffer_size == 256,
            r.sent_packets_buffer_size == 256,
            r.received_packets_buffer_size == 256,
            r.fragment_reassembly_buffer_size == 64,
            r.rtt_smoothing_factor == 25,
            r.packet_loss_smoothing_factor == 1000,
            r.bandwidth_smoothing_factor == 1000,
            r.packet_header_size == 28,
    {
        let mut r = Self::default();
        r.name = name.to_owned();
        r
    }
}

impl Default for EndpointConfig {
    /// The defaults: 16 KiB packets fragmented above 1 KiB into 1 KiB
    /// fragments, at most 16 of them, 256-entry sent/received buffers, a
    /// 64-entry reassembly buffer, and the customary smoothing factors.
    fn default() -> (r: Self)
        ensures
            r.name@ == Seq::<char>::empty(),
            r.index == 1,
            r.max_packet_size == 16384,
            r.fragment_above == 1024,
            r.max_fragments == 16,
            r.fragment_size == 1024,
            r.ack_buffer_size == 256,
            r.sent_packets_buffer_size == 256,
            r.received_packets_buffer_size == 256,
            r.fragment_reassembly_buffer_size == 64,
            r.rtt_smoothing_factor == 25,
            r.packet_loss_smoothing_factor == 1000,
            r.bandwidth_smoothing_factor == 1000,
            r.packet_header_size == 28,
            r.valid(),
    {
        EndpointConfig {
            name: String::new(),
            index: 1,
            max_packet_size: 16384,
            fragment_above: 1024,
            max_fragments: 16,
            fragment_size: 1024,
            ack_buffer_size: 256,
            sent_packets_buffer_size: 256,
            received_packets_buffer_size: 256,
            fragment_reassembly_buffer_size: 64,
            rtt_smoothing_factor: 25,
            packet_loss_smoothing_factor: 1000,
            bandwidth_smoothing_factor: 1000,
            packet_header_size: 28,
        }
    }
}

/// What the endpoint remembers about one sent packet.
#[derive(Clone, Copy, Debug)]
pub struct SentData {
    /// When the packet was sent, in microseconds.
    pub time: u64,
    /// Whether an ack for it has come back.
    pub acked: bool,
    /// Payload plus accounted header overhead, in bytes.
    pub size: usize,
}

impl SentData {
    /// A fresh, not yet acked record.
    pub fn new(time: u64, size: usize) -> (r: Self)
        ensures
            r == (SentData { time, size, acked: false }),
    {
        SentData { time, size, acked: false }
    }
}

impl Default for SentData {
    /// The zero record.
    fn default() -> (r: Self)
        ensures
            r == (SentData { time: 0, size: 0, acked: false }),
    {
        SentData { time: 0, size: 0, acked: false }
    }
}

/// What the endpoint remembers about one received packet.
#[derive(Clone, Copy, Debug)]
pub struct RecvData {
    /// When the packet arrived, in microseconds.
    pub time: u64,
    /// Datagram plus accounted header overhead, in bytes.
    pub size: usize,
}

impl RecvData {
    /// A fresh record.
    pub fn new(time: u64, size: usize) -> (r: Self)
        ensures
            r == (RecvData { time, size }),
    {
        RecvData { time, size }
    }
}

impl Default for RecvData {
    /// The zero record.
    fn default() -> (r: Self)
        ensures
            r == (RecvData { time: 0, size: 0 }),
    {
        RecvData { time: 0, size: 0 }
    }
}

/// Transient state reconstructing one fragmented packet.
#[derive(Debug)]
pub struct ReassemblyData {
    /// The outer packet's sequence.
    pub sequence: u16,
    /// Ack field of the embedded packet header.
    pub ack: u16,
    /// Ack-bits field of the embedded packet header.
    pub ack_bits: u32,
    /// How many distinct fragments have arrived.
    pub num_fragments_received: usize,
    /// How many fragments the packet was split into.
    pub num_fragments_total: usize,
    /// Payload bytes, each fragment at offset `id * fragment_size`;
    /// zero-filled until written.
    pub buffer: Vec<u8>,
    /// Which fragment ids have arrived; fixed at 256 slots.
    pub fragments_received: Vec<bool>,
    /// Wire size of the fragment-zero header, for accounting.
    pub header_size: usize,
    /// Total payload length, known once the last fragment has arrived.
    pub packet_bytes: usize,
}

impl ReassemblyData {
    /// Structural bounds relative to the endpoint's fragment size.
    pub open spec fn wf(self, fragment_size: int) -> bool {
        &&& 1 <= self.num_fragments_total <= 256
        &&& self.num_fragments_received <= self.num_fragments_total
        &&& self.fragments_received@.len() == 256
        &&& self.buffer@.len() == self.num_fragments_total * fragment_size
        &&& self.packet_bytes <= self.buffer@.len()
    }

    /// An empty entry awaiting its fragments, with a zero-filled buffer of
    /// `prealloc` bytes.
    pub fn new(
        sequence: u16,
        ack: u16,
        ack_bits: u32,
        num_fragments_total: usize,
        header_size: usize,
        prealloc: usize,
    ) -> (r: Self)
        ensures
            r.sequence == sequence,
            r.ack == ack,
            r.ack_bits == ack_bits,
            r.num_fragments_received == 0,
            r.num_fragments_total == num_fragments_total,
            r.buffer@ == Seq::new(prealloc as nat, |i: int| 0u8),
            r.fragments_received@ == Seq::new(256, |i: int| false),
            r.header_size == header_size,
            r.packet_bytes == 0,
    {
        let r = ReassemblyData {
            sequence,
            ack,
            ack_bits,
            num_fragments_received: 0,
            num_fragments_total,
            buffer: vec![0u8; prealloc],
            fragments_received: vec![false; 256],
            header_size,
            packet_bytes: 0,
        };
        proof {
            assert(r.buffer@ =~= Seq::new(prealloc as nat, |i: int| 0u8));
            assert(r.fragments_received@ =~= Seq::new(256, |i: int| false));
        }
        r
    }

    /// Writes one fragment's payload at its offset, marks the fragment
    /// received, and — for the last fragment — records the packet's total
    /// payload length.
    fn deposit(&mut self, id: usize, payload: &[u8], fragment_size: usize)
        requires
            old(self).wf(fragment_size as int),
            1 <= fragment_size <= 0x10_0000,
            id < old(self).num_fragments_total,
            old(self).num_fragments_received < old(self).num_fragments_total,
            valid_fragment_payload(
                id as int,
                old(self).num_fragments_total as int,
                payload@.len() as int,
                fragment_size as int,
            ),
        ensures
            final(self).wf(fragment_size as int),
            deposited(*old(self), *final(self), id as int, payload@, fragment_size as int),
    {
        proof {
            assert(id * fragment_size + payload@.len() <= self.num_fragments_total
                * fragment_size && id * fragment_size + fragment_size <= self.num_fragments_total
                * fragment_size && id * fragment_size >= 0 && self.num_fragments_total
                * fragment_size <= 0x1000_0000) by (nonlinear_arith)
                requires
                    0 <= id < self.num_fragments_total <= 256,
                    1 <= fragment_size <= 0x10_0000,
                    payload@.len() <= fragment_size,
            ;
        }
        let off = id * fragment_size;
        let mut k: usize = 0;
        while k < payload.len()
            invariant
                k <= payload@.len(),
                off == id * fragment_size,
                off + payload@.len() <= self.buffer@.len(),
                off + payload@.len() <= 0x1000_0000,
                self.buffer@.len() == old(self).buffer@.len(),
                self.sequence == old(self).sequence,
                self.ack == old(self).ack,
                self.ack_bits == old(self).ack_bits,
                self.header_size == old(self).header_size,
                self.num_fragments_total == old(self).num_fragments_total,
                self.num_fragments_received == old(self).num_fragments_received,
                self.fragments_received == old(self).fragments_received,
                self.packet_bytes == old(self).packet_bytes,
                forall|t: int|
                    0 <= t < self.buffer@.len() ==> #[trigger] self.buffer@[t] == (if off <= t < off
                        + k {
                        payload@[t - off]
                    } else {
                        old(self).buffer@[t]
                    }),
            decreases payload@.len() - k,
        {
            self.buffer.set(off + k, payload[k]);
            k += 1;
        }
        proof {
            assert(self.buffer@ =~= old(self).buffer@.take(off as int) + payload@ + old(
                self,
            ).buffer@.skip(off as int + payload@.len()));
        }
        self.fragments_received.set(id, true);
        self.num_fragments_received += 1;
        if id + 1 == self.num_fragments_total {
            self.packet_bytes = off + payload.len();
        }
    }
}

impl Default for ReassemblyData {
    /// An empty entry with no buffer space.
    fn default() -> (r: Self)
        ensures
            r.sequence == 0,
            r.ack == 0,
            r.ack_bits == 0,
            r.num_fragments_received == 0,
            r.num_fragments_total == 0,
            r.buffer@ == Seq::<u8>::empty(),
            r.fragments_received@ == Seq::new(256, |i: int| false),
            r.header_size == 0,
            r.packet_bytes == 0,
    {
        let r = ReassemblyData {
            sequence: 0,
            ack: 0,
            ack_bits: 0,
            num_fragments_received: 0,
            num_fragments_total: 0,
            buffer: Vec::new(),
            fragments_received: vec![false; 256],
            header_size: 0,
            packet_bytes: 0,
        };
        proof {
            assert(r.fragments_received@ =~= Seq::new(256, |i: int| false));
        }
        r
    }
}

/// A fragment payload of an admissible length: every fragment but the last
/// carries exactly `fragment_size` bytes, the last at most that.
pub open spec fn valid_fragment_payload(id: int, total: int, len: int, fragment_size: int) -> bool {
    if id + 1 < total {
        len == fragment_size
    } else {
        len <= fragment_size
    }
}

/// What depositing fragment `id` does to a reassembly entry: the payload
/// lands at offset `id * fragment_size`, the fragment is marked received
/// and counted, and — when it is the last fragment — the total payload
/// length becomes known.
pub open spec fn deposited(
    e1: ReassemblyData,
    e2: ReassemblyData,
    id: int,
    payload: Seq<u8>,
    fragment_size: int,
) -> bool {
    &&& e2.sequence == e1.sequence
    &&& e2.ack == e1.ack
    &&& e2.ack_bits == e1.ack_bits
    &&& e2.header_size == e1.header_size
    &&& e2.num_fragments_total == e1.num_fragments_total
    &&& e2.num_fragments_received == e1.num_fragments_received + 1
    &&& e2.fragments_received@ == e1.fragments_received@.update(id, true)
    &&& e2.buffer@ == e1.buffer@.take(id * fragment_size) + payload + e1.buffer@.skip(
        id * fragment_size + payload.len(),
    )
    &&& e2.packet_bytes as int == (if id + 1 == e1.num_fragments_total {
        id * fragment_size + payload.len()
    } else {
        e1.packet_bytes as int
    })
}

/// The datagram a completed entry reconstructs after one more deposit: the
/// outer packet header re-serialized from the entry's fields, followed by
/// the first `packet_bytes` bytes of the deposit-updated buffer.
pub open spec fn spec_reassembled_after(
    e: ReassemblyData,
    id: int,
    payload: Seq<u8>,
    fragment_size: int,
) -> Seq<u8> {
    let buffer = e.buffer@.take(id * fragment_size) + payload + e.buffer@.skip(
        id * fragment_size + payload.len(),
    );
    let packet_bytes = if id + 1 == e.num_fragments_total {
        id * fragment_size + payload.len()
    } else {
        e.packet_bytes as int
    };
    PacketHeader {
        sequence: e.sequence,
        ack: e.ack,
        ack_bits: e.ack_bits,
    }.spec_write() + buffer.take(packet_bytes)
}

/// A reassembly entry freshly created by fragment zero: the embedded
/// packet header's feedback captured, fragment zero deposited at the start
/// of a zero-filled buffer, and `header_len` recorded for accounting.
pub open spec fn fresh_deposited(
    e: ReassemblyData,
    fh: FragmentHeader,
    payload: Seq<u8>,
    fragment_size: int,
    header_len: int,
) -> bool {
    &&& e.sequence == fh.sequence
    &&& e.ack == fh.packet_header.unwrap().ack
    &&& e.ack_bits == fh.packet_header.unwrap().ack_bits
    &&& e.num_fragments_total == fh.num_fragments as int
    &&& e.num_fragments_received == 1
    &&& e.header_size == header_len
    &&& e.fragments_received@ == Seq::new(256, |i: int| false).update(0, true)
    &&& e.buffer@ == payload + Seq::new(
        (fh.num_fragments * fragment_size - payload.len()) as nat,
        |i: int| 0u8,
    )
    &&& e.packet_bytes as int == (if fh.num_fragments == 1 {
        payload.len() as int
    } else {
        0int
    })
}

/// Occupancy statistics of one sequence buffer, folded slot by slot:
/// how many slots are live, their byte sizes summed (and, for sent
/// entries, the acked subset summed), and the earliest and latest
/// timestamps seen.
pub struct BandStats {
    /// Live slots seen.
    pub n: int,
    /// Sum of their sizes, in bytes.
    pub bytes: int,
    /// Sum of the acked entries' sizes, in bytes.
    pub acked_bytes: int,
    /// Earliest timestamp (meaningful when `n > 0`).
    pub tmin: u64,
    /// Latest timestamp (meaningful when `n > 0`).
    pub tmax: u64,
}

/// Fold of the sent buffer's slots `0 .. i`.
pub open spec fn spec_sent_stats(tags: Seq<u32>, entries: Seq<Option<SentData>>, i: int) -> BandStats
    decreases i,
{
    if i <= 0 {
        BandStats { n: 0, bytes: 0, acked_bytes: 0, tmin: 0, tmax: 0 }
    } else {
        let st = spec_sent_stats(tags, entries, i - 1);
        if tags[i - 1] != crate::sequence_buffer::SEQUENCE_BUFFER_EMPTY {
            let e = entries[i - 1].unwrap();
            BandStats {
                n: st.n + 1,
                bytes: st.bytes + e.size,
                acked_bytes: st.acked_bytes + if e.acked {
                    e.size as int
                } else {
                    0int
                },
                tmin: if st.n == 0 || e.time < st.tmin {
                    e.time
                } else {
                    st.tmin
                },
                tmax: if st.n == 0 || e.time > st.tmax {
                    e.time
                } else {
                    st.tmax
                },
            }
        } else {
            st
        }
    }
}

/// Fold of the receive buffer's slots `0 .. i`.
pub open spec fn spec_recv_stats(tags: Seq<u32>, entries: Seq<Option<RecvData>>, i: int) -> BandStats
    decreases i,
{
    if i <= 0 {
        BandStats { n: 0, bytes: 0, acked_bytes: 0, tmin: 0, tmax: 0 }
    } else {
        let st = spec_recv_stats(tags, entries, i - 1);
        if tags[i - 1] != crate::sequence_buffer::SEQUENCE_BUFFER_EMPTY {
            let e = entries[i - 1].unwrap();
            BandStats {
                n: st.n + 1,
                bytes: st.bytes + e.size,
                acked_bytes: 0,
                tmin: if st.n == 0 || e.time < st.tmin {
                    e.time
                } else {
                    st.tmin
                },
                tmax: if st.n == 0 || e.time > st.tmax {
                    e.time
                } else {
                    st.tmax
                },
            }
        } else {
            st
        }
    }
}

/// A sent packet counts as dropped when it is unacked and older than twice
/// the round-trip estimate.
pub open spec fn spec_dropped(now: u64, sent: u64, rtt: u64) -> bool {
    now >= sent && now - sent > 2 * (rtt as int)
}

/// Fold of the sent buffer's slots `0 .. i` for the loss estimate: live
/// slots seen, and how many of them count as dropped.
pub open spec fn spec_loss_stats(
    tags: Seq<u32>,
    entries: Seq<Option<SentData>>,
    i: int,
    now: u64,
    rtt: u64,
) -> (int, int)
    decreases i,
{
    if i <= 0 {
        (0int, 0int)
    } else {
        let (n, d) = spec_loss_stats(tags, entries, i - 1, now, rtt);
        if tags[i - 1] != crate::sequence_buffer::SEQUENCE_BUFFER_EMPTY {
            let e = entries[i - 1].unwrap();
            (
                n + 1,
                d + if !e.acked && spec_dropped(now, e.time, rtt) {
                    1int
                } else {
                    0int
                },
            )
        } else {
            (n, d)
        }
    }
}

/// The dropped fraction in parts per ten thousand; zero over an empty
/// window.
pub open spec fn spec_loss_sample(n: int, dropped: int) -> u64 {
    if n == 0 {
        0u64
    } else {
        (dropped * 10000 / n) as u64
    }
}

/// Kilobits per second over the window `[tmin, tmax]` in microseconds;
/// zero over an empty or instantaneous window.
pub open spec fn spec_kbps(bytes: int, n: int, tmin: u64, tmax: u64) -> u64 {
    if n == 0 || tmax <= tmin {
        0u64
    } else {
        (bytes * 8000 / (tmax - tmin)) as u64
    }
}

/// Every part of the endpoint other than the reassembly buffer is the
/// same in `post` as in `pre`.
pub open spec fn unchanged_but_reassembly(pre: Endpoint, post: Endpoint) -> bool {
    post == (Endpoint { reassembly_buffer: post.reassembly_buffer, ..pre })
}

/// What admitting one single packet does: its receipt is recorded in the
/// receive buffer, and its (`ack`, `ack_bits`) feedback is walked into the
/// ack list, the sent entries, and the round-trip-time estimate. Nothing
/// else moves.
pub open spec fn accepted_packet_effect(
    pre: Endpoint,
    post: Endpoint,
    h: PacketHeader,
    len: int,
) -> bool {
    let w = spec_ack_walk(
        AckWalk { acks: pre.acks@, entries: pre.sent_buffer.entries@, rtt: pre.rtt },
        pre.sent_buffer.entry_sequences@,
        pre.config.sent_packets_buffer_size as int,
        h.ack,
        h.ack_bits,
        pre.config.ack_buffer_size as int,
        pre.time,
        pre.config.rtt_smoothing_factor,
        0,
    );
    &&& SequenceBuffer::inserted(
        pre.recv_buffer,
        post.recv_buffer,
        h.sequence,
        RecvData { time: pre.time, size: (len + pre.config.packet_header_size) as usize },
    )
    &&& post.acks@ == w.acks
    &&& post.sent_buffer.entries@ == w.entries
    &&& post.rtt == w.rtt
    &&& post.sent_buffer.entry_sequences@ == pre.sent_buffer.entry_sequences@
    &&& post.sent_buffer.sequence == pre.sent_buffer.sequence
    &&& post.time == pre.time
    &&& post.config == pre.config
    &&& post.sequence == pre.sequence
    &&& post.packet_loss == pre.packet_loss
    &&& post.sent_bandwidth == pre.sent_bandwidth
    &&& post.received_bandwidth == pre.received_bandwidth
    &&& post.acked_bandwidth == pre.acked_bandwidth
    &&& post.transmitted == pre.transmitted
}

/// Everything processing `data` down the single-packet path does to the
/// endpoint, except for the reassembly buffer (which it never touches).
/// An oversized, malformed, or stale datagram fails with the matching
/// error and changes nothing; otherwise the result is `Ok`, the handler is
/// offered exactly the payload after the header (one new transcript
/// entry), and the state is recorded precisely when the handler said yes.
pub open spec fn single_packet_effect(
    pre: Endpoint,
    post: Endpoint,
    data: Seq<u8>,
    r: Result<(), ReliableError>,
) -> bool {
    if data.len() > pre.config.max_packet_size {
        &&& r == Err::<(), ReliableError>(ReliableError::ExceededMaxPacketSize)
        &&& unchanged_but_reassembly(pre, post)
    } else {
        match PacketHeader::spec_parse(data) {
            None => {
                &&& r == Err::<(), ReliableError>(ReliableError::InvalidHeader)
                &&& unchanged_but_reassembly(pre, post)
            },
            Some((h, n)) => {
                if !pre.recv_buffer.spec_check_sequence(h.sequence) {
                    &&& r == Err::<(), ReliableError>(ReliableError::StalePacket)
                    &&& unchanged_but_reassembly(pre, post)
                } else {
                    let entry = post.processed@.last();
                    &&& r == Ok::<(), ReliableError>(())
                    &&& post.processed@ == pre.processed@.push(entry)
                    &&& entry.0 == h.sequence
                    &&& entry.1 == data.skip(n)
                    &&& entry.2 ==> accepted_packet_effect(pre, post, h, data.len() as int)
                    &&& !entry.2 ==> post == (Endpoint {
                        reassembly_buffer: post.reassembly_buffer,
                        processed: post.processed,
                        ..pre
                    })
                }
            },
        }
    }
}

/// The reassembly buffer in `post` is `pre`'s with the entry for `s`
/// taken out.
pub open spec fn entry_removed(
    pre: SequenceBuffer<ReassemblyData>,
    post: SequenceBuffer<ReassemblyData>,
    s: u16,
) -> bool {
    &&& post.spec_capacity() == pre.spec_capacity()
    &&& post.sequence == pre.sequence
    &&& !post.live(s)
    &&& forall|k: u16| k != s ==> (post.live(k) <==> pre.live(k))
    &&& forall|k: u16| k != s && #[trigger] post.live(k) ==> post.at(k) == pre.at(k)
}

/// The reassembly buffer in `post` is `pre`'s with the entry for `s`
/// replaced in place.
pub open spec fn entry_updated(
    pre: SequenceBuffer<ReassemblyData>,
    post: SequenceBuffer<ReassemblyData>,
    s: u16,
) -> bool {
    &&& post.spec_capacity() == pre.spec_capacity()
    &&& post.sequence == pre.sequence
    &&& post.live(s)
    &&& forall|k: u16| k != s ==> (post.live(k) <==> pre.live(k))
    &&& forall|k: u16| k != s && #[trigger] post.live(k) ==> post.at(k) == pre.at(k)
}

/// The reassembly buffer in `post` is `pre`'s after inserting at `s` —
/// window advance and slot clearing included — and removing `s` again.
pub open spec fn entry_inserted_then_removed(
    pre: SequenceBuffer<ReassemblyData>,
    post: SequenceBuffer<ReassemblyData>,
    s: u16,
) -> bool {
    &&& post.spec_capacity() == pre.spec_capacity()
    &&& post.sequence == (if crate::sequence::spec_sequence_greater_than(
        spec_sequence_add(s, 1),
        pre.sequence,
    ) {
        spec_sequence_add(s, 1)
    } else {
        pre.sequence
    })
    &&& !post.live(s)
    &&& forall|k: u16|
        k != s ==> ((#[trigger] post.live(k)) <==> (pre.live(k) && pre.spec_index_of(k)
            != pre.spec_index_of(s) && !SequenceBuffer::<ReassemblyData>::displaced_by_insert(
            pre,
            s,
            k,
        )))
    &&& forall|k: u16| k != s && #[trigger] post.live(k) ==> post.at(k) == pre.at(k)
}

/// Everything processing `data` down the fragment path does to the
/// endpoint. A malformed fragment, a count that contradicts the entry, a
/// duplicate id, or a payload of the wrong size fails `InvalidFragment`
/// and changes nothing; a first fragment that is not fragment zero does
/// the same; a first fragment below the reassembly window fails
/// `StaleSequence`. Otherwise the fragment is deposited — into the
/// existing entry, or into a fresh one created from fragment zero — and
/// when it completes its packet, the entry is dropped and the
/// reconstructed datagram runs the single-packet path.
pub open spec fn fragment_packet_effect(
    pre: Endpoint,
    post: Endpoint,
    data: Seq<u8>,
    r: Result<(), ReliableError>,
) -> bool {
    match FragmentHeader::spec_parse(data) {
        None => r == Err::<(), ReliableError>(ReliableError::InvalidFragment) && post == pre,
        Some((fh, n)) => {
            let payload = data.skip(n);
            let fs = pre.config.fragment_size as int;
            let s = fh.sequence;
            if pre.reassembly_buffer.live(s) {
                let e = pre.reassembly_buffer.at(s);
                if e.num_fragments_total != fh.num_fragments as int {
                    r == Err::<(), ReliableError>(ReliableError::InvalidFragment) && post == pre
                } else if e.fragments_received@[fh.id as int] {
                    r == Err::<(), ReliableError>(ReliableError::InvalidFragment) && post == pre
                } else if !valid_fragment_payload(
                    fh.id as int,
                    e.num_fragments_total as int,
                    payload.len() as int,
                    fs,
                ) {
                    r == Err::<(), ReliableError>(ReliableError::InvalidFragment) && post == pre
                } else if e.num_fragments_received + 1 == e.num_fragments_total {
                    &&& entry_removed(pre.reassembly_buffer, post.reassembly_buffer, s)
                    &&& single_packet_effect(
                        pre,
                        post,
                        spec_reassembled_after(e, fh.id as int, payload, fs),
                        r,
                    )
                } else {
                    &&& r == Ok::<(), ReliableError>(())
                    &&& entry_updated(pre.reassembly_buffer, post.reassembly_buffer, s)
                    &&& deposited(e, post.reassembly_buffer.at(s), fh.id as int, payload, fs)
                    &&& unchanged_but_reassembly(pre, post)
                }
            } else {
                if fh.id != 0 {
                    r == Err::<(), ReliableError>(ReliableError::InvalidFragment) && post == pre
                } else if !valid_fragment_payload(
                    0,
                    fh.num_fragments as int,
                    payload.len() as int,
                    fs,
                ) {
                    r == Err::<(), ReliableError>(ReliableError::InvalidFragment) && post == pre
                } else if !pre.reassembly_buffer.spec_check_sequence(s) {
                    r == Err::<(), ReliableError>(ReliableError::StaleSequence) && post == pre
                } else if fh.num_fragments == 1 {
                    &&& entry_inserted_then_removed(
                        pre.reassembly_buffer,
                        post.reassembly_buffer,
                        s,
                    )
                    &&& single_packet_effect(
                        pre,
                        post,
                        fh.packet_header.unwrap().spec_write() + payload,
                        r,
                    )
                } else {
                    &&& r == Ok::<(), ReliableError>(())
                    &&& SequenceBuffer::inserted(
                        pre.reassembly_buffer,
                        post.reassembly_buffer,
                        s,
                        post.reassembly_buffer.at(s),
                    )
                    &&& fresh_deposited(
                        post.reassembly_buffer.at(s),
                        fh,
                        payload,
                        fs,
                        n,
                    )
                    &&& unchanged_but_reassembly(pre, post)
                }
            }
        },
    }
}

/// Acks are idempotent: once the sent entry for `s` is marked acked, no
/// later ack walk ever appends `s` to the ack list again — receiving the
/// same ack bit twice for the same sent packet leaves at most one entry.
pub proof fn lemma_ack_idempotent(
    w: AckWalk,
    tags: Seq<u32>,
    cap: int,
    ack: u16,
    ack_bits: u32,
    ack_cap: int,
    now: u64,
    factor: u32,
    i: int,
    s: u16,
)
    requires
        cap >= 1,
        tags.len() == cap,
        w.entries.len() == cap,
        forall|t: int|
            0 <= t < cap ==> (#[trigger] tags[t]) == crate::sequence_buffer::SEQUENCE_BUFFER_EMPTY
                || w.entries[t] is Some,
        tags[s as int % cap] == s as u32 ==> w.entries[s as int % cap] is Some
            && w.entries[s as int % cap].unwrap().acked,
    ensures
        ({
            let r = spec_ack_walk(w, tags, cap, ack, ack_bits, ack_cap, now, factor, i);
            forall|j: int| w.acks.len() <= j < r.acks.len() ==> r.acks[j] != s
        }),
    decreases 32 - i,
{
    if 0 <= i < 32 {
        let s2 = spec_sequence_sub(ack, i as u16);
        let w2 = if bit_set(ack_bits, i as u32) {
            spec_ack_walk_step(w, tags, cap, s2, ack_cap, now, factor)
        } else {
            w
        };
        if w2 != w {
            assert(s2 != s);
        }
        lemma_ack_idempotent(w2, tags, cap, ack, ack_bits, ack_cap, now, factor, i + 1, s);
        lemma_ack_walk_properties(w2, tags, cap, ack, ack_bits, ack_cap, now, factor, i + 1);
        let r = spec_ack_walk(w, tags, cap, ack, ack_bits, ack_cap, now, factor, i);
        assert forall|j: int| w.acks.len() <= j < r.acks.len() implies r.acks[j] != s by {
            if j < w2.acks.len() {
                assert(w2.acks.is_prefix_of(r.acks));
                assert(r.acks[j] == w2.acks[j]);
            }
        }
    }
}

/// The packet header a `send` from state `pre` writes: the sequence it
/// assigns, and the receive buffer's current ack feedback.
pub open spec fn spec_outgoing_header(pre: Endpoint) -> PacketHeader {
    PacketHeader {
        sequence: pre.sequence,
        ack: spec_sequence_sub(pre.recv_buffer.sequence, 1),
        ack_bits: pre.recv_buffer.spec_ack_bits(),
    }
}

/// The payload slice fragment `i` carries: the `i`-th `fragment_size`-byte
/// piece of `data`, the last piece being whatever remains.
pub open spec fn spec_fragment_payload(data: Seq<u8>, i: int, fragment_size: int) -> Seq<u8> {
    data.subrange(
        i * fragment_size,
        if (i + 1) * fragment_size <= data.len() {
            (i + 1) * fragment_size
        } else {
            data.len() as int
        },
    )
}

/// The exact bytes of fragment `i` of `n` for a packet with header `h` and
/// payload `data`: the fragment header (embedding `h` on fragment zero),
/// then the fragment's payload slice.
pub open spec fn spec_fragment_datagram(
    h: PacketHeader,
    i: int,
    n: int,
    data: Seq<u8>,
    fragment_size: int,
) -> Seq<u8> {
    (FragmentHeader {
        sequence: h.sequence,
        id: i as u8,
        num_fragments: n as u16,
        packet_header: if i == 0 {
            Some(h)
        } else {
            None
        },
    }).spec_write() + spec_fragment_payload(data, i, fragment_size)
}

/// Every datagram a successful `send` of `data` from state `pre` hands to
/// `on_transmit_packet`, in order: one header-plus-payload datagram below
/// the fragmentation threshold, otherwise one datagram per fragment.
pub open spec fn spec_send_transcript(pre: Endpoint, data: Seq<u8>) -> Seq<(u16, Seq<u8>)> {
    let h = spec_outgoing_header(pre);
    if data.len() <= pre.config.fragment_above {
        seq![(pre.sequence, h.spec_write() + data)]
    } else {
        let n = spec_num_fragments(data.len() as int, pre.config.fragment_size as int);
        Seq::new(
            n as nat,
            |i: int|
                (
                    pre.sequence,
                    spec_fragment_datagram(h, i, n, data, pre.config.fragment_size as int),
                ),
        )
    }
}

/// A just-created endpoint: the given configuration and clock, everything
/// else at zero and empty.
pub open spec fn spec_fresh_endpoint(e: Endpoint, config: EndpointConfig, time: u64) -> bool {
    &&& e.config == config
    &&& e.time == time
    &&& e.rtt == 0
    &&& e.packet_loss == 0
    &&& e.sent_bandwidth == 0
    &&& e.received_bandwidth == 0
    &&& e.acked_bandwidth == 0
    &&& e.sequence == 0
    &&& e.acks@ == Seq::<u16>::empty()
    &&& e.sent_buffer.sequence == 0
    &&& e.recv_buffer.sequence == 0
    &&& e.reassembly_buffer.sequence == 0
    &&& forall|s: u16| !e.sent_buffer.live(s)
    &&& forall|s: u16| !e.recv_buffer.live(s)
    &&& forall|s: u16| !e.reassembly_buffer.live(s)
    &&& e.transmitted@ == Seq::<(u16, Seq<u8>)>::empty()
    &&& e.processed@ == Seq::<(u16, Seq<u8>, bool)>::empty()
}

/// Recording an admitted packet never reads the process transcript, so its
/// effect carries over from a state that differs only there.
pub proof fn lemma_accepted_effect_frame(
    pre: Endpoint,
    mid: Endpoint,
    post: Endpoint,
    h: PacketHeader,
    len: int,
)
    requires
        mid == (Endpoint { processed: mid.processed, ..pre }),
        accepted_packet_effect(mid, post, h, len),
    ensures
        accepted_packet_effect(pre, post, h, len),
{
}

/// Everything `send` does to the endpoint: an oversized payload fails and
/// changes nothing; otherwise the next sequence is assigned and advanced,
/// the send is recorded in the sent buffer, and the call succeeds with the
/// payload length — unless fragmenting it would exceed `max_fragments`,
/// which fails `FragmentCountExceeded` after the sequence was already
/// assigned and recorded, before anything is transmitted. On success the
/// transmit transcript grows by exactly the datagrams of
/// [`spec_send_transcript`]. Nothing else moves.
pub open spec fn send_effect(
    pre: Endpoint,
    post: Endpoint,
    data: Seq<u8>,
    r: Result<usize, ReliableError>,
) -> bool {
    &&& post.config == pre.config
    &&& post.time == pre.time
    &&& post.rtt == pre.rtt
    &&& post.packet_loss == pre.packet_loss
    &&& post.sent_bandwidth == pre.sent_bandwidth
    &&& post.received_bandwidth == pre.received_bandwidth
    &&& post.acked_bandwidth == pre.acked_bandwidth
    &&& post.acks == pre.acks
    &&& post.recv_buffer == pre.recv_buffer
    &&& post.reassembly_buffer == pre.reassembly_buffer
    &&& post.processed == pre.processed
    &&& data.len() > pre.config.max_packet_size ==> r == Err::<usize, ReliableError>(
        ReliableError::ExceededMaxPacketSize,
    ) && post == pre
    &&& data.len() <= pre.config.max_packet_size ==> {
        &&& post.sequence == spec_sequence_add(pre.sequence, 1)
        &&& SequenceBuffer::inserted(
            pre.sent_buffer,
            post.sent_buffer,
            pre.sequence,
            SentData {
                time: pre.time,
                size: (data.len() + pre.config.packet_header_size) as usize,
                acked: false,
            },
        )
        &&& r == (if data.len() <= pre.config.fragment_above || spec_num_fragments(
            data.len() as int,
            pre.config.fragment_size as int,
        ) <= pre.config.max_fragments as int {
            Ok::<usize, ReliableError>(data.len() as usize)
        } else {
            Err::<usize, ReliableError>(ReliableError::FragmentCountExceeded)
        })
        &&& r is Ok ==> post.transmitted@ == pre.transmitted@ + spec_send_transcript(pre, data)
        &&& r is Err ==> post.transmitted == pre.transmitted
    }
}

/// Everything `recv` does to the endpoint: an oversized datagram fails and
/// changes nothing; otherwise the prefix byte's low bit picks the
/// single-packet or the fragment path.
pub open spec fn recv_effect(
    pre: Endpoint,
    post: Endpoint,
    data: Seq<u8>,
    r: Result<(), ReliableError>,
) -> bool {
    &&& data.len() > pre.config.max_packet_size ==> r == Err::<(), ReliableError>(
        ReliableError::ExceededMaxPacketSize,
    ) && post == pre
    &&& data.len() <= pre.config.max_packet_size && data[0] & 1 == 0 ==> single_packet_effect(
        pre,
        post,
        data,
        r,
    ) && post.reassembly_buffer == pre.reassembly_buffer
    &&& data.len() <= pre.config.max_packet_size && data[0] & 1 == 1 ==> fragment_packet_effect(
        pre,
        post,
        data,
        r,
    )
}

/// The single-packet path never reads the reassembly buffer, so its effect
/// carries over from a state that differs only there.
pub proof fn lemma_single_effect_frame(
    pre: Endpoint,
    mid: Endpoint,
    post: Endpoint,
    data: Seq<u8>,
    r: Result<(), ReliableError>,
)
    requires
        mid == (Endpoint { reassembly_buffer: mid.reassembly_buffer, ..pre }),
        single_packet_effect(mid, post, data, r),
    ensures
        single_packet_effect(pre, post, data, r),
{
}

/// The endpoint's two callbacks, implemented by its user: `send` hands
/// every outbound datagram to `on_transmit_packet`, and `recv` offers every
/// inbound payload to `on_process_packet`, which admits it by returning
/// true or drops it by returning false.
pub trait EndpointHandler {
    /// Called once per outbound datagram.
    fn on_transmit_packet(&mut self, index: i32, sequence: u16, data: &[u8]);

    /// Called once per inbound payload; false drops the packet without
    /// recording it.
    fn on_process_packet(&mut self, index: i32, sequence: u16, data: &[u8]) -> bool;
}

/// One side of a reliability session.
pub struct Endpoint {
    /// The current clock, in microseconds.
    pub time: u64,
    /// Smoothed round-trip time, in microseconds.
    pub rtt: u64,
    /// Smoothed packet loss, in parts per ten thousand.
    pub packet_loss: u64,
    /// Smoothed outbound bandwidth, in kilobits per second.
    pub sent_bandwidth: u64,
    /// Smoothed inbound bandwidth, in kilobits per second.
    pub received_bandwidth: u64,
    /// Smoothed acked outbound bandwidth, in kilobits per second.
    pub acked_bandwidth: u64,
    /// The configuration this endpoint was built with.
    pub config: EndpointConfig,
    /// Sequences newly acked by the peer, oldest first.
    pub acks: Vec<u16>,
    /// The next sequence `send` will assign.
    pub sequence: u16,
    /// Metadata of recently sent packets.
    pub sent_buffer: SequenceBuffer<SentData>,
    /// Metadata of recently received packets.
    pub recv_buffer: SequenceBuffer<RecvData>,
    /// Packets currently being reassembled.
    pub reassembly_buffer: SequenceBuffer<ReassemblyData>,
    /// Ghost transcript of every datagram handed to `on_transmit_packet`:
    /// the sequence it was sent under and its exact bytes, oldest first.
    /// Appended immediately at each call, so the contracts of `send` can
    /// name the wire bytes.
    pub transmitted: Ghost<Seq<(u16, Seq<u8>)>>,
    /// Ghost transcript of every payload offered to `on_process_packet`:
    /// the parsed sequence, the payload bytes, and the handler's decision.
    /// Appended immediately at each call, so the contracts of `recv` can
    /// tie what was recorded to what the handler answered.
    pub processed: Ghost<Seq<(u16, Seq<u8>, bool)>>,
}

impl Endpoint {
    /// The endpoint's structural invariant: a valid configuration, the
    /// three buffers well formed at their configured capacities, the sent
    /// buffer's window edge in step with the send sequence, the ack list
    /// within its bound, and every reassembly entry sized to the
    /// configured fragment size.
    pub open spec fn wf(self) -> bool {
        &&& self.config.valid()
        &&& self.sent_buffer.wf()
        &&& self.sent_buffer.spec_capacity() == self.config.sent_packets_buffer_size
        &&& self.sent_buffer.sequence == self.sequence
        &&& self.recv_buffer.wf()
        &&& self.recv_buffer.spec_capacity() == self.config.received_packets_buffer_size
        &&& self.reassembly_buffer.wf()
        &&& self.reassembly_buffer.spec_capacity() == self.config.fragment_reassembly_buffer_size
        &&& self.acks@.len() <= self.config.ack_buffer_size
        &&& forall|s: u16|
            self.reassembly_buffer.live(s) ==> (#[trigger] self.reassembly_buffer.at(s)).wf(
                self.config.fragment_size as int,
            ) && self.reassembly_buffer.at(s).num_fragments_received
                < self.reassembly_buffer.at(s).num_fragments_total
        &&& forall|s: u16|
            self.sent_buffer.live(s) ==> (#[trigger] self.sent_buffer.at(s)).size
                <= self.config.max_packet_size + self.config.packet_header_size
        &&& forall|s: u16|
            self.recv_buffer.live(s) ==> (#[trigger] self.recv_buffer.at(s)).size
                <= self.config.max_packet_size + self.config.packet_header_size
    }

    /// An endpoint with empty buffers, an empty ack list, send sequence
    /// zero, and all quality estimates at zero.
    pub fn new(config: EndpointConfig, time: u64) -> (r: Self)
        requires
            config.valid(),
        ensures
            r.wf(),
            spec_fresh_endpoint(r, config, time),
    {
        let sent_buffer = SequenceBuffer::with_capacity(config.sent_packets_buffer_size);
        let recv_buffer = SequenceBuffer::with_capacity(config.received_packets_buffer_size);
        let reassembly_buffer = SequenceBuffer::with_capacity(
            config.fragment_reassembly_buffer_size,
        );
        Endpoint {
            time,
            rtt: 0,
            packet_loss: 0,
            sent_bandwidth: 0,
            received_bandwidth: 0,
            acked_bandwidth: 0,
            config,
            acks: Vec::new(),
            sequence: 0,
            sent_buffer,
            recv_buffer,
            reassembly_buffer,
            transmitted: Ghost(Seq::empty()),
            processed: Ghost(Seq::empty()),
        }
    }

    /// Assigns the next sequence to `payload`, records it as sent, and
    /// hands the resulting datagrams — one, or one per fragment — to
    /// `handler.on_transmit_packet`. Fails without touching anything when
    /// the payload exceeds `max_packet_size`; fails `FragmentCountExceeded`
    /// — after the sequence was assigned and recorded, as the wire protocol
    /// prescribes — when fragmenting would need more than `max_fragments`
    /// pieces.
    pub fn send<H: EndpointHandler>(&mut self, packet: &[u8], handler: &mut H) -> (r: Result<
        usize,
        ReliableError,
    >)
        requires
            old(self).wf(),
        ensures
            final(self).wf(),
            send_effect(*old(self), *final(self), packet@, r),
    {
        if packet.len() > self.config.max_packet_size {
            return Err(ReliableError::ExceededMaxPacketSize);
        }
        let ghost h = spec_outgoing_header(*old(self));
        let sequence = self.sequence;
        self.sequence = sequence_add(sequence, 1);
        let (ack, ack_bits) = self.recv_buffer.ack_bits();
        let send_size = packet.len() + self.config.packet_header_size;
        let sent = SentData::new(self.time, send_size);
        proof {
            lemma_current_not_stale(
                self.sent_buffer.sequence,
                self.config.sent_packets_buffer_size as u16,
            );
        }
        match self.sent_buffer.insert(sent, sequence) {
            Ok(_) => (),
            Err(e) => {
                proof {
                    assert(false);
                }
                return Err(e);
            },
        }
        let header = PacketHeader::new(sequence, ack, ack_bits);
        proof {
            assert(header == h);
        }
        if packet.len() <= self.config.fragment_above {
            let mut datagram: Vec<u8> = Vec::new();
            header.write(&mut datagram);
            datagram.extend_from_slice(packet);
            proof {
                assert(datagram@ =~= h.spec_write() + packet@);
            }
            self.transmitted = Ghost(self.transmitted@.push((sequence, datagram@)));
            proof {
                assert(self.transmitted@ =~= old(self).transmitted@ + spec_send_transcript(
                    *old(self),
                    packet@,
                ));
            }
            handler.on_transmit_packet(self.config.index, sequence, datagram.as_slice());
            Ok(packet.len())
        } else {
            let fragment_size = self.config.fragment_size;
            let remainder: usize = if packet.len() % fragment_size > 0 {
                1
            } else {
                0
            };
            let num_fragments = packet.len() / fragment_size + remainder;
            proof {
                assert(num_fragments == spec_num_fragments(
                    packet@.len() as int,
                    fragment_size as int,
                )) by (nonlinear_arith)
                    requires
                        fragment_size >= 1,
                        num_fragments == packet@.len() as int / fragment_size as int + (
                        if packet@.len() as int % fragment_size as int > 0 {
                            1int
                        } else {
                            0int
                        }),
                ;
                assert(num_fragments >= 1) by (nonlinear_arith)
                    requires
                        fragment_size >= 1,
                        packet@.len() >= 1,
                        num_fragments == spec_num_fragments(
                            packet@.len() as int,
                            fragment_size as int,
                        ),
                ;
            }
            if num_fragments > self.config.max_fragments as usize {
                return Err(ReliableError::FragmentCountExceeded);
            }
            let ghost tview = spec_send_transcript(*old(self), packet@);
            let ghost mid = *self;
            proof {
                assert(tview == Seq::new(
                    num_fragments as nat,
                    |i: int|
                        (
                            sequence,
                            spec_fragment_datagram(
                                h,
                                i,
                                num_fragments as int,
                                packet@,
                                fragment_size as int,
                            ),
                        ),
                ));
                assert(self.transmitted@ =~= mid.transmitted@ + tview.take(0));
            }
            let mut fragment_id: usize = 0;
            while fragment_id < num_fragments
                invariant
                    fragment_id <= num_fragments,
                    1 <= num_fragments <= 256,
                    1 <= fragment_size <= 0x10_0000,
                    num_fragments == spec_num_fragments(packet@.len() as int, fragment_size as int),
                    packet@.len() >= 1,
                    header == h,
                    h.sequence == sequence,
                    tview == Seq::new(
                        num_fragments as nat,
                        |i: int|
                            (
                                sequence,
                                spec_fragment_datagram(
                                    h,
                                    i,
                                    num_fragments as int,
                                    packet@,
                                    fragment_size as int,
                                ),
                            ),
                    ),
                    *self == (Endpoint { transmitted: self.transmitted, ..mid }),
                    self.transmitted@ == mid.transmitted@ + tview.take(fragment_id as int),
                decreases num_fragments - fragment_id,
            {
                let fragment = FragmentHeader::new(fragment_id as u8, num_fragments as u16, header);
                let mut datagram: Vec<u8> = Vec::new();
                fragment.write(&mut datagram);
                proof {
                    assert(fragment_id * fragment_size < packet@.len() && fragment_id
                        * fragment_size + fragment_size <= 256 * 0x10_0000 && (fragment_id + 1)
                        * fragment_size == fragment_id * fragment_size + fragment_size) by (
                    nonlinear_arith)
                        requires
                            1 <= fragment_size <= 0x10_0000,
                            0 <= fragment_id < spec_num_fragments(
                                packet@.len() as int,
                                fragment_size as int,
                            ) <= 256,
                            packet@.len() >= 1,
                    ;
                }
                let cur_start = fragment_id * fragment_size;
                let mut cur_end = cur_start + fragment_size;
                if cur_end > packet.len() {
                    cur_end = packet.len();
                }
                datagram.extend_from_slice(vstd::slice::slice_subrange(packet, cur_start, cur_end));
                proof {
                    assert(fragment == (FragmentHeader {
                        sequence: h.sequence,
                        id: (fragment_id as int) as u8,
                        num_fragments: (num_fragments as int) as u16,
                        packet_header: if fragment_id as int == 0 {
                            Some(h)
                        } else {
                            None
                        },
                    }));
                    assert(datagram@ =~= spec_fragment_datagram(
                        h,
                        fragment_id as int,
                        num_fragments as int,
                        packet@,
                        fragment_size as int,
                    ));
                }
                self.transmitted = Ghost(self.transmitted@.push((sequence, datagram@)));
                proof {
                    assert(tview[fragment_id as int] == (sequence, datagram@));
                    assert(self.transmitted@ =~= mid.transmitted@ + tview.take(
                        fragment_id as int + 1,
                    ));
                }
                handler.on_transmit_packet(self.config.index, sequence, datagram.as_slice());
                fragment_id += 1;
            }
            proof {
                assert(tview.take(num_fragments as int) =~= tview);
            }
            Ok(packet.len())
        }
    }

    /// Takes one inbound datagram. A datagram longer than
    /// `max_packet_size` is rejected outright; otherwise the low bit of
    /// its first byte routes it down the single-packet path or the
    /// fragment path, whose effects `single_packet_effect` and
    /// `fragment_packet_effect` state exactly.
    pub fn recv<H: EndpointHandler>(&mut self, packet: &[u8], handler: &mut H) -> (r: Result<
        (),
        ReliableError,
    >)
        requires
            old(self).wf(),
            packet@.len() >= 1,
        ensures
            final(self).wf(),
            recv_effect(*old(self), *final(self), packet@, r),
    {
        if packet.len() > self.config.max_packet_size {
            return Err(ReliableError::ExceededMaxPacketSize);
        }
        let prefix = packet[0];
        if prefix & 1 == 0 {
            self.process_single(packet, handler)
        } else {
            self.process_fragment(packet, handler)
        }
    }

    /// The single-packet path: parse the header, screen the sequence,
    /// offer the payload to the handler, and — if it admits it — record
    /// the receipt and walk the header's ack feedback.
    fn process_single<H: EndpointHandler>(&mut self, packet: &[u8], handler: &mut H) -> (r: Result<
        (),
        ReliableError,
    >)
        requires
            old(self).wf(),
        ensures
            final(self).wf(),
            final(self).reassembly_buffer == old(self).reassembly_buffer,
            single_packet_effect(*old(self), *final(self), packet@, r),
    {
        if packet.len() > self.config.max_packet_size {
            return Err(ReliableError::ExceededMaxPacketSize);
        }
        let (header, consumed) = match PacketHeader::parse(packet) {
            Ok(v) => v,
            Err(_) => {
                return Err(ReliableError::InvalidHeader);
            },
        };
        if !self.recv_buffer.check_sequence(header.sequence()) {
            return Err(ReliableError::StalePacket);
        }
        let payload = vstd::slice::slice_subrange(packet, consumed, packet.len());
        let accepted = handler.on_process_packet(self.config.index, header.sequence(), payload);
        self.processed = Ghost(self.processed@.push((header.sequence, payload@, accepted)));
        if accepted {
            let ghost mid = *self;
            self.record_packet(header, packet.len());
            proof {
                lemma_accepted_effect_frame(
                    *old(self),
                    mid,
                    *self,
                    header,
                    packet@.len() as int,
                );
            }
        }
        Ok(())
    }

    /// Records an admitted single packet: its receipt enters the receive
    /// buffer, and its ack feedback is walked into the ack list, the sent
    /// entries, and the round-trip estimate. This is the whole effect of a
    /// packet the handler admits; a packet it refuses changes nothing.
    fn record_packet(&mut self, header: PacketHeader, len: usize)
        requires
            old(self).wf(),
            old(self).recv_buffer.spec_check_sequence(header.sequence),
            len <= old(self).config.max_packet_size,
        ensures
            final(self).wf(),
            final(self).reassembly_buffer == old(self).reassembly_buffer,
            final(self).processed == old(self).processed,
            accepted_packet_effect(*old(self), *final(self), header, len as int),
    {
        let rd = RecvData::new(self.time, self.config.packet_header_size + len);
        match self.recv_buffer.insert(rd, header.sequence()) {
            Ok(_) => (),
            Err(_) => {
                proof {
                    assert(false);
                }
            },
        }
        self.apply_acks(header.ack(), header.ack_bits());
    }

    /// The fragment path: parse the fragment header, validate the
    /// fragment against the entry (or create the entry from fragment
    /// zero), deposit the payload at its offset, and on completion feed
    /// the reconstructed packet back through the single-packet path.
    #[verifier::rlimit(100)]
    fn process_fragment<H: EndpointHandler>(&mut self, packet: &[u8], handler: &mut H) -> (r:
        Result<(), ReliableError>)
        requires
            old(self).wf(),
        ensures
            final(self).wf(),
            fragment_packet_effect(*old(self), *final(self), packet@, r),
    {
        let (fh, consumed) = match FragmentHeader::parse(packet) {
            Ok(v) => v,
            Err(_) => {
                return Err(ReliableError::InvalidFragment);
            },
        };
        let ghost payload_view = packet@.skip(consumed as int);
        let payload = vstd::slice::slice_subrange(packet, consumed, packet.len());
        proof {
            assert(payload@ =~= payload_view);
        }
        let fragment_size = self.config.fragment_size;
        let id = fh.id() as usize;
        let sequence = fh.sequence();
        let mut have_entry = false;
        match self.reassembly_buffer.get(sequence) {
            Some(e) => {
                if e.num_fragments_total != fh.count() as usize {
                    return Err(ReliableError::InvalidFragment);
                }
                if e.fragments_received[id] {
                    return Err(ReliableError::InvalidFragment);
                }
                if id + 1 < e.num_fragments_total {
                    if payload.len() != fragment_size {
                        return Err(ReliableError::InvalidFragment);
                    }
                } else {
                    if payload.len() > fragment_size {
                        return Err(ReliableError::InvalidFragment);
                    }
                }
                have_entry = true;
            },
            None => (),
        }
        if have_entry {
            let mut entry = match self.reassembly_buffer.remove(sequence) {
                Some(e) => e,
                None => {
                    proof {
                        assert(false);
                    }
                    return Err(ReliableError::InvalidFragment);
                },
            };
            entry.deposit(id, payload, fragment_size);
            if entry.num_fragments_received == entry.num_fragments_total {
                let ghost mid = *self;
                let ghost e_snap = entry;
                let res = self.complete_packet(entry, handler);
                proof {
                    lemma_single_effect_frame(
                        *old(self),
                        mid,
                        *self,
                        PacketHeader {
                            sequence: e_snap.sequence,
                            ack: e_snap.ack,
                            ack_bits: e_snap.ack_bits,
                        }.spec_write() + e_snap.buffer@.take(e_snap.packet_bytes as int),
                        res,
                    );
                }
                res
            } else {
                self.reassembly_buffer.restore(sequence, entry);
                Ok(())
            }
        } else {
            if fh.id() != 0 {
                return Err(ReliableError::InvalidFragment);
            }
            let total = fh.count() as usize;
            if 1 < total {
                if payload.len() != fragment_size {
                    return Err(ReliableError::InvalidFragment);
                }
            } else {
                if payload.len() > fragment_size {
                    return Err(ReliableError::InvalidFragment);
                }
            }
            if !self.reassembly_buffer.check_sequence(sequence) {
                return Err(ReliableError::StaleSequence);
            }
            let ph = match fh.packet_header() {
                Some(p) => p,
                None => {
                    proof {
                        assert(false);
                    }
                    return Err(ReliableError::InvalidFragment);
                },
            };
            proof {
                assert(total * fragment_size <= 256 * 0x10_0000 && total * fragment_size
                    >= payload@.len()) by (nonlinear_arith)
                    requires
                        1 <= total <= 256,
                        1 <= fragment_size <= 0x10_0000,
                        payload@.len() <= fragment_size,
                ;
            }
            let prealloc = total * fragment_size;
            let mut entry = ReassemblyData::new(
                sequence,
                ph.ack(),
                ph.ack_bits(),
                total,
                consumed,
                prealloc,
            );
            entry.deposit(0, payload, fragment_size);
            proof {
                let zeros = Seq::new(prealloc as nat, |i: int| 0u8);
                assert(zeros.take(0) =~= Seq::<u8>::empty());
                assert(zeros.skip(payload_view.len() as int) =~= Seq::new(
                    (prealloc - payload_view.len()) as nat,
                    |i: int| 0u8,
                ));
                assert(entry.buffer@ =~= payload_view + Seq::new(
                    (prealloc - payload_view.len()) as nat,
                    |i: int| 0u8,
                ));
                assert(fresh_deposited(
                    entry,
                    FragmentHeader::spec_parse(packet@).unwrap().0,
                    payload_view,
                    fragment_size as int,
                    consumed as int,
                ));
            }
            let ghost fresh_snap = entry;
            match self.reassembly_buffer.insert(entry, sequence) {
                Ok(_) => (),
                Err(_) => {
                    proof {
                        assert(false);
                    }
                    return Err(ReliableError::StaleSequence);
                },
            }
            if total == 1 {
                let entry2 = match self.reassembly_buffer.remove(sequence) {
                    Some(e) => e,
                    None => {
                        proof {
                            assert(false);
                        }
                        return Err(ReliableError::InvalidFragment);
                    },
                };
                proof {
                    assert(entry2 == fresh_snap);
                }
                let ghost mid = *self;
                let ghost e_snap = entry2;
                let res = self.complete_packet(entry2, handler);
                proof {
                    assert(e_snap.buffer@.take(e_snap.packet_bytes as int) =~= payload_view);
                    assert(PacketHeader {
                        sequence: e_snap.sequence,
                        ack: e_snap.ack,
                        ack_bits: e_snap.ack_bits,
                    } == FragmentHeader::spec_parse(packet@).unwrap().0.packet_header.unwrap());
                    lemma_single_effect_frame(
                        *old(self),
                        mid,
                        *self,
                        PacketHeader {
                            sequence: e_snap.sequence,
                            ack: e_snap.ack,
                            ack_bits: e_snap.ack_bits,
                        }.spec_write() + e_snap.buffer@.take(e_snap.packet_bytes as int),
                        res,
                    );
                }
                res
            } else {
                Ok(())
            }
        }
    }

    /// Reconstructs the datagram a completed reassembly entry holds — the
    /// outer packet header re-serialized, then the payload — and runs it
    /// through the single-packet path.
    fn complete_packet<H: EndpointHandler>(&mut self, entry: ReassemblyData, handler: &mut H) -> (r:
        Result<(), ReliableError>)
        requires
            old(self).wf(),
            entry.packet_bytes <= entry.buffer@.len(),
        ensures
            final(self).wf(),
            final(self).reassembly_buffer == old(self).reassembly_buffer,
            single_packet_effect(
                *old(self),
                *final(self),
                PacketHeader {
                    sequence: entry.sequence,
                    ack: entry.ack,
                    ack_bits: entry.ack_bits,
                }.spec_write() + entry.buffer@.take(entry.packet_bytes as int),
                r,
            ),
    {
        let header = PacketHeader::new(entry.sequence, entry.ack, entry.ack_bits);
        let mut datagram: Vec<u8> = Vec::new();
        header.write(&mut datagram);
        datagram.extend_from_slice(
            vstd::slice::slice_subrange(entry.buffer.as_slice(), 0, entry.packet_bytes),
        );
        proof {
            assert(datagram@ =~= header.spec_write() + entry.buffer@.take(
                entry.packet_bytes as int,
            ));
        }
        self.process_single(datagram.as_slice(), handler)
    }

    /// Walks the 32 bits of an inbound (`ack`, `ack_bits`) pair: each set
    /// bit `i` acknowledges sequence `ack - i`. A sent entry seen for the
    /// first time is appended to the ack list (while it has room), marked
    /// acked, and its round-trip sample folded into the smoothed estimate;
    /// an entry already acked, or a sequence the sent buffer no longer
    /// holds, changes nothing — so one sent packet can enter the ack list
    /// at most once.
    fn apply_acks(&mut self, ack: u16, ack_bits: u32)
        requires
            old(self).wf(),
        ensures
            final(self).wf(),
            ({
                let w = spec_ack_walk(
                    AckWalk {
                        acks: old(self).acks@,
                        entries: old(self).sent_buffer.entries@,
                        rtt: old(self).rtt,
                    },
                    old(self).sent_buffer.entry_sequences@,
                    old(self).config.sent_packets_buffer_size as int,
                    ack,
                    ack_bits,
                    old(self).config.ack_buffer_size as int,
                    old(self).time,
                    old(self).config.rtt_smoothing_factor,
                    0,
                );
                &&& final(self).acks@ == w.acks
                &&& final(self).sent_buffer.entries@ == w.entries
                &&& final(self).rtt == w.rtt
            }),
            final(self).sent_buffer.entry_sequences@ == old(self).sent_buffer.entry_sequences@,
            final(self).sent_buffer.sequence == old(self).sent_buffer.sequence,
            final(self).recv_buffer == old(self).recv_buffer,
            final(self).reassembly_buffer == old(self).reassembly_buffer,
            final(self).config == old(self).config,
            final(self).time == old(self).time,
            final(self).sequence == old(self).sequence,
            final(self).packet_loss == old(self).packet_loss,
            final(self).sent_bandwidth == old(self).sent_bandwidth,
            final(self).received_bandwidth == old(self).received_bandwidth,
            final(self).acked_bandwidth == old(self).acked_bandwidth,
            final(self).transmitted == old(self).transmitted,
            final(self).processed == old(self).processed,
            old(self).acks@.is_prefix_of(final(self).acks@),
            forall|j: int|
                old(self).acks@.len() <= j < final(self).acks@.len() ==> {
                    let s = #[trigger] final(self).acks@[j];
                    &&& old(self).sent_buffer.live(s)
                    &&& !old(self).sent_buffer.at(s).acked
                    &&& final(self).sent_buffer.at(s).acked
                },
            forall|k: u16|
                #[trigger] old(self).sent_buffer.live(k) && old(self).sent_buffer.at(k).acked
                    ==> final(self).sent_buffer.at(k).acked,
            forall|k: u16|
                #[trigger] old(self).sent_buffer.live(k) ==> final(self).sent_buffer.at(k).time
                    == old(self).sent_buffer.at(k).time && final(self).sent_buffer.at(k).size
                    == old(self).sent_buffer.at(k).size,
    {
        let ghost tags = self.sent_buffer.entry_sequences@;
        let ghost cap = self.config.sent_packets_buffer_size as int;
        let ghost ack_cap = self.config.ack_buffer_size as int;
        let ghost now = self.time;
        let ghost factor = self.config.rtt_smoothing_factor;
        let ghost w_end = spec_ack_walk(
            AckWalk { acks: self.acks@, entries: self.sent_buffer.entries@, rtt: self.rtt },
            tags,
            cap,
            ack,
            ack_bits,
            ack_cap,
            now,
            factor,
            0,
        );
        let mut i: u32 = 0;
        while i < 32
            invariant
                self.wf(),
                i <= 32,
                self.config == old(self).config,
                self.time == old(self).time,
                self.sequence == old(self).sequence,
                self.packet_loss == old(self).packet_loss,
                self.sent_bandwidth == old(self).sent_bandwidth,
                self.received_bandwidth == old(self).received_bandwidth,
                self.acked_bandwidth == old(self).acked_bandwidth,
                self.transmitted == old(self).transmitted,
                self.processed == old(self).processed,
                self.recv_buffer == old(self).recv_buffer,
                self.reassembly_buffer == old(self).reassembly_buffer,
                self.sent_buffer.entry_sequences@ == tags,
                self.sent_buffer.sequence == old(self).sent_buffer.sequence,
                tags == old(self).sent_buffer.entry_sequences@,
                cap == old(self).config.sent_packets_buffer_size as int,
                ack_cap == old(self).config.ack_buffer_size as int,
                now == old(self).time,
                factor == old(self).config.rtt_smoothing_factor,
                w_end == spec_ack_walk(
                    AckWalk {
                        acks: old(self).acks@,
                        entries: old(self).sent_buffer.entries@,
                        rtt: old(self).rtt,
                    },
                    tags,
                    cap,
                    ack,
                    ack_bits,
                    ack_cap,
                    now,
                    factor,
                    0,
                ),
                spec_ack_walk(
                    AckWalk { acks: self.acks@, entries: self.sent_buffer.entries@, rtt: self.rtt },
                    tags,
                    cap,
                    ack,
                    ack_bits,
                    ack_cap,
                    now,
                    factor,
                    i as int,
                ) == w_end,
            decreases 32 - i,
        {
            let ghost w_cur = AckWalk {
                acks: self.acks@,
                entries: self.sent_buffer.entries@,
                rtt: self.rtt,
            };
            if (ack_bits >> i) & 1 == 1 {
                let ack_sequence = crate::sequence::sequence_sub(ack, i as u16);
                let looked: Option<SentData> = match self.sent_buffer.get(ack_sequence) {
                    Some(e) => Some(*e),
                    None => None,
                };
                match looked {
                    Some(ec) => {
                        if !ec.acked && self.acks.len() < self.config.ack_buffer_size {
                            self.acks.push(ack_sequence);
                            self.sent_buffer.restore(
                                ack_sequence,
                                SentData { time: ec.time, size: ec.size, acked: true },
                            );
                            proof {
                                assert(self.sent_buffer.entry_sequences@ =~= tags);
                            }
                            let sample: u64 = if self.time >= ec.time {
                                self.time - ec.time
                            } else {
                                0
                            };
                            self.rtt = Self::smooth_rtt(
                                self.rtt,
                                sample,
                                self.config.rtt_smoothing_factor,
                            );
                        }
                    },
                    None => (),
                }
            }
            proof {
                let w_next = AckWalk {
                    acks: self.acks@,
                    entries: self.sent_buffer.entries@,
                    rtt: self.rtt,
                };
                assert(w_next == (if bit_set(ack_bits, i) {
                    spec_ack_walk_step(
                        w_cur,
                        tags,
                        cap,
                        spec_sequence_sub(ack, i as u16),
                        ack_cap,
                        now,
                        factor,
                    )
                } else {
                    w_cur
                }));
            }
            i += 1;
        }
        proof {
            let w0 = AckWalk {
                acks: old(self).acks@,
                entries: old(self).sent_buffer.entries@,
                rtt: old(self).rtt,
            };
            let w_fin = AckWalk {
                acks: self.acks@,
                entries: self.sent_buffer.entries@,
                rtt: self.rtt,
            };
            assert(spec_ack_walk(w_fin, tags, cap, ack, ack_bits, ack_cap, now, factor, 32)
                == w_fin);
            lemma_ack_walk_properties(w0, tags, cap, ack, ack_bits, ack_cap, now, factor, 0);
            assert forall|j: int|
                old(self).acks@.len() <= j < self.acks@.len() implies {
                let s = #[trigger] self.acks@[j];
                &&& old(self).sent_buffer.live(s)
                &&& !old(self).sent_buffer.at(s).acked
                &&& self.sent_buffer.at(s).acked
            } by {
                let s = self.acks@[j];
                let t = s as int % cap;
                assert(tags[t] == s as u32);
                assert(old(self).sent_buffer.spec_index_of(s) == t);
            }
            assert forall|k: u16|
                #[trigger] old(self).sent_buffer.live(k) && old(self).sent_buffer.at(
                    k,
                ).acked implies self.sent_buffer.at(k).acked by {
                let t = old(self).sent_buffer.spec_index_of(k);
                assert(0 <= t < cap);
            }
            assert forall|k: u16| #[trigger] old(self).sent_buffer.live(k) implies self
                .sent_buffer.at(k).time == old(self).sent_buffer.at(k).time && self.sent_buffer.at(
                k,
            ).size == old(self).sent_buffer.at(k).size by {
                let t = old(self).sent_buffer.spec_index_of(k);
                assert(0 <= t < cap);
                assert(self.sent_buffer.entries@[t] == old(self).sent_buffer.entries@[t] || (old(
                    self,
                ).sent_buffer.entries@[t] is Some && self.sent_buffer.entries@[t] is Some
                    && self.sent_buffer.entries@[t].unwrap().time == old(
                    self,
                ).sent_buffer.entries@[t].unwrap().time && self.sent_buffer.entries@[t].unwrap().size
                    == old(self).sent_buffer.entries@[t].unwrap().size));
            }
        }
    }

    /// One smoothing step of the round-trip estimate: adopt the first
    /// positive sample, then move as `smooth` does.
    fn smooth_rtt(est: u64, sample: u64, factor: u32) -> (r: u64)
        requires
            factor <= SMOOTHING_UNIT,
        ensures
            r == spec_smooth_rtt(est, sample, factor),
    {
        if est == 0 && sample > 0 {
            sample
        } else {
            Self::smooth(est, sample, factor)
        }
    }

    /// One smoothing step of a quality estimate, in parts per ten thousand
    /// of the gap between the old estimate and the new sample.
    fn smooth(est: u64, sample: u64, factor: u32) -> (r: u64)
        requires
            factor <= SMOOTHING_UNIT,
        ensures
            r == spec_smooth(est, sample, factor),
    {
        if est == sample {
            est
        } else if sample > est {
            let d = sample - est;
            proof {
                assert((d as int) * (factor as int) / (SMOOTHING_UNIT as int) <= d as int
                    && (d as int) * (factor as int) >= 0) by (nonlinear_arith)
                    requires
                        0 <= factor <= SMOOTHING_UNIT as int,
                        d >= 0,
                ;
            }
            let step = ((d as u128) * (factor as u128) / (SMOOTHING_UNIT as u128)) as u64;
            est + step
        } else {
            let d = est - sample;
            proof {
                assert((d as int) * (factor as int) / (SMOOTHING_UNIT as int) <= d as int
                    && (d as int) * (factor as int) >= 0) by (nonlinear_arith)
                    requires
                        0 <= factor <= SMOOTHING_UNIT as int,
                        d >= 0,
                ;
            }
            let step = ((d as u128) * (factor as u128) / (SMOOTHING_UNIT as u128)) as u64;
            est - step
        }
    }

    /// Advances the clock and refreshes the smoothed quality estimates:
    /// packet loss from the fraction of unacked sent entries older than
    /// twice the round-trip estimate, and the three bandwidths from the
    /// bytes and time span the sent and received buffers currently cover.
    /// The round-trip estimate itself moves only inside `recv`.
    pub fn update(&mut self, time: u64)
        requires
            old(self).wf(),
        ensures
            final(self).wf(),
            update_effect(*old(self), *final(self), time),
    {
        self.time = time;
        let (n, bytes, acked_bytes, tmin, tmax, dropped) = self.sent_stats(time);
        let loss_sample: u64 = if n == 0 {
            0
        } else {
            dropped * 10000 / n
        };
        self.packet_loss = Self::smooth(
            self.packet_loss,
            loss_sample,
            self.config.packet_loss_smoothing_factor,
        );
        let sent_sample: u64 = if n == 0 || tmax <= tmin {
            0
        } else {
            bytes * 8000 / (tmax - tmin)
        };
        let acked_sample: u64 = if n == 0 || tmax <= tmin {
            0
        } else {
            acked_bytes * 8000 / (tmax - tmin)
        };
        self.sent_bandwidth = Self::smooth(
            self.sent_bandwidth,
            sent_sample,
            self.config.bandwidth_smoothing_factor,
        );
        self.acked_bandwidth = Self::smooth(
            self.acked_bandwidth,
            acked_sample,
            self.config.bandwidth_smoothing_factor,
        );
        let (rn, rbytes, rtmin, rtmax) = self.recv_stats();
        let recv_sample: u64 = if rn == 0 || rtmax <= rtmin {
            0
        } else {
            rbytes * 8000 / (rtmax - rtmin)
        };
        self.received_bandwidth = Self::smooth(
            self.received_bandwidth,
            recv_sample,
            self.config.bandwidth_smoothing_factor,
        );
    }

    /// One pass over the sent buffer: live entries, their bytes, the acked
    /// subset's bytes, the time span, and how many count as dropped at
    /// clock `now`.
    fn sent_stats(&self, now: u64) -> (r: (u64, u64, u64, u64, u64, u64))
        requires
            self.wf(),
        ensures
            ({
                let cap = self.config.sent_packets_buffer_size as int;
                let st = spec_sent_stats(
                    self.sent_buffer.entry_sequences@,
                    self.sent_buffer.entries@,
                    cap,
                );
                let (n, d) = spec_loss_stats(
                    self.sent_buffer.entry_sequences@,
                    self.sent_buffer.entries@,
                    cap,
                    now,
                    self.rtt,
                );
                &&& r.0 as int == st.n == n
                &&& r.1 as int == st.bytes
                &&& r.2 as int == st.acked_bytes
                &&& r.3 == st.tmin
                &&& r.4 == st.tmax
                &&& r.5 as int == d
                &&& r.0 <= 32767 && r.5 <= r.0
                &&& r.1 <= 0x10_0000_0000 && r.2 <= r.1
            }),
    {
        let ghost tags = self.sent_buffer.entry_sequences@;
        let ghost slots = self.sent_buffer.entries@;
        let cap = self.sent_buffer.capacity();
        let bound = self.config.max_packet_size + self.config.packet_header_size;
        let mut i: usize = 0;
        let mut n: u64 = 0;
        let mut bytes: u64 = 0;
        let mut acked_bytes: u64 = 0;
        let mut tmin: u64 = 0;
        let mut tmax: u64 = 0;
        let mut dropped: u64 = 0;
        while i < cap
            invariant
                self.wf(),
                i <= cap,
                cap == self.config.sent_packets_buffer_size,
                cap == self.sent_buffer.spec_capacity(),
                bound == self.config.max_packet_size + self.config.packet_header_size,
                bound <= 0x11_0000,
                tags == self.sent_buffer.entry_sequences@,
                slots == self.sent_buffer.entries@,
                ({
                    let st = spec_sent_stats(tags, slots, i as int);
                    &&& n as int == st.n
                    &&& bytes as int == st.bytes
                    &&& acked_bytes as int == st.acked_bytes
                    &&& tmin == st.tmin
                    &&& tmax == st.tmax
                }),
                dropped as int == spec_loss_stats(tags, slots, i as int, now, self.rtt).1,
                n as int == spec_loss_stats(tags, slots, i as int, now, self.rtt).0,
                n <= i,
                dropped <= n,
                acked_bytes <= bytes,
                bytes as int <= i * (bound as int),
            decreases cap - i,
        {
            let tag = self.sent_buffer.slot_tag(i);
            proof {
                assert((i as int + 1) * (bound as int) == i * (bound as int) + bound && i * (
                bound as int) + bound <= 32767 * 0x11_0000) by (nonlinear_arith)
                    requires
                        0 <= i < 32767,
                        0 <= bound <= 0x11_0000,
                ;
            }
            if tag != crate::sequence_buffer::SEQUENCE_BUFFER_EMPTY {
                let e: SentData = match self.sent_buffer.slot_entry(i) {
                    Some(e) => *e,
                    None => {
                        proof {
                            assert(false);
                        }
                        SentData::new(0, 0)
                    },
                };
                proof {
                    let s0 = tag as u16;
                    assert(self.sent_buffer.live(s0));
                    assert(self.sent_buffer.at(s0) == e);
                }
                n += 1;
                bytes += e.size as u64;
                if e.acked {
                    acked_bytes += e.size as u64;
                }
                if n == 1 || e.time < tmin {
                    tmin = e.time;
                }
                if n == 1 || e.time > tmax {
                    tmax = e.time;
                }
                let is_dropped: bool = !e.acked && now >= e.time && ((now - e.time) as u128 > 2
                    * (self.rtt as u128));
                if is_dropped {
                    dropped += 1;
                }
            }
            i += 1;
        }
        proof {
            assert(cap * (bound as int) <= 32767 * 0x11_0000) by (nonlinear_arith)
                requires
                    0 <= cap <= 32767,
                    0 <= bound <= 0x11_0000,
            ;
            assert(i * (bound as int) <= cap * (bound as int)) by (nonlinear_arith)
                requires
                    0 <= i <= cap,
                    0 <= bound,
            ;
        }
        (n, bytes, acked_bytes, tmin, tmax, dropped)
    }

    /// One pass over the receive buffer: live entries, their bytes, and
    /// the time span.
    fn recv_stats(&self) -> (r: (u64, u64, u64, u64))
        requires
            self.wf(),
        ensures
            ({
                let st = spec_recv_stats(
                    self.recv_buffer.entry_sequences@,
                    self.recv_buffer.entries@,
                    self.config.received_packets_buffer_size as int,
                );
                &&& r.0 as int == st.n
                &&& r.1 as int == st.bytes
                &&& r.2 == st.tmin
                &&& r.3 == st.tmax
                &&& r.0 <= 32767
                &&& r.1 <= 0x10_0000_0000
            }),
    {
        let ghost tags = self.recv_buffer.entry_sequences@;
        let ghost slots = self.recv_buffer.entries@;
        let cap = self.recv_buffer.capacity();
        let bound = self.config.max_packet_size + self.config.packet_header_size;
        let mut i: usize = 0;
        let mut n: u64 = 0;
        let mut bytes: u64 = 0;
        let mut tmin: u64 = 0;
        let mut tmax: u64 = 0;
        while i < cap
            invariant
                self.wf(),
                i <= cap,
                cap == self.config.received_packets_buffer_size,
                cap == self.recv_buffer.spec_capacity(),
                bound == self.config.max_packet_size + self.config.packet_header_size,
                bound <= 0x11_0000,
                tags == self.recv_buffer.entry_sequences@,
                slots == self.recv_buffer.entries@,
                ({
                    let st = spec_recv_stats(tags, slots, i as int);
                    &&& n as int == st.n
                    &&& bytes as int == st.bytes
                    &&& tmin == st.tmin
                    &&& tmax == st.tmax
                }),
                n <= i,
                bytes as int <= i * (bound as int),
            decreases cap - i,
        {
            let tag = self.recv_buffer.slot_tag(i);
            proof {
                assert((i as int + 1) * (bound as int) == i * (bound as int) + bound && i * (
                bound as int) + bound <= 32767 * 0x11_0000) by (nonlinear_arith)
                    requires
                        0 <= i < 32767,
                        0 <= bound <= 0x11_0000,
                ;
            }
            if tag != crate::sequence_buffer::SEQUENCE_BUFFER_EMPTY {
                let e: RecvData = match self.recv_buffer.slot_entry(i) {
                    Some(e) => *e,
                    None => {
                        proof {
                            assert(false);
                        }
                        RecvData::new(0, 0)
                    },
                };
                proof {
                    let s0 = tag as u16;
                    assert(self.recv_buffer.live(s0));
                    assert(self.recv_buffer.at(s0) == e);
                }
                n += 1;
                bytes += e.size as u64;
                if n == 1 || e.time < tmin {
                    tmin = e.time;
                }
                if n == 1 || e.time > tmax {
                    tmax = e.time;
                }
            }
            i += 1;
        }
        proof {
            assert(cap * (bound as int) <= 32767 * 0x11_0000) by (nonlinear_arith)
                requires
                    0 <= cap <= 32767,
                    0 <= bound <= 0x11_0000,
            ;
            assert(i * (bound as int) <= cap * (bound as int)) by (nonlinear_arith)
                requires
                    0 <= i <= cap,
                    0 <= bound,
            ;
        }
        (n, bytes, tmin, tmax)
    }

    /// Empties the ack list and all three buffers, restarts the send
    /// sequence at zero, and zeroes the quality estimates. The clock and
    /// the configuration stay.
    pub fn reset(&mut self)
        requires
            old(self).wf(),
        ensures
            final(self).wf(),
            reset_effect(*old(self), *final(self)),
    {
        self.sequence = 0;
        self.rtt = 0;
        self.packet_loss = 0;
        self.sent_bandwidth = 0;
        self.received_bandwidth = 0;
        self.acked_bandwidth = 0;
        self.acks.clear();
        self.sent_buffer.reset();
        self.recv_buffer.reset();
        self.reassembly_buffer.reset();
    }

    /// Empties the ack list and nothing else.
    pub fn clear_acks(&mut self)
        requires
            old(self).wf(),
        ensures
            final(self).wf(),
            final(self).acks@ == Seq::<u16>::empty(),
            *final(self) == (Endpoint { acks: final(self).acks, ..*old(self) }),
    {
        self.acks.clear();
    }

    /// The sequence the next `send` will assign.
    pub fn next_sequence(&self) -> (r: u16)
        ensures
            r == self.sequence,
    {
        self.sequence
    }

    /// Sequences newly acked by the peer since the last `clear_acks`, in
    /// the order they were discovered.
    pub fn acks(&self) -> (r: &[u16])
        ensures
            r@ == self.acks@,
    {
        self.acks.as_slice()
    }

    /// Smoothed round-trip time, in microseconds.
    pub fn rtt(&self) -> (r: u64)
        ensures
            r == self.rtt,
    {
        self.rtt
    }

    /// Smoothed packet loss, in parts per ten thousand.
    pub fn packet_loss(&self) -> (r: u64)
        ensures
            r == self.packet_loss,
    {
        self.packet_loss
    }

    /// Smoothed (sent, received, acked) bandwidth, in kilobits per second.
    pub fn bandwidth(&self) -> (r: (u64, u64, u64))
        ensures
            r == (self.sent_bandwidth, self.received_bandwidth, self.acked_bandwidth),
    {
        (self.sent_bandwidth, self.received_bandwidth, self.acked_bandwidth)
    }
}

} // verus!
