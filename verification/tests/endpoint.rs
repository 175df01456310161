//! End-to-end behaviour of the endpoint: sending, fragmentation and
//! reassembly, ack feedback, staleness, and the quality estimates.

use reliable::Endpoint;
use reliable::EndpointConfig;
use reliable::EndpointHandler;
use reliable::FragmentHeader;
use reliable::PacketHeader;
use reliable::Reliable;
use reliable::ReliableError;

/// Collects outbound datagrams, checks inbound payloads against an
/// expected byte string, and counts them.
struct TestHandler {
    outbox: Vec<Vec<u8>>,
    sequences: Vec<u16>,
    expected: Vec<u8>,
    processed: usize,
    accept: bool,
}

impl TestHandler {
    fn new(expected: Vec<u8>) -> Self {
        TestHandler { outbox: Vec::new(), sequences: Vec::new(), expected, processed: 0, accept: true }
    }
}

impl EndpointHandler for TestHandler {
    fn on_transmit_packet(&mut self, _index: i32, sequence: u16, data: &[u8]) {
        self.sequences.push(sequence);
        self.outbox.push(data.to_vec());
    }

    fn on_process_packet(&mut self, _index: i32, _sequence: u16, data: &[u8]) -> bool {
        assert_eq!(data, self.expected.as_slice());
        self.processed += 1;
        self.accept
    }
}

#[test]
fn fragments() {
    let mut time: u64 = 100_000_000;
    let data_align = vec![0x41u8; 2048];
    let data_remainder = vec![0x41u8; 4092];

    let mut one = Endpoint::new(EndpointConfig::new("one"), time);
    let mut two = Endpoint::new(EndpointConfig::new("two"), time);
    let mut h_one = TestHandler::new(data_align.clone());
    let mut h_two = TestHandler::new(data_align.clone());

    for _ in 0..200 {
        if !h_two.outbox.is_empty() {
            let p = h_two.outbox.remove(0);
            one.recv(&p, &mut h_one).unwrap();
        }
        if !h_one.outbox.is_empty() {
            let p = h_one.outbox.remove(0);
            two.recv(&p, &mut h_two).unwrap();
        }
        one.send(&data_align, &mut h_one).unwrap();
        two.send(&data_align, &mut h_two).unwrap();
        time += 10_000;
        one.update(time);
        two.update(time);
    }
    while !h_one.outbox.is_empty() {
        let p = h_one.outbox.remove(0);
        two.recv(&p, &mut h_two).unwrap();
    }
    while !h_two.outbox.is_empty() {
        let p = h_two.outbox.remove(0);
        one.recv(&p, &mut h_one).unwrap();
    }
    assert_eq!(h_one.processed, 200);
    assert_eq!(h_two.processed, 200);

    h_one.expected = data_remainder.clone();
    h_two.expected = data_remainder.clone();

    for _ in 0..200 {
        if !h_two.outbox.is_empty() {
            let p = h_two.outbox.remove(0);
            one.recv(&p, &mut h_one).unwrap();
        }
        if !h_one.outbox.is_empty() {
            let p = h_one.outbox.remove(0);
            two.recv(&p, &mut h_two).unwrap();
        }
        one.send(&data_remainder, &mut h_one).unwrap();
        two.send(&data_remainder, &mut h_two).unwrap();
        time += 10_000;
        one.update(time);
        two.update(time);
    }
    while !h_one.outbox.is_empty() {
        let p = h_one.outbox.remove(0);
        two.recv(&p, &mut h_two).unwrap();
    }
    while !h_two.outbox.is_empty() {
        let p = h_two.outbox.remove(0);
        one.recv(&p, &mut h_one).unwrap();
    }
    assert_eq!(h_one.processed, 400);
    assert_eq!(h_two.processed, 400);
}

#[test]
fn acks() {
    let mut time: u64 = 100_000_000;
    let test_data = vec![0x41u8; 24];

    let mut one = Endpoint::new(EndpointConfig::new("one"), time);
    let mut two = Endpoint::new(EndpointConfig::new("two"), time);
    let mut h_one = TestHandler::new(test_data.clone());
    let mut h_two = TestHandler::new(test_data.clone());

    for _ in 0..200 {
        if !h_two.outbox.is_empty() {
            let p = h_two.outbox.remove(0);
            one.recv(&p, &mut h_one).unwrap();
        }
        if !h_one.outbox.is_empty() {
            let p = h_one.outbox.remove(0);
            two.recv(&p, &mut h_two).unwrap();
        }
        one.send(&test_data, &mut h_one).unwrap();
        two.send(&test_data, &mut h_two).unwrap();
        time += 10_000;
        one.update(time);
        two.update(time);
    }

    assert!(!one.acks().is_empty());
    assert!(!two.acks().is_empty());
    // Each endpoint's acks name sequences it really sent, each at most once.
    let mut seen = vec![false; 65536];
    for ack in one.acks() {
        assert!((*ack as usize) < 200);
        assert!(!seen[*ack as usize]);
        seen[*ack as usize] = true;
    }
}

#[test]
fn fragmentation_end_to_end() {
    let payload = vec![0x37u8; 2048];
    let mut a = Endpoint::new(EndpointConfig::new("a"), 0);
    let mut b = Endpoint::new(EndpointConfig::new("b"), 0);
    let mut h_a = TestHandler::new(payload.clone());
    let mut h_b = TestHandler::new(payload.clone());

    a.send(&payload, &mut h_a).unwrap();
    assert_eq!(h_a.outbox.len(), 2);
    for p in h_a.outbox.drain(..) {
        b.recv(&p, &mut h_b).unwrap();
    }
    assert_eq!(h_b.processed, 1);
}

#[test]
fn remainder_fragmentation() {
    let payload = vec![0x55u8; 4092];
    let mut a = Endpoint::new(EndpointConfig::new("a"), 0);
    let mut b = Endpoint::new(EndpointConfig::new("b"), 0);
    let mut h_a = TestHandler::new(payload.clone());
    let mut h_b = TestHandler::new(payload.clone());

    a.send(&payload, &mut h_a).unwrap();
    assert_eq!(h_a.outbox.len(), 4);
    // Fragment zero carries the 5-byte fragment header plus the 3-byte
    // packet header (everything elided) plus a full 1024-byte slice; the
    // middle fragments carry full slices; the last carries the 1020-byte
    // remainder.
    assert_eq!(h_a.outbox[0].len(), 5 + 3 + 1024);
    assert_eq!(h_a.outbox[1].len(), 5 + 1024);
    assert_eq!(h_a.outbox[2].len(), 5 + 1024);
    assert_eq!(h_a.outbox[3].len(), 5 + 1020);
    for p in h_a.outbox.drain(..) {
        b.recv(&p, &mut h_b).unwrap();
    }
    assert_eq!(h_b.processed, 1);
}

#[test]
fn sequence_monotonicity() {
    let payload = vec![1u8; 8];
    let mut e = Endpoint::new(EndpointConfig::new("mono"), 0);
    let mut h = TestHandler::new(payload.clone());
    assert_eq!(e.next_sequence(), 0);
    for i in 0..5u16 {
        e.send(&payload, &mut h).unwrap();
        assert_eq!(e.next_sequence(), i + 1);
    }
    assert_eq!(h.sequences, vec![0, 1, 2, 3, 4]);
}

#[test]
fn stale_rejection() {
    let mut e = Endpoint::new(EndpointConfig::new("stale"), 0);
    let mut h = TestHandler::new(Vec::new());

    let mut d0 = vec![];
    PacketHeader::new(0, 0, 0).write(&mut d0);
    e.recv(&d0, &mut h).unwrap();

    let mut d300 = vec![];
    PacketHeader::new(300, 0, 0).write(&mut d300);
    e.recv(&d300, &mut h).unwrap();

    let mut d0_again = vec![];
    PacketHeader::new(0, 0, 0).write(&mut d0_again);
    assert_eq!(e.recv(&d0_again, &mut h), Err(ReliableError::StalePacket));
}

#[test]
fn rtt_smoothing() {
    let payload = vec![9u8; 24];
    let mut e = Endpoint::new(EndpointConfig::new("rtt"), 0);
    let mut h = TestHandler::new(Vec::new());

    // Two packets leave at time zero.
    e.send(&payload, &mut h).unwrap();
    e.send(&payload, &mut h).unwrap();
    assert_eq!(e.rtt(), 0);

    // The first ack lands 100 ms later and sets the estimate outright.
    e.update(100_000);
    let mut ack0 = vec![];
    PacketHeader::new(0, 0, 1).write(&mut ack0);
    e.recv(&ack0, &mut h).unwrap();
    assert_eq!(e.rtt(), 100_000);

    // The second ack lands at 200 ms; its 200 ms sample moves the
    // estimate by 0.0025 of the gap: 100 ms + 0.0025 * 100 ms = 100.25 ms.
    // The same bits also re-ack sequence 0, which must change nothing.
    e.update(200_000);
    let mut ack1 = vec![];
    PacketHeader::new(1, 1, 0b11).write(&mut ack1);
    e.recv(&ack1, &mut h).unwrap();
    assert_eq!(e.rtt(), 100_250);
    assert_eq!(e.acks(), &[0u16, 1]);
}

#[test]
fn send_errors() {
    let payload = vec![0u8; 20000];
    let mut e = Endpoint::new(EndpointConfig::new("err"), 0);
    let mut h = TestHandler::new(Vec::new());
    assert_eq!(
        e.send(&payload, &mut h),
        Err(ReliableError::ExceededMaxPacketSize)
    );
    assert_eq!(e.next_sequence(), 0);

    let mut config = EndpointConfig::new("few-fragments");
    config.max_fragments = 2;
    let mut e = Endpoint::new(config, 0);
    let payload = vec![0u8; 5000];
    assert_eq!(
        e.send(&payload, &mut h),
        Err(ReliableError::FragmentCountExceeded)
    );
    // The sequence was already assigned and recorded when the count
    // check failed, as the wire protocol prescribes.
    assert_eq!(e.next_sequence(), 1);
}

#[test]
fn recv_errors() {
    let mut e = Endpoint::new(EndpointConfig::new("err"), 0);
    let mut h = TestHandler::new(Vec::new());

    let oversized = vec![0u8; 20000];
    assert_eq!(
        e.recv(&oversized, &mut h),
        Err(ReliableError::ExceededMaxPacketSize)
    );
    assert_eq!(e.recv(&[0u8], &mut h), Err(ReliableError::InvalidHeader));
    assert_eq!(e.recv(&[1u8], &mut h), Err(ReliableError::InvalidFragment));

    // A duplicate fragment is refused.
    let outer = PacketHeader::new(5, 0, 0);
    let mut frag = vec![];
    FragmentHeader::new(0, 2, outer).write(&mut frag);
    frag.extend_from_slice(&vec![0x11u8; 1024]);
    e.recv(&frag, &mut h).unwrap();
    assert_eq!(e.recv(&frag, &mut h), Err(ReliableError::InvalidFragment));

    // A first fragment below the reassembly window is stale.
    let outer = PacketHeader::new(300, 0, 0);
    let mut far = vec![];
    FragmentHeader::new(0, 2, outer).write(&mut far);
    far.extend_from_slice(&vec![0x22u8; 1024]);
    e.recv(&far, &mut h).unwrap();
    let outer = PacketHeader::new(2, 0, 0);
    let mut old = vec![];
    FragmentHeader::new(0, 2, outer).write(&mut old);
    old.extend_from_slice(&vec![0x33u8; 1024]);
    assert_eq!(e.recv(&old, &mut h), Err(ReliableError::StaleSequence));
}

#[test]
fn rejected_payload_not_recorded() {
    let payload = vec![0x61u8; 16];
    let mut a = Endpoint::new(EndpointConfig::new("a"), 0);
    let mut b = Endpoint::new(EndpointConfig::new("b"), 0);
    let mut h_a = TestHandler::new(payload.clone());
    let mut h_b = TestHandler::new(payload.clone());
    h_b.accept = false;

    a.send(&payload, &mut h_a).unwrap();
    let p = h_a.outbox.remove(0);
    b.recv(&p, &mut h_b).unwrap();
    assert_eq!(h_b.processed, 1);

    // The rejected packet was not recorded: nothing is acked back.
    b.send(&payload, &mut h_b).unwrap();
    let p = h_b.outbox.remove(0);
    a.recv(&p, &mut h_a).unwrap();
    assert!(a.acks().is_empty());
}

#[test]
fn endpoint_reset_and_clear_acks() {
    let payload = vec![3u8; 10];
    let mut e = Endpoint::new(EndpointConfig::new("reset"), 7);
    let mut h = TestHandler::new(payload.clone());
    e.send(&payload, &mut h).unwrap();
    e.send(&payload, &mut h).unwrap();
    assert_eq!(e.next_sequence(), 2);

    e.clear_acks();
    assert!(e.acks().is_empty());

    e.reset();
    assert_eq!(e.next_sequence(), 0);
    assert_eq!(e.rtt(), 0);
    assert_eq!(e.packet_loss(), 0);
    assert_eq!(e.bandwidth(), (0, 0, 0));
}

#[test]
fn quality_estimates_move() {
    let payload = vec![8u8; 1000];
    let mut e = Endpoint::new(EndpointConfig::new("quality"), 0);
    let mut h = TestHandler::new(Vec::new());
    e.send(&payload, &mut h).unwrap();
    e.update(1_000_000);
    e.send(&payload, &mut h).unwrap();

    // Nothing is acked and everything is older than twice the zero rtt,
    // so each update samples a full-loss window (10000 parts per ten
    // thousand) and moves the estimate a tenth of the gap toward it:
    // 0 -> 1000 at the first update, 1000 -> 1900 at the second.
    e.update(2_000_000);
    assert_eq!(e.packet_loss(), 1_900);

    // Sent bandwidth over the 1-second window between the two sends:
    // 2 * 1028 bytes in 1 s samples 16 kbit/s (truncated); one smoothing
    // step from zero moves a tenth of the way, truncated to 1.
    let (sent_kbps, received_kbps, acked_kbps) = e.bandwidth();
    assert_eq!(sent_kbps, 1);
    assert_eq!(received_kbps, 0);
    assert_eq!(acked_kbps, 0);
}

#[test]
fn config_defaults() {
    let c = EndpointConfig::default();
    assert_eq!(c.index, 1);
    assert_eq!(c.max_packet_size, 16 * 1024);
    assert_eq!(c.fragment_above, 1024);
    assert_eq!(c.max_fragments, 16);
    assert_eq!(c.fragment_size, 1024);
    assert_eq!(c.ack_buffer_size, 256);
    assert_eq!(c.sent_packets_buffer_size, 256);
    assert_eq!(c.received_packets_buffer_size, 256);
    assert_eq!(c.fragment_reassembly_buffer_size, 64);
    assert_eq!(c.rtt_smoothing_factor, 25);
    assert_eq!(c.packet_loss_smoothing_factor, 1000);
    assert_eq!(c.bandwidth_smoothing_factor, 1000);
    assert_eq!(c.packet_header_size, 28);
    let named = EndpointConfig::new("peer");
    assert_eq!(named.name, "peer");
    assert!(named.is_valid());
}

#[test]
fn rust_impl_endpoint() {
    let _endpoint = Endpoint::new(EndpointConfig::new("balls"), 0);
}

#[test]
fn reliable_init() {
    let reliable = Reliable::new();

    let mut endpoint_1 =
        reliable.create_endpoint(EndpointConfig::default(), TestHandler::new(Vec::new()));
    let mut endpoint_2 =
        reliable.create_endpoint(EndpointConfig::default(), TestHandler::new(Vec::new()));

    endpoint_1.update(10_000_000);
    endpoint_2.update(10_000_000);
}

#[test]
fn simple_endpoint_round_trip() {
    let payload = vec![0x42u8; 100];
    let reliable = Reliable::new();
    let mut a = reliable.create_endpoint(EndpointConfig::new("one"), TestHandler::new(payload.clone()));
    let mut b = reliable.create_endpoint(EndpointConfig::new("two"), TestHandler::new(payload.clone()));

    assert_eq!(a.next_packet_sequence(), 0);
    a.send(&payload).unwrap();
    assert_eq!(a.next_packet_sequence(), 1);

    let p = a.handler.outbox.remove(0);
    b.recv(&p).unwrap();
    assert_eq!(b.handler.processed, 1);

    b.send(&payload).unwrap();
    let p = b.handler.outbox.remove(0);
    a.recv(&p).unwrap();
    assert_eq!(a.get_acks(), vec![0u16]);
    assert_eq!(a.current_packet_loss(), 0);
    assert_eq!(a.current_rtt(), 0);

    a.clear_acks();
    assert!(a.get_acks().is_empty());
    a.reset();
    assert_eq!(a.next_packet_sequence(), 0);
}
