//! Wire-format round trips and parse failures of the two header codecs.

use reliable::FragmentHeader;
use reliable::PacketHeader;
use reliable::ReliableError;

#[test]
fn fragment_header() {
    let write_id: u8 = 111;
    let write_num: u8 = 123;
    let write_sequence: u16 = 999;

    let write_fragment = FragmentHeader::new_fragment(write_id, write_num, write_sequence);

    let mut buffer = vec![];
    write_fragment.write(&mut buffer);

    let (read_fragment, _) = FragmentHeader::parse(buffer.as_slice()).unwrap();

    assert_eq!(write_fragment.sequence(), read_fragment.sequence());
    assert_eq!(write_fragment.id(), read_fragment.id());
    assert_eq!(write_fragment.count(), read_fragment.count());
}

#[test]
fn packet_header() {
    let write_sequence = 10000;
    let write_ack = 100;
    let write_ack_bits = 0;

    let mut buffer = vec![];

    let write_packet = PacketHeader::new(write_sequence, write_ack, write_ack_bits);
    write_packet.write(&mut buffer);

    let (read_packet, _) = PacketHeader::parse(buffer.as_slice()).unwrap();

    assert_eq!(write_packet.sequence(), read_packet.sequence());
    assert_eq!(write_packet.ack(), read_packet.ack());
    assert_eq!(write_packet.ack_bits(), read_packet.ack_bits());
}

#[test]
fn packet_header_sizes() {
    // All elisions on: ack is sequence - 1 and every ack-bits byte zero.
    let h = PacketHeader::new(200, 199, 0);
    assert_eq!(h.size(), 3);
    // Full form: explicit ack and all four ack-bits bytes present.
    let h = PacketHeader::new(200, 77, 0xFFFF_FFFF);
    assert_eq!(h.size(), 9);
    // Bytes written match the promised size.
    let mut buffer = vec![];
    h.write(&mut buffer);
    assert_eq!(buffer.len(), 9);
}

#[test]
fn packet_header_round_trip_variants() {
    let cases: Vec<(u16, u16, u32)> = vec![
        (0, 0, 0),
        (1, 0, 1),
        (65535, 65534, 0x00FF00FF),
        (42, 41, 0xDEADBEEF),
        (10000, 100, 0x00000445),
        (0, 65535, 0xFF000000),
    ];
    for (sequence, ack, ack_bits) in cases {
        let h = PacketHeader::new(sequence, ack, ack_bits);
        let mut buffer = vec![];
        h.write(&mut buffer);
        assert_eq!(buffer.len(), h.size());
        let (parsed, consumed) = PacketHeader::parse(buffer.as_slice()).unwrap();
        assert_eq!(consumed, buffer.len());
        assert_eq!(parsed.sequence(), sequence);
        assert_eq!(parsed.ack(), ack);
        assert_eq!(parsed.ack_bits(), ack_bits);
    }
}

#[test]
fn fragment_header_with_embedded_packet_header() {
    let outer = PacketHeader::new(999, 321, 0xABCD);
    let fragment = FragmentHeader::new(0, 4, outer);
    let mut buffer = vec![];
    fragment.write(&mut buffer);
    assert_eq!(buffer.len(), fragment.size());

    let (parsed, consumed) = FragmentHeader::parse(buffer.as_slice()).unwrap();
    assert_eq!(consumed, buffer.len());
    assert_eq!(parsed.sequence(), 999);
    assert_eq!(parsed.id(), 0);
    assert_eq!(parsed.count(), 4);
    let embedded = parsed.packet_header().unwrap();
    assert_eq!(embedded.sequence(), 999);
    assert_eq!(embedded.ack(), 321);
    assert_eq!(embedded.ack_bits(), 0xABCD);
}

#[test]
fn truncated_headers_fail() {
    assert_eq!(
        PacketHeader::parse(&[0u8]),
        Err(ReliableError::InvalidHeader)
    );
    // Prefix promises an explicit ack and four ack-bits bytes, but the
    // bytes are missing.
    let h = PacketHeader::new(7, 99, 0xFFFF_FFFF);
    let mut buffer = vec![];
    h.write(&mut buffer);
    assert_eq!(
        PacketHeader::parse(&buffer[..4]),
        Err(ReliableError::InvalidHeader)
    );
    // A fragment prefix is not a packet header, and the other way round.
    assert_eq!(
        PacketHeader::parse(&[1u8, 0, 0, 0, 0]),
        Err(ReliableError::InvalidHeader)
    );
    assert_eq!(
        FragmentHeader::parse(&[0u8, 0, 0, 0, 0]),
        Err(ReliableError::InvalidFragment)
    );
    assert_eq!(
        FragmentHeader::parse(&[1u8, 0, 0]),
        Err(ReliableError::InvalidFragment)
    );
    // Fragment id out of range of the count.
    assert_eq!(
        FragmentHeader::parse(&[1u8, 0, 0, 5, 2]),
        Err(ReliableError::InvalidFragment)
    );
}
