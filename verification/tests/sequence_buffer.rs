//! Behaviour of the sequence-indexed ring buffer.

use reliable::ReliableError;
use reliable::SequenceBuffer;

const TEST_BUFFER_SIZE: usize = 256;

#[derive(Debug, Clone, Default)]
struct TestData {
    sequence: u16,
}

#[test]
fn ack_bits() {
    let mut buffer = SequenceBuffer::<TestData>::with_capacity(TEST_BUFFER_SIZE);

    for i in 0..TEST_BUFFER_SIZE + 1 {
        buffer
            .insert(TestData { sequence: i as u16 }, i as u16)
            .unwrap();
    }

    let (ack, ack_bits) = buffer.ack_bits();

    assert_eq!(ack, TEST_BUFFER_SIZE as u16);
    assert_eq!(ack_bits, 0xFFFFFFFF);

    buffer.reset();

    for ack in [1, 5, 9, 11].iter() {
        buffer
            .insert(TestData { sequence: *ack as u16 }, *ack as u16)
            .unwrap();
    }

    let (ack, ack_bits) = buffer.ack_bits();

    assert_eq!(ack, 11);
    assert_eq!(ack_bits, 1 | (1 << (11 - 9)) | (1 << (11 - 5)) | (1 << (11 - 1)));
}

#[test]
fn sequence_test() {
    let mut buffer = SequenceBuffer::<TestData>::with_capacity(TEST_BUFFER_SIZE);

    assert_eq!(buffer.capacity(), TEST_BUFFER_SIZE);
    assert_eq!(buffer.sequence(), 0);

    for i in 0..TEST_BUFFER_SIZE {
        let r = buffer.get(i as u16);
        assert!(r.is_none());
    }

    for i in 0..TEST_BUFFER_SIZE * 4 {
        buffer
            .insert(TestData { sequence: i as u16 }, i as u16)
            .unwrap();
        assert_eq!(buffer.sequence(), i as u16 + 1);

        let r = buffer.get(i as u16);
        assert_eq!(r.unwrap().sequence, i as u16);
    }

    for i in 0..TEST_BUFFER_SIZE - 1 {
        let r = buffer.insert(TestData { sequence: i as u16 }, i as u16);
        assert!(r.is_err());
    }

    let mut index = TEST_BUFFER_SIZE * 4 - 1;
    for _ in 0..TEST_BUFFER_SIZE - 1 {
        let entry = buffer.get(index as u16);
        assert!(entry.is_some());
        let e = entry.unwrap();
        assert_eq!(e.sequence, index as u16);
        index = index - 1;
    }
}

#[test]
fn wraparound_clearing() {
    // A jump past the current edge empties every slot that a skipped
    // sequence aliases, so stale entries never reappear under new names.
    let mut buffer = SequenceBuffer::<u32>::with_capacity(4);
    for i in 0..4u16 {
        buffer.insert(i as u32, i).unwrap();
    }
    buffer.insert(800, 8).unwrap();
    assert!(buffer.get(8).is_some());
    for i in 0..8u16 {
        assert!(buffer.get(i).is_none());
    }
}

#[test]
fn stale_insert_refused() {
    let mut buffer = SequenceBuffer::<u32>::with_capacity(4);
    buffer.insert(100, 100).unwrap();
    let r = buffer.insert(1, 1);
    assert_eq!(r, Err(ReliableError::StaleSequence));
    assert!(buffer.get(1).is_none());
}

#[test]
fn remove_then_get() {
    let mut buffer = SequenceBuffer::<u32>::with_capacity(8);
    buffer.insert(41, 3).unwrap();
    buffer.insert(42, 4).unwrap();
    assert_eq!(buffer.remove(3), Some(41));
    assert!(buffer.get(3).is_none());
    assert_eq!(buffer.get(4), Some(&42));
    assert_eq!(buffer.remove(3), None);
}

#[test]
fn ack_bits_empty() {
    let buffer = SequenceBuffer::<TestData>::with_capacity(TEST_BUFFER_SIZE);
    let (ack, ack_bits) = buffer.ack_bits();
    assert_eq!(ack, 0xFFFF);
    assert_eq!(ack_bits, 0);
}

#[test]
fn check_sequence_window() {
    let mut buffer = SequenceBuffer::<u32>::with_capacity(256);
    buffer.insert(0, 300).unwrap();
    assert!(!buffer.check_sequence(0));
    assert!(buffer.check_sequence(45));
    assert!(buffer.check_sequence(301));
}
