use lumen::runtime::deque::{Deque, RingBuffer};

#[test]
fn ring_buffer_starts_with_defaults() {
    let buffer: RingBuffer<u32, 8> = RingBuffer::new();
    assert_eq!(buffer.capacity(), 8);
    for i in 0..8 {
        assert_eq!(buffer.load(i), 0);
    }
}

#[test]
fn ring_buffer_loads_what_was_stored() {
    let mut buffer: RingBuffer<u32, 4> = RingBuffer::new();
    buffer.store(0, 10);
    buffer.store(1, 11);
    buffer.store(2, 12);
    buffer.store(3, 13);
    assert_eq!(buffer.load(0), 10);
    assert_eq!(buffer.load(1), 11);
    assert_eq!(buffer.load(2), 12);
    assert_eq!(buffer.load(3), 13);
}

#[test]
fn ring_buffer_wraps_round() {
    let mut buffer: RingBuffer<u32, 4> = RingBuffer::new();
    buffer.store(5, 55);
    assert_eq!(buffer.load(1), 55);
    assert_eq!(buffer.load(9), 55);
    assert_eq!(buffer.load(0), 0);
    buffer.store(4, 44);
    assert_eq!(buffer.load(0), 44);
    assert_eq!(buffer.load(usize::MAX), 0);
    buffer.store(usize::MAX, 99);
    assert_eq!(buffer.load(3), 99);
}

#[test]
fn ring_buffer_store_overwrites_one_slot_only() {
    let mut buffer: RingBuffer<u8, 2> = RingBuffer::new();
    buffer.store(0, 1);
    buffer.store(1, 2);
    buffer.store(2, 3);
    assert_eq!(buffer.load(0), 3);
    assert_eq!(buffer.load(1), 2);
}

#[test]
fn ring_buffer_of_one_slot() {
    let mut buffer: RingBuffer<bool, 1> = RingBuffer::new();
    assert_eq!(buffer.capacity(), 1);
    assert!(!buffer.load(17));
    buffer.store(3, true);
    assert!(buffer.load(0));
    assert!(buffer.load(12345));
}

#[test]
fn ring_buffer_whose_capacity_is_no_power_of_two_keeps_the_masked_slot() {
    let mut buffer: RingBuffer<u32, 6> = RingBuffer::new();
    assert_eq!(buffer.capacity(), 6);
    buffer.store(6, 7);
    assert_eq!(buffer.load(4), 7);
    assert_eq!(buffer.load(0), 0);
}

#[test]
fn deque_can_be_made() {
    let _deque: Deque<u64, 16> = Deque::new();
}
