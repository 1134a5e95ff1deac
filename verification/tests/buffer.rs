use ring_buffer::ring::{BufferError, RingBuffer};
use ring_buffer::safe::SafeRingBuffer;

#[test]
fn test_single_thread() {
    let buffer = SafeRingBuffer::new(3);

    // Fill the buffer to capacity.
    assert_eq!(buffer.push(1), Ok(()));
    assert_eq!(buffer.push(2), Ok(()));
    assert_eq!(buffer.push(3), Ok(()));
    assert_eq!(buffer.push(4), Err(BufferError::Full));

    // Drain and refill across the wrap point.
    assert_eq!(buffer.pop(), Some(1));
    assert_eq!(buffer.pop(), Some(2));
    assert_eq!(buffer.push(4), Ok(()));
    assert_eq!(buffer.pop(), Some(3));
    assert_eq!(buffer.pop(), Some(4));
    assert_eq!(buffer.pop(), None);
}

#[test]
fn test_fifo_order() {
    let mut buffer = RingBuffer::new(8);
    for v in 10..18 {
        assert_eq!(buffer.push(v), Ok(()));
    }
    for v in 10..18 {
        assert_eq!(buffer.pop(), Some(v));
    }
    assert_eq!(buffer.pop(), None);
}

#[test]
fn test_capacity_bound() {
    let mut buffer = RingBuffer::new(4);
    for v in 0..4 {
        assert_eq!(buffer.push(v), Ok(()));
    }
    assert!(buffer.is_full());
    assert_eq!(buffer.push(99), Err(BufferError::Full));
    // The failed push changed nothing: the first value is still first out.
    assert_eq!(buffer.pop(), Some(0));
}

#[test]
fn test_empty_pop_changes_nothing() {
    let mut buffer = RingBuffer::new(2);
    assert!(buffer.is_empty());
    assert_eq!(buffer.pop(), None);
    // The empty pop left the buffer as it was: it still works normally.
    assert!(buffer.is_empty());
    assert_eq!(buffer.push(7), Ok(()));
    assert_eq!(buffer.pop(), Some(7));
    assert_eq!(buffer.pop(), None);
}

#[test]
fn test_capacity_recovery() {
    let mut buffer = RingBuffer::new(2);
    assert_eq!(buffer.push(1), Ok(()));
    assert_eq!(buffer.push(2), Ok(()));
    assert_eq!(buffer.push(3), Err(BufferError::Full));
    // One pop reclaims exactly one slot.
    assert_eq!(buffer.pop(), Some(1));
    assert_eq!(buffer.push(3), Ok(()));
    assert_eq!(buffer.pop(), Some(2));
    assert_eq!(buffer.pop(), Some(3));
}

#[test]
fn test_zero_capacity() {
    // A capacity-0 buffer is at once full and empty: every push fails,
    // every pop returns nothing.
    let mut buffer = RingBuffer::new(0);
    assert!(buffer.is_empty());
    assert!(buffer.is_full());
    assert_eq!(buffer.push(1), Err(BufferError::Full));
    assert_eq!(buffer.pop(), None);

    let safe = SafeRingBuffer::new(0);
    assert_eq!(safe.push(1), Err(BufferError::Full));
    assert_eq!(safe.pop(), None);
}

#[test]
fn test_wraparound_many_turns() {
    // Run the cursors several full turns around a small buffer: the modulo
    // bookkeeping must keep strict FIFO order throughout.
    let mut buffer = RingBuffer::new(3);
    let mut next_in: u8 = 0;
    let mut next_out: u8 = 0;
    for _ in 0..5 {
        while buffer.push(next_in) == Ok(()) {
            next_in = next_in.wrapping_add(1);
        }
        assert!(buffer.is_full());
        assert_eq!(buffer.pop(), Some(next_out));
        assert_eq!(buffer.pop(), Some(next_out.wrapping_add(1)));
        next_out = next_out.wrapping_add(2);
    }
    while let Some(v) = buffer.pop() {
        assert_eq!(v, next_out);
        next_out = next_out.wrapping_add(1);
    }
    assert_eq!(next_in, next_out);
}

#[test]
fn test_conservation_serialized() {
    // Five producers' worth of distinct values (the lock serializes all
    // operations into one sequence, so the interleaving is exercised here
    // as that single sequence): all fifty values come back exactly once.
    let buffer = SafeRingBuffer::new(100);
    let mut pushed = Vec::new();
    for i in 0..5u8 {
        for j in 1..=10u8 {
            let value = i * 20 + j;
            assert_eq!(buffer.push(value), Ok(()));
            pushed.push(value);
        }
    }
    let mut collected = Vec::new();
    while let Some(v) = buffer.pop() {
        collected.push(v);
    }
    assert_eq!(collected.len(), 50);
    let mut pushed_sorted = pushed.clone();
    pushed_sorted.sort();
    let mut collected_sorted = collected.clone();
    collected_sorted.sort();
    assert_eq!(pushed_sorted, collected_sorted);
    // And in fact, serialized as one sequence, the order is FIFO exactly.
    assert_eq!(pushed, collected);
}

#[test]
fn test_is_empty_is_full_transitions() {
    let mut buffer = RingBuffer::new(1);
    assert!(buffer.is_empty());
    assert!(!buffer.is_full());
    assert_eq!(buffer.push(42), Ok(()));
    assert!(!buffer.is_empty());
    assert!(buffer.is_full());
    assert_eq!(buffer.pop(), Some(42));
    assert!(buffer.is_empty());
    assert!(!buffer.is_full());
}
