use coop_rt::channel::{Channel, CircularBuffer, BLOCK_QUEUE_SIZE};

#[test]
fn new_buffer_is_empty() {
    let b: CircularBuffer<u32> = CircularBuffer::new(4);
    assert_eq!(b.len(), 0);
    assert!(b.is_empty());
    assert!(!b.is_full());
}

#[test]
fn write_then_read_returns_value() {
    let mut b: CircularBuffer<u32> = CircularBuffer::new(4);
    assert!(b.write(7).is_ok());
    assert_eq!(b.len(), 1);
    assert_eq!(b.read(), Ok(7));
    assert!(b.is_empty());
}

#[test]
fn fifo_order_kept() {
    let mut b: CircularBuffer<i32> = CircularBuffer::new(3);
    assert!(b.write(1).is_ok());
    assert!(b.write(2).is_ok());
    assert!(b.write(3).is_ok());
    assert!(b.is_full());
    assert_eq!(b.read(), Ok(1));
    assert_eq!(b.read(), Ok(2));
    assert_eq!(b.read(), Ok(3));
    assert_eq!(b.read(), Err(()));
}

#[test]
fn wrap_around_keeps_order() {
    let mut b: CircularBuffer<i32> = CircularBuffer::new(3);
    assert!(b.write(1).is_ok());
    assert!(b.write(2).is_ok());
    assert_eq!(b.read(), Ok(1));
    assert!(b.write(3).is_ok());
    assert!(b.write(4).is_ok());
    assert!(b.is_full());
    assert_eq!(b.len(), 3);
    assert_eq!(b.read(), Ok(2));
    assert_eq!(b.read(), Ok(3));
    assert_eq!(b.read(), Ok(4));
    assert!(b.is_empty());
}

#[test]
fn write_to_full_buffer_hands_value_back() {
    let mut b: CircularBuffer<String> = CircularBuffer::new(1);
    assert!(b.write(String::from("kept")).is_ok());
    assert_eq!(b.write(String::from("refused")), Err(String::from("refused")));
    assert_eq!(b.read(), Ok(String::from("kept")));
}

#[test]
fn capacity_zero_buffer_is_born_full() {
    let mut b: CircularBuffer<u8> = CircularBuffer::new(0);
    assert!(b.is_full());
    assert_eq!(b.len(), 0);
    assert_eq!(b.write(1), Err(1));
    assert_eq!(b.read(), Err(()));
}

#[test]
fn read_from_empty_buffer_fails() {
    let mut b: CircularBuffer<u64> = CircularBuffer::new(2);
    assert_eq!(b.read(), Err(()));
}

#[test]
fn many_wrap_cycles() {
    let mut b: CircularBuffer<usize> = CircularBuffer::new(2);
    for round in 0..10usize {
        assert!(b.write(round * 2).is_ok());
        assert!(b.write(round * 2 + 1).is_ok());
        assert_eq!(b.write(99), Err(99));
        assert_eq!(b.read(), Ok(round * 2));
        assert_eq!(b.read(), Ok(round * 2 + 1));
        assert_eq!(b.read(), Err(()));
    }
}

#[test]
fn new_channel_has_empty_queues() {
    let c: Channel<i32> = Channel::new(5);
    assert_eq!(c.buffer.len(), 0);
    assert_eq!(c.sendq.len(), 0);
    assert_eq!(c.recvq.len(), 0);
    assert!(!c.buffer.is_full());
    assert!(!c.sendq.is_full());
}

#[test]
fn channel_queue_capacity_is_fixed() {
    let c: Channel<i32> = Channel::new(0);
    assert!(c.buffer.is_full());
    assert_eq!(c.sendq.size, BLOCK_QUEUE_SIZE);
    assert_eq!(c.recvq.size, BLOCK_QUEUE_SIZE);
}
