use bitgrep::utils::ringbuffer::RingBuffer;

#[test]
fn len_returns_length() {
    let mut buf = RingBuffer::new(2);
    assert_eq!(buf.len(), 0);

    buf.push_front(1);
    assert_eq!(buf.len(), 1);

    buf.push_front(1);
    buf.push_front(1);
    assert_eq!(buf.len(), 2);
}

#[test]
fn is_full() {
    let mut buf = RingBuffer::new(1);
    assert!(!buf.is_full());

    buf.push_front(1);
    assert!(buf.is_full());
}

#[test]
fn push_front_exceeds_size_remove_existing() {
    let mut buf = RingBuffer::new(1);

    assert_eq!(buf.push_front(1), None);
    assert_eq!(buf.push_front(2), Some(1));
    assert_eq!(buf.push_front(3), Some(2));
}

#[test]
fn push_front_pop_back() {
    let mut buf = RingBuffer::new(2);

    buf.push_front(1);
    buf.push_front(2);

    assert_eq!(buf.pop_back(), Some(1));
    assert_eq!(buf.pop_back(), Some(2));
}

#[test]
fn pop_back_empty_return_none() {
    let mut buf: RingBuffer<i32> = RingBuffer::new(2);

    assert_eq!(buf.pop_back(), None);
}

#[test]
fn the_oldest_item_leaves_first() {
    let mut buf = RingBuffer::new(3);

    assert_eq!(buf.push_front(1u8), None);
    assert_eq!(buf.push_front(2u8), None);
    assert_eq!(buf.push_front(3u8), None);
    assert!(buf.is_full());
    assert_eq!(buf.push_front(4u8), Some(1));
    assert_eq!(buf.push_front(5u8), Some(2));
    assert_eq!(buf.len(), 3);
    assert_eq!(buf.pop_back(), Some(3));
    assert_eq!(buf.pop_back(), Some(4));
    assert_eq!(buf.pop_back(), Some(5));
    assert_eq!(buf.pop_back(), None);
    assert!(!buf.is_full());
}
