use prism::Buffer;
use prism::create;

#[test]
fn ring_is_fifo_across_wraparound() {
    let mut b: Buffer<u32> = Buffer::new(4);
    assert!(!b.check_pop());
    b.push(1);
    b.push(2);
    b.push(3);
    // Three of four slots used: one is kept free, so the ring is full.
    assert!(!b.check_push());
    assert_eq!(b.try_pop(), Some(1));
    b.push(4);
    assert_eq!(b.try_pop(), Some(2));
    assert_eq!(b.try_pop(), Some(3));
    assert_eq!(b.try_pop(), Some(4));
    assert_eq!(b.try_pop(), None);
}

#[test]
fn pop_returns_the_oldest() {
    let mut b: Buffer<u8> = Buffer::new(8);
    b.push(9);
    b.push(7);
    assert_eq!(b.pop(), 9);
    assert_eq!(b.pop(), 7);
    assert!(!b.check_pop());
}

#[test]
fn free_space_shrinks_with_each_push() {
    let mut b: Buffer<u8> = Buffer::new(8);
    assert_eq!(b.free_space(), 7);
    b.push(1);
    assert_eq!(b.free_space(), 6);
    b.push(2);
    assert_eq!(b.free_space(), 5);
    let _ = b.try_pop();
    assert_eq!(b.free_space(), 6);
}

#[test]
fn to_ring_wraps_at_capacity() {
    let b: Buffer<u8> = Buffer::new(4);
    assert_eq!(b.to_ring(0), 0);
    assert_eq!(b.to_ring(3), 3);
    assert_eq!(b.to_ring(9), 1);
}

#[test]
fn endpoints_hand_the_ring_over() {
    let mut p = create::<u64>(16);
    assert!(p.check_push());
    assert_eq!(p.free_space(), 15);
    p.push(10);
    p.push(20);
    p.push(30);
    assert_eq!(p.free_space(), 12);
    let mut c = p.into_consumer();
    assert!(c.check_pop());
    assert_eq!(c.try_pop(), Some(10));
    assert_eq!(c.pop(), 20);
    assert_eq!(c.try_pop(), Some(30));
    assert_eq!(c.try_pop(), None);
}

#[test]
fn drain_flushes_the_backlog_and_empties_the_ring() {
    let mut p = create::<u32>(8);
    for i in 0..7u32 {
        p.push(i);
    }
    assert!(!p.check_push());
    let mut c = p.into_consumer();
    let drained = c.drain();
    assert_eq!(drained, vec![0, 1, 2, 3, 4, 5, 6]);
    // After the flush the ring is idle: head has caught up with tail.
    assert!(!c.check_pop());
    assert_eq!(c.try_pop(), None);
}
