use ref_frame_pool::pool::{BufferHandle, ReferenceFrameBuffer};

#[test]
fn capacity_invariant_after_each_add() {
    let mut pool = ReferenceFrameBuffer::new(2);
    for k in 0..6u8 {
        pool.add_frame(vec![k], k % 2 == 0);
        assert!(pool.len() <= 2);
    }
}

#[test]
fn capacity_zero_evicts_immediately() {
    let mut pool = ReferenceFrameBuffer::new(0);
    let id = pool.add_frame(vec![1, 2, 3], false);
    assert!(pool.get_frame(id).is_none());
    assert_eq!(pool.len(), 0);
    let id2 = pool.add_frame(vec![4], true);
    assert!(pool.get_frame(id2).is_none());
    assert_eq!(pool.len(), 0);
}

#[test]
fn ids_strictly_increase_across_evictions() {
    let mut pool = ReferenceFrameBuffer::new(1);
    let a = pool.add_frame(vec![1], false);
    let b = pool.add_frame(vec![2], false);
    let c = pool.add_frame(vec![3], false);
    assert_eq!(a, 0);
    assert_eq!(b, 1);
    assert_eq!(c, 2);
    assert!(a < b && b < c);
}

#[test]
fn get_returns_exact_payload() {
    let mut pool = ReferenceFrameBuffer::new(4);
    let id = pool.add_frame(vec![10, 20, 30], false);
    assert_eq!(pool.get_frame(id).unwrap(), &vec![10, 20, 30]);
    assert!(pool.get_frame(id + 1).is_none());
}

#[test]
fn get_on_empty_pool_is_none() {
    let pool = ReferenceFrameBuffer::new(3);
    assert!(pool.get_frame(0).is_none());
}

#[test]
fn eviction_is_fifo_among_short_term() {
    let mut pool = ReferenceFrameBuffer::new(2);
    let a = pool.add_frame(vec![0xA], false);
    let b = pool.add_frame(vec![0xB], false);
    let c = pool.add_frame(vec![0xC], false);
    assert!(pool.get_frame(a).is_none());
    assert_eq!(pool.get_frame(b).unwrap(), &vec![0xB]);
    assert_eq!(pool.get_frame(c).unwrap(), &vec![0xC]);
}

#[test]
fn short_term_evicted_before_older_long_term() {
    let mut pool = ReferenceFrameBuffer::new(2);
    let a = pool.add_frame(vec![0xA], true);
    let b = pool.add_frame(vec![0xB], false);
    let c = pool.add_frame(vec![0xC], false);
    assert_eq!(pool.get_frame(a).unwrap(), &vec![0xA]);
    assert!(pool.get_frame(b).is_none());
    assert_eq!(pool.get_frame(c).unwrap(), &vec![0xC]);
}

#[test]
fn promotion_protects_from_short_term_eviction() {
    let mut pool = ReferenceFrameBuffer::new(1);
    let a = pool.add_frame(vec![0xA], false);
    assert!(pool.promote_to_long_term(a));
    let b = pool.add_frame(vec![0xB], false);
    assert_eq!(pool.get_frame(a).unwrap(), &vec![0xA]);
    assert!(pool.get_frame(b).is_none());
}

#[test]
fn promote_fails_the_second_time() {
    let mut pool = ReferenceFrameBuffer::new(4);
    let a = pool.add_frame(vec![1], false);
    assert!(pool.promote_to_long_term(a));
    assert!(!pool.promote_to_long_term(a));
}

#[test]
fn promote_fails_on_already_long_term() {
    let mut pool = ReferenceFrameBuffer::new(4);
    let a = pool.add_frame(vec![1], true);
    assert!(!pool.promote_to_long_term(a));
    assert_eq!(pool.get_frame(a).unwrap(), &vec![1]);
}

#[test]
fn promote_fails_on_unknown_id() {
    let mut pool = ReferenceFrameBuffer::new(4);
    let a = pool.add_frame(vec![7], false);
    assert!(!pool.promote_to_long_term(99));
    assert_eq!(pool.len(), 1);
    assert_eq!(pool.get_frame(a).unwrap(), &vec![7]);
    let b = pool.add_frame(vec![8], false);
    assert_eq!(b, 1);
}

#[test]
fn promoted_frame_outlasts_long_term_added_later() {
    let mut pool = ReferenceFrameBuffer::new(2);
    let a = pool.add_frame(vec![0xA], true);
    let b = pool.add_frame(vec![0xB], false);
    assert!(pool.promote_to_long_term(b));
    let c = pool.add_frame(vec![0xC], false);
    let d = pool.add_frame(vec![0xD], false);
    assert!(pool.get_frame(c).is_none());
    assert!(pool.get_frame(d).is_none());
    assert_eq!(pool.get_frame(a).unwrap(), &vec![0xA]);
    assert_eq!(pool.get_frame(b).unwrap(), &vec![0xB]);
}

#[test]
fn handle_owns_a_pool() {
    let mut handle = BufferHandle { buffer: ReferenceFrameBuffer::new(2) };
    let id = handle.buffer.add_frame(vec![5, 6], false);
    assert_eq!(handle.buffer.get_frame(id).unwrap(), &vec![5, 6]);
    drop(handle);
}
