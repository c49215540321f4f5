use trouble_host::packet_pool::PacketPool;
use trouble_host::Error;

#[test]
fn pool_of_two_is_exhausted_by_third_request() {
    let mut pool = PacketPool::new(27, 2);
    assert_eq!(pool.mtu(), 27);
    assert_eq!(pool.capacity(), 2);
    let a = pool.allocate();
    let b = pool.allocate();
    let c = pool.allocate();
    assert!(a.is_some());
    assert!(b.is_some());
    assert!(c.is_none());
    assert_eq!(pool.available(), 0);
    assert!(pool.release(a.unwrap()));
    assert_eq!(pool.available(), 1);
    let d = pool.allocate();
    assert!(d.is_some());
    assert_eq!(d.unwrap().index(), 0);
    assert_eq!(b.unwrap().index(), 1);
}

#[test]
fn allocation_takes_first_free_slot() {
    let mut pool = PacketPool::new(8, 3);
    let a = pool.allocate().unwrap();
    let b = pool.allocate().unwrap();
    let c = pool.allocate().unwrap();
    assert_eq!((a.index(), b.index(), c.index()), (0, 1, 2));
    assert!(pool.release(b));
    let again = pool.allocate().unwrap();
    assert_eq!(again.index(), 1);
    assert_eq!(pool.ref_count(&a), 1);
    assert_eq!(pool.ref_count(&c), 1);
}

#[test]
fn buffer_is_reused_only_after_every_holder_released_it() {
    let mut pool = PacketPool::new(16, 1);
    let first = pool.allocate().unwrap();
    let second = pool.clone(&first).unwrap();
    let third = pool.clone(&second).unwrap();
    assert_eq!(pool.ref_count(&first), 3);
    assert!(pool.allocate().is_none());
    assert!(!pool.release(first));
    assert_eq!(pool.ref_count(&second), 2);
    assert!(pool.allocate().is_none());
    assert!(!pool.release(second));
    assert!(pool.allocate().is_none());
    assert_eq!(pool.ref_count(&third), 1);
    assert!(pool.release(third));
    assert_eq!(pool.available(), 1);
    let reused = pool.allocate().unwrap();
    assert_eq!(reused.index(), 0);
    assert_eq!(pool.ref_count(&reused), 1);
}

#[test]
fn reference_count_never_drops_below_zero() {
    let mut owner = PacketPool::new(4, 3);
    let mut other = PacketPool::new(4, 1);
    let _a = owner.allocate().unwrap();
    let _b = owner.allocate().unwrap();
    let foreign = owner.allocate().unwrap();
    assert_eq!(foreign.index(), 2);
    assert_eq!(other.ref_count(&foreign), 0);
    assert!(other.clone(&foreign).is_none());
    assert!(other.data(&foreign).is_none());
    assert_eq!(other.append(&foreign, &[1]), Err(Error::InvalidState));
    assert!(!other.release(foreign));
    assert_eq!(other.available(), 1);
}

#[test]
fn release_of_a_free_slot_changes_nothing() {
    let mut left = PacketPool::new(4, 1);
    let mut right = PacketPool::new(4, 1);
    let from_right = right.allocate().unwrap();
    assert_eq!(left.available(), 1);
    assert!(!left.release(from_right));
    assert_eq!(left.available(), 1);
    let fresh = left.allocate().unwrap();
    assert_eq!(left.ref_count(&fresh), 1);
}

#[test]
fn append_accumulates_bytes_up_to_the_buffer_size() {
    let mut pool = PacketPool::new(5, 1);
    let p = pool.allocate().unwrap();
    assert_eq!(pool.data(&p).unwrap(), &[] as &[u8]);
    assert_eq!(pool.append(&p, &[1, 2, 3]), Ok(()));
    assert_eq!(pool.data(&p).unwrap(), &[1, 2, 3]);
    assert_eq!(pool.append(&p, &[4, 5, 6]), Err(Error::InsufficientSpace));
    assert_eq!(pool.data(&p).unwrap(), &[1, 2, 3]);
    assert_eq!(pool.append(&p, &[4, 5]), Ok(()));
    assert_eq!(pool.data(&p).unwrap(), &[1, 2, 3, 4, 5]);
    assert_eq!(pool.append(&p, &[]), Ok(()));
    assert_eq!(pool.append(&p, &[9]), Err(Error::InsufficientSpace));
}

#[test]
fn shared_buffer_cannot_be_written() {
    let mut pool = PacketPool::new(8, 2);
    let p = pool.allocate().unwrap();
    assert_eq!(pool.append(&p, &[7]), Ok(()));
    let q = pool.clone(&p).unwrap();
    assert_eq!(q.index(), p.index());
    assert_eq!(pool.append(&p, &[8]), Err(Error::InvalidState));
    assert_eq!(pool.data(&q).unwrap(), &[7]);
    assert!(!pool.release(q));
    assert_eq!(pool.append(&p, &[8]), Ok(()));
    assert_eq!(pool.data(&p).unwrap(), &[7, 8]);
}

#[test]
fn released_buffer_comes_back_empty() {
    let mut pool = PacketPool::new(8, 1);
    let p = pool.allocate().unwrap();
    assert_eq!(pool.append(&p, &[1, 2, 3, 4]), Ok(()));
    assert!(pool.release(p));
    let q = pool.allocate().unwrap();
    assert_eq!(pool.data(&q).unwrap().len(), 0);
}

#[test]
fn empty_pool_is_always_exhausted() {
    let mut pool = PacketPool::new(27, 0);
    assert_eq!(pool.capacity(), 0);
    assert_eq!(pool.available(), 0);
    assert!(pool.allocate().is_none());
}
