use certus::nvme::{BlockDeviceError, NvmeBlockError};
use certus::qpair::{QueuePair, QueuePairPool};

#[test]
fn queue_pair_detached_initial_state() {
    let qp = QueuePair::new_detached(32);
    assert_eq!(qp.depth(), 32);
    assert_eq!(qp.in_flight(), 0);
    assert_eq!(qp.available(), 32);
}

#[test]
fn queue_pair_submit_and_complete() {
    let mut qp = QueuePair::new_detached(4);
    qp.submit();
    assert_eq!(qp.in_flight(), 1);
    assert_eq!(qp.available(), 3);

    qp.submit();
    assert_eq!(qp.in_flight(), 2);

    qp.complete();
    assert_eq!(qp.in_flight(), 1);
    assert_eq!(qp.available(), 3);
}

#[test]
fn queue_pair_complete_saturates_at_zero() {
    let mut qp = QueuePair::new_detached(4);
    qp.complete();
    assert_eq!(qp.in_flight(), 0);
}

#[test]
fn pool_from_detached() {
    let pool = QueuePairPool::from_detached(&[4, 16, 64]);
    assert_eq!(pool.len(), 3);
    assert!(!pool.is_empty());
    assert_eq!(pool.get(0).unwrap().depth(), 4);
    assert_eq!(pool.get(1).unwrap().depth(), 16);
    assert_eq!(pool.get(2).unwrap().depth(), 64);
}

#[test]
fn pool_select_shallow_for_small_batch() {
    let pool = QueuePairPool::from_detached(&[4, 16, 64]);
    let idx = pool.select_index(1);
    assert_eq!(idx, 0);
    assert_eq!(pool.get(idx).unwrap().depth(), 4);
}

#[test]
fn pool_select_medium_for_medium_batch() {
    let pool = QueuePairPool::from_detached(&[4, 16, 64]);
    let idx = pool.select_index(10);
    assert_eq!(idx, 1);
    assert_eq!(pool.get(idx).unwrap().depth(), 16);
}

#[test]
fn pool_select_deep_for_large_batch() {
    let pool = QueuePairPool::from_detached(&[4, 16, 64]);
    let idx = pool.select_index(50);
    assert_eq!(idx, 2);
    assert_eq!(pool.get(idx).unwrap().depth(), 64);
}

#[test]
fn pool_select_falls_back_to_deepest() {
    let pool = QueuePairPool::from_detached(&[4, 16, 64]);
    let idx = pool.select_index(100);
    assert_eq!(idx, 2);
}

#[test]
fn pool_select_with_in_flight_pressure() {
    let mut pool = QueuePairPool::from_detached(&[4, 16, 64]);
    for _ in 0..4 {
        assert!(pool.submit_on(0));
    }
    let idx = pool.select_index(1);
    assert_eq!(idx, 1);
}

#[test]
fn pool_select_qpair_returns_mutable_ref() {
    let mut pool = QueuePairPool::from_detached(&[4, 16, 64]);
    let idx = pool.select_index(1);
    assert_eq!(pool.get(idx).unwrap().depth(), 4);
    assert!(pool.submit_on(idx));
    assert_eq!(pool.get(idx).unwrap().in_flight(), 1);
}

#[test]
fn pool_empty() {
    let pool = QueuePairPool::from_detached(&[]);
    assert!(pool.is_empty());
    assert_eq!(pool.len(), 0);
}

#[test]
fn allocation_depths_follow_controller_limit() {
    assert_eq!(QueuePairPool::allocation_depths(1024).unwrap(), vec![4, 16, 64, 256]);
    assert_eq!(QueuePairPool::allocation_depths(32).unwrap(), vec![4, 16]);
    let err = QueuePairPool::allocation_depths(3).unwrap_err();
    assert!(matches!(err, NvmeBlockError::BlockDevice(BlockDeviceError::QpairAllocationFailed(_))));
}

#[test]
fn reaping_lowers_in_flight() {
    let mut pool = QueuePairPool::from_detached(&[4]);
    assert!(pool.submit_on(0));
    assert!(pool.submit_on(0));
    pool.reap_on(0, 5);
    assert_eq!(pool.get(0).unwrap().in_flight(), 0);
    let mut qp = QueuePair::new_detached(8);
    qp.submit();
    assert_eq!(qp.record_completions(-1), -1);
    assert_eq!(qp.in_flight(), 1);
}

#[test]
fn select_qpair_updates_the_chosen_queue_in_place() {
    let mut pool = QueuePairPool::from_detached(&[4, 16]);
    pool.select_qpair(4).submit();
    assert_eq!(pool.get(0).unwrap().in_flight(), 1);
    // Queue 0 now has 3 free slots: a batch of 4 goes to queue 1.
    pool.select_qpair(4).submit();
    assert_eq!(pool.get(1).unwrap().in_flight(), 1);
    assert_eq!(pool.get(0).unwrap().in_flight(), 1);
}
