use wake_pool::pool::{pool_size_from_hint, Message, PoolState};

#[test]
fn queue_is_fifo() {
    let mut p: PoolState<usize> = PoolState::new(1);
    p.spawn(10);
    p.spawn(11);
    p.send(Message::Close);
    p.spawn(12);
    assert!(matches!(p.recv(), Message::Run(10)));
    assert!(matches!(p.recv(), Message::Run(11)));
    assert!(matches!(p.recv(), Message::Close));
    assert!(matches!(p.recv(), Message::Run(12)));
    assert_eq!(p.queue.len(), 0);
}

#[test]
fn new_pool_has_one_handle_and_empty_queue() {
    let p: PoolState<usize> = PoolState::new(4);
    assert_eq!(p.cnt, 1);
    assert_eq!(p.size, 4);
    assert_eq!(p.queue.len(), 0);
}

#[test]
fn clone_and_release_track_handles() {
    let mut p: PoolState<usize> = PoolState::new(2);
    p.clone_handle();
    p.clone_handle();
    assert_eq!(p.cnt, 3);
    p.release_handle();
    p.release_handle();
    assert_eq!(p.cnt, 1);
    // no close markers yet: handles are still live
    assert_eq!(p.queue.len(), 0);
}

#[test]
fn last_release_fans_out_one_close_per_worker() {
    let mut p: PoolState<usize> = PoolState::new(3);
    p.spawn(0);
    p.spawn(1);
    p.release_handle();
    assert_eq!(p.cnt, 0);
    // the two run messages still stand ahead of the three close markers
    assert_eq!(p.queue.len(), 5);
    assert!(matches!(p.recv(), Message::Run(0)));
    assert!(matches!(p.recv(), Message::Run(1)));
    for _ in 0..3 {
        assert!(matches!(p.recv(), Message::Close));
    }
}

#[test]
fn non_final_release_leaves_queue_alone() {
    let mut p: PoolState<usize> = PoolState::new(3);
    p.clone_handle();
    p.spawn(0);
    p.release_handle();
    assert_eq!(p.cnt, 1);
    assert_eq!(p.queue.len(), 1);
}

#[test]
fn hint_is_floored_at_one_worker() {
    assert_eq!(pool_size_from_hint(0), 1);
    assert_eq!(pool_size_from_hint(1), 1);
    assert_eq!(pool_size_from_hint(8), 8);
}
