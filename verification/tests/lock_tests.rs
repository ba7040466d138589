use wake_pool::lock::LockState;

#[test]
fn notify_on_parked_releases_task() {
    let s: LockState<usize> = LockState::Parked(7);
    let (ns, taken) = s.notify();
    assert!(matches!(ns, LockState::Idle));
    assert_eq!(taken, Some(7));
}

#[test]
fn notify_on_polling_flags_repoll() {
    let s: LockState<usize> = LockState::Polling;
    let (ns, taken) = s.notify();
    assert!(matches!(ns, LockState::Repoll));
    assert_eq!(taken, None);
}

#[test]
fn notify_on_idle_is_noop() {
    let s: LockState<usize> = LockState::Idle;
    let (ns, taken) = s.notify();
    assert!(matches!(ns, LockState::Idle));
    assert_eq!(taken, None);
}

#[test]
fn notify_on_repoll_is_noop() {
    let s: LockState<usize> = LockState::Repoll;
    let (ns, taken) = s.notify();
    assert!(matches!(ns, LockState::Repoll));
    assert_eq!(taken, None);
}

#[test]
fn notify_on_complete_is_noop() {
    let s: LockState<usize> = LockState::Complete;
    let (ns, taken) = s.notify();
    assert!(matches!(ns, LockState::Complete));
    assert_eq!(taken, None);
}

#[test]
fn wait_without_race_parks() {
    let s: LockState<usize> = LockState::Idle;
    let s = s.start_poll();
    let (ns, back) = s.wait(3);
    assert!(matches!(ns, LockState::Parked(3)));
    assert_eq!(back, None);
}

#[test]
fn wake_during_poll_forces_repoll() {
    // The race the design exists to close: a wake lands after the pending
    // poll result is computed but before the task parks. The park attempt
    // must hand the task straight back for another poll.
    let s: LockState<usize> = LockState::Idle;
    let s = s.start_poll();
    let (s, taken) = s.notify();
    assert_eq!(taken, None);
    let (ns, back) = s.wait(3);
    assert!(matches!(ns, LockState::Polling));
    assert_eq!(back, Some(3));
}

#[test]
fn complete_is_terminal_under_wakes() {
    let s: LockState<usize> = LockState::Idle;
    let s = s.start_poll();
    let s = s.complete();
    let (s, taken) = s.notify();
    assert_eq!(taken, None);
    let (s, taken) = s.notify();
    assert_eq!(taken, None);
    assert!(matches!(s, LockState::Complete));
}
