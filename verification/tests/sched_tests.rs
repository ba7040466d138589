use wake_pool::lock::LockState;
use wake_pool::pool::Message;
use wake_pool::sched::{Scheduler, TaskScript};

fn run_count(s: &Scheduler, tid: usize) -> usize {
    s.pool.queue.iter().filter(|m| matches!(**m, Message::Run(t) if t == tid)).count()
}

#[test]
fn scenario_two_workers_one_external_wake() {
    // Pool of 2 workers; task X returns pending once, is woken externally
    // exactly once, then returns ready; task Y returns ready at once.
    // Expected: both complete; X is polled exactly twice, Y exactly once.
    let mut s = Scheduler::new(2);
    let x = s.spawn_task(TaskScript { pendings: 1, self_wake: false });
    let y = s.spawn_task(TaskScript { pendings: 0, self_wake: false });
    assert!(matches!(s.worker_step(), Message::Run(t) if t == x));
    assert!(matches!(s.locks[x], LockState::Parked(t) if t == x));
    assert!(matches!(s.worker_step(), Message::Run(t) if t == y));
    assert_eq!(s.done[y], 1);
    assert_eq!(s.polls[y], 1);
    assert!(s.wake(x));
    assert!(matches!(s.worker_step(), Message::Run(t) if t == x));
    assert_eq!(s.polls[x], 2);
    assert_eq!(s.polls[y], 1);
    assert_eq!(s.done[x], 1);
    assert_eq!(s.done[y], 1);
    s.release_handle();
    assert_eq!(s.pool.queue.len(), 2);
    s.worker_step();
    s.worker_step();
    assert_eq!(s.stopped, 2);
}

#[test]
fn stress_self_waking_tasks() {
    // 4 workers, 1000 tasks, each self-waking 10 times before completing:
    // all complete, total poll count is exactly 11000, and the guard that
    // `wf` proves (single holder per task) means no task was ever double
    // polled.
    let mut s = Scheduler::new(4);
    for _ in 0..1000usize {
        s.spawn_task(TaskScript { pendings: 10, self_wake: true });
    }
    s.release_handle();
    for _ in 0..4usize {
        s.work();
    }
    assert_eq!(s.stopped, 4);
    assert_eq!(s.pool.queue.len(), 0);
    let total: usize = s.polls.iter().sum();
    assert_eq!(total, 11000);
    assert!(s.done.iter().all(|d| *d == 1));
}

#[test]
fn shutdown_preserves_queued_work() {
    // Five tasks are queued before the last handle is released; the single
    // worker still services all five before it observes the close marker.
    let mut s = Scheduler::new(1);
    for _ in 0..5usize {
        s.spawn_task(TaskScript { pendings: 0, self_wake: false });
    }
    s.release_handle();
    assert_eq!(s.pool.queue.len(), 6);
    s.work();
    assert_eq!(s.stopped, 1);
    assert!(s.done.iter().all(|d| *d == 1));
    assert_eq!(s.pool.queue.len(), 0);
}

#[test]
fn wake_after_completion_is_noop() {
    let mut s = Scheduler::new(1);
    let t = s.spawn_task(TaskScript { pendings: 0, self_wake: false });
    s.worker_step();
    assert_eq!(s.done[t], 1);
    assert!(matches!(s.locks[t], LockState::Complete));
    // a late wake must not re-enqueue or re-poll the task
    assert!(!s.wake(t));
    assert_eq!(s.pool.queue.len(), 0);
    assert!(matches!(s.locks[t], LockState::Complete));
    assert_eq!(s.polls[t], 1);
    assert_eq!(s.done[t], 1);
}

#[test]
fn wake_during_poll_is_not_lost() {
    // A task that wakes itself while each pending poll is in flight is
    // re-polled in place: one trip through the queue, four polls, done.
    let mut s = Scheduler::new(1);
    let t = s.spawn_task(TaskScript { pendings: 3, self_wake: true });
    s.worker_step();
    assert_eq!(s.polls[t], 4);
    assert_eq!(s.done[t], 1);
    assert_eq!(s.pool.queue.len(), 0);
}

#[test]
fn completion_is_exactly_once_under_external_wakes() {
    let mut s = Scheduler::new(1);
    let t = s.spawn_task(TaskScript { pendings: 2, self_wake: false });
    s.worker_step();
    assert!(s.wake(t));
    s.worker_step();
    assert!(s.wake(t));
    s.worker_step();
    assert_eq!(s.polls[t], 3);
    assert_eq!(s.done[t], 1);
    // the task is complete; further wakes change nothing
    assert!(!s.wake(t));
    assert_eq!(s.done[t], 1);
    assert_eq!(s.pool.queue.len(), 0);
}

#[test]
fn task_is_never_queued_twice() {
    // A queued task has a single schedulable holder: waking it again while
    // its message is still queued is a no-op, so two workers can never take
    // it at the same time.
    let mut s = Scheduler::new(2);
    let t = s.spawn_task(TaskScript { pendings: 1, self_wake: false });
    s.worker_step();
    assert!(matches!(s.locks[t], LockState::Parked(_)));
    assert!(s.wake(t));
    assert_eq!(run_count(&s, t), 1);
    assert!(!s.wake(t));
    assert_eq!(run_count(&s, t), 1);
}

#[test]
fn fallible_submission_always_succeeds() {
    let mut s = Scheduler::new(1);
    let r = s.try_spawn_task(TaskScript { pendings: 0, self_wake: false });
    assert_eq!(r, Ok(0));
    let r = s.try_spawn_task(TaskScript { pendings: 2, self_wake: true });
    assert_eq!(r, Ok(1));
    assert_eq!(s.pool.queue.len(), 2);
}

#[test]
fn close_marker_stops_one_worker() {
    let mut s = Scheduler::new(2);
    s.release_handle();
    assert_eq!(s.pool.queue.len(), 2);
    assert!(matches!(s.worker_step(), Message::Close));
    assert_eq!(s.stopped, 1);
    assert!(matches!(s.worker_step(), Message::Close));
    assert_eq!(s.stopped, 2);
    assert_eq!(s.pool.queue.len(), 0);
}

#[test]
fn handle_count_gates_the_fanout() {
    let mut s = Scheduler::new(3);
    s.clone_handle();
    s.spawn_task(TaskScript { pendings: 0, self_wake: false });
    s.release_handle();
    // one handle still lives: no close markers yet
    assert_eq!(s.pool.queue.len(), 1);
    s.release_handle();
    assert_eq!(s.pool.queue.len(), 4);
}
