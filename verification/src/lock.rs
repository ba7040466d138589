//! Per-task wake/park state machine.
//!
//! Each task owns one instance of this state machine; it arbitrates between
//! the thread currently polling the task and any thread that wants to wake
//! it. Ownership of the task value itself is the token that permits polling:
//! the task value is stored here only while the task is parked, so at every
//! instant it has exactly one holder (a queue slot, a polling thread, or the
//! `Parked` variant).

use vstd::prelude::*;

verus! {

/// State of one task's wake/park state machine.
///
/// The task value of type `T` is embedded in the `Parked` variant, so that
/// holding a `T` is proof that no other thread can be polling the task.
#[derive(Clone, Copy)]
pub enum LockState<T> {
    /// No thread is polling; the task value is held elsewhere (in the run
    /// queue, or by the thread about to start a poll).
    Idle,
    /// One thread owns the task value and is polling it.
    Polling,
    /// One thread is polling, and a wake arrived during that poll; the
    /// poller must poll again before parking.
    Repoll,
    /// The last poll returned pending with no racing wake; the task value
    /// is stored here until a wake releases it.
    Parked(T),
    /// The task's work finished; this state is terminal.
    Complete,
}

/// What a wake does: from `Parked` it releases the stored task for
/// re-enqueueing; from `Polling` it flags the in-flight poll for an
/// immediate re-poll; from every other state it is a no-op.
pub open spec fn notify_transition<T>(s: LockState<T>) -> (LockState<T>, Option<T>) {
    match s {
        LockState::Parked(t) => (LockState::Idle, Some(t)),
        LockState::Polling => (LockState::Repoll, None),
        LockState::Idle => (LockState::Idle, None),
        LockState::Repoll => (LockState::Repoll, None),
        LockState::Complete => (LockState::Complete, None),
    }
}

/// What parking after a pending poll does: with no racing wake the task is
/// stored as `Parked`; if a wake raced in (`Repoll`) the task is handed
/// straight back to the caller for another poll on the same thread.
pub open spec fn wait_transition<T>(s: LockState<T>, task: T) -> (LockState<T>, Option<T>)
    recommends
        s is Polling || s is Repoll,
{
    match s {
        LockState::Repoll => (LockState::Polling, Some(task)),
        _ => (LockState::Parked(task), None),
    }
}

impl<T> LockState<T> {
    /// Begin a poll. Legal only from `Idle`; the caller must hold the task
    /// value, which is its proof that no other thread is polling.
    pub fn start_poll(self) -> (r: LockState<T>)
        requires
            self is Idle,
        ensures
            r is Polling,
    {
        LockState::Polling
    }

    /// Deliver a wake. Returns the new state and, from `Parked`, the stored
    /// task value, which the caller must re-enqueue.
    pub fn notify(self) -> (r: (LockState<T>, Option<T>))
        ensures
            r == notify_transition(self),
    {
        match self {
            LockState::Parked(t) => (LockState::Idle, Some(t)),
            LockState::Polling => (LockState::Repoll, None),
            other => (other, None),
        }
    }

    /// Park after a pending poll. Legal only from `Polling` or `Repoll`
    /// (the caller holds the task, so it is the one polling). From
    /// `Polling` the task is stored; from `Repoll` it is returned for an
    /// immediate re-poll.
    pub fn wait(self, task: T) -> (r: (LockState<T>, Option<T>))
        requires
            self is Polling || self is Repoll,
        ensures
            r == wait_transition(self, task),
    {
        match self {
            LockState::Repoll => (LockState::Polling, Some(task)),
            _ => (LockState::Parked(task), None),
        }
    }

    /// Record that the task's work finished. Unconditional; `Complete` is
    /// terminal.
    pub fn complete(self) -> (r: LockState<T>)
        ensures
            r is Complete,
    {
        LockState::Complete
    }
}

/// No lost wakeup: a wake delivered after a pending poll result was computed
/// but before the task parks (state `Polling`) flags the state machine, and
/// the subsequent park attempt hands the task straight back to the polling
/// thread, so the wake causes another poll.
pub proof fn lemma_no_lost_wakeup<T>(task: T)
    ensures
        notify_transition::<T>(LockState::Polling).0 is Repoll,
        wait_transition(notify_transition::<T>(LockState::Polling).0, task) == (
            LockState::<T>::Polling,
            Some(task),
        ),
{
}

/// Mutual exclusion at the lock level: while some thread is polling
/// (`Polling` or `Repoll`), a wake never extracts a task value, so no other
/// thread can come to hold the task and poll it concurrently.
pub proof fn lemma_poll_is_exclusive<T>(s: LockState<T>)
    requires
        s is Polling || s is Repoll,
    ensures
        notify_transition(s).1 is None,
{
}

/// No resurrection: a wake delivered after the task completed leaves the
/// state `Complete` and extracts nothing, so the task is never re-enqueued
/// or re-polled.
pub proof fn lemma_no_resurrection<T>(s: LockState<T>)
    requires
        s is Complete,
    ensures
        notify_transition(s) == (s, Option::<T>::None),
{
}

/// Every wake is accounted for: it either releases the parked task for
/// re-enqueueing, or forces the active poller to poll again, or hits a task
/// that is already scheduled, already flagged, or finished, and changes
/// nothing.
pub proof fn lemma_wake_accounted_for<T>(s: LockState<T>)
    ensures
        s matches LockState::Parked(t) ==> notify_transition(s) == (
            LockState::<T>::Idle,
            Some(t),
        ),
        s is Polling ==> notify_transition(s).0 is Repoll && notify_transition(s).1 is None,
        s is Idle || s is Repoll || s is Complete ==> notify_transition(s) == (
            s,
            Option::<T>::None,
        ),
{
}

} // verus!
