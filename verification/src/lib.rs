//! Core of a thread-pool executor that drives suspendable tasks to
//! completion over a fixed set of long-lived workers.
//!
//! The hard part of such a pool is not running a task on a thread but the
//! race between the thread currently polling a task and any thread that
//! wants to wake it: a wake arriving while the poll is still in flight must
//! neither be lost nor lead to the task being polled from two threads at
//! once, and a wake after completion must never resurrect the task.
//!
//! This crate verifies that protocol:
//! - [`lock`] holds the per-task wake/park state machine and its transition
//!   functions, with proofs that a wake is never lost, that a task being
//!   polled can never be handed to a second poller, and that completion is
//!   absorbing;
//! - [`pool`] holds the shared pool state: the FIFO run queue, the live
//!   handle count, and the shutdown fan-out that enqueues one close marker
//!   per worker behind all previously queued work;
//! - [`sched`] ties both together into a scheduler over scripted tasks and
//!   proves the system-level invariants: each task has at most one
//!   schedulable holder at any time, and each task completes at most once.
//!
//! The plumbing that cannot be verified (threads, mutexes, real futures and
//! wakers) lives outside this crate and only calls the transition functions
//! proved here.

pub mod lock;
pub mod pool;
pub mod sched;
