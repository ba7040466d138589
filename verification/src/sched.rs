//! The scheduler: workers, scripted tasks, and the protocol that ties the
//! wake/park state machine to the run queue.
//!
//! A task here is scripted: it returns pending a fixed number of times
//! before returning ready, and it may wake itself while each pending poll is
//! still in flight, which exercises the poll-versus-wake race. The scheduler
//! state is everything the pool shares: one state machine, one poll counter
//! and one completion counter per task, plus the run queue and the handle
//! count.
//!
//! The well-formedness invariant [`Scheduler::wf`] carries the two central
//! guarantees: every task has at most one schedulable holder at any time
//! (its `Run` message in the queue, or its stored `Parked` value, never
//! both, never two messages), and every task's completion is recorded
//! exactly once, exactly when its state machine is `Complete`.

use crate::lock::LockState;
use crate::pool::{Message, PoolState, close_fanout, first_close, lemma_first_close_spec};
use vstd::prelude::*;

verus! {

/// How many `Run` messages for task `t` a queue holds.
pub open spec fn run_count(q: Seq<Message<usize>>, t: usize) -> nat
    decreases q.len(),
{
    if q.len() == 0 {
        0
    } else {
        (if q[0] == Message::<usize>::Run(t) {
            1nat
        } else {
            0nat
        }) + run_count(q.drop_first(), t)
    }
}

/// Counting distributes over concatenation.
pub proof fn lemma_run_count_append(a: Seq<Message<usize>>, b: Seq<Message<usize>>, t: usize)
    ensures
        run_count(a + b, t) == run_count(a, t) + run_count(b, t),
    decreases a.len(),
{
    if a.len() == 0 {
        assert(a + b =~= b);
    } else {
        assert((a + b).drop_first() =~= a.drop_first() + b);
        lemma_run_count_append(a.drop_first(), b, t);
    }
}

/// Appending one message raises the count by one exactly when the message
/// is `Run(t)`.
pub proof fn lemma_run_count_push(q: Seq<Message<usize>>, m: Message<usize>, t: usize)
    ensures
        run_count(q.push(m), t) == run_count(q, t) + (if m == Message::<usize>::Run(t) {
            1nat
        } else {
            0nat
        }),
    decreases q.len(),
{
    if q.len() == 0 {
        assert(q.push(m).drop_first() =~= Seq::<Message<usize>>::empty());
        assert(run_count(q.push(m).drop_first(), t) == 0);
        assert(q.push(m)[0] == m);
    } else {
        assert(q.push(m).drop_first() =~= q.drop_first().push(m));
        lemma_run_count_push(q.drop_first(), m, t);
    }
}

/// The close markers of a shutdown mention no task.
pub proof fn lemma_run_count_closes(size: nat, t: usize)
    ensures
        run_count(close_fanout::<usize>(size), t) == 0,
    decreases size,
{
    if size > 0 {
        assert(close_fanout::<usize>(size).drop_first() =~= close_fanout::<usize>(
            (size - 1) as nat,
        ));
        lemma_run_count_closes((size - 1) as nat, t);
    }
}

/// A message present in the queue is counted.
pub proof fn lemma_queued_implies_counted(q: Seq<Message<usize>>, t: usize, i: int)
    requires
        0 <= i < q.len(),
        q[i] == Message::<usize>::Run(t),
    ensures
        run_count(q, t) >= 1,
    decreases q.len(),
{
    if i > 0 {
        assert(q.drop_first()[i - 1] == q[i]);
        lemma_queued_implies_counted(q.drop_first(), t, i - 1);
    }
}

/// Two distinct queue slots holding `Run(t)` are both counted.
pub proof fn lemma_counted_twice(q: Seq<Message<usize>>, t: usize, i: int, j: int)
    requires
        0 <= i < j < q.len(),
        q[i] == Message::<usize>::Run(t),
        q[j] == Message::<usize>::Run(t),
    ensures
        run_count(q, t) >= 2,
    decreases q.len(),
{
    if i == 0 {
        assert(q.drop_first()[j - 1] == q[j]);
        lemma_queued_implies_counted(q.drop_first(), t, j - 1);
    } else {
        assert(q.drop_first()[i - 1] == q[i]);
        assert(q.drop_first()[j - 1] == q[j]);
        lemma_counted_twice(q.drop_first(), t, i - 1, j - 1);
    }
}

/// The error reserved for the fallible submission entry; never actually
/// produced, since submission of a well-formed task always succeeds.
#[derive(Clone, Copy, Debug, PartialEq, Eq, Structural)]
pub struct SpawnRefused;

/// Deterministic behaviour of one scripted task.
#[derive(Clone, Copy, PartialEq, Eq, Structural)]
pub struct TaskScript {
    /// Number of polls that return pending before one returns ready.
    pub pendings: usize,
    /// Whether each pending poll delivers a wake to the task's own state
    /// machine while the poll is still in flight.
    pub self_wake: bool,
}

/// Whether one drive cycle started with `polls_before` polls already taken
/// runs the task to completion: it does when this poll is the ready one, or
/// when the task keeps waking itself mid-poll, which forces the driving
/// worker to re-poll in place until the ready poll is reached.
pub open spec fn drive_completes(script: TaskScript, polls_before: usize) -> bool {
    script.self_wake || polls_before >= script.pendings
}

/// The task's poll count after one drive cycle: the full budget when the
/// cycle completes the task, one more poll when it parks.
pub open spec fn polls_after_drive(script: TaskScript, polls_before: usize) -> int {
    if drive_completes(script, polls_before) {
        script.pendings + 1
    } else {
        polls_before + 1
    }
}

/// The whole scheduler state: per-task bookkeeping plus the shared pool.
pub struct Scheduler {
    /// Behaviour of each task; the task's identity is its index here.
    pub scripts: Vec<TaskScript>,
    /// Wake/park state machine of each task; the stored payload of a
    /// `Parked` state is the task's own index.
    pub locks: Vec<LockState<usize>>,
    /// How many times each task has been polled.
    pub polls: Vec<usize>,
    /// How many completions have been recorded for each task.
    pub done: Vec<usize>,
    /// The shared run queue, handle count and worker count.
    pub pool: PoolState<usize>,
    /// How many workers have observed a `Close` marker and stopped.
    pub stopped: usize,
}

impl Scheduler {
    /// Number of tasks ever spawned.
    pub open spec fn task_count(self) -> int {
        self.scripts@.len() as int
    }

    /// Well-formedness between steps.
    pub open spec fn wf(self) -> bool {
        &&& self.locks@.len() == self.task_count()
        &&& self.polls@.len() == self.task_count()
        &&& self.done@.len() == self.task_count()
        // Every queued task message names a known task whose state machine
        // is ready to be polled.
        &&& forall|i: int|
            0 <= i < self.pool.queue@.len() ==> ((#[trigger] self.pool.queue@[i]) matches
                Message::Run(t) ==> t < self.task_count() && self.locks@[t as int] is Idle)
        // No task is queued twice: a second `Run` message would let two
        // workers poll the same task at once.
        &&& forall|t: usize|
            t < self.task_count() ==> #[trigger] run_count(self.pool.queue@, t) <= 1
        // Between steps no poll is in flight.
        &&& forall|t: int|
            0 <= t < self.task_count() ==> ((#[trigger] self.locks@[t]) is Idle || self.locks@[t]
                is Parked || self.locks@[t] is Complete)
        // A parked task stores its own identity and has no queued message:
        // the stored value is the single schedulable holder.
        &&& forall|t: int|
            0 <= t < self.task_count() ==> ((#[trigger] self.locks@[t]) matches LockState::Parked(
                u,
            ) ==> u == t && run_count(self.pool.queue@, u) == 0)
        // Poll budgets fit the machine.
        &&& forall|t: int|
            0 <= t < self.task_count() ==> (#[trigger] self.scripts@[t]).pendings < usize::MAX
        // A task is complete exactly when its poll budget is spent, and is
        // never polled past it.
        &&& forall|t: int|
            0 <= t < self.task_count() ==> (self.locks@[t] is Complete
                ==> #[trigger] self.polls@[t] == self.scripts@[t].pendings + 1)
        &&& forall|t: int|
            0 <= t < self.task_count() ==> (!(self.locks@[t] is Complete)
                ==> #[trigger] self.polls@[t] <= self.scripts@[t].pendings)
        // Completion is recorded exactly once, exactly at completion.
        &&& forall|t: int|
            0 <= t < self.task_count() ==> #[trigger] self.done@[t] == (
            if self.locks@[t] is Complete {
                1usize
            } else {
                0usize
            })
    }

    /// A fresh scheduler: no tasks, an empty queue, one live handle and
    /// `size` workers.
    pub fn new(size: usize) -> (s: Scheduler)
        ensures
            s.wf(),
            s.task_count() == 0,
            s.pool.queue@.len() == 0,
            s.pool.cnt == 1,
            s.pool.size == size,
            s.stopped == 0,
    {
        Scheduler {
            scripts: Vec::new(),
            locks: Vec::new(),
            polls: Vec::new(),
            done: Vec::new(),
            pool: PoolState::new(size),
            stopped: 0,
        }
    }

    /// Submit one task: a fresh idle state machine, a zeroed poll counter,
    /// and one `Run` message at the back of the queue. Submission never
    /// fails; it is only legal while a handle is live.
    pub fn spawn_task(&mut self, script: TaskScript) -> (tid: usize)
        requires
            old(self).wf(),
            old(self).pool.cnt >= 1,
            old(self).task_count() < usize::MAX,
            script.pendings < usize::MAX,
        ensures
            final(self).wf(),
            tid == old(self).task_count(),
            final(self).scripts@ == old(self).scripts@.push(script),
            final(self).locks@ == old(self).locks@.push(LockState::<usize>::Idle),
            final(self).polls@ == old(self).polls@.push(0usize),
            final(self).done@ == old(self).done@.push(0usize),
            final(self).pool.queue@ == old(self).pool.queue@.push(Message::Run(tid)),
            final(self).pool.cnt == old(self).pool.cnt,
            final(self).pool.size == old(self).pool.size,
            final(self).stopped == old(self).stopped,
    {
        let tid = self.scripts.len();
        self.scripts.push(script);
        self.locks.push(LockState::Idle);
        self.polls.push(0);
        self.done.push(0);
        self.pool.spawn(tid);
        proof {
            let q0 = old(self).pool.queue@;
            assert forall|t: usize| t < self.task_count() implies #[trigger] run_count(
                self.pool.queue@,
                t,
            ) <= 1 by {
                lemma_run_count_push(q0, Message::Run(tid), t);
                if t == tid {
                    if run_count(q0, t) >= 1 {
                        lemma_run_count_gives_slot(q0, t);
                        let i = choose|i: int|
                            0 <= i < q0.len() && q0[i] == Message::<usize>::Run(t);
                        assert(old(self).pool.queue@[i] matches Message::Run(u) && u
                            < old(self).task_count());
                        assert(false);
                    }
                }
            }
            assert forall|t: int|
                0 <= t < self.task_count() implies ((#[trigger] self.locks@[t]) matches
                LockState::Parked(u) ==> u == t && run_count(self.pool.queue@, u) == 0) by {
                if self.locks@[t] is Parked {
                    let u = self.locks@[t]->Parked_0;
                    lemma_run_count_push(q0, Message::Run(tid), u);
                }
            }
        }
        tid
    }

    /// The fallible submission entry of the polymorphic scheduling
    /// interface ("a thing tasks can be submitted to"). Submission of a
    /// well-formed task never actually fails in this design, so the result
    /// is always the new task's identity.
    pub fn try_spawn_task(&mut self, script: TaskScript) -> (r: Result<usize, SpawnRefused>)
        requires
            old(self).wf(),
            old(self).pool.cnt >= 1,
            old(self).task_count() < usize::MAX,
            script.pendings < usize::MAX,
        ensures
            final(self).wf(),
            r is Ok,
            r->Ok_0 == old(self).task_count(),
            final(self).scripts@ == old(self).scripts@.push(script),
            final(self).locks@ == old(self).locks@.push(LockState::<usize>::Idle),
            final(self).polls@ == old(self).polls@.push(0usize),
            final(self).done@ == old(self).done@.push(0usize),
            final(self).pool.queue@ == old(self).pool.queue@.push(Message::Run(r->Ok_0)),
            final(self).pool.cnt == old(self).pool.cnt,
            final(self).pool.size == old(self).pool.size,
            final(self).stopped == old(self).stopped,
    {
        let tid = self.spawn_task(script);
        Ok(tid)
    }

    /// Deliver a wake to task `tid` from outside any poll. A parked task is
    /// released and re-enqueued; a queued or completed task is left exactly
    /// as it was — in particular a wake never resurrects a completed task.
    pub fn wake(&mut self, tid: usize) -> (woken: bool)
        requires
            old(self).wf(),
            tid < old(self).task_count(),
        ensures
            final(self).wf(),
            final(self).scripts@ == old(self).scripts@,
            final(self).polls@ == old(self).polls@,
            final(self).done@ == old(self).done@,
            final(self).pool.cnt == old(self).pool.cnt,
            final(self).pool.size == old(self).pool.size,
            final(self).stopped == old(self).stopped,
            woken == (old(self).locks@[tid as int] is Parked),
            old(self).locks@[tid as int] is Parked ==> {
                &&& final(self).locks@ == old(self).locks@.update(
                    tid as int,
                    LockState::<usize>::Idle,
                )
                &&& final(self).pool.queue@ == old(self).pool.queue@.push(
                    Message::<usize>::Run(tid),
                )
            },
            !(old(self).locks@[tid as int] is Parked) ==> {
                &&& final(self).locks@ == old(self).locks@
                &&& final(self).pool.queue@ == old(self).pool.queue@
            },
    {
        let s = self.locks[tid];
        let (ns, taken) = s.notify();
        self.locks[tid] = ns;
        match taken {
            Some(t) => {
                self.pool.send(Message::Run(t));
                proof {
                    let q0 = old(self).pool.queue@;
                    assert forall|u: usize| u < self.task_count() implies #[trigger] run_count(
                        self.pool.queue@,
                        u,
                    ) <= 1 by {
                        lemma_run_count_push(q0, Message::Run(t), u);
                    }
                    assert forall|i: int|
                        0 <= i < self.pool.queue@.len() implies ((
                        #[trigger] self.pool.queue@[i]) matches Message::Run(u) ==> u
                        < self.task_count() && self.locks@[u as int] is Idle) by {
                        if i < q0.len() {
                            assert(self.pool.queue@[i] == q0[i]);
                            if q0[i] is Run && q0[i]->Run_0 == t {
                                lemma_queued_implies_counted(q0, t, i);
                            }
                        }
                    }
                    assert forall|u: int|
                        0 <= u < self.task_count() implies ((#[trigger] self.locks@[u]) matches
                        LockState::Parked(w) ==> w == u && run_count(self.pool.queue@, w)
                            == 0) by {
                        if self.locks@[u] is Parked {
                            let w = self.locks@[u]->Parked_0;
                            lemma_run_count_push(q0, Message::Run(t), w);
                        }
                    }
                }
                true
            },
            None => {
                proof {
                    assert(self.locks@ =~= old(self).locks@);
                }
                false
            },
        }
    }

    /// One drive cycle, run by the worker that just took `Run(tid)` off the
    /// queue: start the poll, poll once, and then either record completion,
    /// park the task, or — when a wake raced in during the poll — poll again
    /// on the same thread, with no queue round-trip, until the task parks or
    /// completes. Holding the (unique) dequeued message is the caller's
    /// proof that nobody else is polling, which is why the state machine is
    /// `Idle` and the queue holds no other message for `tid`.
    pub fn drive(&mut self, tid: usize)
        requires
            old(self).wf(),
            tid < old(self).task_count(),
            old(self).locks@[tid as int] is Idle,
            run_count(old(self).pool.queue@, tid) == 0,
        ensures
            final(self).wf(),
            final(self).scripts@ == old(self).scripts@,
            final(self).pool == old(self).pool,
            final(self).stopped == old(self).stopped,
            final(self).locks@ == old(self).locks@.update(
                tid as int,
                if drive_completes(old(self).scripts@[tid as int], old(self).polls@[tid as int]) {
                    LockState::<usize>::Complete
                } else {
                    LockState::<usize>::Parked(tid)
                },
            ),
            final(self).polls@.len() == old(self).polls@.len(),
            forall|j: int|
                0 <= j < old(self).polls@.len() && j != tid ==> final(self).polls@[j] == old(
                    self,
                ).polls@[j],
            final(self).polls@[tid as int] == polls_after_drive(
                old(self).scripts@[tid as int],
                old(self).polls@[tid as int],
            ),
            final(self).done@ == old(self).done@.update(
                tid as int,
                if drive_completes(old(self).scripts@[tid as int], old(self).polls@[tid as int]) {
                    1usize
                } else {
                    0usize
                },
            ),
    {
        let script = self.scripts[tid];
        let s0 = self.locks[tid];
        self.locks[tid] = s0.start_poll();
        loop
            invariant
                old(self).wf(),
                tid < old(self).task_count(),
                old(self).locks@[tid as int] is Idle,
                old(self).done@[tid as int] == 0,
                run_count(old(self).pool.queue@, tid) == 0,
                self.scripts@ == old(self).scripts@,
                self.pool == old(self).pool,
                self.stopped == old(self).stopped,
                self.done@ == old(self).done@,
                self.locks@.len() == old(self).locks@.len(),
                self.polls@.len() == old(self).polls@.len(),
                forall|j: int|
                    0 <= j < self.locks@.len() && j != tid ==> self.locks@[j] == old(
                        self,
                    ).locks@[j],
                forall|j: int|
                    0 <= j < self.polls@.len() && j != tid ==> self.polls@[j] == old(
                        self,
                    ).polls@[j],
                self.locks@[tid as int] is Polling,
                script == self.scripts@[tid as int],
                script.pendings < usize::MAX,
                self.polls@[tid as int] <= script.pendings,
                script.self_wake || self.polls@[tid as int] == old(self).polls@[tid as int],
                old(self).polls@[tid as int] <= self.polls@[tid as int],
            decreases script.pendings + 1 - self.polls@[tid as int],
        {
            let p = self.polls[tid];
            self.polls[tid] = p + 1;
            let ready = p >= script.pendings;
            if !ready && script.self_wake {
                // The task wakes itself while this poll is in flight: the
                // wake lands on a `Polling` state machine and flags it.
                let s = self.locks[tid];
                let (ns, _taken) = s.notify();
                self.locks[tid] = ns;
            }
            if ready {
                let s = self.locks[tid];
                self.locks[tid] = s.complete();
                let d = self.done[tid];
                self.done[tid] = d + 1;
                proof {
                    self.lemma_drive_exit_queue_clauses(*old(self), tid);
                    assert(self.locks@ =~= old(self).locks@.update(
                        tid as int,
                        LockState::<usize>::Complete,
                    ));
                    assert(self.done@ =~= old(self).done@.update(tid as int, 1usize));
                }
                return ;
            }
            let s = self.locks[tid];
            let (ns, back) = s.wait(tid);
            self.locks[tid] = ns;
            match back {
                Some(_t) => {
                    // A wake raced in during the poll: poll again in place.
                },
                None => {
                    // Parked: the task value now rests in the state machine
                    // until a wake releases it.
                    proof {
                        self.lemma_drive_exit_queue_clauses(*old(self), tid);
                        assert(self.locks@ =~= old(self).locks@.update(
                            tid as int,
                            LockState::<usize>::Parked(tid),
                        ));
                        assert(self.done@ =~= old(self).done@.update(tid as int, 0usize));
                    }
                    return ;
                },
            }
        }
    }

    /// The queue-facing clauses of `wf` survive a drive cycle: the queue is
    /// untouched, the driven task has no queued message, and every other
    /// task's state machine is unchanged.
    proof fn lemma_drive_exit_queue_clauses(&self, pre: Scheduler, tid: usize)
        requires
            pre.wf(),
            tid < pre.task_count(),
            run_count(pre.pool.queue@, tid) == 0,
            self.pool == pre.pool,
            self.locks@.len() == pre.locks@.len(),
            forall|j: int|
                0 <= j < self.locks@.len() && j != tid ==> self.locks@[j] == pre.locks@[j],
            !(self.locks@[tid as int] is Idle),
            self.locks@[tid as int] is Parked ==> self.locks@[tid as int]->Parked_0 == tid,
        ensures
            forall|i: int|
                0 <= i < self.pool.queue@.len() ==> ((#[trigger] self.pool.queue@[i]) matches
                    Message::Run(u) ==> u < pre.task_count() && self.locks@[u as int] is Idle),
            forall|t: int|
                0 <= t < self.locks@.len() ==> ((#[trigger] self.locks@[t]) matches
                    LockState::Parked(u) ==> u == t && run_count(self.pool.queue@, u) == 0),
    {
        assert forall|i: int|
            0 <= i < self.pool.queue@.len() implies ((#[trigger] self.pool.queue@[i]) matches
            Message::Run(u) ==> u < pre.task_count() && self.locks@[u as int] is Idle) by {
            assert(self.pool.queue@[i] == pre.pool.queue@[i]);
            if self.pool.queue@[i] is Run {
                let u = self.pool.queue@[i]->Run_0;
                assert(pre.pool.queue@[i] matches Message::Run(w) ==> w < pre.task_count()
                    && pre.locks@[w as int] is Idle);
                if u == tid {
                    lemma_queued_implies_counted(pre.pool.queue@, tid, i);
                }
            }
        }
        assert forall|t: int|
            0 <= t < self.locks@.len() implies ((#[trigger] self.locks@[t]) matches
            LockState::Parked(u) ==> u == t && run_count(self.pool.queue@, u) == 0) by {
            if self.locks@[t] is Parked {
                let u = self.locks@[t]->Parked_0;
                if t != tid {
                    assert(pre.locks@[t] matches LockState::Parked(w) ==> w == t && run_count(
                        pre.pool.queue@,
                        w,
                    ) == 0);
                }
            }
        }
    }

    /// One worker takes the front message and services it: a `Run` message
    /// is driven for one full drive cycle, a `Close` marker stops the
    /// worker. Messages are served strictly in enqueue order.
    pub fn worker_step(&mut self) -> (msg: Message<usize>)
        requires
            old(self).wf(),
            old(self).pool.queue@.len() > 0,
            old(self).stopped < usize::MAX,
        ensures
            final(self).wf(),
            msg == old(self).pool.queue@[0],
            final(self).pool.queue@ == old(self).pool.queue@.subrange(
                1,
                old(self).pool.queue@.len() as int,
            ),
            final(self).pool.cnt == old(self).pool.cnt,
            final(self).pool.size == old(self).pool.size,
            final(self).scripts@ == old(self).scripts@,
            msg is Close ==> {
                &&& final(self).stopped == old(self).stopped + 1
                &&& final(self).locks@ == old(self).locks@
                &&& final(self).polls@ == old(self).polls@
                &&& final(self).done@ == old(self).done@
            },
            msg matches Message::Run(t) ==> {
                let script = old(self).scripts@[t as int];
                let before = old(self).polls@[t as int];
                &&& t < old(self).task_count()
                &&& old(self).locks@[t as int] is Idle
                &&& final(self).stopped == old(self).stopped
                &&& final(self).locks@ == old(self).locks@.update(
                    t as int,
                    if drive_completes(script, before) {
                        LockState::<usize>::Complete
                    } else {
                        LockState::<usize>::Parked(t)
                    },
                )
                &&& final(self).polls@.len() == old(self).polls@.len()
                &&& (forall|j: int|
                    0 <= j < old(self).polls@.len() && j != t ==> final(self).polls@[j] == old(
                        self,
                    ).polls@[j])
                &&& final(self).polls@[t as int] == polls_after_drive(script, before)
                &&& final(self).done@ == old(self).done@.update(
                    t as int,
                    if drive_completes(script, before) {
                        1usize
                    } else {
                        0usize
                    },
                )
            },
    {
        let msg = self.pool.recv();
        proof {
            let q0 = old(self).pool.queue@;
            let q1 = self.pool.queue@;
            assert(q1 =~= q0.drop_first());
            assert forall|t: usize| t < self.task_count() implies #[trigger] run_count(q1, t)
                <= 1 by {
                assert(run_count(q0, t) == (if q0[0] == Message::<usize>::Run(t) {
                    1nat
                } else {
                    0nat
                }) + run_count(q0.drop_first(), t));
            }
            assert forall|i: int|
                0 <= i < q1.len() implies ((#[trigger] q1[i]) matches Message::Run(u) ==> u
                < self.task_count() && self.locks@[u as int] is Idle) by {
                assert(q1[i] == q0[i + 1]);
                assert(q0[i + 1] matches Message::Run(w) ==> w < old(self).task_count() && old(
                    self,
                ).locks@[w as int] is Idle);
            }
            assert forall|t: int|
                0 <= t < self.task_count() implies ((#[trigger] self.locks@[t]) matches
                LockState::Parked(u) ==> u == t && run_count(q1, u) == 0) by {
                if self.locks@[t] is Parked {
                    let u = self.locks@[t]->Parked_0;
                    assert(run_count(q0, u) == (if q0[0] == Message::<usize>::Run(u) {
                        1nat
                    } else {
                        0nat
                    }) + run_count(q0.drop_first(), u));
                }
            }
        }
        match msg {
            Message::Run(t) => {
                proof {
                    let q0 = old(self).pool.queue@;
                    lemma_queued_implies_counted(q0, t, 0);
                    assert(run_count(q0, t) == 1nat + run_count(q0.drop_first(), t));
                    assert(run_count(self.pool.queue@, t) == 0);
                }
                self.drive(t);
                Message::Run(t)
            },
            Message::Close => {
                self.stopped = self.stopped + 1;
                Message::Close
            },
        }
    }

    /// Record one more live handle to the pool.
    pub fn clone_handle(&mut self)
        requires
            old(self).wf(),
            old(self).pool.cnt >= 1,
            old(self).pool.cnt < usize::MAX,
        ensures
            final(self).wf(),
            final(self).scripts@ == old(self).scripts@,
            final(self).locks@ == old(self).locks@,
            final(self).polls@ == old(self).polls@,
            final(self).done@ == old(self).done@,
            final(self).stopped == old(self).stopped,
            final(self).pool.queue@ == old(self).pool.queue@,
            final(self).pool.cnt == old(self).pool.cnt + 1,
            final(self).pool.size == old(self).pool.size,
    {
        self.pool.clone_handle();
    }

    /// Release one live handle. Releasing the last one enqueues exactly one
    /// `Close` marker per worker, behind everything already queued, so all
    /// queued work is served before any worker stops.
    pub fn release_handle(&mut self)
        requires
            old(self).wf(),
            old(self).pool.cnt >= 1,
        ensures
            final(self).wf(),
            final(self).scripts@ == old(self).scripts@,
            final(self).locks@ == old(self).locks@,
            final(self).polls@ == old(self).polls@,
            final(self).done@ == old(self).done@,
            final(self).stopped == old(self).stopped,
            final(self).pool.cnt == old(self).pool.cnt - 1,
            final(self).pool.size == old(self).pool.size,
            old(self).pool.cnt == 1 ==> final(self).pool.queue@ == old(self).pool.queue@
                + close_fanout::<usize>(old(self).pool.size as nat),
            old(self).pool.cnt > 1 ==> final(self).pool.queue@ == old(self).pool.queue@,
    {
        self.pool.release_handle();
        proof {
            if old(self).pool.cnt == 1 {
                let q0 = old(self).pool.queue@;
                let cf = close_fanout::<usize>(old(self).pool.size as nat);
                assert forall|t: usize| t < self.task_count() implies #[trigger] run_count(
                    self.pool.queue@,
                    t,
                ) <= 1 by {
                    lemma_run_count_append(q0, cf, t);
                    lemma_run_count_closes(old(self).pool.size as nat, t);
                }
                assert forall|i: int|
                    0 <= i < self.pool.queue@.len() implies ((
                #[trigger] self.pool.queue@[i]) matches Message::Run(u) ==> u < self.task_count()
                    && self.locks@[u as int] is Idle) by {
                    if i < q0.len() {
                        assert(self.pool.queue@[i] == q0[i]);
                    } else {
                        assert(self.pool.queue@[i] == cf[i - q0.len()]);
                        assert(self.pool.queue@[i] == Message::<usize>::Close);
                    }
                }
                assert forall|t: int|
                    0 <= t < self.task_count() implies ((#[trigger] self.locks@[t]) matches
                LockState::Parked(u) ==> u == t && run_count(self.pool.queue@, u) == 0) by {
                    if self.locks@[t] is Parked {
                        let u = self.locks@[t]->Parked_0;
                        lemma_run_count_append(q0, cf, u);
                        lemma_run_count_closes(old(self).pool.size as nat, u);
                    }
                }
            }
        }
    }

    /// One worker's whole service loop: take and service messages in queue
    /// order until a `Close` marker arrives, then stop. Every `Run` message
    /// that stood ahead of the first `Close` marker is serviced before the
    /// worker stops, so shutdown never drops work queued before it.
    pub fn work(&mut self)
        requires
            old(self).wf(),
            old(self).stopped < usize::MAX,
            exists|i: int|
                0 <= i < old(self).pool.queue@.len() && (#[trigger] old(self).pool.queue@[i])
                    is Close,
        ensures
            final(self).wf(),
            final(self).stopped == old(self).stopped + 1,
            final(self).scripts@ == old(self).scripts@,
            final(self).pool.cnt == old(self).pool.cnt,
            final(self).pool.size == old(self).pool.size,
            final(self).pool.queue@ == old(self).pool.queue@.subrange(
                first_close(old(self).pool.queue@) + 1,
                old(self).pool.queue@.len() as int,
            ),
            forall|j: int|
                0 <= j < first_close(old(self).pool.queue@) ==> ((
                #[trigger] old(self).pool.queue@[j]) matches Message::Run(t) ==> serviced_from(
                    *old(self),
                    *final(self),
                    t,
                )),
            forall|t: usize|
                t < old(self).task_count() && !queued_ahead(
                    old(self).pool.queue@,
                    first_close(old(self).pool.queue@),
                    t,
                ) ==> untouched(*old(self), *final(self), t),
    {
        proof {
            lemma_first_close_spec(old(self).pool.queue@);
        }
        let ghost q0 = old(self).pool.queue@;
        let ghost fc = first_close(old(self).pool.queue@);
        let ghost mut k: int = 0;
        loop
            invariant
                self.wf(),
                old(self).wf(),
                old(self).stopped < usize::MAX,
                0 <= k <= fc,
                q0 == old(self).pool.queue@,
                fc == first_close(q0),
                fc < q0.len(),
                q0[fc] is Close,
                forall|i: int| 0 <= i < fc ==> !((#[trigger] q0[i]) is Close),
                self.scripts@ == old(self).scripts@,
                self.stopped == old(self).stopped,
                self.pool.cnt == old(self).pool.cnt,
                self.pool.size == old(self).pool.size,
                self.pool.queue@ == q0.subrange(k, q0.len() as int),
                forall|j: int|
                    0 <= j < k ==> ((#[trigger] q0[j]) matches Message::Run(t) ==> serviced_from(
                        *old(self),
                        *self,
                        t,
                    )),
                forall|t: usize|
                    t < old(self).task_count() && !queued_ahead(q0, k, t) ==> untouched(
                        *old(self),
                        *self,
                        t,
                    ),
            decreases q0.len() - k,
        {
            proof {
                assert(self.pool.queue@.len() == q0.len() - k);
            }
            let ghost pre = *self;
            let msg = self.worker_step();
            match msg {
                Message::Close => {
                    proof {
                        // The message just taken was q0[k]; a close marker at
                        // k <= fc must be the first one, so k == fc, and the
                        // whole run prefix has been serviced.
                        assert(pre.pool.queue@[0] == q0[k]);
                        assert(k == fc);
                        assert(self.pool.queue@ =~= q0.subrange(fc + 1, q0.len() as int));
                    }
                    return ;
                },
                Message::Run(t) => {
                    proof {
                        assert(pre.pool.queue@[0] == q0[k]);
                        k = k + 1;
                        assert(self.pool.queue@ =~= q0.subrange(k, q0.len() as int));
                        assert(q0[k - 1] matches Message::Run(w) ==> w < old(self).task_count()
                            && old(self).locks@[w as int] is Idle);
                        // t appears nowhere earlier in the prefix: the queue
                        // never holds two messages for one task
                        assert forall|j: int| 0 <= j < k - 1 implies !((#[trigger] q0[j])
                            == Message::<usize>::Run(t)) by {
                            if q0[j] == Message::<usize>::Run(t) {
                                lemma_counted_twice(q0, t, j, k - 1);
                            }
                        }
                        assert(!queued_ahead(q0, k - 1, t));
                        assert(untouched(*old(self), pre, t));
                        assert(serviced_from(*old(self), *self, t));
                        assert forall|j: int|
                            0 <= j < k implies ((#[trigger] q0[j]) matches Message::Run(u)
                            ==> serviced_from(*old(self), *self, u)) by {
                            if j < k - 1 && q0[j] is Run {
                                let u = q0[j]->Run_0;
                                assert(serviced_from(*old(self), pre, u));
                                if u == t {
                                    lemma_counted_twice(q0, t, j, k - 1);
                                }
                                assert(self.locks@[u as int] == pre.locks@[u as int]);
                                assert(self.polls@[u as int] == pre.polls@[u as int]);
                                assert(self.done@[u as int] == pre.done@[u as int]);
                            }
                        }
                        assert forall|t2: usize|
                            t2 < old(self).task_count() && !queued_ahead(q0, k, t2) implies
                            untouched(*old(self), *self, t2) by {
                            assert(!queued_ahead(q0, k - 1, t2));
                            assert(untouched(*old(self), pre, t2));
                            assert(q0[k - 1] == Message::<usize>::Run(t));
                            assert(t2 != t);
                            assert(self.locks@[t2 as int] == pre.locks@[t2 as int]);
                            assert(self.polls@[t2 as int] == pre.polls@[t2 as int]);
                            assert(self.done@[t2 as int] == pre.done@[t2 as int]);
                        }
                    }
                },
            }
        }
    }
}

/// Whether some `Run` message for task `t` stands among the first `k`
/// entries of the queue.
pub open spec fn queued_ahead(q: Seq<Message<usize>>, k: int, t: usize) -> bool {
    exists|j: int| 0 <= j < k && q[j] == Message::<usize>::Run(t)
}

/// What one drive cycle leaves behind for a task, stated from the values it
/// had before the cycle: the state machine parked or complete, the poll
/// counter advanced, the completion recorded exactly when the cycle ran the
/// task to its ready poll.
pub open spec fn serviced_from(pre: Scheduler, post: Scheduler, t: usize) -> bool {
    let script = pre.scripts@[t as int];
    let before = pre.polls@[t as int];
    &&& post.locks@[t as int] == (if drive_completes(script, before) {
        LockState::<usize>::Complete
    } else {
        LockState::<usize>::Parked(t)
    })
    &&& post.polls@[t as int] == polls_after_drive(script, before)
    &&& post.done@[t as int] == (if drive_completes(script, before) {
        1int
    } else {
        0int
    })
}

/// The task's per-task state is the same in `post` as in `pre`.
pub open spec fn untouched(pre: Scheduler, post: Scheduler, t: usize) -> bool {
    &&& post.locks@[t as int] == pre.locks@[t as int]
    &&& post.polls@[t as int] == pre.polls@[t as int]
    &&& post.done@[t as int] == pre.done@[t as int]
}

/// Exactly-once completion: however many times a task is woken and however
/// many of its polls return pending, the scheduler records at most one
/// completion for it — exactly one from the moment its state machine
/// reaches `Complete`, which happens exactly when its ready poll is taken.
pub proof fn lemma_exactly_once_completion(s: Scheduler, t: int)
    requires
        s.wf(),
        0 <= t < s.task_count(),
    ensures
        s.done@[t] <= 1,
        (s.done@[t] == 1) <==> (s.locks@[t] is Complete),
        (s.locks@[t] is Complete) <==> (s.polls@[t] == s.scripts@[t].pendings + 1),
{
}

/// Mutual exclusion: each task has at most one schedulable holder — one
/// `Run` message in the queue or one stored `Parked` value, never both and
/// never two messages — and a queued task's state machine is `Idle`. A
/// worker polls a task only after taking its single message, so no task can
/// ever be polled by two workers at once.
pub proof fn lemma_mutual_exclusion(s: Scheduler, t: usize)
    requires
        s.wf(),
        t < s.task_count(),
    ensures
        run_count(s.pool.queue@, t) + (if s.locks@[t as int] is Parked {
            1int
        } else {
            0int
        }) <= 1,
        forall|i: int|
            0 <= i < s.pool.queue@.len() && (#[trigger] s.pool.queue@[i]) == Message::<
                usize,
            >::Run(t) ==> s.locks@[t as int] is Idle,
{
}

/// A positive count names a queue slot.
pub proof fn lemma_run_count_gives_slot(q: Seq<Message<usize>>, t: usize)
    requires
        run_count(q, t) >= 1,
    ensures
        exists|i: int| 0 <= i < q.len() && q[i] == Message::<usize>::Run(t),
    decreases q.len(),
{
    if q[0] == Message::<usize>::Run(t) {
        assert(q[0] == Message::<usize>::Run(t));
    } else {
        lemma_run_count_gives_slot(q.drop_first(), t);
        let i = choose|i: int| 0 <= i < q.drop_first().len() && q.drop_first()[i] == Message::<
            usize,
        >::Run(t);
        assert(q[i + 1] == q.drop_first()[i]);
    }
}

} // verus!
