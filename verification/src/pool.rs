//! Shared pool state: the FIFO run queue, the live-handle count, and the
//! shutdown fan-out.
//!
//! Every live handle to the pool shares one `PoolState`. Spawning pushes a
//! `Run` message; each worker repeatedly takes the front message. When the
//! last handle is released, exactly one `Close` message per worker is
//! enqueued behind everything already queued, so all previously queued work
//! is served before any worker stops.

use std::collections::VecDeque;
use vstd::prelude::*;

verus! {

/// One entry of the run queue: either a task to drive or a marker telling
/// the worker that takes it to stop.
#[derive(Clone, Copy)]
pub enum Message<T> {
    /// A task for a worker to drive for one poll cycle.
    Run(T),
    /// Stop the worker that takes this message.
    Close,
}

/// The close markers enqueued at shutdown: one per worker.
pub open spec fn close_fanout<T>(size: nat) -> Seq<Message<T>> {
    Seq::new(size, |i: int| Message::Close)
}

/// Index of the first `Close` marker in a queue, or the queue's length if
/// there is none.
pub open spec fn first_close<T>(q: Seq<Message<T>>) -> int
    decreases q.len(),
{
    if q.len() == 0 {
        0
    } else if q[0] is Close {
        0
    } else {
        1 + first_close(q.drop_first())
    }
}

/// `first_close` points at a `Close` marker when one exists, and everything
/// ahead of it is a `Run` message.
pub proof fn lemma_first_close_spec<T>(q: Seq<Message<T>>)
    ensures
        0 <= first_close(q) <= q.len(),
        first_close(q) < q.len() ==> q[first_close(q)] is Close,
        forall|i: int| 0 <= i < first_close(q) ==> !((#[trigger] q[i]) is Close),
        (exists|i: int| 0 <= i < q.len() && (#[trigger] q[i]) is Close) ==> first_close(q)
            < q.len(),
    decreases q.len(),
{
    if q.len() == 0 {
    } else if q[0] is Close {
    } else {
        lemma_first_close_spec(q.drop_first());
        assert forall|i: int| 0 <= i < first_close(q) implies !((#[trigger] q[i]) is Close) by {
            if i > 0 {
                assert(q.drop_first()[i - 1] == q[i]);
            }
        }
        if exists|i: int| 0 <= i < q.len() && (#[trigger] q[i]) is Close {
            let i = choose|i: int| 0 <= i < q.len() && (#[trigger] q[i]) is Close;
            assert(q.drop_first()[i - 1] == q[i]);
        }
    }
}

/// Prepending messages that are not `Close` pushes the first `Close` marker
/// out by exactly their number.
pub proof fn lemma_first_close_append<T>(front: Seq<Message<T>>, rest: Seq<Message<T>>)
    requires
        forall|i: int| 0 <= i < front.len() ==> !((#[trigger] front[i]) is Close),
    ensures
        first_close(front + rest) == front.len() + first_close(rest),
    decreases front.len(),
{
    if front.len() == 0 {
        assert(front + rest =~= rest);
    } else {
        assert((front + rest).drop_first() =~= front.drop_first() + rest);
        lemma_first_close_append(front.drop_first(), rest);
    }
}

/// Shared state of one pool: the run queue, the number of live handles, and
/// the fixed worker count.
pub struct PoolState<T> {
    /// FIFO of scheduling messages, shared by all producers and workers.
    pub queue: VecDeque<Message<T>>,
    /// Number of live handles to this pool.
    pub cnt: usize,
    /// Number of workers the pool was created with.
    pub size: usize,
}

impl<T> PoolState<T> {
    /// A fresh pool state: empty queue, one live handle, `size` workers.
    pub fn new(size: usize) -> (p: PoolState<T>)
        ensures
            p.queue@.len() == 0,
            p.cnt == 1,
            p.size == size,
    {
        PoolState { queue: VecDeque::new(), cnt: 1, size }
    }

    /// Enqueue one message at the back of the run queue.
    pub fn send(&mut self, msg: Message<T>)
        ensures
            final(self).queue@ == old(self).queue@.push(msg),
            final(self).cnt == old(self).cnt,
            final(self).size == old(self).size,
    {
        self.queue.push_back(msg);
    }

    /// Take the front message of the run queue. A worker calls this to get
    /// its next unit of work; service order is exactly enqueue order.
    pub fn recv(&mut self) -> (msg: Message<T>)
        requires
            old(self).queue@.len() > 0,
        ensures
            msg == old(self).queue@[0],
            final(self).queue@ == old(self).queue@.subrange(1, old(self).queue@.len() as int),
            final(self).cnt == old(self).cnt,
            final(self).size == old(self).size,
    {
        let front = self.queue.pop_front();
        match front {
            Some(msg) => msg,
            None => {
                proof {
                    assert(false);
                }
                Message::Close
            },
        }
    }

    /// Submit a task: wrap it in a `Run` message and enqueue it. Submission
    /// never fails, but it is only legal while at least one handle is live.
    pub fn spawn(&mut self, task: T)
        requires
            old(self).cnt >= 1,
        ensures
            final(self).queue@ == old(self).queue@.push(Message::Run(task)),
            final(self).cnt == old(self).cnt,
            final(self).size == old(self).size,
    {
        self.send(Message::Run(task));
    }

    /// Record one more live handle.
    pub fn clone_handle(&mut self)
        requires
            old(self).cnt >= 1,
            old(self).cnt < usize::MAX,
        ensures
            final(self).cnt == old(self).cnt + 1,
            final(self).queue@ == old(self).queue@,
            final(self).size == old(self).size,
    {
        self.cnt = self.cnt + 1;
    }

    /// Release one live handle. When the last handle goes away, exactly one
    /// `Close` marker per worker is enqueued, behind every message already
    /// queued; otherwise the queue is untouched.
    pub fn release_handle(&mut self)
        requires
            old(self).cnt >= 1,
        ensures
            final(self).cnt == old(self).cnt - 1,
            final(self).size == old(self).size,
            old(self).cnt == 1 ==> final(self).queue@ == old(self).queue@ + close_fanout::<T>(
                old(self).size as nat,
            ),
            old(self).cnt > 1 ==> final(self).queue@ == old(self).queue@,
    {
        self.cnt = self.cnt - 1;
        if self.cnt == 0 {
            proof {
                assert(self.queue@ =~= old(self).queue@ + close_fanout::<T>(0));
            }
            let mut i: usize = 0;
            while i < self.size
                invariant
                    i <= self.size,
                    self.cnt == old(self).cnt - 1,
                    self.size == old(self).size,
                    self.queue@ == old(self).queue@ + close_fanout::<T>(i as nat),
                decreases self.size - i,
            {
                self.queue.push_back(Message::Close);
                i = i + 1;
                proof {
                    assert(self.queue@ =~= old(self).queue@ + close_fanout::<T>(i as nat));
                }
            }
        }
    }
}

/// Shutdown preserves queued work: when the close markers are enqueued
/// behind a queue that holds only `Run` messages, every one of those
/// messages stands ahead of the first `Close` marker, so FIFO service
/// delivers all of them before any worker can observe a `Close`.
pub proof fn lemma_shutdown_preserves_queued_work<T>(q: Seq<Message<T>>, size: nat)
    requires
        forall|i: int| 0 <= i < q.len() ==> !((#[trigger] q[i]) is Close),
    ensures
        first_close(q + close_fanout::<T>(size)) == q.len(),
        forall|i: int| 0 <= i < q.len() ==> (q + close_fanout::<T>(size))[i] == q[i],
{
    lemma_first_close_append(q, close_fanout::<T>(size));
    if size == 0 {
        assert(close_fanout::<T>(size).len() == 0);
    } else {
        assert(close_fanout::<T>(size)[0] is Close);
    }
}

/// Worker count from a platform concurrency hint: the hint itself, floored
/// at one worker.
pub fn pool_size_from_hint(hint: usize) -> (size: usize)
    ensures
        size == if hint == 0 { 1usize } else { hint },
        size >= 1,
{
    if hint == 0 {
        1
    } else {
        hint
    }
}

} // verus!
