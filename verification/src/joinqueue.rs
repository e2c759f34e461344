//! A bounded-concurrency task scheduler: at most `max_concurrent` tasks are
//! out for execution at any instant, the rest wait in a FIFO backlog.
//!
//! The scheduler holds no domain knowledge and does not run anything
//! itself: it decides. `enqueue` either hands the task straight back as
//! *started* or parks it; when the caller reports a completion the
//! scheduler promotes waiting tasks into the freed capacity, in strict
//! first-in-first-out order (the one documented policy, for promotion and
//! for the idle drain alike); `take_idle_task` serves the case where
//! nothing is out but the backlog is not empty. Whether a started task runs
//! on a blocking worker or on the event loop is the caller's business; the
//! task's `kind` says which it must be.
//!
//! Two ghost multisets account for every task: `accepted_ms` holds the ids
//! ever enqueued, `delivered_ms` the ids reported done. Well-formedness
//! ties them to the live state, which is what makes the conservation law
//! (drain everything and every accepted task was delivered exactly once) a
//! theorem rather than a hope.

use vstd::prelude::*;
use vstd::multiset::Multiset;
use vstd::seq_lib::group_to_multiset_ensures;

verus! {

/// Whether a task is CPU-bound (`Blocking`) and must run on a worker pool
/// for blocking work, or is asynchronous I/O (`NonBlocking`).
#[derive(Debug, Clone, Copy, PartialEq, Eq, Structural)]
pub enum TaskKind {
    Blocking,
    NonBlocking,
}

/// A task together with the id and kind the scheduler assigned it.
pub struct QueueTask<T> {
    pub id: u64,
    pub kind: TaskKind,
    pub task: T,
}

/// What became of an enqueued task: handed back to be run now, or parked
/// in the backlog under its id.
pub enum Enqueued<T> {
    Started(QueueTask<T>),
    Queued(u64),
}

pub struct JoinQueue<T> {
    max_concurrent: usize,
    next_id: u64,
    running: Vec<u64>,
    queue: Vec<QueueTask<T>>,
    accepted: Ghost<Multiset<u64>>,
    delivered: Ghost<Multiset<u64>>,
}

impl<T> JoinQueue<T> {
    /// The concurrency bound the scheduler was made with.
    pub closed spec fn spec_max(&self) -> usize {
        self.max_concurrent
    }

    /// The id the next accepted task will get.
    pub closed spec fn spec_next_id(&self) -> u64 {
        self.next_id
    }

    /// Ids of the tasks handed out for execution and not yet reported done.
    pub closed spec fn running_ids(&self) -> Seq<u64> {
        self.running@
    }

    /// The backlog, front first.
    pub closed spec fn backlog(&self) -> Seq<QueueTask<T>> {
        self.queue@
    }

    /// Ids of every task ever accepted.
    pub closed spec fn accepted_ms(&self) -> Multiset<u64> {
        self.accepted@
    }

    /// Ids of every completion ever delivered to the caller.
    pub closed spec fn delivered_ms(&self) -> Multiset<u64> {
        self.delivered@
    }

    pub open spec fn queued_ids(&self) -> Seq<u64> {
        self.backlog().map_values(|t: QueueTask<T>| t.id)
    }

    /// The tasks accepted but not yet delivered, wherever they stand.
    pub open spec fn pending_ms(&self) -> Multiset<u64> {
        self.running_ids().to_multiset().add(self.queued_ids().to_multiset())
    }

    pub open spec fn wf(&self) -> bool {
        &&& 1 <= self.spec_max()
        &&& self.running_ids().len() <= self.spec_max()
        &&& self.accepted_ms() == self.delivered_ms().add(self.pending_ms())
        &&& (forall|id: u64| #[trigger] self.accepted_ms().count(id) <= 1)
        &&& (forall|id: u64|
            #[trigger] self.accepted_ms().count(id) > 0 ==> id < self.spec_next_id())
    }

    /// A fresh scheduler that will run at most `max_concurrent` tasks at
    /// once. A bound of zero could never start anything, so it is excluded.
    pub fn new(max_concurrent: usize) -> (r: Self)
        requires
            max_concurrent >= 1,
        ensures
            r.wf(),
            r.spec_max() == max_concurrent,
            r.spec_next_id() == 0,
            r.running_ids() == Seq::<u64>::empty(),
            r.backlog() == Seq::<QueueTask<T>>::empty(),
            r.accepted_ms() == Multiset::<u64>::empty(),
            r.delivered_ms() == Multiset::<u64>::empty(),
    {
        let r = JoinQueue {
            max_concurrent,
            next_id: 0,
            running: Vec::new(),
            queue: Vec::new(),
            accepted: Ghost(Multiset::empty()),
            delivered: Ghost(Multiset::empty()),
        };
        proof {
            broadcast use group_to_multiset_ensures;

            assert(r.queued_ids() =~= Seq::<u64>::empty());
            assert(r.pending_ms() =~= Multiset::<u64>::empty());
            assert(r.accepted_ms() =~= r.delivered_ms().add(r.pending_ms()));
        }
        r
    }

    /// Accepts a task of the given kind: started now if capacity is free,
    /// parked at the back of the backlog otherwise.
    fn enqueue_task(&mut self, task: T, kind: TaskKind) -> (r: Enqueued<T>)
        requires
            old(self).wf(),
            old(self).spec_next_id() < u64::MAX,
        ensures
            final(self).wf(),
            final(self).spec_max() == old(self).spec_max(),
            final(self).spec_next_id() == old(self).spec_next_id() + 1,
            final(self).accepted_ms() == old(self).accepted_ms().insert(
                old(self).spec_next_id(),
            ),
            final(self).delivered_ms() == old(self).delivered_ms(),
            final(self).pending_ms() == old(self).pending_ms().insert(old(self).spec_next_id()),
            match r {
                Enqueued::Started(qt) => {
                    &&& old(self).running_ids().len() < old(self).spec_max()
                    &&& qt.id == old(self).spec_next_id()
                    &&& qt.kind == kind
                    &&& qt.task == task
                    &&& final(self).running_ids() == old(self).running_ids().push(qt.id)
                    &&& final(self).backlog() == old(self).backlog()
                },
                Enqueued::Queued(id) => {
                    &&& old(self).running_ids().len() >= old(self).spec_max()
                    &&& id == old(self).spec_next_id()
                    &&& final(self).running_ids() == old(self).running_ids()
                    &&& final(self).backlog() == old(self).backlog().push(
                        QueueTask { id, kind, task },
                    )
                },
            },
    {
        let id = self.next_id;
        self.next_id = self.next_id + 1;
        self.accepted = Ghost(self.accepted@.insert(id));
        proof {
            broadcast use group_to_multiset_ensures;

        }
        if self.running.len() < self.max_concurrent {
            self.running.push(id);
            proof {
                assert(self.pending_ms() =~= old(self).pending_ms().insert(id));
                assert(self.accepted_ms() =~= self.delivered_ms().add(self.pending_ms()));
            }
            Enqueued::Started(QueueTask { id, kind, task })
        } else {
            self.queue.push(QueueTask { id, kind, task });
            proof {
                assert(self.queued_ids() =~= old(self).queued_ids().push(id));
                assert(self.pending_ms() =~= old(self).pending_ms().insert(id));
                assert(self.accepted_ms() =~= self.delivered_ms().add(self.pending_ms()));
            }
            Enqueued::Queued(id)
        }
    }

    /// Accepts a non-blocking (asynchronous) task.
    pub fn enqueue(&mut self, task: T) -> (r: Enqueued<T>)
        requires
            old(self).wf(),
            old(self).spec_next_id() < u64::MAX,
        ensures
            final(self).wf(),
            final(self).spec_max() == old(self).spec_max(),
            final(self).spec_next_id() == old(self).spec_next_id() + 1,
            final(self).accepted_ms() == old(self).accepted_ms().insert(
                old(self).spec_next_id(),
            ),
            final(self).delivered_ms() == old(self).delivered_ms(),
            final(self).pending_ms() == old(self).pending_ms().insert(old(self).spec_next_id()),
            match r {
                Enqueued::Started(qt) => {
                    &&& old(self).running_ids().len() < old(self).spec_max()
                    &&& qt.id == old(self).spec_next_id()
                    &&& qt.kind == TaskKind::NonBlocking
                    &&& qt.task == task
                    &&& final(self).running_ids() == old(self).running_ids().push(qt.id)
                    &&& final(self).backlog() == old(self).backlog()
                },
                Enqueued::Queued(id) => {
                    &&& old(self).running_ids().len() >= old(self).spec_max()
                    &&& id == old(self).spec_next_id()
                    &&& final(self).running_ids() == old(self).running_ids()
                    &&& final(self).backlog() == old(self).backlog().push(
                        QueueTask { id, kind: TaskKind::NonBlocking, task },
                    )
                },
            },
    {
        self.enqueue_task(task, TaskKind::NonBlocking)
    }

    /// Accepts a blocking (CPU-bound) task.
    pub fn enqueue_blocking(&mut self, task: T) -> (r: Enqueued<T>)
        requires
            old(self).wf(),
            old(self).spec_next_id() < u64::MAX,
        ensures
            final(self).wf(),
            final(self).spec_max() == old(self).spec_max(),
            final(self).spec_next_id() == old(self).spec_next_id() + 1,
            final(self).accepted_ms() == old(self).accepted_ms().insert(
                old(self).spec_next_id(),
            ),
            final(self).delivered_ms() == old(self).delivered_ms(),
            final(self).pending_ms() == old(self).pending_ms().insert(old(self).spec_next_id()),
            match r {
                Enqueued::Started(qt) => {
                    &&& old(self).running_ids().len() < old(self).spec_max()
                    &&& qt.id == old(self).spec_next_id()
                    &&& qt.kind == TaskKind::Blocking
                    &&& qt.task == task
                    &&& final(self).running_ids() == old(self).running_ids().push(qt.id)
                    &&& final(self).backlog() == old(self).backlog()
                },
                Enqueued::Queued(id) => {
                    &&& old(self).running_ids().len() >= old(self).spec_max()
                    &&& id == old(self).spec_next_id()
                    &&& final(self).running_ids() == old(self).running_ids()
                    &&& final(self).backlog() == old(self).backlog().push(
                        QueueTask { id, kind: TaskKind::Blocking, task },
                    )
                },
            },
    {
        self.enqueue_task(task, TaskKind::Blocking)
    }

    /// Promotes backlog tasks, front first, into whatever capacity is free,
    /// and returns them for the caller to start.
    fn spawn_max_from_queue(&mut self) -> (promoted: Vec<QueueTask<T>>)
        requires
            old(self).wf(),
        ensures
            final(self).wf(),
            final(self).spec_max() == old(self).spec_max(),
            final(self).spec_next_id() == old(self).spec_next_id(),
            final(self).accepted_ms() == old(self).accepted_ms(),
            final(self).delivered_ms() == old(self).delivered_ms(),
            final(self).pending_ms() == old(self).pending_ms(),
            promoted@ == old(self).backlog().take(promoted@.len() as int),
            final(self).backlog() == old(self).backlog().skip(promoted@.len() as int),
            final(self).running_ids() == old(self).running_ids() + promoted@.map_values(
                |t: QueueTask<T>| t.id,
            ),
            final(self).running_ids().len() == final(self).spec_max()
                || final(self).backlog().len() == 0,
    {
        let ghost pre = *self;
        let mut promoted: Vec<QueueTask<T>> = Vec::new();
        while self.running.len() < self.max_concurrent && self.queue.len() > 0
            invariant
                pre == *old(self),
                pre.wf(),
                self.max_concurrent == pre.max_concurrent,
                self.next_id == pre.next_id,
                self.accepted@ == pre.accepted@,
                self.delivered@ == pre.delivered@,
                promoted@.len() <= pre.queue@.len(),
                promoted@ == pre.queue@.take(promoted@.len() as int),
                self.queue@ == pre.queue@.skip(promoted@.len() as int),
                self.running@ == pre.running@ + promoted@.map_values(|t: QueueTask<T>| t.id),
                self.running@.len() <= self.max_concurrent,
                self.pending_ms() == pre.pending_ms(),
            decreases self.queue@.len(),
        {
            let ghost loop_pre = *self;
            let qt = self.queue.remove(0);
            self.running.push(qt.id);
            promoted.push(qt);
            proof {
                broadcast use group_to_multiset_ensures;

                assert(promoted@ =~= pre.queue@.take(promoted@.len() as int));
                assert(self.queue@ =~= pre.queue@.skip(promoted@.len() as int));
                assert(self.running@ =~= pre.running@ + promoted@.map_values(
                    |t: QueueTask<T>| t.id,
                ));
                assert(self.queued_ids() =~= loop_pre.queued_ids().remove(0));
                assert(loop_pre.queued_ids()[0] == qt.id);
                assert(self.running_ids().to_multiset() =~= loop_pre.running_ids().to_multiset()
                    .insert(qt.id));
                assert(self.pending_ms() =~= loop_pre.pending_ms());
            }
        }
        proof {
            assert(self.accepted_ms() == self.delivered_ms().add(self.pending_ms()));
        }
        promoted
    }

    /// Whether the task with this id is currently out for execution.
    pub fn is_running(&self, id: u64) -> (r: bool)
        ensures
            r == self.running_ids().contains(id),
    {
        let mut i: usize = 0;
        let n = self.running.len();
        while i < n
            invariant
                n == self.running@.len(),
                i <= n,
                forall|j: int| 0 <= j < i ==> self.running@[j] != id,
            decreases n - i,
        {
            if self.running[i] == id {
                return true;
            }
            i += 1;
        }
        false
    }

    /// The caller reports that the task with this id finished — however it
    /// finished; failure is a completion like any other. The freed capacity
    /// is topped up from the backlog and the promoted tasks are returned
    /// for the caller to start.
    pub fn complete(&mut self, id: u64) -> (promoted: Vec<QueueTask<T>>)
        requires
            old(self).wf(),
            old(self).running_ids().contains(id),
        ensures
            final(self).wf(),
            final(self).spec_max() == old(self).spec_max(),
            final(self).spec_next_id() == old(self).spec_next_id(),
            final(self).accepted_ms() == old(self).accepted_ms(),
            final(self).delivered_ms() == old(self).delivered_ms().insert(id),
            final(self).pending_ms() == old(self).pending_ms().remove(id),
            promoted@ == old(self).backlog().take(promoted@.len() as int),
            final(self).backlog() == old(self).backlog().skip(promoted@.len() as int),
            !final(self).running_ids().contains(id),
            forall|i: int|
                0 <= i < promoted@.len() ==> final(self).running_ids().contains(
                    #[trigger] promoted@[i].id,
                ),
            forall|id2: u64|
                #[trigger] final(self).running_ids().contains(id2) <==> ((old(
                    self,
                ).running_ids().contains(id2) && id2 != id) || promoted@.map_values(
                    |t: QueueTask<T>| t.id,
                ).contains(id2)),
            final(self).running_ids().len() == final(self).spec_max()
                || final(self).backlog().len() == 0,
    {
        let ghost pre = *self;
        let mut i: usize = 0;
        let n = self.running.len();
        while i < n
            invariant
                *self == pre,
                pre == *old(self),
                pre.wf(),
                pre.running_ids().contains(id),
                n == self.running@.len(),
                i <= n,
                forall|j: int| 0 <= j < i ==> self.running@[j] != id,
            decreases n - i,
        {
            if self.running[i] == id {
                self.running.remove(i);
                self.delivered = Ghost(self.delivered@.insert(id));
                let ghost mid = *self;
                proof {
                    broadcast use group_to_multiset_ensures;

                    assert(mid.running_ids().to_multiset() =~= pre.running_ids().to_multiset()
                        .remove(id));
                    assert(mid.pending_ms() =~= pre.pending_ms().remove(id));
                    assert(pre.pending_ms().count(id) >= 1);
                    assert(pre.accepted_ms().count(id) == pre.delivered_ms().count(id)
                        + pre.pending_ms().count(id));
                    assert(pre.pending_ms().count(id) == 1);
                    assert(mid.pending_ms().count(id) == 0);
                    assert(mid.accepted_ms() =~= mid.delivered_ms().add(mid.pending_ms()));
                    assert(mid.wf());
                }
                let promoted = self.spawn_max_from_queue();
                proof {
                    broadcast use group_to_multiset_ensures;

                    assert forall|j: int| 0 <= j < promoted@.len() implies self.running_ids()
                        .contains(#[trigger] promoted@[j].id) by {
                        let ids = promoted@.map_values(|t: QueueTask<T>| t.id);
                        assert(self.running_ids()[mid.running_ids().len() + j] == ids[j]);
                    }
                    assert(!self.running_ids().contains(id)) by {
                        assert(self.pending_ms().count(id) == 0);
                        assert(self.running_ids().to_multiset().count(id) == 0);
                    }
                    let ids = promoted@.map_values(|t: QueueTask<T>| t.id);
                    assert forall|id2: u64| #[trigger] self.running_ids().contains(id2) implies ((
                    pre.running_ids().contains(id2) && id2 != id) || ids.contains(id2)) by {
                        let p = choose|p: int|
                            0 <= p < self.running_ids().len() && self.running_ids()[p] == id2;
                        if p < mid.running_ids().len() {
                            assert(mid.running_ids()[p] == id2);
                            let p0 = if p < i { p } else { p + 1 };
                            assert(pre.running_ids()[p0] == id2);
                            assert(mid.running_ids().to_multiset().count(id2) > 0);
                            assert(mid.pending_ms().count(id2) > 0);
                            assert(id2 != id);
                        } else {
                            assert(ids[p - mid.running_ids().len()] == id2);
                        }
                    }
                    assert forall|id2: u64|
                        ((pre.running_ids().contains(id2) && id2 != id) || ids.contains(
                            id2,
                        )) implies #[trigger] self.running_ids().contains(id2) by {
                        if pre.running_ids().contains(id2) && id2 != id {
                            let p0 = choose|p0: int|
                                0 <= p0 < pre.running_ids().len() && pre.running_ids()[p0] == id2;
                            let p = if p0 < i { p0 } else { p0 - 1 };
                            assert(pre.running_ids()[i as int] == id);
                            assert(mid.running_ids()[p] == id2);
                            assert(self.running_ids()[p] == id2);
                        } else if ids.contains(id2) {
                            let q = choose|q: int| 0 <= q < ids.len() && ids[q] == id2;
                            assert(self.running_ids()[mid.running_ids().len() + q] == id2);
                        }
                    }
                }
                return promoted;
            }
            i += 1;
        }
        proof {
            assert(false);
        }
        unreached()
    }

    /// When nothing is out for execution but the backlog is not empty,
    /// hands out the backlog's front task to be run right now by the
    /// caller; it is accounted as running until its completion is reported.
    pub fn take_idle_task(&mut self) -> (r: Option<QueueTask<T>>)
        requires
            old(self).wf(),
        ensures
            final(self).wf(),
            final(self).spec_max() == old(self).spec_max(),
            final(self).spec_next_id() == old(self).spec_next_id(),
            final(self).accepted_ms() == old(self).accepted_ms(),
            final(self).delivered_ms() == old(self).delivered_ms(),
            final(self).pending_ms() == old(self).pending_ms(),
            match r {
                Some(qt) => {
                    &&& old(self).running_ids().len() == 0
                    &&& old(self).backlog().len() > 0
                    &&& qt == old(self).backlog()[0]
                    &&& final(self).backlog() == old(self).backlog().skip(1)
                    &&& final(self).running_ids() == seq![qt.id]
                },
                None => {
                    &&& (old(self).running_ids().len() > 0 || old(self).backlog().len() == 0)
                    &&& *final(self) == *old(self)
                },
            },
    {
        if self.running.len() == 0 && self.queue.len() > 0 {
            let qt = self.queue.remove(0);
            self.running.push(qt.id);
            proof {
                broadcast use group_to_multiset_ensures;

                assert(self.running_ids() =~= seq![qt.id]);
                assert(self.queued_ids() =~= old(self).queued_ids().remove(0));
                assert(old(self).queued_ids()[0] == qt.id);
                assert(self.running_ids().to_multiset() =~= old(self).running_ids().to_multiset()
                    .insert(qt.id));
                assert(self.pending_ms() =~= old(self).pending_ms());
                assert(self.accepted_ms() =~= self.delivered_ms().add(self.pending_ms()));
            }
            Some(qt)
        } else {
            None
        }
    }

    /// Whether every accepted task has been delivered: nothing is out for
    /// execution and the backlog is empty.
    pub fn is_exhausted(&self) -> (r: bool)
        ensures
            r == (self.running_ids().len() == 0 && self.backlog().len() == 0),
            r ==> self.pending_ms() == Multiset::<u64>::empty(),
    {
        let r = self.running.len() == 0 && self.queue.len() == 0;
        proof {
            broadcast use group_to_multiset_ensures;

            if r {
                assert(self.queued_ids() =~= Seq::<u64>::empty());
                assert(self.pending_ms() =~= Multiset::<u64>::empty());
            }
        }
        r
    }

    /// How many tasks are out for execution.
    pub fn num_running(&self) -> (r: usize)
        ensures
            r == self.running_ids().len(),
    {
        self.running.len()
    }

    /// How many tasks wait in the backlog.
    pub fn num_queued(&self) -> (r: usize)
        ensures
            r == self.backlog().len(),
    {
        self.queue.len()
    }

    /// The concurrency bound the scheduler was made with.
    pub fn max_concurrent(&self) -> (r: usize)
        ensures
            r == self.spec_max(),
    {
        self.max_concurrent
    }

    /// The id the next accepted task will get.
    pub fn next_id(&self) -> (r: u64)
        ensures
            r == self.spec_next_id(),
    {
        self.next_id
    }
}

/// However tasks are enqueued and completions awaited, no more than the
/// scheduler's bound is ever out for execution at once.
pub proof fn lemma_bounded_concurrency<T>(q: &JoinQueue<T>)
    requires
        q.wf(),
    ensures
        q.running_ids().len() <= q.spec_max(),
{
}

/// Conservation: once the scheduler is drained — nothing out for execution,
/// backlog empty — the delivered completions are exactly the accepted
/// tasks, each delivered exactly once, whether each task succeeded or
/// failed.
pub proof fn lemma_drained_exactly_once<T>(q: &JoinQueue<T>)
    requires
        q.wf(),
        q.running_ids().len() == 0,
        q.backlog().len() == 0,
    ensures
        q.delivered_ms() == q.accepted_ms(),
        forall|id: u64| #[trigger] q.delivered_ms().count(id) <= 1,
{
    broadcast use group_to_multiset_ensures;

    assert(q.queued_ids() =~= Seq::<u64>::empty());
    assert(q.pending_ms() =~= Multiset::<u64>::empty());
    assert(q.delivered_ms() =~= q.delivered_ms().add(q.pending_ms()));
    assert forall|id: u64| #[trigger] q.delivered_ms().count(id) <= 1 by {
        assert(q.accepted_ms().count(id) <= 1);
    }
}

} // verus!
