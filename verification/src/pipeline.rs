//! The completion pipeline: the path a post takes from "taken out of the
//! registry" to "finished and handed to the storage layer".
//!
//! `State::take_for_completion` ends the composing phase and transfers sole
//! ownership of the `IncompletePost` to the caller. A `Completion` then
//! fans the owed jobs out through the bounded scheduler — blocking kinds on
//! its blocking path, the rest on its asynchronous path — and counts every
//! completion, successes and failures alike: one failed job never blocks
//! the rest, nor the post's finish. Once every job is accounted for,
//! `State::complete_post` clears the `in_progress` flag, stamps the
//! finalization instant and invalidates the latest-posts cache; writing the
//! finished record and the author's post list is the storage layer's part.

use vstd::prelude::*;
use vstd::multiset::Multiset;

verus! {

use crate::blog::Post;
use crate::job::PostJob;
use crate::joinqueue::{Enqueued, JoinQueue, QueueTask, TaskKind};
use crate::state::{IncompletePost, State};

/// The execution context a job kind must run on.
pub open spec fn kind_of(j: PostJob) -> TaskKind {
    if j.spec_is_blocking() {
        TaskKind::Blocking
    } else {
        TaskKind::NonBlocking
    }
}

/// A post whose owed jobs are being run. Created from the
/// `IncompletePost` that `take_for_completion` handed out, which it owns
/// alone until `complete_post` consumes it.
pub struct Completion {
    post: IncompletePost,
    queue: JoinQueue<PostJob>,
}

impl Completion {
    pub closed spec fn spec_post(&self) -> IncompletePost {
        self.post
    }

    pub closed spec fn spec_queue(&self) -> JoinQueue<PostJob> {
        self.queue
    }

    pub open spec fn wf(&self) -> bool {
        &&& self.spec_queue().wf()
        &&& !self.spec_post().jobs_left.add_text
    }

    /// Whether every dispatched job has been accounted for.
    pub open spec fn is_done_spec(&self) -> bool {
        self.spec_queue().running_ids().len() == 0 && self.spec_queue().backlog().len() == 0
    }

    /// Fans the post's owed jobs out to a fresh scheduler. The text job
    /// must already have been taken off the set: the caller supplies the
    /// body text itself, it is no job to dispatch. Returns the machine and
    /// the tasks that were started at once; the rest wait in the backlog.
    pub fn new(post: IncompletePost, max_concurrent: usize) -> (r: (
        Completion,
        Vec<QueueTask<PostJob>>,
    ))
        requires
            max_concurrent >= 1,
            !post.jobs_left.add_text,
        ensures
            r.0.wf(),
            r.0.spec_post() == post,
            r.0.spec_queue().spec_max() == max_concurrent,
            r.0.spec_queue().delivered_ms() == Multiset::<u64>::empty(),
            r.0.spec_queue().accepted_ms().len() == post.jobs_left.spec_count(),
            r.1@.len() == if post.jobs_left.spec_count() <= max_concurrent {
                post.jobs_left.spec_count()
            } else {
                max_concurrent as int
            },
            forall|p: int|
                0 <= p < r.1@.len() ==> {
                    &&& (#[trigger] r.1@[p]).task == post.jobs_left.ordered_jobs()[p]
                    &&& r.1@[p].id == p
                    &&& r.1@[p].kind == kind_of(post.jobs_left.ordered_jobs()[p])
                    &&& r.0.spec_queue().running_ids().contains(r.1@[p].id)
                },
            r.0.spec_queue().backlog().len() == post.jobs_left.spec_count() - r.1@.len(),
            forall|q: int|
                0 <= q < r.0.spec_queue().backlog().len() ==> {
                    &&& (#[trigger] r.0.spec_queue().backlog()[q]).task
                        == post.jobs_left.ordered_jobs()[r.1@.len() + q]
                    &&& r.0.spec_queue().backlog()[q].id == r.1@.len() + q
                    &&& r.0.spec_queue().backlog()[q].kind == kind_of(
                        post.jobs_left.ordered_jobs()[r.1@.len() + q],
                    )
                },
    {
        let jobs = post.jobs_left.to_vec();
        let mut queue: JoinQueue<PostJob> = JoinQueue::new(max_concurrent);
        let mut to_start: Vec<QueueTask<PostJob>> = Vec::new();
        let n = jobs.len();
        let mut i: usize = 0;
        while i < n
            invariant
                queue.wf(),
                queue.spec_max() == max_concurrent,
                max_concurrent >= 1,
                n == jobs@.len(),
                n <= 3,
                i <= n,
                jobs@ == post.jobs_left.ordered_jobs(),
                queue.spec_next_id() == i,
                queue.delivered_ms() == Multiset::<u64>::empty(),
                queue.accepted_ms().len() == i,
                to_start@.len() == if i <= max_concurrent {
                    i as int
                } else {
                    max_concurrent as int
                },
                queue.running_ids().len() == to_start@.len(),
                forall|p: int|
                    0 <= p < to_start@.len() ==> {
                        &&& (#[trigger] to_start@[p]).task == jobs@[p]
                        &&& to_start@[p].id == p
                        &&& to_start@[p].kind == kind_of(jobs@[p])
                        &&& queue.running_ids()[p] == p
                    },
                queue.backlog().len() == i - to_start@.len(),
                forall|q: int|
                    0 <= q < queue.backlog().len() ==> {
                        &&& (#[trigger] queue.backlog()[q]).task == jobs@[to_start@.len() + q]
                        &&& queue.backlog()[q].id == to_start@.len() + q
                        &&& queue.backlog()[q].kind == kind_of(jobs@[to_start@.len() + q])
                    },
            decreases n - i,
        {
            let job = jobs[i];
            let r = if job.is_blocking() {
                queue.enqueue_blocking(job)
            } else {
                queue.enqueue(job)
            };
            match r {
                Enqueued::Started(qt) => {
                    to_start.push(qt);
                },
                Enqueued::Queued(_) => {},
            }
            i += 1;
        }
        proof {
            assert forall|p: int|
                0 <= p < to_start@.len() implies queue.running_ids().contains(
                #[trigger] to_start@[p].id,
            ) by {
                assert(queue.running_ids()[p] == to_start@[p].id);
            }
        }
        (Completion { post, queue }, to_start)
    }

    /// The caller reports that the job task with this id finished; whether
    /// it succeeded or failed (`ok`) plays no part in what follows — a
    /// failed job is a completion like any other, and never blocks the
    /// rest. Returns the backlog tasks promoted into the freed capacity,
    /// for the caller to start.
    pub fn on_job_done(&mut self, id: u64, ok: bool) -> (promoted: Vec<QueueTask<PostJob>>)
        requires
            old(self).wf(),
            old(self).spec_queue().running_ids().contains(id),
        ensures
            final(self).wf(),
            final(self).spec_post() == old(self).spec_post(),
            final(self).spec_queue().spec_max() == old(self).spec_queue().spec_max(),
            final(self).spec_queue().accepted_ms() == old(self).spec_queue().accepted_ms(),
            final(self).spec_queue().delivered_ms() == old(
                self,
            ).spec_queue().delivered_ms().insert(id),
            final(self).spec_queue().pending_ms() == old(self).spec_queue().pending_ms().remove(
                id,
            ),
            promoted@ == old(self).spec_queue().backlog().take(promoted@.len() as int),
            final(self).spec_queue().backlog() == old(self).spec_queue().backlog().skip(
                promoted@.len() as int,
            ),
            forall|id2: u64|
                #[trigger] final(self).spec_queue().running_ids().contains(id2) <==> ((old(
                    self,
                ).spec_queue().running_ids().contains(id2) && id2 != id)
                    || promoted@.map_values(|t: QueueTask<PostJob>| t.id).contains(id2)),
            final(self).spec_queue().running_ids().len() == final(self).spec_queue().spec_max()
                || final(self).spec_queue().backlog().len() == 0,
    {
        let _ = ok;
        self.queue.complete(id)
    }

    /// Whether every dispatched job has been accounted for.
    pub fn is_done(&self) -> (r: bool)
        ensures
            r == self.is_done_spec(),
    {
        self.queue.is_exhausted()
    }
}

impl State {
    /// Finalizes a post whose jobs have all been accounted for: clears the
    /// `in_progress` flag, stamps the finalization instant, and invalidates
    /// the latest-posts cache. The returned record is what the storage
    /// layer must persist — the metadata durably first, only then the
    /// identifier in the author's post list.
    pub fn complete_post(&mut self, done: Completion, now: u64) -> (r: Post)
        requires
            old(self).wf(),
            done.wf(),
            done.is_done_spec(),
        ensures
            final(self).wf(),
            final(self).sessions == old(self).sessions,
            final(self).invites == old(self).invites,
            final(self).posts_in_progress == old(self).posts_in_progress,
            final(self).cache.latest_posts is None,
            r.id == done.spec_post().meta.id,
            r.author_username == done.spec_post().meta.author_username,
            r.timestamp == now,
            r.reply_to == done.spec_post().meta.reply_to,
            r.replies == done.spec_post().meta.replies,
            r.quotes == done.spec_post().meta.quotes,
            !r.in_progress,
            r.images == done.spec_post().meta.images,
            r.is_private == done.spec_post().meta.is_private,
    {
        let Completion { post, queue: _ } = done;
        let meta = post.meta;
        let finished = Post {
            id: meta.id,
            author_username: meta.author_username,
            timestamp: now,
            reply_to: meta.reply_to,
            replies: meta.replies,
            quotes: meta.quotes,
            in_progress: false,
            images: meta.images,
            is_private: meta.is_private,
        };
        self.cache.invalidate();
        finished
    }
}

} // verus!
