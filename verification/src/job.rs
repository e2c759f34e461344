//! The post-processing job registry: the closed set of job kinds, the small
//! sets of them that a post still owes, and the rule that computes which
//! jobs apply to a post's content.
//!
//! The executors' own work (decoding an image, rewriting a parent's file on
//! disk) happens outside the library; what stands here is every decision
//! they rest on: which jobs to run, what a thumbnail's dimensions are, and
//! how a reply is linked into its parent without duplication.

use vstd::prelude::*;

verus! {

use crate::blog::{Media, Post, PostID};

/// One discrete post-processing step that must run before a post is
/// considered finished.
#[derive(Debug, Clone, Copy, PartialEq, Eq, Structural)]
pub enum PostJob {
    /// Add the actual content of a post.
    AddText,
    /// Create thumbnails for all of a post's images. Blocking: it must run
    /// on a worker meant for CPU-bound work.
    Thumbnails,
    /// Update the parent post's `replies` entry. Non-blocking I/O.
    ReplyParent,
}

impl PostJob {
    /// Whether an executor for this job is CPU-bound and must not run on
    /// the workers that serve I/O.
    pub open spec fn spec_is_blocking(self) -> bool {
        self is Thumbnails
    }

    #[verifier::when_used_as_spec(spec_is_blocking)]
    pub fn is_blocking(self) -> (r: bool)
        ensures
            r == self.spec_is_blocking(),
    {
        match self {
            PostJob::Thumbnails => true,
            _ => false,
        }
    }

    /// The processing jobs that can apply to any post at all, beyond adding
    /// its text.
    pub fn all_possible_processing_jobs() -> (r: JobSet)
        ensures
            r@ =~= set![PostJob::Thumbnails, PostJob::ReplyParent],
    {
        JobSet { add_text: false, thumbnails: true, reply_parent: true }
    }

    /// The processing jobs that apply to every post with images.
    pub fn all_processing_jobs() -> (r: JobSet)
        ensures
            r@ =~= set![PostJob::Thumbnails],
    {
        JobSet { add_text: false, thumbnails: true, reply_parent: false }
    }
}

/// A set of job kinds, one flag per kind; the view is the `Set` of the
/// kinds whose flag is up.
#[derive(Debug, Clone, Copy, PartialEq, Eq, Structural)]
pub struct JobSet {
    pub add_text: bool,
    pub thumbnails: bool,
    pub reply_parent: bool,
}

impl View for JobSet {
    type V = Set<PostJob>;

    open spec fn view(&self) -> Set<PostJob> {
        Set::new(|j: PostJob| self.spec_contains(j))
    }
}

impl JobSet {
    pub open spec fn spec_contains(self, j: PostJob) -> bool {
        match j {
            PostJob::AddText => self.add_text,
            PostJob::Thumbnails => self.thumbnails,
            PostJob::ReplyParent => self.reply_parent,
        }
    }

    pub fn empty() -> (r: Self)
        ensures
            r@ =~= Set::<PostJob>::empty(),
            r == (JobSet { add_text: false, thumbnails: false, reply_parent: false }),
    {
        JobSet { add_text: false, thumbnails: false, reply_parent: false }
    }

    pub fn contains(&self, j: PostJob) -> (r: bool)
        ensures
            r == self@.contains(j),
    {
        match j {
            PostJob::AddText => self.add_text,
            PostJob::Thumbnails => self.thumbnails,
            PostJob::ReplyParent => self.reply_parent,
        }
    }

    pub fn insert(&mut self, j: PostJob)
        ensures
            final(self)@ =~= old(self)@.insert(j),
            final(self).spec_contains(j),
            forall|x: PostJob| x != j ==> final(self).spec_contains(x) == old(
                self,
            ).spec_contains(x),
    {
        match j {
            PostJob::AddText => self.add_text = true,
            PostJob::Thumbnails => self.thumbnails = true,
            PostJob::ReplyParent => self.reply_parent = true,
        }
    }

    pub fn remove(&mut self, j: PostJob)
        ensures
            final(self)@ =~= old(self)@.remove(j),
            !final(self).spec_contains(j),
            forall|x: PostJob| x != j ==> final(self).spec_contains(x) == old(
                self,
            ).spec_contains(x),
    {
        match j {
            PostJob::AddText => self.add_text = false,
            PostJob::Thumbnails => self.thumbnails = false,
            PostJob::ReplyParent => self.reply_parent = false,
        }
    }

    pub fn is_empty(&self) -> (r: bool)
        ensures
            r == (self@ =~= Set::<PostJob>::empty()),
    {
        let r = !self.add_text && !self.thumbnails && !self.reply_parent;
        proof {
            if r {
                assert(self@ =~= Set::<PostJob>::empty());
            } else {
                if self.add_text {
                    assert(self@.contains(PostJob::AddText));
                } else if self.thumbnails {
                    assert(self@.contains(PostJob::Thumbnails));
                } else {
                    assert(self@.contains(PostJob::ReplyParent));
                }
            }
        }
        r
    }

    /// How many kinds the set holds.
    pub open spec fn spec_count(self) -> int {
        (if self.add_text {
            1int
        } else {
            0int
        }) + (if self.thumbnails {
            1int
        } else {
            0int
        }) + (if self.reply_parent {
            1int
        } else {
            0int
        })
    }

    /// The contained kinds in the one canonical order.
    pub open spec fn ordered_jobs(self) -> Seq<PostJob> {
        (if self.add_text {
            seq![PostJob::AddText]
        } else {
            Seq::<PostJob>::empty()
        }) + (if self.thumbnails {
            seq![PostJob::Thumbnails]
        } else {
            Seq::<PostJob>::empty()
        }) + (if self.reply_parent {
            seq![PostJob::ReplyParent]
        } else {
            Seq::<PostJob>::empty()
        })
    }

    /// The contained kinds as a list, without repetition.
    pub fn to_vec(&self) -> (r: Vec<PostJob>)
        ensures
            r@ == self.ordered_jobs(),
            r@.len() == self.spec_count(),
            r@.len() <= 3,
            r@.no_duplicates(),
            forall|j: PostJob| r@.contains(j) <==> self@.contains(j),
    {
        let mut r: Vec<PostJob> = Vec::new();
        if self.add_text {
            r.push(PostJob::AddText);
        }
        if self.thumbnails {
            r.push(PostJob::Thumbnails);
        }
        if self.reply_parent {
            r.push(PostJob::ReplyParent);
        }
        proof {
            assert(r@ =~= self.ordered_jobs());
            assert forall|j: PostJob| r@.contains(j) <==> self@.contains(j) by {
                if self.spec_contains(j) {
                    match j {
                        PostJob::AddText => assert(r@[0] == j),
                        PostJob::Thumbnails => {
                            if self.add_text {
                                assert(r@[1] == j);
                            } else {
                                assert(r@[0] == j);
                            }
                        },
                        PostJob::ReplyParent => assert(r@[r@.len() - 1] == j),
                    }
                }
            }
        }
        r
    }
}

/// The jobs that apply to a post's current content: thumbnails exactly when
/// at least one image has been registered, the reply link exactly when the
/// post replies to another.
pub fn applicable_jobs(meta: &Post, media: &Media) -> (r: JobSet)
    ensures
        r.thumbnails == (media.images@.len() >= 1),
        r.reply_parent == (meta.reply_to is Some),
        !r.add_text,
{
    JobSet {
        add_text: false,
        thumbnails: media.images.len() >= 1,
        reply_parent: match &meta.reply_to {
            Some(_) => true,
            None => false,
        },
    }
}

/// The jobs a post owes at the moment composition starts: its text is
/// always still to come, and a reply owes the link into its parent.
pub fn get_initial_post_jobs(reply_to: &Option<PostID>) -> (r: JobSet)
    ensures
        r.add_text,
        r.reply_parent == (reply_to is Some),
        !r.thumbnails,
{
    JobSet {
        add_text: true,
        thumbnails: false,
        reply_parent: match reply_to {
            Some(_) => true,
            None => false,
        },
    }
}

/// The dimensions of the thumbnail made from an image of the given size: an
/// image already within the bound is kept as it is, a larger one is resized
/// to fill the square of side `max_size`.
pub fn create_thumb_static(width: u32, height: u32, max_size: u32) -> (r: (u32, u32))
    ensures
        r == if height <= max_size && width <= max_size {
            (width, height)
        } else {
            (max_size, max_size)
        },
{
    if height <= max_size && width <= max_size {
        (width, height)
    } else {
        (max_size, max_size)
    }
}

/// The thumbnail decision for one raw image: an animated image is passed
/// through unresized (`None`), any other is scaled by `create_thumb_static`.
/// Reading and decoding the image happen outside the library; this takes
/// the probed format and dimensions.
pub fn create_thumb(animated: bool, width: u32, height: u32, max_size: u32) -> (r: Option<
    (u32, u32),
>)
    ensures
        r == if animated {
            Option::<(u32, u32)>::None
        } else {
            Some(
                if height <= max_size && width <= max_size {
                    (width, height)
                } else {
                    (max_size, max_size)
                },
            )
        },
{
    if animated {
        None
    } else {
        Some(create_thumb_static(width, height, max_size))
    }
}

/// Links a finished reply into its parent's `replies` list. Appending is
/// idempotent: a child already listed is not listed twice, so re-running
/// the executor after a restart cannot corrupt the parent.
pub fn add_reply(parent: &mut Post, child_id: &PostID)
    ensures
        final(parent).replies@ == if crate::blog::contains_id(
            old(parent).replies@,
            child_id@,
        ) {
            old(parent).replies@
        } else {
            old(parent).replies@.push(*child_id)
        },
        final(parent).id == old(parent).id,
        final(parent).author_username == old(parent).author_username,
        final(parent).timestamp == old(parent).timestamp,
        final(parent).reply_to == old(parent).reply_to,
        final(parent).quotes == old(parent).quotes,
        final(parent).in_progress == old(parent).in_progress,
        final(parent).images == old(parent).images,
        final(parent).is_private == old(parent).is_private,
{
    if !crate::blog::vec_contains_string(&parent.replies, child_id) {
        parent.replies.push(child_id.clone());
    }
}

} // verus!
