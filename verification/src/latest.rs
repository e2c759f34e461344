//! The compute cores of the public listing queries: merging one post into
//! the bounded, newest-first list behind the latest-posts endpoint, serving
//! a region of that list from the cache, and choosing the longer of two
//! reply threads.
//!
//! Reading posts off disk stays outside the library; these functions take
//! the posts they are handed and decide.

use vstd::prelude::*;

verus! {

use crate::blog::{Post, same_post};
use crate::state::Cache;

/// Newest first: timestamps never grow along the list.
pub open spec fn sorted_desc(s: Seq<Post>) -> bool {
    forall|i: int, j: int| 0 <= i < j < s.len() ==> s[i].timestamp >= s[j].timestamp
}

/// Merges one published post into the newest-first list capped at `amount`
/// entries. Returns false — and leaves the list alone — exactly when the
/// list is full and the post is no newer than its oldest entry; since each
/// author's posts arrive newest first, the caller then skips that author's
/// remaining posts.
pub fn insert_latest(latest: &mut Vec<Post>, post: Post, amount: usize) -> (kept: bool)
    requires
        sorted_desc(old(latest)@),
        old(latest)@.len() <= amount,
        amount >= 1,
    ensures
        sorted_desc(final(latest)@),
        final(latest)@.len() <= amount,
        !kept ==> {
            &&& final(latest)@ == old(latest)@
            &&& old(latest)@.len() == amount
            &&& post.timestamp <= old(latest)@.last().timestamp
        },
        kept ==> (old(latest)@.len() < amount || post.timestamp > old(
            latest,
        )@.last().timestamp),
        kept ==> exists|idx: int|
            {
                &&& 0 <= idx <= old(latest)@.len()
                &&& (forall|j: int|
                    0 <= j < idx ==> (#[trigger] old(latest)@[j]).timestamp >= post.timestamp)
                &&& (forall|j: int|
                    idx <= j < old(latest)@.len() ==> (#[trigger] old(latest)@[j]).timestamp
                        < post.timestamp)
                &&& final(latest)@ == old(latest)@.insert(idx, post).take(
                    if old(latest)@.len() + 1 <= amount {
                        old(latest)@.len() + 1int
                    } else {
                        amount as int
                    },
                )
            },
{
    let n = latest.len();
    if n == amount {
        if post.timestamp <= latest[n - 1].timestamp {
            return false;
        }
    }
    let mut idx: usize = 0;
    while idx < n && latest[idx].timestamp >= post.timestamp
        invariant
            n == latest@.len(),
            idx <= n,
            *latest == *old(latest),
            forall|j: int| 0 <= j < idx ==> (#[trigger] latest@[j]).timestamp >= post.timestamp,
        decreases n - idx,
    {
        idx += 1;
    }
    proof {
        assert forall|j: int|
            idx <= j < old(latest)@.len() implies (#[trigger] old(latest)@[j]).timestamp
            < post.timestamp by {
            assert(old(latest)@[j].timestamp <= old(latest)@[idx as int].timestamp);
        }
    }
    let ghost mid = old(latest)@.insert(idx as int, post);
    latest.insert(idx, post);
    proof {
        old(latest)@.insert_ensures(idx as int, post);
        assert forall|p: int, q: int|
            0 <= p < q < latest@.len() implies latest@[p].timestamp >= latest@[
            q
        ].timestamp by {
            if q < idx {
            } else if p > idx {
                assert(latest@[p] == old(latest)@[p - 1]);
                assert(latest@[q] == old(latest)@[q - 1]);
            } else if p < idx && q == idx {
                assert(latest@[p] == old(latest)@[p]);
            } else if p == idx && q > idx {
                assert(latest@[q] == old(latest)@[q - 1]);
            } else if p < idx && q > idx {
                assert(latest@[p] == old(latest)@[p]);
                assert(latest@[q] == old(latest)@[q - 1]);
            }
        }
    }
    if latest.len() > amount {
        let _ = latest.pop();
        proof {
            assert(latest@ =~= mid.take(amount as int));
        }
    } else {
        proof {
            assert(latest@ =~= mid.take(mid.len() as int));
        }
    }
    true
}

/// The longer of the thread found so far and a freshly computed child
/// thread; the child wins only when strictly longer.
pub fn pick_longer(current: Option<Vec<Post>>, candidate: Vec<Post>) -> (r: Vec<Post>)
    ensures
        r == match current {
            Some(cur) => if candidate@.len() > cur@.len() {
                candidate
            } else {
                cur
            },
            None => candidate,
        },
{
    match current {
        Some(cur) => {
            if candidate.len() > cur.len() {
                candidate
            } else {
                cur
            }
        },
        None => candidate,
    }
}

/// What the cache holds, the empty sequence when it holds nothing.
pub open spec fn cached_posts(c: Cache) -> Seq<Post> {
    match c.latest_posts {
        Some(v) => v@,
        None => Seq::<Post>::empty(),
    }
}

impl Cache {
    /// Serves `amount` posts starting `after` entries in, if the cache
    /// holds at least that many; otherwise the caller must recompute the
    /// list and store it.
    pub fn lookup(&self, amount: usize, after: usize) -> (r: Option<Vec<Post>>)
        requires
            after + amount <= usize::MAX,
        ensures
            match r {
                Some(v) => {
                    &&& self.latest_posts is Some
                    &&& cached_posts(*self).len() >= after + amount
                    &&& v@.len() == amount
                    &&& (forall|i: int|
                        0 <= i < amount ==> same_post(
                            #[trigger] v@[i],
                            cached_posts(*self)[after + i],
                        ))
                },
                None => self.latest_posts is None || cached_posts(*self).len() < after + amount,
            },
    {
        match &self.latest_posts {
            Some(posts) => {
                if posts.len() >= after + amount {
                    let mut v: Vec<Post> = Vec::new();
                    let mut i: usize = 0;
                    while i < amount
                        invariant
                            after + amount <= usize::MAX,
                            posts@.len() >= after + amount,
                            i <= amount,
                            v@.len() == i,
                            forall|j: int|
                                0 <= j < i ==> same_post(
                                    #[trigger] v@[j],
                                    posts@[after + j],
                                ),
                        decreases amount - i,
                    {
                        v.push(posts[after + i].clone());
                        i += 1;
                    }
                    Some(v)
                } else {
                    None
                }
            },
            None => None,
        }
    }
}

} // verus!
