//! The process's transient state: the session and invite tables and the
//! registry of posts under composition, with the TTL rules that govern all
//! three, plus the latest-posts cache.
//!
//! Every operation takes the current time as an argument, in milliseconds;
//! expiry is never read off a clock inside the library. Expired entries are
//! not evicted on a timer: a lookup ignores them, and inserting a new
//! session or invite compacts its table (drops every expired entry) on the
//! way. Stale in-progress posts are reclaimed by an explicitly driven
//! sweep.

use vstd::prelude::*;

verus! {

use crate::blog::{
    Auth,
    BlogError,
    InviteID,
    Media,
    Permissions,
    Post,
    PostID,
    SessionID,
    INVITE_ID_BYTES,
    INVITE_TTL_MS,
    SESSION_ID_BYTES,
    SESSION_TTL_MS,
    INCOMPLETE_POST_TTL_MS,
    contains_id,
    get_random_hex_string,
};
use crate::job::{JobSet, PostJob};
use crate::table::TokenTable;

/// A login session: who it belongs to and when it stops being honoured.
#[derive(Debug)]
pub struct Session {
    pub for_username: String,
    /// Milliseconds since the epoch.
    pub expires_at: u64,
}

impl Session {
    /// A session is valid strictly before its expiry instant.
    pub open spec fn spec_is_valid(&self, now: u64) -> bool {
        now < self.expires_at
    }

    pub fn is_valid(&self, now: u64) -> (r: bool)
        ensures
            r == self.spec_is_valid(now),
    {
        now < self.expires_at
    }
}

impl Clone for Session {
    fn clone(&self) -> (r: Session)
        ensures
            r == *self,
    {
        Session { for_username: self.for_username.clone(), expires_at: self.expires_at }
    }
}

/// An invite: the permissions it grants and when it stops being honoured.
#[derive(Debug)]
pub struct Invite {
    pub for_permissions: Permissions,
    /// Milliseconds since the epoch.
    pub expires_at: u64,
}

impl Invite {
    /// An invite is valid strictly before its expiry instant.
    pub open spec fn spec_is_valid(&self, now: u64) -> bool {
        now < self.expires_at
    }

    pub fn is_valid(&self, now: u64) -> (r: bool)
        ensures
            r == self.spec_is_valid(now),
    {
        now < self.expires_at
    }
}

impl Clone for Invite {
    fn clone(&self) -> (r: Invite)
        ensures
            r == *self,
    {
        Invite { for_permissions: self.for_permissions, expires_at: self.expires_at }
    }
}

/// A post still being assembled: its metadata, the jobs it still owes, and
/// the attachments registered so far. Owned by the registry for the whole
/// in-progress lifetime; taken out, whole, exactly once for completion.
#[derive(Debug)]
pub struct IncompletePost {
    pub meta: Post,
    pub jobs_left: JobSet,
    pub media: Media,
}

/// A cache of the latest published posts; invalidated whole whenever a post
/// is completed or deleted.
#[derive(Debug)]
pub struct Cache {
    pub latest_posts: Option<Vec<Post>>,
}

impl Cache {
    pub fn new() -> (r: Cache)
        ensures
            r.latest_posts is None,
    {
        Cache { latest_posts: None }
    }

    /// Drops whatever is cached; the next read recomputes.
    pub fn invalidate(&mut self)
        ensures
            final(self).latest_posts is None,
    {
        self.latest_posts = None;
    }

    /// Replaces the cache's contents.
    pub fn store(&mut self, posts: Vec<Post>)
        ensures
            final(self).latest_posts == Some(posts),
    {
        self.latest_posts = Some(posts);
    }

}

/// The sessions of `m` that are still valid at `now`, unchanged otherwise.
pub open spec fn live_sessions(m: Map<Seq<char>, Session>, now: u64) -> Map<Seq<char>, Session> {
    Map::new(|k: Seq<char>| m.contains_key(k) && now < m[k].expires_at, |k: Seq<char>| m[k])
}

/// The invites of `m` that are still valid at `now`, unchanged otherwise.
pub open spec fn live_invites(m: Map<Seq<char>, Invite>, now: u64) -> Map<Seq<char>, Invite> {
    Map::new(|k: Seq<char>| m.contains_key(k) && now < m[k].expires_at, |k: Seq<char>| m[k])
}

/// Whether an in-progress post has outlived `max_age` at `now`.
pub open spec fn is_stale(p: IncompletePost, now: u64, max_age: u64) -> bool {
    now >= p.meta.timestamp + max_age
}

/// The in-progress posts of `m` that a sweep at `now` with `max_age` keeps.
pub open spec fn retained_posts(
    m: Map<Seq<char>, IncompletePost>,
    now: u64,
    max_age: u64,
) -> Map<Seq<char>, IncompletePost> {
    Map::new(
        |k: Seq<char>| m.contains_key(k) && !is_stale(m[k], now, max_age),
        |k: Seq<char>| m[k],
    )
}

pub struct State {
    pub sessions: TokenTable<Session>,
    pub invites: TokenTable<Invite>,
    pub posts_in_progress: TokenTable<IncompletePost>,
    pub cache: Cache,
}

impl State {
    /// Every table well formed; every registered post still in progress and
    /// filed under its own identifier.
    pub open spec fn wf(&self) -> bool {
        &&& self.sessions.wf()
        &&& self.invites.wf()
        &&& self.posts_in_progress.wf()
        &&& (forall|k: Seq<char>|
            self.posts_in_progress@.contains_key(k) ==> (#[trigger] self.posts_in_progress@[k]).meta.in_progress)
        &&& (forall|k: Seq<char>|
            self.posts_in_progress@.contains_key(k) ==> (#[trigger] self.posts_in_progress@[k]).meta.id@ == k)
    }

    pub fn new() -> (r: State)
        ensures
            r.wf(),
            r.sessions@ == Map::<Seq<char>, Session>::empty(),
            r.invites@ == Map::<Seq<char>, Invite>::empty(),
            r.posts_in_progress@ == Map::<Seq<char>, IncompletePost>::empty(),
            r.cache.latest_posts is None,
    {
        State {
            sessions: TokenTable::new(),
            invites: TokenTable::new(),
            posts_in_progress: TokenTable::new(),
            cache: Cache::new(),
        }
    }

    /// The session under `session_id`, if it exists and is still valid at
    /// `now`; an expired-but-unpurged session is treated as absent.
    pub fn get_session(&self, session_id: &SessionID, now: u64) -> (r: Option<Session>)
        requires
            self.wf(),
        ensures
            match r {
                Some(s) => {
                    &&& self.sessions@.contains_key(session_id@)
                    &&& s == self.sessions@[session_id@]
                    &&& s.spec_is_valid(now)
                },
                None => !self.sessions@.contains_key(session_id@) || !self.sessions@[
                    session_id@
                ].spec_is_valid(now),
            },
    {
        match self.sessions.get(session_id) {
            Some(s) => {
                if s.is_valid(now) {
                    Some(s.clone())
                } else {
                    None
                }
            },
            None => None,
        }
    }

    /// Drops every session that has expired by `now`.
    fn compact_sessions(&mut self, now: u64)
        requires
            old(self).wf(),
        ensures
            final(self).wf(),
            final(self).sessions@ == live_sessions(old(self).sessions@, now),
            final(self).invites == old(self).invites,
            final(self).posts_in_progress == old(self).posts_in_progress,
            final(self).cache == old(self).cache,
    {
        let ghost pre = self.sessions;
        let mut expired: Vec<String> = Vec::new();
        let n = self.sessions.num_tokens();
        let mut i: usize = 0;
        while i < n
            invariant
                *self == *old(self),
                old(self).wf(),
                n == self.sessions.key_seq().len(),
                i <= n,
                forall|j: int|
                    0 <= j < expired@.len() ==> {
                        &&& self.sessions@.contains_key(#[trigger] expired@[j]@)
                        &&& self.sessions@[expired@[j]@].expires_at <= now
                    },
                forall|j: int|
                    0 <= j < expired@.len() ==> exists|t: int|
                        0 <= t < i && #[trigger] expired@[j]@ == self.sessions.key_seq()[t],
                expired@.map_values(|s: String| s@).no_duplicates(),
                forall|t: int|
                    0 <= t < i ==> (now < self.sessions@[#[trigger] self.sessions.key_seq()[t]].expires_at
                        || contains_id(expired@, self.sessions.key_seq()[t])),
            decreases n - i,
        {
            let valid = self.sessions.value_at(i).expires_at > now;
            if !valid {
                let tok = self.sessions.token_at(i).clone();
                let ghost before = expired@;
                proof {
                    assert forall|j: int| 0 <= j < expired@.len() implies expired@[j]@ != self
                        .sessions.key_seq()[i as int] by {
                        let t = choose|t: int|
                            0 <= t < i && expired@[j]@ == self.sessions.key_seq()[t];
                    }
                    assert(expired@.push(tok).map_values(|s: String| s@) =~= expired@.map_values(
                        |s: String| s@,
                    ).push(tok@));
                }
                expired.push(tok);
                proof {
                    assert(expired@[expired@.len() - 1]@ == self.sessions.key_seq()[i as int]);
                    assert(contains_id(expired@, self.sessions.key_seq()[i as int]));
                    assert forall|j: int| 0 <= j < before.len() implies exists|t: int|
                        0 <= t < i + 1 && #[trigger] expired@[j]@ == self.sessions.key_seq()[t] by {
                        let t = choose|t: int|
                            0 <= t < i && before[j]@ == self.sessions.key_seq()[t];
                        assert(expired@[j] == before[j]);
                        assert(0 <= t < i + 1 && expired@[j]@ == self.sessions.key_seq()[t]);
                    }
                    assert forall|t: int|
                        0 <= t < i + 1 && !(now < self.sessions@[#[trigger] self.sessions.key_seq()[t]].expires_at)
                        implies contains_id(expired@, self.sessions.key_seq()[t]) by {
                        if t < i {
                            let l = choose|l: int|
                                0 <= l < before.len() && before[l]@ == self.sessions.key_seq()[t];
                            assert(expired@[l]@ == self.sessions.key_seq()[t]);
                        } else {
                            assert(expired@[expired@.len() - 1]@ == self.sessions.key_seq()[t]);
                        }
                    }
                }
            }
            i += 1;
        }
        let ghost keys = expired@.map_values(|s: String| s@);
        let m = expired.len();
        proof {
            assert(self.sessions@ =~= pre@.remove_keys(
                Set::new(|k: Seq<char>| exists|l: int| 0 <= l < 0 && keys[l] == k),
            ));
        }
        let mut j: usize = 0;
        while j < m
            invariant
                old(self).wf(),
                m == expired@.len(),
                keys == expired@.map_values(|s: String| s@),
                j <= m,
                self.sessions.wf(),
                self.invites == old(self).invites,
                self.posts_in_progress == old(self).posts_in_progress,
                self.cache == old(self).cache,
                pre == old(self).sessions,
                self.sessions@ == pre@.remove_keys(
                    Set::new(|k: Seq<char>| exists|l: int| 0 <= l < j && keys[l] == k),
                ),
                forall|l: int|
                    0 <= l < m ==> {
                        &&& pre@.contains_key(#[trigger] keys[l])
                        &&& pre@[keys[l]].expires_at <= now
                    },
                forall|t: int|
                    0 <= t < pre.key_seq().len() ==> (now < pre@[#[trigger] pre.key_seq()[t]].expires_at
                        || contains_id(expired@, pre.key_seq()[t])),
            decreases m - j,
        {
            let ghost s_old = Set::new(|k: Seq<char>| exists|l: int| 0 <= l < j && keys[l] == k);
            let ghost s_new = Set::new(
                |k: Seq<char>| exists|l: int| 0 <= l < j + 1 && keys[l] == k,
            );
            self.sessions.remove(&expired[j]);
            proof {
                assert(keys[j as int] == expired@[j as int]@);
                assert forall|k: Seq<char>| true implies #[trigger] s_new.contains(k) == (
                s_old.contains(k) || k == keys[j as int]) by {
                    if s_new.contains(k) {
                        let l = choose|l: int| 0 <= l < j + 1 && keys[l] == k;
                        if l < j {
                            assert(s_old.contains(k));
                        }
                    }
                    if s_old.contains(k) {
                        let l = choose|l: int| 0 <= l < j && keys[l] == k;
                        assert(0 <= l < j + 1 && keys[l] == k);
                        assert(s_new.contains(k));
                    }
                    if k == keys[j as int] {
                        assert(0 <= j < j + 1 && keys[j as int] == k);
                        assert(s_new.contains(k));
                    }
                }
                assert(self.sessions@ =~= pre@.remove_keys(s_new));
            }
            j += 1;
        }
        proof {
            pre.lemma_keys();
            assert forall|k: Seq<char>| true implies #[trigger] self.sessions@.contains_key(k)
                == live_sessions(pre@, now).contains_key(k) by {
                if pre@.contains_key(k) {
                    assert(pre.key_seq().contains(k));
                    let t = choose|t: int|
                        0 <= t < pre.key_seq().len() && pre.key_seq()[t] == k;
                    if now < pre@[k].expires_at {
                        assert forall|l: int| 0 <= l < m implies #[trigger] keys[l] != k by {
                            assert(pre@[keys[l]].expires_at <= now);
                        }
                    } else {
                        assert(contains_id(expired@, k));
                        let l = choose|l: int| 0 <= l < expired@.len() && expired@[l]@ == k;
                        assert(keys[l] == k);
                    }
                }
            }
            assert(self.sessions@ =~= live_sessions(pre@, now));
        }
    }

    /// Drops every invite that has expired by `now`.
    fn compact_invites(&mut self, now: u64)
        requires
            old(self).wf(),
        ensures
            final(self).wf(),
            final(self).invites@ == live_invites(old(self).invites@, now),
            final(self).sessions == old(self).sessions,
            final(self).posts_in_progress == old(self).posts_in_progress,
            final(self).cache == old(self).cache,
    {
        let ghost pre = self.invites;
        let mut expired: Vec<String> = Vec::new();
        let n = self.invites.num_tokens();
        let mut i: usize = 0;
        while i < n
            invariant
                *self == *old(self),
                old(self).wf(),
                n == self.invites.key_seq().len(),
                i <= n,
                forall|j: int|
                    0 <= j < expired@.len() ==> {
                        &&& self.invites@.contains_key(#[trigger] expired@[j]@)
                        &&& self.invites@[expired@[j]@].expires_at <= now
                    },
                forall|j: int|
                    0 <= j < expired@.len() ==> exists|t: int|
                        0 <= t < i && #[trigger] expired@[j]@ == self.invites.key_seq()[t],
                expired@.map_values(|s: String| s@).no_duplicates(),
                forall|t: int|
                    0 <= t < i ==> (now < self.invites@[#[trigger] self.invites.key_seq()[t]].expires_at
                        || contains_id(expired@, self.invites.key_seq()[t])),
            decreases n - i,
        {
            let valid = self.invites.value_at(i).expires_at > now;
            if !valid {
                let tok = self.invites.token_at(i).clone();
                let ghost before = expired@;
                proof {
                    assert forall|j: int| 0 <= j < expired@.len() implies expired@[j]@ != self
                        .invites.key_seq()[i as int] by {
                        let t = choose|t: int|
                            0 <= t < i && expired@[j]@ == self.invites.key_seq()[t];
                    }
                    assert(expired@.push(tok).map_values(|s: String| s@) =~= expired@.map_values(
                        |s: String| s@,
                    ).push(tok@));
                }
                expired.push(tok);
                proof {
                    assert(expired@[expired@.len() - 1]@ == self.invites.key_seq()[i as int]);
                    assert(contains_id(expired@, self.invites.key_seq()[i as int]));
                    assert forall|j: int| 0 <= j < before.len() implies exists|t: int|
                        0 <= t < i + 1 && #[trigger] expired@[j]@ == self.invites.key_seq()[t] by {
                        let t = choose|t: int|
                            0 <= t < i && before[j]@ == self.invites.key_seq()[t];
                        assert(expired@[j] == before[j]);
                        assert(0 <= t < i + 1 && expired@[j]@ == self.invites.key_seq()[t]);
                    }
                    assert forall|t: int|
                        0 <= t < i + 1 && !(now < self.invites@[#[trigger] self.invites.key_seq()[t]].expires_at)
                        implies contains_id(expired@, self.invites.key_seq()[t]) by {
                        if t < i {
                            let l = choose|l: int|
                                0 <= l < before.len() && before[l]@ == self.invites.key_seq()[t];
                            assert(expired@[l]@ == self.invites.key_seq()[t]);
                        } else {
                            assert(expired@[expired@.len() - 1]@ == self.invites.key_seq()[t]);
                        }
                    }
                }
            }
            i += 1;
        }
        let ghost keys = expired@.map_values(|s: String| s@);
        let m = expired.len();
        proof {
            assert(self.invites@ =~= pre@.remove_keys(
                Set::new(|k: Seq<char>| exists|l: int| 0 <= l < 0 && keys[l] == k),
            ));
        }
        let mut j: usize = 0;
        while j < m
            invariant
                old(self).wf(),
                m == expired@.len(),
                keys == expired@.map_values(|s: String| s@),
                j <= m,
                self.invites.wf(),
                self.sessions == old(self).sessions,
                self.posts_in_progress == old(self).posts_in_progress,
                self.cache == old(self).cache,
                pre == old(self).invites,
                self.invites@ == pre@.remove_keys(
                    Set::new(|k: Seq<char>| exists|l: int| 0 <= l < j && keys[l] == k),
                ),
                forall|l: int|
                    0 <= l < m ==> {
                        &&& pre@.contains_key(#[trigger] keys[l])
                        &&& pre@[keys[l]].expires_at <= now
                    },
                forall|t: int|
                    0 <= t < pre.key_seq().len() ==> (now < pre@[#[trigger] pre.key_seq()[t]].expires_at
                        || contains_id(expired@, pre.key_seq()[t])),
            decreases m - j,
        {
            let ghost s_old = Set::new(|k: Seq<char>| exists|l: int| 0 <= l < j && keys[l] == k);
            let ghost s_new = Set::new(
                |k: Seq<char>| exists|l: int| 0 <= l < j + 1 && keys[l] == k,
            );
            self.invites.remove(&expired[j]);
            proof {
                assert(keys[j as int] == expired@[j as int]@);
                assert forall|k: Seq<char>| true implies #[trigger] s_new.contains(k) == (
                s_old.contains(k) || k == keys[j as int]) by {
                    if s_new.contains(k) {
                        let l = choose|l: int| 0 <= l < j + 1 && keys[l] == k;
                        if l < j {
                            assert(s_old.contains(k));
                        }
                    }
                    if s_old.contains(k) {
                        let l = choose|l: int| 0 <= l < j && keys[l] == k;
                        assert(0 <= l < j + 1 && keys[l] == k);
                        assert(s_new.contains(k));
                    }
                    if k == keys[j as int] {
                        assert(0 <= j < j + 1 && keys[j as int] == k);
                        assert(s_new.contains(k));
                    }
                }
                assert(self.invites@ =~= pre@.remove_keys(s_new));
            }
            j += 1;
        }
        proof {
            pre.lemma_keys();
            assert forall|k: Seq<char>| true implies #[trigger] self.invites@.contains_key(k)
                == live_invites(pre@, now).contains_key(k) by {
                if pre@.contains_key(k) {
                    assert(pre.key_seq().contains(k));
                    let t = choose|t: int|
                        0 <= t < pre.key_seq().len() && pre.key_seq()[t] == k;
                    if now < pre@[k].expires_at {
                        assert forall|l: int| 0 <= l < m implies #[trigger] keys[l] != k by {
                            assert(pre@[keys[l]].expires_at <= now);
                        }
                    } else {
                        assert(contains_id(expired@, k));
                        let l = choose|l: int| 0 <= l < expired@.len() && expired@[l]@ == k;
                        assert(keys[l] == k);
                    }
                }
            }
            assert(self.invites@ =~= live_invites(pre@, now));
        }
    }

    /// Opens a session for `for_username`, good for `SESSION_TTL_MS` from
    /// `now`, under a fresh random token, compacting the table on the way;
    /// holding an `Auth` is the proof that the login was checked.
    pub fn create_session(&mut self, for_username: String, _auth: Auth, now: u64) -> (r: SessionID)
        requires
            old(self).wf(),
            now + SESSION_TTL_MS <= u64::MAX,
        ensures
            final(self).wf(),
            r@.len() == 2 * SESSION_ID_BYTES,
            final(self).sessions@ == live_sessions(old(self).sessions@, now).insert(
                r@,
                Session { for_username, expires_at: (now + SESSION_TTL_MS) as u64 },
            ),
            final(self).invites == old(self).invites,
            final(self).posts_in_progress == old(self).posts_in_progress,
            final(self).cache == old(self).cache,
    {
        self.compact_sessions(now);
        let session_id: SessionID = get_random_hex_string::<SESSION_ID_BYTES>();
        let new_session = Session { for_username, expires_at: now + SESSION_TTL_MS };
        self.sessions.insert(session_id.clone(), new_session);
        session_id
    }

    /// The invite under `invite_id`, if it exists and is still valid at
    /// `now`; an expired-but-unpurged invite is treated as absent.
    pub fn get_invite(&self, invite_id: &InviteID, now: u64) -> (r: Option<Invite>)
        requires
            self.wf(),
        ensures
            match r {
                Some(inv) => {
                    &&& self.invites@.contains_key(invite_id@)
                    &&& inv == self.invites@[invite_id@]
                    &&& inv.spec_is_valid(now)
                },
                None => !self.invites@.contains_key(invite_id@) || !self.invites@[
                    invite_id@
                ].spec_is_valid(now),
            },
    {
        match self.invites.get(invite_id) {
            Some(inv) => {
                if inv.is_valid(now) {
                    Some(inv.clone())
                } else {
                    None
                }
            },
            None => None,
        }
    }

    /// Revokes the invite under `invite_id` (an invite is consumed when a
    /// signup succeeds) and hands back whatever was stored, expired or not.
    pub fn remove_invite(&mut self, invite_id: &InviteID) -> (r: Option<Invite>)
        requires
            old(self).wf(),
        ensures
            final(self).wf(),
            final(self).invites@ == old(self).invites@.remove(invite_id@),
            match r {
                Some(inv) => old(self).invites@.contains_key(invite_id@) && inv == old(
                    self,
                ).invites@[invite_id@],
                None => !old(self).invites@.contains_key(invite_id@),
            },
            final(self).sessions == old(self).sessions,
            final(self).posts_in_progress == old(self).posts_in_progress,
            final(self).cache == old(self).cache,
    {
        self.invites.take(invite_id)
    }

    /// Issues an invite granting `for_permissions`, good for
    /// `INVITE_TTL_MS` from `now`, under a fresh random token, compacting
    /// the table on the way.
    pub fn create_invite(&mut self, for_permissions: Permissions, now: u64) -> (r: InviteID)
        requires
            old(self).wf(),
            now + INVITE_TTL_MS <= u64::MAX,
        ensures
            final(self).wf(),
            r@.len() == 2 * INVITE_ID_BYTES,
            final(self).invites@ == live_invites(old(self).invites@, now).insert(
                r@,
                Invite { for_permissions, expires_at: (now + INVITE_TTL_MS) as u64 },
            ),
            final(self).sessions == old(self).sessions,
            final(self).posts_in_progress == old(self).posts_in_progress,
            final(self).cache == old(self).cache,
    {
        self.compact_invites(now);
        let invite_id: InviteID = get_random_hex_string::<INVITE_ID_BYTES>();
        let new_invite = Invite { for_permissions, expires_at: now + INVITE_TTL_MS };
        self.invites.insert(invite_id.clone(), new_invite);
        invite_id
    }

    /// Registers a newly started post under its own identifier. Fails with
    /// `Conflict` only if the identifier is already taken (identifiers are
    /// drawn with enough entropy that a collision is no normal case).
    pub fn start(&mut self, meta: Post, jobs: JobSet) -> (r: Result<PostID, BlogError>)
        requires
            old(self).wf(),
            meta.in_progress,
        ensures
            final(self).wf(),
            final(self).sessions == old(self).sessions,
            final(self).invites == old(self).invites,
            final(self).cache == old(self).cache,
            match r {
                Ok(id) => {
                    &&& id@ == meta.id@
                    &&& !old(self).posts_in_progress@.contains_key(meta.id@)
                    &&& final(self).posts_in_progress@.dom() =~= old(
                        self,
                    ).posts_in_progress@.dom().insert(meta.id@)
                    &&& (forall|k: Seq<char>|
                        k != meta.id@ && old(self).posts_in_progress@.contains_key(k)
                            ==> final(self).posts_in_progress@[k] == old(
                            self,
                        ).posts_in_progress@[k])
                    &&& final(self).posts_in_progress@[meta.id@].meta == meta
                    &&& final(self).posts_in_progress@[meta.id@].jobs_left == jobs
                    &&& final(self).posts_in_progress@[meta.id@].media.images@ == Seq::<
                        String,
                    >::empty()
                    &&& final(self).posts_in_progress@[meta.id@].media.videos@ == Seq::<
                        String,
                    >::empty()
                },
                Err(e) => {
                    &&& e == BlogError::Conflict
                    &&& old(self).posts_in_progress@.contains_key(meta.id@)
                    &&& final(self).posts_in_progress == old(self).posts_in_progress
                },
            },
    {
        let id = meta.id.clone();
        if self.posts_in_progress.contains(&id) {
            return Err(BlogError::Conflict);
        }
        let entry = IncompletePost { meta, jobs_left: jobs, media: Media::empty() };
        proof {
            assert(entry.media.images@ =~= Seq::<String>::empty());
            assert(entry.media.videos@ =~= Seq::<String>::empty());
        }
        self.posts_in_progress.insert(id.clone(), entry);
        Ok(id)
    }

    /// Appends an attachment to a post under composition and, if it was not
    /// owed already, adds the thumbnail job. Exactly one of: the name is
    /// registered; or the caller learns `NotFound` (no such in-progress
    /// post), `Forbidden` (not the author), `Conflict` (no longer in
    /// progress) or `BadRequest` (empty name).
    pub fn register_attachment(
        &mut self,
        post_id: &PostID,
        caller: &String,
        attachment_name: String,
    ) -> (r: Result<(), BlogError>)
        requires
            old(self).wf(),
        ensures
            final(self).wf(),
            final(self).sessions == old(self).sessions,
            final(self).invites == old(self).invites,
            final(self).cache == old(self).cache,
            match r {
                Ok(()) => {
                    &&& old(self).posts_in_progress@.contains_key(post_id@)
                    &&& old(self).posts_in_progress@[post_id@].meta.in_progress
                    &&& old(self).posts_in_progress@[post_id@].meta.author_username@ == caller@
                    &&& attachment_name@.len() > 0
                    &&& final(self).posts_in_progress@.dom() =~= old(
                        self,
                    ).posts_in_progress@.dom()
                    &&& (forall|k: Seq<char>|
                        k != post_id@ && old(self).posts_in_progress@.contains_key(k)
                            ==> final(self).posts_in_progress@[k] == old(
                            self,
                        ).posts_in_progress@[k])
                    &&& final(self).posts_in_progress@[post_id@].meta == old(
                        self,
                    ).posts_in_progress@[post_id@].meta
                    &&& final(self).posts_in_progress@[post_id@].media.images@ == old(
                        self,
                    ).posts_in_progress@[post_id@].media.images@.push(attachment_name)
                    &&& final(self).posts_in_progress@[post_id@].media.videos == old(
                        self,
                    ).posts_in_progress@[post_id@].media.videos
                    &&& final(self).posts_in_progress@[post_id@].jobs_left@ =~= old(
                        self,
                    ).posts_in_progress@[post_id@].jobs_left@.insert(PostJob::Thumbnails)
                },
                Err(e) => {
                    &&& final(self).posts_in_progress == old(self).posts_in_progress
                    &&& (e == BlogError::NotFound <==> !old(
                        self,
                    ).posts_in_progress@.contains_key(post_id@))
                    &&& (e == BlogError::Conflict ==> old(self).posts_in_progress@.contains_key(
                        post_id@,
                    ) && !old(self).posts_in_progress@[post_id@].meta.in_progress)
                    &&& (e == BlogError::Forbidden ==> old(self).posts_in_progress@.contains_key(
                        post_id@,
                    ) && old(self).posts_in_progress@[post_id@].meta.author_username@ != caller@)
                    &&& (e == BlogError::BadRequest ==> old(self).posts_in_progress@.contains_key(
                        post_id@,
                    ) && old(self).posts_in_progress@[post_id@].meta.author_username@ == caller@
                        && attachment_name@.len() == 0)
                    &&& (e == BlogError::NotFound || e == BlogError::Conflict || e
                        == BlogError::Forbidden || e == BlogError::BadRequest)
                },
            },
    {
        match self.posts_in_progress.get(post_id) {
            None => {
                return Err(BlogError::NotFound);
            },
            Some(p) => {
                if !p.meta.in_progress {
                    return Err(BlogError::Conflict);
                }
                if !p.meta.author_username.eq(caller) {
                    return Err(BlogError::Forbidden);
                }
                if attachment_name.as_str().is_empty() {
                    return Err(BlogError::BadRequest);
                }
            },
        }
        let ghost pre = self.posts_in_progress;
        let taken = self.posts_in_progress.take(post_id);
        match taken {
            Some(mut p) => {
                p.media.images.push(attachment_name);
                p.jobs_left.insert(PostJob::Thumbnails);
                self.posts_in_progress.insert(post_id.clone(), p);
                proof {
                    assert(self.posts_in_progress@.dom() =~= pre@.dom());
                }
                Ok(())
            },
            None => {
                proof {
                    assert(false);
                }
                Err(BlogError::Internal)
            },
        }
    }

    /// Atomically removes and returns a post under composition: the one
    /// authorized way to begin completing it. Once it returns the entry is
    /// gone, so no later attachment registration for this identifier can
    /// succeed; asked twice for the same identifier, the second call learns
    /// `NotFound`.
    pub fn take_for_completion(&mut self, post_id: &PostID) -> (r: Result<
        IncompletePost,
        BlogError,
    >)
        requires
            old(self).wf(),
        ensures
            final(self).wf(),
            final(self).sessions == old(self).sessions,
            final(self).invites == old(self).invites,
            final(self).cache == old(self).cache,
            match r {
                Ok(p) => {
                    &&& old(self).posts_in_progress@.contains_key(post_id@)
                    &&& p == old(self).posts_in_progress@[post_id@]
                    &&& p.meta.in_progress
                    &&& p.meta.id@ == post_id@
                    &&& final(self).posts_in_progress@ == old(self).posts_in_progress@.remove(
                        post_id@,
                    )
                },
                Err(e) => {
                    &&& e == BlogError::NotFound
                    &&& !old(self).posts_in_progress@.contains_key(post_id@)
                    &&& final(self).posts_in_progress@ == old(self).posts_in_progress@
                },
            },
    {
        match self.posts_in_progress.take(post_id) {
            Some(p) => Ok(p),
            None => Err(BlogError::NotFound),
        }
    }

    /// Removes every post under composition whose creation timestamp is
    /// older than `max_age` at `now`, and returns their identifiers so the
    /// caller can delete each one's working directory; a post removed this
    /// way is permanently lost.
    pub fn sweep(&mut self, now: u64, max_age: u64) -> (removed: Vec<PostID>)
        requires
            old(self).wf(),
        ensures
            final(self).wf(),
            final(self).sessions == old(self).sessions,
            final(self).invites == old(self).invites,
            final(self).cache == old(self).cache,
            final(self).posts_in_progress@ == retained_posts(
                old(self).posts_in_progress@,
                now,
                max_age,
            ),
            removed@.map_values(|s: String| s@).no_duplicates(),
            forall|k: Seq<char>|
                #[trigger] contains_id(removed@, k) <==> (old(
                    self,
                ).posts_in_progress@.contains_key(k) && is_stale(
                    old(self).posts_in_progress@[k],
                    now,
                    max_age,
                )),
    {
        let ghost pre = self.posts_in_progress;
        let mut stale: Vec<String> = Vec::new();
        let n = self.posts_in_progress.num_tokens();
        let mut i: usize = 0;
        while i < n
            invariant
                *self == *old(self),
                old(self).wf(),
                n == self.posts_in_progress.key_seq().len(),
                i <= n,
                forall|j: int|
                    0 <= j < stale@.len() ==> {
                        &&& self.posts_in_progress@.contains_key(#[trigger] stale@[j]@)
                        &&& is_stale(self.posts_in_progress@[stale@[j]@], now, max_age)
                    },
                forall|j: int|
                    0 <= j < stale@.len() ==> exists|t: int|
                        0 <= t < i && #[trigger] stale@[j]@ == self.posts_in_progress.key_seq()[t],
                stale@.map_values(|s: String| s@).no_duplicates(),
                forall|t: int|
                    0 <= t < i ==> (!is_stale(
                        self.posts_in_progress@[#[trigger] self.posts_in_progress.key_seq()[t]],
                        now,
                        max_age,
                    ) || contains_id(stale@, self.posts_in_progress.key_seq()[t])),
            decreases n - i,
        {
            let ts = self.posts_in_progress.value_at(i).meta.timestamp;
            let entry_is_stale = now >= ts && now - ts >= max_age;
            proof {
                assert(entry_is_stale == is_stale(
                    self.posts_in_progress@[self.posts_in_progress.key_seq()[i as int]],
                    now,
                    max_age,
                ));
            }
            if entry_is_stale {
                let tok = self.posts_in_progress.token_at(i).clone();
                let ghost before = stale@;
                proof {
                    assert forall|j: int| 0 <= j < stale@.len() implies stale@[j]@ != self
                        .posts_in_progress.key_seq()[i as int] by {
                        let t = choose|t: int|
                            0 <= t < i && stale@[j]@ == self.posts_in_progress.key_seq()[t];
                    }
                    assert(stale@.push(tok).map_values(|s: String| s@) =~= stale@.map_values(
                        |s: String| s@,
                    ).push(tok@));
                }
                stale.push(tok);
                proof {
                    assert(stale@[stale@.len() - 1]@ == self.posts_in_progress.key_seq()[
                        i as int
                    ]);
                    assert(contains_id(stale@, self.posts_in_progress.key_seq()[i as int]));
                    assert forall|j: int| 0 <= j < before.len() implies exists|t: int|
                        0 <= t < i + 1 && #[trigger] stale@[j]@ == self.posts_in_progress.key_seq()[t] by {
                        let t = choose|t: int|
                            0 <= t < i && before[j]@ == self.posts_in_progress.key_seq()[t];
                        assert(stale@[j] == before[j]);
                        assert(0 <= t < i + 1 && stale@[j]@ == self.posts_in_progress.key_seq()[
                            t
                        ]);
                    }
                    assert forall|t: int|
                        0 <= t < i + 1 && is_stale(
                            self.posts_in_progress@[
                                #[trigger] self.posts_in_progress.key_seq()[t]
                            ],
                            now,
                            max_age,
                        ) implies contains_id(stale@, self.posts_in_progress.key_seq()[t]) by {
                        if t < i {
                            if contains_id(before, self.posts_in_progress.key_seq()[t]) {
                                let l = choose|l: int|
                                    0 <= l < before.len() && before[l]@ == self.posts_in_progress.key_seq()[t];
                                assert(stale@[l]@ == self.posts_in_progress.key_seq()[t]);
                            }
                        } else {
                            assert(stale@[stale@.len() - 1]@ == self.posts_in_progress.key_seq()[
                                t
                            ]);
                        }
                    }
                }
            }
            i += 1;
        }
        let ghost keys = stale@.map_values(|s: String| s@);
        let m = stale.len();
        proof {
            assert(self.posts_in_progress@ =~= pre@.remove_keys(
                Set::new(|k: Seq<char>| exists|l: int| 0 <= l < 0 && keys[l] == k),
            ));
        }
        let mut j: usize = 0;
        while j < m
            invariant
                old(self).wf(),
                m == stale@.len(),
                keys == stale@.map_values(|s: String| s@),
                j <= m,
                self.posts_in_progress.wf(),
                self.sessions == old(self).sessions,
                self.invites == old(self).invites,
                self.cache == old(self).cache,
                pre == old(self).posts_in_progress,
                self.posts_in_progress@ == pre@.remove_keys(
                    Set::new(|k: Seq<char>| exists|l: int| 0 <= l < j && keys[l] == k),
                ),
                forall|l: int|
                    0 <= l < m ==> {
                        &&& pre@.contains_key(#[trigger] keys[l])
                        &&& is_stale(pre@[keys[l]], now, max_age)
                    },
                forall|t: int|
                    0 <= t < pre.key_seq().len() ==> (!is_stale(
                        pre@[#[trigger] pre.key_seq()[t]],
                        now,
                        max_age,
                    ) || contains_id(stale@, pre.key_seq()[t])),
            decreases m - j,
        {
            let ghost s_old = Set::new(|k: Seq<char>| exists|l: int| 0 <= l < j && keys[l] == k);
            let ghost s_new = Set::new(
                |k: Seq<char>| exists|l: int| 0 <= l < j + 1 && keys[l] == k,
            );
            self.posts_in_progress.remove(&stale[j]);
            proof {
                assert(keys[j as int] == stale@[j as int]@);
                assert forall|k: Seq<char>| true implies #[trigger] s_new.contains(k) == (
                s_old.contains(k) || k == keys[j as int]) by {
                    if s_new.contains(k) {
                        let l = choose|l: int| 0 <= l < j + 1 && keys[l] == k;
                        if l < j {
                            assert(s_old.contains(k));
                        }
                    }
                    if s_old.contains(k) {
                        let l = choose|l: int| 0 <= l < j && keys[l] == k;
                        assert(0 <= l < j + 1 && keys[l] == k);
                        assert(s_new.contains(k));
                    }
                    if k == keys[j as int] {
                        assert(0 <= j < j + 1 && keys[j as int] == k);
                        assert(s_new.contains(k));
                    }
                }
                assert(self.posts_in_progress@ =~= pre@.remove_keys(s_new));
            }
            j += 1;
        }
        proof {
            pre.lemma_keys();
            assert forall|k: Seq<char>| true implies #[trigger] self.posts_in_progress@.contains_key(
                k,
            ) == retained_posts(pre@, now, max_age).contains_key(k) by {
                if pre@.contains_key(k) {
                    assert(pre.key_seq().contains(k));
                    let t = choose|t: int|
                        0 <= t < pre.key_seq().len() && pre.key_seq()[t] == k;
                    if !is_stale(pre@[k], now, max_age) {
                        assert forall|l: int| 0 <= l < m implies #[trigger] keys[l] != k by {
                            assert(is_stale(pre@[keys[l]], now, max_age));
                        }
                    } else {
                        assert(contains_id(stale@, k));
                        let l = choose|l: int| 0 <= l < stale@.len() && stale@[l]@ == k;
                        assert(keys[l] == k);
                    }
                }
            }
            assert(self.posts_in_progress@ =~= retained_posts(pre@, now, max_age));
            assert forall|k: Seq<char>| #[trigger] contains_id(stale@, k) implies (
            pre@.contains_key(k) && is_stale(pre@[k], now, max_age)) by {
                let l = choose|l: int| 0 <= l < stale@.len() && stale@[l]@ == k;
            }
            assert forall|k: Seq<char>|
                pre@.contains_key(k) && is_stale(pre@[k], now, max_age) implies #[trigger] contains_id(
                stale@,
                k,
            ) by {
                assert(pre.key_seq().contains(k));
                let t = choose|t: int| 0 <= t < pre.key_seq().len() && pre.key_seq()[t] == k;
            }
        }
        stale
    }

    /// Reclaims every post under composition older than
    /// `INCOMPLETE_POST_TTL_MS`, returning the identifiers whose working
    /// directories are to be deleted.
    pub fn cleanup_stale_posts(&mut self, now: u64) -> (removed: Vec<PostID>)
        requires
            old(self).wf(),
        ensures
            final(self).wf(),
            final(self).sessions == old(self).sessions,
            final(self).invites == old(self).invites,
            final(self).cache == old(self).cache,
            final(self).posts_in_progress@ == retained_posts(
                old(self).posts_in_progress@,
                now,
                INCOMPLETE_POST_TTL_MS,
            ),
            removed@.map_values(|s: String| s@).no_duplicates(),
            forall|k: Seq<char>|
                #[trigger] contains_id(removed@, k) <==> (old(
                    self,
                ).posts_in_progress@.contains_key(k) && is_stale(
                    old(self).posts_in_progress@[k],
                    now,
                    INCOMPLETE_POST_TTL_MS,
                )),
    {
        self.sweep(now, INCOMPLETE_POST_TTL_MS)
    }
}

/// Taking a post for completion twice: `take_for_completion` removes the
/// entry, so in the state it leaves behind the identifier is absent, and
/// by its own contract a second call then returns `NotFound`.
pub proof fn lemma_take_for_completion_twice(
    posts: Map<Seq<char>, IncompletePost>,
    post_id: Seq<char>,
)
    ensures
        !posts.remove(post_id).contains_key(post_id),
{
}

/// Registering an attachment and taking the post for completion exclude
/// each other, in either order. If the take happens first, the registry no
/// longer holds the identifier, so a following `register_attachment` must
/// by its contract return `NotFound` and change nothing. If the
/// registration happens first, the registry holds the updated entry, so a
/// following `take_for_completion` must hand out the post with the
/// attachment and the thumbnail job on it. A partially applied attachment
/// on a post already being finalized can therefore not arise.
pub proof fn lemma_register_take_exclusive(
    posts: Map<Seq<char>, IncompletePost>,
    post_id: Seq<char>,
    updated: IncompletePost,
)
    ensures
        !posts.remove(post_id).contains_key(post_id),
        posts.insert(post_id, updated).contains_key(post_id),
        posts.insert(post_id, updated)[post_id] == updated,
{
}

/// Compaction-on-insert: a session table of any mix of live and expired
/// entries, asked to store one more under a token that no live entry uses
/// (tokens carry enough entropy for that), ends up with every expired
/// entry gone and exactly one entry more than it had live ones.
pub proof fn lemma_session_compaction_count(
    m: Map<Seq<char>, Session>,
    now: u64,
    token: Seq<char>,
    s: Session,
)
    requires
        m.dom().finite(),
        !live_sessions(m, now).contains_key(token),
    ensures
        live_sessions(m, now).insert(token, s).len() == live_sessions(m, now).len() + 1,
        forall|k: Seq<char>|
            #[trigger] live_sessions(m, now).contains_key(k) ==> now < m[k].expires_at,
{
    broadcast use vstd::set::axiom_set_insert_len;

    let live = live_sessions(m, now);
    assert(live.dom().subset_of(m.dom()));
    vstd::set_lib::lemma_len_subset(live.dom(), m.dom());
    assert(live.insert(token, s).dom() =~= live.dom().insert(token));
}

/// Compaction-on-insert for the invite table, as for sessions.
pub proof fn lemma_invite_compaction_count(
    m: Map<Seq<char>, Invite>,
    now: u64,
    token: Seq<char>,
    inv: Invite,
)
    requires
        m.dom().finite(),
        !live_invites(m, now).contains_key(token),
    ensures
        live_invites(m, now).insert(token, inv).len() == live_invites(m, now).len() + 1,
        forall|k: Seq<char>|
            #[trigger] live_invites(m, now).contains_key(k) ==> now < m[k].expires_at,
{
    broadcast use vstd::set::axiom_set_insert_len;

    let live = live_invites(m, now);
    assert(live.dom().subset_of(m.dom()));
    vstd::set_lib::lemma_len_subset(live.dom(), m.dom());
    assert(live.insert(token, inv).dom() =~= live.dom().insert(token));
}

} // verus!
