//! Core data model of the blog: users, posts, permissions, identifier
//! strings, and the fixed lifetimes of the transient records.
//!
//! Timestamps and durations are plain milliseconds (`u64`); whoever calls the
//! library supplies the current time, so every rule about expiry is a function
//! of explicit arguments.

use rand::{RngCore, SeedableRng};
use vstd::prelude::*;

verus! {

/// Identifier of a post: a hex string drawn from `POST_ID_BYTES` random bytes.
pub type PostID = String;

/// Identifier of a session: a hex string drawn from `SESSION_ID_BYTES` random bytes.
pub type SessionID = String;

/// Identifier of an invite: a hex string drawn from `INVITE_ID_BYTES` random bytes.
pub type InviteID = String;

pub const POST_ID_BYTES: usize = 16;

pub const SESSION_ID_BYTES: usize = 32;

pub const INVITE_ID_BYTES: usize = 32;

/// How long a session stays valid after login, in milliseconds (one day).
pub const SESSION_TTL_MS: u64 = 24 * 60 * 60 * 1000;

/// How long an in-progress post is kept before the sweep reclaims it,
/// in milliseconds (one hour).
pub const INCOMPLETE_POST_TTL_MS: u64 = 60 * 60 * 1000;

/// How long an invite stays valid after issuance, in milliseconds (one week).
pub const INVITE_TTL_MS: u64 = 7 * 24 * 60 * 60 * 1000;

/// What a user may do; granted at signup from the invite that was consumed.
#[derive(Debug, Clone, Copy, PartialEq, Eq, Structural)]
pub struct Permissions {
    pub can_create_invites: bool,
    pub can_create_posts: bool,
}

/// A registered user, as the storage layer records it.
#[derive(Debug)]
pub struct User {
    pub username: String,
    pub name: String,
    /// Identifiers of the user's posts, in chronological order.
    pub posts: Vec<PostID>,
    pub permissions: Permissions,
    /// Usernames allowed to read this user's private posts.
    pub members: Vec<String>,
}

/// A post's metadata. While `in_progress` is true the post is owned by the
/// in-progress registry; it becomes publicly listable only once the
/// completion pipeline clears the flag.
#[derive(Debug)]
pub struct Post {
    pub id: PostID,
    pub author_username: String,
    /// Milliseconds since the epoch; refreshed when the post is finalized.
    pub timestamp: u64,
    pub reply_to: Option<PostID>,
    pub replies: Vec<PostID>,
    pub quotes: Vec<PostID>,
    pub in_progress: bool,
    pub images: Vec<String>,
    pub is_private: bool,
}

impl Post {
    /// Whether this post was composed as a reply to another post.
    pub fn is_reply(&self) -> (r: bool)
        ensures
            r == self.reply_to is Some,
    {
        match &self.reply_to {
            Some(_) => true,
            None => false,
        }
    }
}

/// What a login attempt carries: who claims to sign in, and with what
/// password. Checking the pair against the login store happens outside the
/// library.
#[derive(Debug)]
pub struct LoginCredentials {
    pub username: String,
    pub password: String,
}

/// Evidence that an actor's credentials were checked. Within the library
/// nothing constructs one; whoever performs the credential check (outside,
/// against the login store) mints it through `from_verified_login` and
/// passes it to the operations that demand it.
pub struct Auth {
    _witness: (),
}

impl Auth {
    /// To be called only after the actor's credentials have been verified
    /// against the login store.
    pub fn from_verified_login() -> (r: Auth) {
        Auth { _witness: () }
    }
}

/// The attachments accumulated by a post while it is being composed.
#[derive(Debug)]
pub struct Media {
    pub images: Vec<String>,
    pub videos: Vec<String>,
}

impl Media {
    pub fn empty() -> (r: Media)
        ensures
            r.images@ == Seq::<String>::empty(),
            r.videos@ == Seq::<String>::empty(),
    {
        Media { images: Vec::new(), videos: Vec::new() }
    }
}

/// Whether two media records list the same attachments.
pub open spec fn same_media(a: Media, b: Media) -> bool {
    a.images@ == b.images@ && a.videos@ == b.videos@
}

/// Whether two post records carry the same data, field for field. Two
/// `Vec`s are compared by their contents.
pub open spec fn same_post(a: Post, b: Post) -> bool {
    &&& a.id == b.id
    &&& a.author_username == b.author_username
    &&& a.timestamp == b.timestamp
    &&& a.reply_to == b.reply_to
    &&& a.replies@ == b.replies@
    &&& a.quotes@ == b.quotes@
    &&& a.in_progress == b.in_progress
    &&& a.images@ == b.images@
    &&& a.is_private == b.is_private
}

/// Whether two user records carry the same data, field for field. Two
/// `Vec`s are compared by their contents.
pub open spec fn same_user(a: User, b: User) -> bool {
    &&& a.username == b.username
    &&& a.name == b.name
    &&& a.posts@ == b.posts@
    &&& a.permissions == b.permissions
    &&& a.members@ == b.members@
}

/// Copies a list of strings, element by element, keeping the view.
fn clone_string_vec(v: &Vec<String>) -> (r: Vec<String>)
    ensures
        r@ == v@,
{
    let mut r: Vec<String> = Vec::new();
    let mut i: usize = 0;
    let n = v.len();
    while i < n
        invariant
            n == v@.len(),
            i <= n,
            r@.len() == i,
            forall|j: int| 0 <= j < i ==> r@[j] == v@[j],
        decreases n - i,
    {
        r.push(v[i].clone());
        i += 1;
    }
    proof {
        assert(r@ =~= v@);
    }
    r
}

impl Clone for Media {
    fn clone(&self) -> (r: Media)
        ensures
            same_media(r, *self),
    {
        Media { images: clone_string_vec(&self.images), videos: clone_string_vec(&self.videos) }
    }
}

impl Clone for Post {
    fn clone(&self) -> (r: Post)
        ensures
            same_post(r, *self),
    {
        let r = Post {
            id: self.id.clone(),
            author_username: self.author_username.clone(),
            timestamp: self.timestamp,
            reply_to: match &self.reply_to {
                Some(p) => Some(p.clone()),
                None => None,
            },
            replies: clone_string_vec(&self.replies),
            quotes: clone_string_vec(&self.quotes),
            in_progress: self.in_progress,
            images: clone_string_vec(&self.images),
            is_private: self.is_private,
        };
        r
    }
}

impl Clone for User {
    fn clone(&self) -> (r: User)
        ensures
            same_user(r, *self),
    {
        User {
            username: self.username.clone(),
            name: self.name.clone(),
            posts: clone_string_vec(&self.posts),
            permissions: self.permissions,
            members: clone_string_vec(&self.members),
        }
    }
}

impl User {
    /// Records a freshly persisted post at the end of the user's
    /// chronological post list; nothing else changes.
    pub fn append_post(&mut self, id: PostID)
        ensures
            final(self).posts@ == old(self).posts@.push(id),
            final(self).username == old(self).username,
            final(self).name == old(self).name,
            final(self).permissions == old(self).permissions,
            final(self).members == old(self).members,
    {
        self.posts.push(id);
    }

    /// Grants `username` access to this user's private posts; a name
    /// already listed is not listed twice.
    pub fn add_member(&mut self, username: &String)
        ensures
            final(self).members@ == if contains_id(old(self).members@, username@) {
                old(self).members@
            } else {
                old(self).members@.push(*username)
            },
            final(self).username == old(self).username,
            final(self).name == old(self).name,
            final(self).posts == old(self).posts,
            final(self).permissions == old(self).permissions,
    {
        if !vec_contains_string(&self.members, username) {
            self.members.push(username.clone());
        }
    }

    /// Withdraws `username` from this user's member list: the first entry
    /// that reads so is removed, and nothing else changes.
    pub fn remove_member(&mut self, username: &String)
        ensures
            final(self).username == old(self).username,
            final(self).name == old(self).name,
            final(self).posts == old(self).posts,
            final(self).permissions == old(self).permissions,
            !contains_id(old(self).members@, username@) ==> final(self).members == old(
                self,
            ).members,
            contains_id(old(self).members@, username@) ==> exists|i: int|
                {
                    &&& 0 <= i < old(self).members@.len()
                    &&& old(self).members@[i]@ == username@
                    &&& (forall|j: int| 0 <= j < i ==> old(self).members@[j]@ != username@)
                    &&& final(self).members@ == old(self).members@.remove(i)
                },
    {
        let mut i: usize = 0;
        let n = self.members.len();
        while i < n
            invariant
                *self == *old(self),
                n == self.members@.len(),
                i <= n,
                forall|j: int| 0 <= j < i ==> self.members@[j]@ != username@,
            decreases n - i,
        {
            if self.members[i].eq(username) {
                self.members.remove(i);
                proof {
                    assert(old(self).members@[i as int]@ == username@);
                }
                return ;
            }
            i += 1;
        }
    }
}

/// Whether a list of identifier strings holds one that reads `id`.
pub open spec fn contains_id(ids: Seq<String>, id: Seq<char>) -> bool {
    exists|i: int| 0 <= i < ids.len() && ids[i]@ == id
}

/// Whether `v` holds a string equal to `s`.
pub fn vec_contains_string(v: &Vec<String>, s: &String) -> (r: bool)
    ensures
        r == contains_id(v@, s@),
{
    let mut i: usize = 0;
    let n = v.len();
    while i < n
        invariant
            n == v@.len(),
            i <= n,
            forall|j: int| 0 <= j < i ==> v@[j]@ != s@,
        decreases n - i,
    {
        if v[i].eq(s) {
            proof {
                assert(v@[i as int]@ == s@);
            }
            return true;
        }
        i += 1;
    }
    false
}

/// The ASCII code of the hex digit for a nibble: `'0'..'9'` then `'a'..'f'`.
pub open spec fn hex_digit_byte(n: u8) -> u8
    recommends
        n < 16,
{
    if n < 10 {
        (48 + n) as u8
    } else {
        (87 + n) as u8
    }
}

/// The ASCII hex encoding of a byte string: two digits per byte, high
/// nibble first, lower case.
pub open spec fn hex_bytes_of(bytes: Seq<u8>) -> Seq<u8> {
    Seq::new(
        2 * bytes.len(),
        |i: int|
            if i % 2 == 0 {
                hex_digit_byte(bytes[i / 2] / 16)
            } else {
                hex_digit_byte(bytes[i / 2] % 16)
            },
    )
}

/// Whether `c` is a lower-case hex digit.
pub open spec fn is_hex_digit_char(c: char) -> bool {
    ('0' <= c && c <= '9') || ('a' <= c && c <= 'f')
}

/// Relies on `rand_core::SeedableRng::from_entropy` and
/// `rand_core::RngCore::fill_bytes`, through `rand_chacha::ChaCha20Rng`:
/// `fill_bytes` overwrites the whole buffer in place, so the length is kept.
/// Nothing is promised of the values, which come from the operating system's
/// entropy source. (`from_entropy` aborts if that source is unavailable;
/// this does not depend on any argument.)
#[verifier::external_body]
fn random_bytes(n: usize) -> (r: Vec<u8>)
    ensures
        r@.len() == n,
{
    let mut bytes = vec![0u8; n];
    rand_chacha::ChaCha20Rng::from_entropy().fill_bytes(&mut bytes);
    bytes
}

/// Relies on `alloc::string::String::from_utf8`: ASCII bytes are valid
/// UTF-8 and decode to one `char` per byte, with the same code point.
#[verifier::external_body]
fn ascii_to_string(bytes: Vec<u8>) -> (r: String)
    requires
        forall|i: int| 0 <= i < bytes@.len() ==> bytes@[i] < 128,
    ensures
        r@.len() == bytes@.len(),
        forall|i: int| 0 <= i < bytes@.len() ==> r@[i] == bytes@[i] as char,
{
    String::from_utf8(bytes).expect("ascii bytes are valid utf-8")
}

/// Encodes a byte string as lower-case ASCII hex, two digits per byte.
fn to_hex_ascii(bytes: &Vec<u8>) -> (r: Vec<u8>)
    ensures
        r@ == hex_bytes_of(bytes@),
{
    let mut r: Vec<u8> = Vec::new();
    let mut j: usize = 0;
    while j < bytes.len()
        invariant
            j <= bytes@.len(),
            r@.len() == 2 * j,
            forall|i: int| 0 <= i < r@.len() ==> r@[i] == hex_bytes_of(bytes@)[i],
        decreases bytes@.len() - j,
    {
        let b = bytes[j];
        let hi = b / 16;
        let lo = b % 16;
        r.push(if hi < 10 {
            48 + hi
        } else {
            87 + hi
        });
        r.push(if lo < 10 {
            48 + lo
        } else {
            87 + lo
        });
        j += 1;
    }
    proof {
        assert(r@ =~= hex_bytes_of(bytes@));
    }
    r
}

/// Draws `LEN` random bytes and returns them as a hex string of `2 * LEN`
/// lower-case hex digits. The token is unpredictable; nothing more than its
/// shape is promised.
pub fn get_random_hex_string<const LEN: usize>() -> (r: String)
    ensures
        r@.len() == 2 * LEN,
        forall|i: int| 0 <= i < r@.len() ==> is_hex_digit_char(#[trigger] r@[i]),
{
    let bytes = random_bytes(LEN);
    let hex = to_hex_ascii(&bytes);
    proof {
        assert(forall|i: int| 0 <= i < hex@.len() ==> hex@[i] < 128);
    }
    let r = ascii_to_string(hex);
    proof {
        assert(forall|i: int|
            0 <= i < r@.len() ==> is_hex_digit_char(#[trigger] r@[i]));
    }
    r
}

/// The outcome categories that registry and pipeline operations report.
#[derive(Debug, Clone, Copy, PartialEq, Eq, Structural)]
pub enum BlogError {
    /// The referenced post, session or invite is absent or expired.
    NotFound,
    /// The actor does not own the resource.
    Forbidden,
    /// The resource is not in the expected lifecycle state.
    Conflict,
    /// Malformed input.
    BadRequest,
    /// An I/O or serialization failure outside the library.
    Internal,
}

} // verus!
