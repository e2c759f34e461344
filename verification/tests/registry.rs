use frith::blog::{
    Auth, BlogError, Media, Permissions, Post, INCOMPLETE_POST_TTL_MS, INVITE_TTL_MS,
    SESSION_TTL_MS,
};
use frith::job::{JobSet, PostJob};
use frith::state::{IncompletePost, State};

fn draft_meta(id: &str, author: &str, timestamp: u64) -> Post {
    Post {
        id: String::from(id),
        author_username: String::from(author),
        timestamp,
        reply_to: None,
        replies: Vec::new(),
        quotes: Vec::new(),
        in_progress: true,
        images: Vec::new(),
        is_private: false,
    }
}

#[test]
fn session_roundtrip_and_expiry() {
    let mut state = State::new();
    let t0: u64 = 1_000_000;
    let token = state.create_session(String::from("ada"), Auth::from_verified_login(), t0);
    assert_eq!(token.len(), 64);
    let s = state.get_session(&token, t0 + 1).expect("session should be live");
    assert_eq!(s.for_username, "ada");
    assert_eq!(s.expires_at, t0 + SESSION_TTL_MS);
    // At and after the expiry instant the session is treated as absent.
    assert!(state.get_session(&token, t0 + SESSION_TTL_MS).is_none());
    assert!(state.get_session(&String::from("no-such-token"), t0).is_none());
}

#[test]
fn session_compaction_on_insert() {
    // Three sessions expire, then one more is created: the expired three
    // are dropped on the way, leaving live-before + 1 entries.
    let mut state = State::new();
    let t0: u64 = 1_000_000;
    for _ in 0..3 {
        state.create_session(String::from("old"), Auth::from_verified_login(), t0);
    }
    let live_t = t0 + SESSION_TTL_MS - 1;
    let keeper = state.create_session(String::from("keeper"), Auth::from_verified_login(), live_t);
    assert_eq!(state.sessions.num_tokens(), 4);
    let late = t0 + SESSION_TTL_MS;
    let newest = state.create_session(String::from("new"), Auth::from_verified_login(), late);
    // "keeper" (created later) is still live at `late`; the three old ones
    // are gone; the new one is present.
    assert_eq!(state.sessions.num_tokens(), 2);
    assert!(state.get_session(&keeper, late).is_some());
    assert!(state.get_session(&newest, late).is_some());
}

#[test]
fn invite_lifecycle_and_compaction() {
    let mut state = State::new();
    let t0: u64 = 5_000;
    let grant = Permissions { can_create_invites: false, can_create_posts: true };
    let a = state.create_invite(grant, t0);
    assert_eq!(a.len(), 64);
    let got = state.get_invite(&a, t0 + 1).expect("invite should be live");
    assert_eq!(got.for_permissions, grant);
    assert_eq!(got.expires_at, t0 + INVITE_TTL_MS);
    // Expired invites are ignored on lookup and dropped on the next insert.
    assert!(state.get_invite(&a, t0 + INVITE_TTL_MS).is_none());
    let b = state.create_invite(grant, t0 + INVITE_TTL_MS);
    assert_eq!(state.invites.num_tokens(), 1);
    // Consuming an invite removes it even before expiry.
    let taken = state.remove_invite(&b);
    assert!(taken.is_some());
    assert!(state.remove_invite(&b).is_none());
    assert_eq!(state.invites.num_tokens(), 0);
}

#[test]
fn start_conflicts_on_duplicate_identifier() {
    let mut state = State::new();
    let meta = draft_meta("aaaa", "ada", 10);
    let id = state.start(meta, JobSet { add_text: true, thumbnails: false, reply_parent: false })
        .expect("fresh identifier should start");
    assert_eq!(id, "aaaa");
    let again = draft_meta("aaaa", "ada", 11);
    let r = state.start(again, JobSet { add_text: true, thumbnails: false, reply_parent: false });
    assert_eq!(r, Err(BlogError::Conflict));
}

#[test]
fn register_attachment_adds_thumbnail_job() {
    let mut state = State::new();
    let meta = draft_meta("aaaa", "ada", 10);
    let id = state.start(meta, JobSet { add_text: true, thumbnails: false, reply_parent: false })
        .expect("fresh identifier should start");
    state
        .register_attachment(&id, &String::from("ada"), String::from("photo.png"))
        .expect("author may attach");
    let p = state.take_for_completion(&id).expect("entry exists");
    assert_eq!(p.media.images, vec![String::from("photo.png")]);
    assert!(p.jobs_left.contains(PostJob::Thumbnails));
    assert!(p.jobs_left.contains(PostJob::AddText));
}

#[test]
fn register_attachment_error_cases() {
    let mut state = State::new();
    let meta = draft_meta("aaaa", "ada", 10);
    state.start(meta, JobSet { add_text: true, thumbnails: false, reply_parent: false })
        .expect("fresh identifier should start");
    let id = String::from("aaaa");
    // Not the author: Forbidden, and nothing changes.
    let r = state.register_attachment(&id, &String::from("eve"), String::from("x.png"));
    assert_eq!(r, Err(BlogError::Forbidden));
    // Empty attachment name: BadRequest.
    let r = state.register_attachment(&id, &String::from("ada"), String::new());
    assert_eq!(r, Err(BlogError::BadRequest));
    // Unknown post: NotFound.
    let r = state.register_attachment(&String::from("bbbb"), &String::from("ada"), String::from("x.png"));
    assert_eq!(r, Err(BlogError::NotFound));
    // After the errors the entry is untouched.
    let p = state.take_for_completion(&id).expect("entry exists");
    assert!(p.media.images.is_empty());
    assert!(!p.jobs_left.contains(PostJob::Thumbnails));
}

#[test]
fn take_for_completion_twice_returns_not_found() {
    let mut state = State::new();
    let meta = draft_meta("aaaa", "ada", 10);
    state.start(meta, JobSet { add_text: true, thumbnails: false, reply_parent: false })
        .expect("fresh identifier should start");
    let id = String::from("aaaa");
    assert!(state.take_for_completion(&id).is_ok());
    assert_eq!(state.take_for_completion(&id).unwrap_err(), BlogError::NotFound);
}

#[test]
fn attachment_and_completion_exclude_each_other() {
    // Order one: registration lands first, completion sees the attachment.
    let mut state = State::new();
    state.start(draft_meta("aaaa", "ada", 10), JobSet { add_text: true, thumbnails: false, reply_parent: false })
        .expect("fresh identifier should start");
    let id = String::from("aaaa");
    state
        .register_attachment(&id, &String::from("ada"), String::from("one.png"))
        .expect("author may attach");
    let p = state.take_for_completion(&id).expect("entry exists");
    assert_eq!(p.media.images, vec![String::from("one.png")]);

    // Order two: completion lands first, the late registration observes
    // NotFound and nothing is partially applied.
    let mut state = State::new();
    state.start(draft_meta("bbbb", "ada", 10), JobSet { add_text: true, thumbnails: false, reply_parent: false })
        .expect("fresh identifier should start");
    let id = String::from("bbbb");
    let p = state.take_for_completion(&id).expect("entry exists");
    assert!(p.media.images.is_empty());
    let r = state.register_attachment(&id, &String::from("ada"), String::from("late.png"));
    assert_eq!(r, Err(BlogError::NotFound));
}

#[test]
fn sweep_boundary() {
    // A post created at t0 is retained just before t0 + TTL and reclaimed
    // from t0 + TTL on; the sweep reports what it removed.
    let t0: u64 = 50_000;
    let mut state = State::new();
    state.start(draft_meta("aaaa", "ada", t0), JobSet { add_text: true, thumbnails: false, reply_parent: false })
        .expect("fresh identifier should start");
    let removed = state.cleanup_stale_posts(t0 + INCOMPLETE_POST_TTL_MS - 1);
    assert!(removed.is_empty());
    assert_eq!(state.posts_in_progress.num_tokens(), 1);
    let removed = state.cleanup_stale_posts(t0 + INCOMPLETE_POST_TTL_MS);
    assert_eq!(removed, vec![String::from("aaaa")]);
    assert_eq!(state.posts_in_progress.num_tokens(), 0);
}

#[test]
fn sweep_keeps_fresh_posts_only() {
    let mut state = State::new();
    state.start(draft_meta("old1", "ada", 0), JobSet { add_text: true, thumbnails: false, reply_parent: false })
        .expect("fresh identifier should start");
    state.start(draft_meta("old2", "ada", 100), JobSet { add_text: true, thumbnails: false, reply_parent: false })
        .expect("fresh identifier should start");
    state.start(draft_meta("newer", "ada", 1_000_000), JobSet { add_text: true, thumbnails: false, reply_parent: false })
        .expect("fresh identifier should start");
    let now = 1_000_000 + INCOMPLETE_POST_TTL_MS - 1;
    let mut removed = state.cleanup_stale_posts(now);
    removed.sort();
    assert_eq!(removed, vec![String::from("old1"), String::from("old2")]);
    assert_eq!(state.posts_in_progress.num_tokens(), 1);
    assert!(state.take_for_completion(&String::from("newer")).is_ok());
}

#[test]
fn incomplete_post_clone_keeps_contents() {
    let entry = IncompletePost {
        meta: draft_meta("aaaa", "ada", 10),
        jobs_left: JobSet { add_text: true, thumbnails: true, reply_parent: false },
        media: Media { images: vec![String::from("a.png")], videos: Vec::new() },
    };
    let copy = IncompletePost {
        meta: entry.meta.clone(),
        jobs_left: entry.jobs_left,
        media: entry.media.clone(),
    };
    assert_eq!(copy.meta.id, entry.meta.id);
    assert_eq!(copy.media.images, entry.media.images);
    assert_eq!(copy.jobs_left, entry.jobs_left);
}
