use frith::blog::{Media, Post};
use frith::job::{JobSet, PostJob};
use frith::joinqueue::TaskKind;
use frith::pipeline::Completion;
use frith::state::{IncompletePost, State};

fn draft(id: &str, author: &str, reply_to: Option<&str>, images: Vec<String>) -> IncompletePost {
    IncompletePost {
        meta: Post {
            id: String::from(id),
            author_username: String::from(author),
            timestamp: 42,
            reply_to: reply_to.map(String::from),
            replies: Vec::new(),
            quotes: Vec::new(),
            in_progress: true,
            images: Vec::new(),
            is_private: false,
        },
        jobs_left: JobSet { add_text: false, thumbnails: !images.is_empty(), reply_parent: reply_to.is_some() },
        media: Media { images, videos: Vec::new() },
    }
}

#[test]
fn jobs_are_dispatched_on_the_right_paths() {
    let post = draft("aaaa", "ada", Some("feed"), vec![String::from("p.png")]);
    let (c, to_start) = Completion::new(post, 4);
    // Both jobs fit the capacity; the CPU-bound one is tagged blocking.
    assert_eq!(to_start.len(), 2);
    assert!(matches!(to_start[0].task, PostJob::Thumbnails));
    assert!(matches!(to_start[0].kind, TaskKind::Blocking));
    assert!(matches!(to_start[1].task, PostJob::ReplyParent));
    assert!(matches!(to_start[1].kind, TaskKind::NonBlocking));
    assert!(!c.is_done());
}

#[test]
fn narrow_capacity_queues_the_rest() {
    let post = draft("aaaa", "ada", Some("feed"), vec![String::from("p.png")]);
    let (mut c, to_start) = Completion::new(post, 1);
    assert_eq!(to_start.len(), 1);
    assert!(matches!(to_start[0].task, PostJob::Thumbnails));
    // Completing the first promotes the queued reply-link job.
    let promoted = c.on_job_done(to_start[0].id, true);
    assert_eq!(promoted.len(), 1);
    assert!(matches!(promoted[0].task, PostJob::ReplyParent));
    assert!(!c.is_done());
    let promoted = c.on_job_done(promoted[0].id, true);
    assert!(promoted.is_empty());
    assert!(c.is_done());
}

#[test]
fn failed_job_does_not_block_completion() {
    // The thumbnail executor fails (unreadable image, say); the reply-link
    // job still runs and the post still reaches its finished state.
    let post = draft("aaaa", "ada", Some("feed"), vec![String::from("broken.png")]);
    let (mut c, to_start) = Completion::new(post, 2);
    assert_eq!(to_start.len(), 2);
    for qt in &to_start {
        let ok = !matches!(qt.task, PostJob::Thumbnails);
        c.on_job_done(qt.id, ok);
    }
    assert!(c.is_done());
    let mut state = State::new();
    let finished = state.complete_post(c, 777);
    assert!(!finished.in_progress);
    assert_eq!(finished.timestamp, 777);
    assert_eq!(finished.id, "aaaa");
}

#[test]
fn post_with_no_jobs_is_done_at_once() {
    let post = draft("aaaa", "ada", None, Vec::new());
    let (c, to_start) = Completion::new(post, 2);
    assert!(to_start.is_empty());
    assert!(c.is_done());
}

#[test]
fn end_to_end_composition() {
    // Start a post with one image attached, register the thumbnail job,
    // finish with non-empty text, run the job, finalize: the post leaves
    // the registry finished, lands in its author's post list, and the
    // latest-posts cache is invalidated.
    let mut state = State::new();
    let t0: u64 = 10_000;
    let meta = Post {
        id: String::from("feed"),
        author_username: String::from("ada"),
        timestamp: t0,
        reply_to: None,
        replies: Vec::new(),
        quotes: Vec::new(),
        in_progress: true,
        images: Vec::new(),
        is_private: false,
    };
    let id = state
        .start(meta, frith::job::get_initial_post_jobs(&None))
        .expect("fresh identifier should start");
    state
        .register_attachment(&id, &String::from("ada"), String::from("shot.png"))
        .expect("author may attach");

    // Something has been cached meanwhile.
    state.cache.store(Vec::new());
    assert!(state.cache.latest_posts.is_some());

    // The author submits non-empty text: the text job is done, the rest is
    // fanned out.
    assert!(!frith::text::is_blank_text("hello world"));
    let mut taken = state.take_for_completion(&id).expect("entry exists");
    taken.jobs_left.remove(PostJob::AddText);
    let (mut c, to_start) = Completion::new(taken, 4);
    assert_eq!(to_start.len(), 1);
    assert!(matches!(to_start[0].task, PostJob::Thumbnails));
    c.on_job_done(to_start[0].id, true);
    assert!(c.is_done());
    let finished = state.complete_post(c, t0 + 5);
    assert!(!finished.in_progress);
    assert_eq!(finished.timestamp, t0 + 5);

    // The storage layer persists the metadata, then the author's list.
    let mut author = frith::blog::User {
        username: String::from("ada"),
        name: String::from("Ada"),
        posts: Vec::new(),
        permissions: frith::blog::Permissions { can_create_invites: true, can_create_posts: true },
        members: Vec::new(),
    };
    author.append_post(finished.id.clone());
    assert_eq!(author.posts, vec![String::from("feed")]);

    // The cache was invalidated by the completion, and the registry no
    // longer knows the identifier.
    assert!(state.cache.latest_posts.is_none());
    assert!(state.take_for_completion(&id).is_err());
}
