use frith::blog::{Media, Post};
use frith::job::{
    add_reply, applicable_jobs, create_thumb, create_thumb_static, get_initial_post_jobs, JobSet,
    PostJob,
};

fn sample_post(reply_to: Option<&str>) -> Post {
    Post {
        id: String::from("0a0a"),
        author_username: String::from("ada"),
        timestamp: 1000,
        reply_to: reply_to.map(String::from),
        replies: Vec::new(),
        quotes: Vec::new(),
        in_progress: true,
        images: Vec::new(),
        is_private: false,
    }
}

#[test]
fn applicable_jobs_for_image_reply_post() {
    // A draft with one registered image and a reply target owes exactly the
    // thumbnail and reply-link jobs, not the text job.
    let meta = sample_post(Some("feed"));
    let media = Media { images: vec![String::from("photo.png")], videos: Vec::new() };
    let jobs = applicable_jobs(&meta, &media);
    assert!(jobs.thumbnails);
    assert!(jobs.reply_parent);
    assert!(!jobs.add_text);
    assert!(jobs.contains(PostJob::Thumbnails));
    assert!(jobs.contains(PostJob::ReplyParent));
    assert!(!jobs.contains(PostJob::AddText));
}

#[test]
fn applicable_jobs_for_bare_post() {
    let meta = sample_post(None);
    let media = Media { images: Vec::new(), videos: Vec::new() };
    let jobs = applicable_jobs(&meta, &media);
    assert_eq!(jobs, JobSet { add_text: false, thumbnails: false, reply_parent: false });
}

#[test]
fn initial_jobs_always_include_text() {
    let alone = get_initial_post_jobs(&None);
    assert_eq!(alone, JobSet { add_text: true, thumbnails: false, reply_parent: false });
    let reply = get_initial_post_jobs(&Some(String::from("feed")));
    assert_eq!(reply, JobSet { add_text: true, thumbnails: false, reply_parent: true });
}

#[test]
fn catalog_job_sets() {
    let possible = PostJob::all_possible_processing_jobs();
    assert_eq!(possible, JobSet { add_text: false, thumbnails: true, reply_parent: true });
    let processing = PostJob::all_processing_jobs();
    assert_eq!(processing, JobSet { add_text: false, thumbnails: true, reply_parent: false });
}

#[test]
fn job_set_operations() {
    let mut s = JobSet::empty();
    assert!(s.is_empty());
    s.insert(PostJob::Thumbnails);
    assert!(!s.is_empty());
    assert!(s.contains(PostJob::Thumbnails));
    s.insert(PostJob::Thumbnails);
    assert_eq!(s.to_vec(), vec![PostJob::Thumbnails]);
    s.insert(PostJob::AddText);
    assert_eq!(s.to_vec(), vec![PostJob::AddText, PostJob::Thumbnails]);
    s.remove(PostJob::AddText);
    s.remove(PostJob::Thumbnails);
    assert!(s.is_empty());
}

#[test]
fn thumbnail_dimensions() {
    // A small image is kept as it is; a large one fills the square.
    assert_eq!(create_thumb_static(100, 80, 128), (100, 80));
    assert_eq!(create_thumb_static(100, 80, 512), (100, 80));
    assert_eq!(create_thumb_static(1920, 1080, 128), (128, 128));
    assert_eq!(create_thumb_static(128, 129, 128), (128, 128));
    assert_eq!(create_thumb_static(128, 128, 128), (128, 128));
}

#[test]
fn animated_images_pass_through() {
    assert_eq!(create_thumb(true, 1920, 1080, 128), None);
    assert_eq!(create_thumb(false, 1920, 1080, 128), Some((128, 128)));
    assert_eq!(create_thumb(false, 64, 64, 128), Some((64, 64)));
}

#[test]
fn reply_link_appends_once() {
    // Re-running the reply executor must not duplicate the child entry.
    let mut parent = sample_post(None);
    let child = String::from("beef");
    add_reply(&mut parent, &child);
    assert_eq!(parent.replies, vec![String::from("beef")]);
    add_reply(&mut parent, &child);
    assert_eq!(parent.replies, vec![String::from("beef")]);
    let other = String::from("cafe");
    add_reply(&mut parent, &other);
    assert_eq!(parent.replies, vec![String::from("beef"), String::from("cafe")]);
}
