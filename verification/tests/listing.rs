use frith::blog::{Post, User, Permissions};
use frith::latest::{insert_latest, pick_longer};
use frith::state::Cache;

fn post_at(id: &str, timestamp: u64) -> Post {
    Post {
        id: String::from(id),
        author_username: String::from("ada"),
        timestamp,
        reply_to: None,
        replies: Vec::new(),
        quotes: Vec::new(),
        in_progress: false,
        images: Vec::new(),
        is_private: false,
    }
}

fn ids(posts: &[Post]) -> Vec<&str> {
    posts.iter().map(|p| p.id.as_str()).collect()
}

#[test]
fn latest_list_stays_sorted_and_capped() {
    let mut latest: Vec<Post> = Vec::new();
    assert!(insert_latest(&mut latest, post_at("a", 50), 3));
    assert!(insert_latest(&mut latest, post_at("b", 70), 3));
    assert!(insert_latest(&mut latest, post_at("c", 60), 3));
    assert_eq!(ids(&latest), vec!["b", "c", "a"]);
    // A fourth, newest post pushes the oldest off the full list.
    assert!(insert_latest(&mut latest, post_at("d", 80), 3));
    assert_eq!(ids(&latest), vec!["d", "b", "c"]);
    // One older than everything on a full list is not kept.
    assert!(!insert_latest(&mut latest, post_at("e", 10), 3));
    assert_eq!(ids(&latest), vec!["d", "b", "c"]);
}

#[test]
fn longer_thread_wins() {
    let short = vec![post_at("a", 1)];
    let long = vec![post_at("b", 2), post_at("c", 3)];
    let chosen = pick_longer(Some(short.clone()), long.clone());
    assert_eq!(ids(&chosen), vec!["b", "c"]);
    // Ties keep the thread found first.
    let other = vec![post_at("d", 4)];
    let chosen = pick_longer(Some(short), other);
    assert_eq!(ids(&chosen), vec!["a"]);
    let first = pick_longer(None, long);
    assert_eq!(ids(&first), vec!["b", "c"]);
}

#[test]
fn cache_serves_only_fully_covered_regions() {
    let mut cache = Cache::new();
    assert!(cache.lookup(2, 0).is_none());
    cache.store(vec![post_at("a", 5), post_at("b", 4), post_at("c", 3)]);
    let got = cache.lookup(2, 1).expect("region is covered");
    assert_eq!(ids(&got), vec!["b", "c"]);
    assert!(cache.lookup(3, 1).is_none());
    cache.invalidate();
    assert!(cache.lookup(1, 0).is_none());
}

#[test]
fn member_list_updates() {
    let mut user = User {
        username: String::from("ada"),
        name: String::from("Ada"),
        posts: Vec::new(),
        permissions: Permissions { can_create_invites: false, can_create_posts: true },
        members: Vec::new(),
    };
    let friend = String::from("friend");
    user.add_member(&friend);
    user.add_member(&friend);
    assert_eq!(user.members, vec![String::from("friend")]);
    let other = String::from("other");
    user.add_member(&other);
    user.remove_member(&friend);
    assert_eq!(user.members, vec![String::from("other")]);
    user.remove_member(&friend);
    assert_eq!(user.members, vec![String::from("other")]);
}
