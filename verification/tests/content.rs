use frith::blog::{get_random_hex_string, Post};
use frith::text::{can_view_text, is_blank_text, is_valid_username, process_link};

fn meta(private: bool) -> Post {
    Post {
        id: String::from("aaaa"),
        author_username: String::from("ada"),
        timestamp: 0,
        reply_to: None,
        replies: Vec::new(),
        quotes: Vec::new(),
        in_progress: false,
        images: Vec::new(),
        is_private: private,
    }
}

#[test]
fn username_rules() {
    assert!(is_valid_username("ada"));
    assert!(is_valid_username("Ada-Lovelace_42"));
    assert!(!is_valid_username(""));
    assert!(!is_valid_username("ada lovelace"));
    assert!(!is_valid_username("ada!"));
    assert!(!is_valid_username("àda"));
}

#[test]
fn blank_text_rules() {
    assert!(is_blank_text(""));
    assert!(is_blank_text(" \t\r\n  "));
    assert!(!is_blank_text("  x  "));
    assert!(!is_blank_text("hello"));
}

#[test]
fn private_posts_are_member_only() {
    let public = meta(false);
    let private = meta(true);
    let members = vec![String::from("friend")];
    let friend = String::from("friend");
    let stranger = String::from("stranger");
    assert!(can_view_text(&public, &members, None));
    assert!(can_view_text(&public, &members, Some(&stranger)));
    assert!(!can_view_text(&private, &members, None));
    assert!(!can_view_text(&private, &members, Some(&stranger)));
    assert!(can_view_text(&private, &members, Some(&friend)));
}

#[test]
fn image_links_are_routed_to_the_post() {
    let url = Vec::from("image:shot.png".as_bytes());
    let post_id = Vec::from("aaaa".as_bytes());
    let out = process_link(&url, &post_id);
    assert_eq!(out, Vec::from("/api/post/aaaa/image/shot.png".as_bytes()));
}

#[test]
fn mention_links_are_routed_to_the_user() {
    let url = Vec::from("@ada".as_bytes());
    let post_id = Vec::from("aaaa".as_bytes());
    let out = process_link(&url, &post_id);
    assert_eq!(out, Vec::from("/user/ada".as_bytes()));
}

#[test]
fn other_links_are_untouched() {
    let post_id = Vec::from("aaaa".as_bytes());
    for target in ["https://example.net/a", "imag:close", "", "/local"] {
        let url = Vec::from(target.as_bytes());
        assert_eq!(process_link(&url, &post_id), Vec::from(target.as_bytes()));
    }
}

#[test]
fn random_hex_strings_have_the_right_shape() {
    let a = get_random_hex_string::<16>();
    assert_eq!(a.len(), 32);
    assert!(a.chars().all(|c| c.is_ascii_hexdigit() && !c.is_ascii_uppercase()));
    let b = get_random_hex_string::<16>();
    // Two draws agreeing would mean 128 bits of entropy collided.
    assert_ne!(a, b);
}
