//! Pure text rules of the blog: which usernames are acceptable, when a
//! submitted body counts as empty, which readers may see a private post's
//! text, and how links inside a post's rendered text are rewritten.
//!
//! Rendering itself (markdown to HTML) happens outside the library; link
//! rewriting works on the link target alone, as raw bytes, so the caller
//! can hand it any URL it finds in the document tree.

use vstd::prelude::*;
use vstd::string::StrSliceExecFns;

verus! {

use crate::blog::{Post, contains_id};

/// The characters a username may consist of: ASCII letters, digits,
/// hyphen and underscore.
pub open spec fn is_username_char(c: char) -> bool {
    ('a' <= c && c <= 'z') || ('A' <= c && c <= 'Z') || ('0' <= c && c <= '9') || c == '-' || c
        == '_'
}

/// Whether `username` is acceptable at signup: non-empty and made of
/// letters, digits, hyphens and underscores alone.
pub fn is_valid_username(username: &str) -> (r: bool)
    ensures
        r == (username@.len() > 0 && (forall|i: int|
            0 <= i < username@.len() ==> is_username_char(#[trigger] username@[i]))),
{
    let n = username.unicode_len();
    if n == 0 {
        return false;
    }
    let mut i: usize = 0;
    while i < n
        invariant
            n == username@.len(),
            i <= n,
            forall|j: int| 0 <= j < i ==> is_username_char(#[trigger] username@[j]),
        decreases n - i,
    {
        let c = username.get_char(i);
        let ok = ('a' <= c && c <= 'z') || ('A' <= c && c <= 'Z') || ('0' <= c && c <= '9') || c
            == '-' || c == '_';
        if !ok {
            return false;
        }
        i += 1;
    }
    true
}

/// The four ASCII whitespace characters this library blanks on.
pub open spec fn is_space_char(c: char) -> bool {
    c == ' ' || c == '\t' || c == '\n' || c == '\r'
}

/// Whether a submitted body text is blank — empty or ASCII whitespace
/// throughout — and so must be rejected when a post is finished.
pub fn is_blank_text(text: &str) -> (r: bool)
    ensures
        r == (forall|i: int| 0 <= i < text@.len() ==> is_space_char(#[trigger] text@[i])),
{
    let n = text.unicode_len();
    let mut i: usize = 0;
    while i < n
        invariant
            n == text@.len(),
            i <= n,
            forall|j: int| 0 <= j < i ==> is_space_char(#[trigger] text@[j]),
        decreases n - i,
    {
        let c = text.get_char(i);
        if !(c == ' ' || c == '\t' || c == '\n' || c == '\r') {
            return false;
        }
        i += 1;
    }
    true
}

/// Whether a reader may see a post's text: a public post is visible to
/// everyone; a private one only to a named reader on the author's member
/// list.
pub fn can_view_text(meta: &Post, author_members: &Vec<String>, reader: Option<&String>) -> (r:
    bool)
    ensures
        r == (!meta.is_private || (match reader {
            Some(u) => contains_id(author_members@, u@),
            None => false,
        })),
{
    if !meta.is_private {
        true
    } else {
        match reader {
            Some(u) => crate::blog::vec_contains_string(author_members, u),
            None => false,
        }
    }
}

/// The bytes of `"image:"`, the scheme a post's own attachments are
/// referenced under in its text.
pub open spec fn image_link_prefix() -> Seq<u8> {
    seq![('i' as u8), ('m' as u8), ('a' as u8), ('g' as u8), ('e' as u8), (':' as u8)]
}

/// The bytes of the route that serves `image` of the post `post_id`.
pub open spec fn api_image_route(post_id: Seq<u8>, image: Seq<u8>) -> Seq<u8> {
    seq![('/' as u8), ('a' as u8), ('p' as u8), ('i' as u8), ('/' as u8), ('p' as u8), ('o' as u8), ('s' as u8), ('t' as u8), ('/' as u8)] + post_id + seq![
        ('/' as u8),
        ('i' as u8),
        ('m' as u8),
        ('a' as u8),
        ('g' as u8),
        ('e' as u8),
        ('/' as u8),
    ] + image
}

/// The bytes of the route that serves the page of `username`.
pub open spec fn user_route(username: Seq<u8>) -> Seq<u8> {
    seq![('/' as u8), ('u' as u8), ('s' as u8), ('e' as u8), ('r' as u8), ('/' as u8)] + username
}

/// What a link target inside the text of post `post_id` is rewritten to: an
/// `image:` target to the post's own image route, an `@` target to that
/// user's page, anything else kept as it is.
pub open spec fn rewritten_link(url: Seq<u8>, post_id: Seq<u8>) -> Seq<u8> {
    if url.len() >= 6 && url.take(6) == image_link_prefix() {
        api_image_route(post_id, url.skip(6))
    } else if url.len() >= 1 && url[0] == ('@' as u8) {
        user_route(url.skip(1))
    } else {
        url
    }
}

/// Appends the whole of `src` to `dst`.
fn push_all(dst: &mut Vec<u8>, src: &Vec<u8>)
    ensures
        final(dst)@ == old(dst)@ + src@,
{
    let mut i: usize = 0;
    let n = src.len();
    while i < n
        invariant
            n == src@.len(),
            i <= n,
            dst@ == old(dst)@ + src@.take(i as int),
        decreases n - i,
    {
        dst.push(src[i]);
        proof {
            assert(dst@ =~= old(dst)@ + src@.take(i + 1));
        }
        i += 1;
    }
    proof {
        assert(dst@ =~= old(dst)@ + src@);
    }
}

/// Rewrites one link target found in the text of post `post_id`, as
/// `rewritten_link` says. The caller walks the rendered document and hands
/// each link's raw bytes through.
pub fn process_link(url: &Vec<u8>, post_id: &Vec<u8>) -> (r: Vec<u8>)
    ensures
        r@ == rewritten_link(url@, post_id@),
{
    if url.len() >= 6 && url[0] == ('i' as u8) && url[1] == ('m' as u8) && url[2] == ('a' as u8) && url[3] == ('g' as u8)
        && url[4] == ('e' as u8) && url[5] == (':' as u8) {
        proof {
            assert(url@.take(6) =~= image_link_prefix());
        }
        let mut r: Vec<u8> = Vec::new();
        r.push(('/' as u8));
        r.push(('a' as u8));
        r.push(('p' as u8));
        r.push(('i' as u8));
        r.push(('/' as u8));
        r.push(('p' as u8));
        r.push(('o' as u8));
        r.push(('s' as u8));
        r.push(('t' as u8));
        r.push(('/' as u8));
        push_all(&mut r, post_id);
        r.push(('/' as u8));
        r.push(('i' as u8));
        r.push(('m' as u8));
        r.push(('a' as u8));
        r.push(('g' as u8));
        r.push(('e' as u8));
        r.push(('/' as u8));
        let mut i: usize = 6;
        let n = url.len();
        while i < n
            invariant
                6 <= i <= n,
                n == url@.len(),
                r@ == seq![('/' as u8), ('a' as u8), ('p' as u8), ('i' as u8), ('/' as u8), ('p' as u8), ('o' as u8), ('s' as u8), ('t' as u8), ('/' as u8)] + post_id@
                    + seq![('/' as u8), ('i' as u8), ('m' as u8), ('a' as u8), ('g' as u8), ('e' as u8), ('/' as u8)] + url@.subrange(6, i as int),
            decreases n - i,
        {
            r.push(url[i]);
            proof {
                assert(r@ =~= seq![('/' as u8), ('a' as u8), ('p' as u8), ('i' as u8), ('/' as u8), ('p' as u8), ('o' as u8), ('s' as u8), ('t' as u8), ('/' as u8)]
                    + post_id@ + seq![('/' as u8), ('i' as u8), ('m' as u8), ('a' as u8), ('g' as u8), ('e' as u8), ('/' as u8)] + url@.subrange(
                    6,
                    i + 1,
                ));
            }
            i += 1;
        }
        proof {
            assert(url@.subrange(6, n as int) =~= url@.skip(6));
            assert(r@ =~= api_image_route(post_id@, url@.skip(6)));
        }
        r
    } else if url.len() >= 1 && url[0] == ('@' as u8) {
        proof {
            assert(!(url@.len() >= 6 && url@.take(6) == image_link_prefix())) by {
                if url@.len() >= 6 && url@.take(6) == image_link_prefix() {
                    assert(url@.take(6)[0] == ('i' as u8));
                }
            }
        }
        let mut r: Vec<u8> = Vec::new();
        r.push(('/' as u8));
        r.push(('u' as u8));
        r.push(('s' as u8));
        r.push(('e' as u8));
        r.push(('r' as u8));
        r.push(('/' as u8));
        let mut i: usize = 1;
        let n = url.len();
        while i < n
            invariant
                1 <= i <= n,
                n == url@.len(),
                r@ == seq![('/' as u8), ('u' as u8), ('s' as u8), ('e' as u8), ('r' as u8), ('/' as u8)] + url@.subrange(1, i as int),
            decreases n - i,
        {
            r.push(url[i]);
            proof {
                assert(r@ =~= seq![('/' as u8), ('u' as u8), ('s' as u8), ('e' as u8), ('r' as u8), ('/' as u8)] + url@.subrange(1, i + 1));
            }
            i += 1;
        }
        proof {
            assert(url@.subrange(1, n as int) =~= url@.skip(1));
            assert(r@ =~= user_route(url@.skip(1)));
        }
        r
    } else {
        proof {
            assert(!(url@.len() >= 6 && url@.take(6) == image_link_prefix())) by {
                if url@.len() >= 6 && url@.take(6) == image_link_prefix() {
                    assert(url@.take(6)[0] == ('i' as u8));
                    assert(url@.take(6)[1] == ('m' as u8));
                    assert(url@.take(6)[2] == ('a' as u8));
                    assert(url@.take(6)[3] == ('g' as u8));
                    assert(url@.take(6)[4] == ('e' as u8));
                    assert(url@.take(6)[5] == (':' as u8));
                }
            }
        }
        let mut r: Vec<u8> = Vec::new();
        push_all(&mut r, url);
        proof {
            assert(r@ =~= url@);
        }
        r
    }
}

} // verus!
