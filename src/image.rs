//! Image path resolution: local image references get stable, numbered paths.

use vstd::prelude::*;

use crate::text::{chars_of, contains, decimal, has_infix, has_prefix, push_decimal, starts_with, string_of};

verus! {

/// Why a document could not be rendered.
#[derive(Debug)]
pub enum RenderError {
    /// A local image reference (the destination given) has no file extension.
    MissingImageExtension(String),
}

/// Whether an image destination refers to a file that ships with the document,
/// as opposed to a site-absolute path, a URL or inline data.
pub open spec fn is_local(dest: Seq<char>) -> bool {
    &&& !starts_with(dest, "/"@)
    &&& !starts_with(dest, "http://"@)
    &&& !starts_with(dest, "https://"@)
    &&& !starts_with(dest, "mailto:"@)
    &&& !starts_with(dest, "data:"@)
    &&& !contains(dest, "://"@)
}

/// Index of the last `c` in `s`, or -1.
pub open spec fn last_index_of(s: Seq<char>, c: char) -> int
    decreases s.len(),
{
    if s.len() == 0 {
        -1
    } else if s.last() == c {
        s.len() - 1
    } else {
        last_index_of(s.drop_last(), c)
    }
}

/// The final path segment of `dest`.
pub open spec fn file_name(dest: Seq<char>) -> Seq<char> {
    dest.skip(last_index_of(dest, '/') + 1)
}

/// The file extension of `dest`: the text after the last `.` of its final
/// segment. A segment without a dot, one whose only dot leads it (`.hidden`),
/// and `..` have none.
pub open spec fn extension(dest: Seq<char>) -> Option<Seq<char>> {
    let f = file_name(dest);
    let d = last_index_of(f, '.');
    if d <= 0 || f == ".."@ {
        None
    } else {
        Some(f.skip(d + 1))
    }
}

/// The served path of the `n`-th local image of document `doc_id`.
pub open spec fn image_path(doc_id: Seq<char>, n: nat, ext: Seq<char>) -> Seq<char> {
    "/img/"@ + doc_id + "/"@ + decimal(n) + "."@ + ext
}

/// Whether an image destination is local to the document.
pub fn is_local_image(dest_url: &str) -> (r: bool)
    ensures
        r == is_local(dest_url@),
{
    let cs = chars_of(dest_url);
    !(has_prefix(&cs, "/") || has_prefix(&cs, "http://") || has_prefix(&cs, "https://")
        || has_prefix(&cs, "mailto:") || has_prefix(&cs, "data:") || has_infix(&cs, "://"))
}

fn last_index(cs: &Vec<char>, c: char) -> (r: Option<usize>)
    ensures
        r is None ==> last_index_of(cs@, c) == -1,
        r matches Some(i) ==> last_index_of(cs@, c) == i && i < cs.len(),
{
    let mut i: usize = cs.len();
    assert(cs@.take(i as int) == cs@);
    while i > 0
        invariant
            i <= cs.len(),
            last_index_of(cs@, c) == last_index_of(cs@.take(i as int), c),
        decreases i,
    {
        assert(cs@.take(i as int).drop_last() == cs@.take(i - 1));
        if cs[i - 1] == c {
            return Some(i - 1);
        }
        i -= 1;
    }
    None
}

fn skip_chars(cs: &Vec<char>, from: usize) -> (r: Vec<char>)
    requires
        from <= cs.len(),
    ensures
        r@ == cs@.skip(from as int),
{
    let mut out: Vec<char> = Vec::new();
    let mut i: usize = from;
    while i < cs.len()
        invariant
            from <= i <= cs.len(),
            out@ == cs@.subrange(from as int, i as int),
        decreases cs.len() - i,
    {
        out.push(cs[i]);
        i += 1;
    }
    out
}

/// The file extension of an image destination, if it has one.
pub fn image_extension(dest_url: &str) -> (r: Option<String>)
    ensures
        r is None <==> extension(dest_url@) is None,
        r matches Some(e) ==> extension(dest_url@) == Some(e@),
{
    let cs = chars_of(dest_url);
    let start = match last_index(&cs, '/') {
        Some(i) => i + 1,
        None => 0,
    };
    let f = skip_chars(&cs, start);
    assert(f@ == file_name(dest_url@));
    let is_dotdot = f.len() == 2 && f[0] == '.' && f[1] == '.';
    proof {
        reveal_strlit("..");
        if f@ == ".."@ {
            assert(f@[0] == '.' && f@[1] == '.');
        }
        if is_dotdot {
            assert(f@ == ".."@);
        }
    }
    match last_index(&f, '.') {
        Some(d) => {
            if d == 0 || is_dotdot {
                None
            } else {
                Some(string_of(&skip_chars(&f, d + 1)))
            }
        },
        None => None,
    }
}

/// Where an image destination is served from: remote and site-absolute
/// references are kept as they are; the `n`-th local one (counting with
/// `image_index`) becomes `/img/{post_id}/{n}.{extension}`. A local one without
/// an extension is an error, and leaves the counter as it was.
pub fn resolve_image_src(dest_url: &str, post_id: &str, image_index: &mut usize) -> (r: Result<
    String,
    RenderError,
>)
    requires
        *old(image_index) < usize::MAX,
    ensures
        !is_local(dest_url@) ==> *final(image_index) == *old(image_index) && (r matches Ok(s)
            && s@ == dest_url@),
        is_local(dest_url@) && extension(dest_url@) is None ==> *final(image_index) == *old(
            image_index,
        ) && (r matches Err(RenderError::MissingImageExtension(d)) && d@ == dest_url@),
        is_local(dest_url@) && extension(dest_url@) is Some ==> *final(image_index) == *old(
            image_index,
        ) + 1 && (r matches Ok(s) && s@ == image_path(
            post_id@,
            *final(image_index) as nat,
            extension(dest_url@).unwrap(),
        )),
{
    if !is_local_image(dest_url) {
        return Ok(String::from_str(dest_url));
    }
    match image_extension(dest_url) {
        None => Err(RenderError::MissingImageExtension(String::from_str(dest_url))),
        Some(ext) => {
            *image_index = *image_index + 1;
            let mut out = String::from_str("/img/");
            out.append(post_id);
            out.append("/");
            push_decimal(&mut out, *image_index as u64);
            out.append(".");
            out.append(ext.as_str());
            Ok(out)
        },
    }
}

} // verus!
