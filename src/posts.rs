//! The published documents of a site, newest first, rendered once up front.

use vstd::prelude::*;

use crate::highlight::Highlighter;
use crate::image::RenderError;
use crate::meta::{date_key, Post};
use crate::render::{render_post, rendered, renders_to};
use crate::markup::Seg;
use crate::text::{chars_of, equals_str};

verus! {

broadcast use vstd::seq_lib::group_to_multiset_ensures;

/// The documents that are not drafts, in their given order.
pub open spec fn published(posts: Seq<Post>) -> Seq<Post>
    decreases posts.len(),
{
    if posts.len() == 0 {
        Seq::empty()
    } else if posts.last().meta.draft {
        published(posts.drop_last())
    } else {
        published(posts.drop_last()).push(posts.last())
    }
}

/// Whether no document is followed by one published later.
pub open spec fn newest_first(posts: Seq<Post>) -> bool {
    forall|i: int, j: int|
        0 <= i < j < posts.len() ==> date_key(#[trigger] posts[j].meta.published) <= date_key(
            #[trigger] posts[i].meta.published,
        )
}

/// The documents that are not drafts, newest first.
pub fn published_newest_first(posts: Vec<Post>) -> (r: Vec<Post>)
    ensures
        r@.to_multiset() == published(posts@).to_multiset(),
        newest_first(r@),
{
    let ghost orig = posts@;
    let mut rest = posts;
    let mut out: Vec<Post> = Vec::new();
    assert(orig.take(0) =~= Seq::<Post>::empty());
    assert(orig.skip(0) =~= orig);
    while rest.len() > 0
        invariant
            rest.len() <= orig.len(),
            rest@ == orig.skip(orig.len() - rest.len()),
            out@.to_multiset() == published(orig.take(orig.len() - rest.len())).to_multiset(),
            newest_first(out@),
        decreases rest.len(),
    {
        let ghost i = orig.len() - rest.len();
        let p = rest.remove(0);
        assert(p == orig[i]);
        assert(rest@ =~= orig.skip(i + 1));
        assert(orig.take(i + 1).drop_last() =~= orig.take(i));
        assert(orig.take(i + 1).last() == p);
        if !p.meta.draft {
            let mut k: usize = 0;
            while k < out.len() && !out[k].meta.published.is_before(&p.meta.published)
                invariant
                    k <= out.len(),
                    forall|m: int| 0 <= m < k ==> date_key(p.meta.published) <= date_key(
                        #[trigger] out@[m].meta.published,
                    ),
                decreases out.len() - k,
            {
                k += 1;
            }
            let ghost before = out@;
            out.insert(k, p);
            assert(out@ == before.insert(k as int, orig[i]));
            assert forall|a: int, b: int| 0 <= a < b < out@.len() implies date_key(
                #[trigger] out@[b].meta.published,
            ) <= date_key(#[trigger] out@[a].meta.published) by {
                if b < k {
                } else if b == k {
                } else if a < k {
                    assert(date_key(before[b - 1].meta.published) <= date_key(before[k as int].meta.published));
                } else if a == k {
                    assert(date_key(before[b - 1].meta.published) <= date_key(before[k as int].meta.published));
                } else {
                }
            }
        }
    }
    assert(orig.take(orig.len() as int) =~= orig);
    out
}

/// Renders each document, in order; fails with the error of the first one
/// that cannot be rendered.
pub fn pre_render_posts(posts: &Vec<Post>, highlighter: &Highlighter) -> (r: Result<
    Vec<String>,
    RenderError,
>)
    ensures
        r is Ok <==> forall|i: int| 0 <= i < posts.len() ==> #[trigger] rendered(
            posts@[i].events@,
            posts@[i].id@,
        ) is Ok,
        r matches Ok(pages) ==> pages.len() == posts.len() && forall|i: int|
            0 <= i < posts.len() ==> renders_to(
                posts@[i].events@,
                posts@[i].id@,
                #[trigger] pages@[i]@,
            ),
        r matches Err(RenderError::MissingImageExtension(d)) ==> exists|i: int|
            0 <= i < posts.len() && rendered(posts@[i].events@, posts@[i].id@) == Err::<
                Seq<Seg>,
                Seq<char>,
            >(d@),
{
    let mut pages: Vec<String> = Vec::new();
    let mut i: usize = 0;
    while i < posts.len()
        invariant
            i <= posts.len(),
            pages.len() == i,
            forall|k: int| 0 <= k < i ==> #[trigger] rendered(posts@[k].events@, posts@[k].id@) is Ok,
            forall|k: int|
                0 <= k < i ==> renders_to(posts@[k].events@, posts@[k].id@, #[trigger] pages@[k]@),
        decreases posts.len() - i,
    {
        match render_post(&posts[i], highlighter) {
            Ok(page) => {
                pages.push(page);
            },
            Err(e) => {
                return Err(e);
            },
        }
        i += 1;
    }
    Ok(pages)
}

/// The published documents of a site, newest first, each with its rendered
/// page.
pub struct PostState {
    posts: Vec<Post>,
    pages: Vec<String>,
}

impl PostState {
    /// The documents held, in order.
    pub closed spec fn post_list(&self) -> Seq<Post> {
        self.posts@
    }

    /// The rendered page of each document held.
    pub closed spec fn page_list(&self) -> Seq<String> {
        self.pages@
    }

    /// One page per document.
    pub closed spec fn wf(&self) -> bool {
        self.posts.len() == self.pages.len()
    }

    /// Keeps the documents that are not drafts, newest first, and renders each.
    pub fn new(posts: Vec<Post>, highlighter: &Highlighter) -> (r: Result<Self, RenderError>)
        ensures
            r is Ok <==> forall|p: Post| #[trigger]
                published(posts@).contains(p) ==> rendered(p.events@, p.id@) is Ok,
            r matches Ok(st) ==> st.wf() && st.post_list().to_multiset() == published(
                posts@,
            ).to_multiset() && newest_first(st.post_list()) && st.page_list().len()
                == st.post_list().len() && forall|i: int|
                0 <= i < st.post_list().len() ==> renders_to(
                    #[trigger] st.post_list()[i].events@,
                    st.post_list()[i].id@,
                    st.page_list()[i]@,
                ),
    {
        let ghost given = posts@;
        let posts = published_newest_first(posts);
        proof {
            assert forall|p: Post| published(given).contains(p) <==> posts@.contains(p) by {
                assert(published(given).to_multiset().count(p) == posts@.to_multiset().count(p));
            }
            assert((forall|i: int| 0 <= i < posts@.len() ==> #[trigger] rendered(
                posts@[i].events@,
                posts@[i].id@,
            ) is Ok) <==> (forall|p: Post| #[trigger]
                published(given).contains(p) ==> rendered(p.events@, p.id@) is Ok)) by {
                if forall|i: int| 0 <= i < posts@.len() ==> #[trigger] rendered(
                    posts@[i].events@,
                    posts@[i].id@,
                ) is Ok {
                    assert forall|p: Post| #[trigger]
                        published(given).contains(p) implies rendered(p.events@, p.id@) is Ok by {
                        assert(posts@.contains(p));
                    }
                }
                if forall|p: Post| #[trigger]
                    published(given).contains(p) ==> rendered(p.events@, p.id@) is Ok {
                    assert forall|i: int| 0 <= i < posts@.len() implies #[trigger] rendered(
                        posts@[i].events@,
                        posts@[i].id@,
                    ) is Ok by {
                        assert(posts@.contains(posts@[i]));
                    }
                }
            }
        }
        let pages = pre_render_posts(&posts, highlighter)?;
        Ok(PostState { posts, pages })
    }

    /// The documents, newest first.
    pub fn posts(&self) -> (r: &Vec<Post>)
        ensures
            r@ == self.post_list(),
    {
        &self.posts
    }

    /// The rendered page of the first document with identifier `id`.
    pub fn page(&self, id: &str) -> (r: Option<&String>)
        requires
            self.wf(),
        ensures
            r is None <==> forall|i: int|
                0 <= i < self.post_list().len() ==> #[trigger] self.post_list()[i].id@ != id@,
            r matches Some(p) ==> exists|i: int|
                0 <= i < self.post_list().len() && self.post_list()[i].id@ == id@ && *p
                    == self.page_list()[i],
    {
        let mut i: usize = 0;
        while i < self.posts.len()
            invariant
                i <= self.posts.len(),
                self.pages.len() == self.posts.len(),
                forall|k: int| 0 <= k < i ==> #[trigger] self.posts@[k].id@ != id@,
            decreases self.posts.len() - i,
        {
            let cs = chars_of(self.posts[i].id.as_str());
            if equals_str(&cs, id) {
                assert(self.post_list()[i as int].id@ == id@);
                let page = &self.pages[i];
                assert(*page == self.page_list()[i as int]);
                return Some(page);
            }
            i += 1;
        }
        None
    }
}

} // verus!
