//! Rendered markup with deferred code blocks, the code-block grouper, and the
//! final serialisation that splices in highlighted code.

use vstd::prelude::*;

use crate::highlight::{
    block_markup, code_language, is_shell, is_shell_language, language_of, line_markups,
    opt_str_view, opt_view, Highlighter,
};
use crate::text::{escaped, lines_of, push_escaped, views};

verus! {

/// A piece of rendered output, as the contracts see it.
pub enum Seg {
    /// Finished, escaped HTML.
    Html(Seq<char>),
    /// A code block (its language and source) still to be highlighted.
    Code(Option<Seq<char>>, Seq<char>),
}

/// A piece of rendered output.
pub enum Piece {
    /// Finished, escaped HTML.
    Html(String),
    /// A code block still to be highlighted.
    Code { language: Option<String>, text: String },
}

impl View for Piece {
    type V = Seg;

    open spec fn view(&self) -> Seg {
        match self {
            Piece::Html(s) => Seg::Html(s@),
            Piece::Code { language, text } => Seg::Code(opt_view(*language), text@),
        }
    }
}

/// The views of a sequence of pieces.
pub open spec fn seg_view(p: Seq<Piece>) -> Seq<Seg> {
    p.map_values(|x: Piece| x@)
}

/// Rendered output: finished HTML interleaved with code blocks that the
/// highlighter fills in when the document is serialised.
pub struct Markup {
    pub pieces: Vec<Piece>,
}

impl View for Markup {
    type V = Seq<Seg>;

    open spec fn view(&self) -> Seq<Seg> {
        seg_view(self.pieces@)
    }
}

/// A child of an open frame: finished markup, or a code block that waits for
/// its siblings so that adjacent blocks can be grouped.
pub enum RenderNode {
    Markup(Markup),
    CodeBlock { info: Option<String>, text: String },
}

/// A child of an open frame, as the contracts see it.
pub enum NodeV {
    Markup(Seq<Seg>),
    Code(Option<Seq<char>>, Seq<char>),
}

impl View for RenderNode {
    type V = NodeV;

    open spec fn view(&self) -> NodeV {
        match self {
            RenderNode::Markup(m) => NodeV::Markup(m@),
            RenderNode::CodeBlock { info, text } => NodeV::Code(opt_view(*info), text@),
        }
    }
}

/// The views of a sequence of nodes.
pub open spec fn node_view(p: Seq<RenderNode>) -> Seq<NodeV> {
    p.map_values(|x: RenderNode| x@)
}

/// One piece of finished HTML.
pub open spec fn html(s: Seq<char>) -> Seq<Seg> {
    seq![Seg::Html(s)]
}

/// `inner` between an opening and a closing tag.
pub open spec fn wrap(open: Seq<char>, inner: Seq<Seg>, close: Seq<char>) -> Seq<Seg> {
    html(open) + inner + html(close)
}

pub const DIV_CLOSE: &'static str = "</div>";

pub const CODE_BOX_OPEN: &'static str = "<div class=\"mt-3 mb-6 rounded-xl border border-white/10 bg-white/5 shadow-inner relative group\">";

pub const CODE_GROUP_OPEN: &'static str = "<div class=\"mt-3 mb-6 rounded-xl border border-white/10 bg-white/5 shadow-inner overflow-hidden\">";

pub const ENTRY_OPEN: &'static str = "<div class=\"relative group \">";

pub const ENTRY_OPEN_DIVIDED: &'static str = "<div class=\"relative group border-t border-white/10\">";

pub const COPY_BUTTON: &'static str = r#"<button class="code-copy-btn absolute top-3 right-3 text-white/70 hover:text-white border border-white/20 hover:border-white/40 rounded-md p-1.5 transition-colors opacity-0 pointer-events-none group-hover:opacity-100 group-hover:pointer-events-auto" type="button" aria-label="Copy code"><svg xmlns="http://www.w3.org/2000/svg" width="18" height="18" viewBox="0 0 24 24"><g fill="none" stroke="currentColor" stroke-linecap="round" stroke-linejoin="round" stroke-width="2"><path d="M9 5H7a2 2 0 0 0-2 2v12a2 2 0 0 0 2 2h10a2 2 0 0 0 2-2V7a2 2 0 0 0-2-2h-2"/><path d="M9 5a2 2 0 0 1 2-2h2a2 2 0 0 1 2 2a2 2 0 0 1-2 2h-2a2 2 0 0 1-2-2"/></g></svg></button>"#;

pub const PRE_CODE_OPEN: &'static str = "<pre class=\"overflow-x-auto p-4 text-[0.95rem] leading-6 sm:text-sm\"><code class=\"block font-mono text-gray-100 ";

pub const LANGUAGE_PREFIX: &'static str = "language-";

pub const ATTR_END: &'static str = "\">";

pub const CODE_PRE_CLOSE: &'static str = "</code></pre>";

/// The class naming a block's language, if it has one.
pub open spec fn language_class(lang: Option<Seq<char>>) -> Seq<char> {
    match lang {
        Some(l) => LANGUAGE_PREFIX@ + escaped(l),
        None => Seq::empty(),
    }
}

/// The copy button and the `pre`/`code` pair holding one block; the code
/// element carries the language class so that client code can find it.
pub open spec fn code_inner(info: Option<Seq<char>>, text: Seq<char>) -> Seq<Seg> {
    html(COPY_BUTTON@ + PRE_CODE_OPEN@ + language_class(language_of(info)) + ATTR_END@) + seq![
        Seg::Code(language_of(info), text),
    ] + html(CODE_PRE_CLOSE@)
}

/// A standalone code block.
pub open spec fn single_block(info: Option<Seq<char>>, text: Seq<char>) -> Seq<Seg> {
    wrap(CODE_BOX_OPEN@, code_inner(info, text), DIV_CLOSE@)
}

/// One block inside a group; every block but the first has a divider.
pub open spec fn group_entry(info: Option<Seq<char>>, text: Seq<char>, divided: bool) -> Seq<Seg> {
    wrap(if divided { ENTRY_OPEN_DIVIDED@ } else { ENTRY_OPEN@ }, code_inner(info, text), DIV_CLOSE@)
}

/// The end of the run of adjacent code blocks that starts at `i`.
pub open spec fn run_end(nodes: Seq<NodeV>, i: int) -> int
    decreases nodes.len() - i,
{
    if 0 <= i < nodes.len() && nodes[i] is Code {
        run_end(nodes, i + 1)
    } else {
        i
    }
}

/// The entries of the group made of `nodes[start..j]`.
pub open spec fn group_entries(nodes: Seq<NodeV>, start: int, j: int) -> Seq<Seg>
    decreases j - start,
{
    if j <= start {
        Seq::empty()
    } else {
        group_entries(nodes, start, j - 1) + match nodes[j - 1] {
            NodeV::Code(info, text) => group_entry(info, text, j - 1 > start),
            NodeV::Markup(m) => m,
        }
    }
}

/// The run `nodes[i..j]` of code blocks: a standalone block when it holds one,
/// else one container holding every block in order.
pub open spec fn code_run(nodes: Seq<NodeV>, i: int, j: int) -> Seq<Seg> {
    if j == i + 1 {
        match nodes[i] {
            NodeV::Code(info, text) => single_block(info, text),
            NodeV::Markup(m) => m,
        }
    } else {
        wrap(CODE_GROUP_OPEN@, group_entries(nodes, i, j), DIV_CLOSE@)
    }
}

/// A run of code blocks stays inside the sequence, holds only code blocks,
/// and is maximal.
pub proof fn lemma_run_end_bounds(nodes: Seq<NodeV>, i: int)
    requires
        0 <= i <= nodes.len(),
    ensures
        i <= run_end(nodes, i) <= nodes.len(),
        forall|k: int| i <= k < run_end(nodes, i) ==> nodes[k] is Code,
        run_end(nodes, i) < nodes.len() ==> !(nodes[run_end(nodes, i)] is Code),
    decreases nodes.len() - i,
{
    if i < nodes.len() && nodes[i] is Code {
        lemma_run_end_bounds(nodes, i + 1);
    }
}

/// The markup of `nodes[i..]`, with each maximal run of adjacent code blocks
/// grouped.
pub open spec fn nodes_from(nodes: Seq<NodeV>, i: int) -> Seq<Seg>
    decreases nodes.len() - i,
    via nodes_from_decreases
{
    if i < 0 || i >= nodes.len() {
        Seq::empty()
    } else {
        match nodes[i] {
            NodeV::Markup(m) => m + nodes_from(nodes, i + 1),
            NodeV::Code(_, _) => {
                let j = run_end(nodes, i);
                code_run(nodes, i, j) + nodes_from(nodes, j)
            },
        }
    }
}

#[via_fn]
proof fn nodes_from_decreases(nodes: Seq<NodeV>, i: int) {
    if 0 <= i < nodes.len() {
        lemma_run_end_bounds(nodes, i + 1);
    }
}

/// The markup of a frame's children, with adjacent code blocks grouped.
pub open spec fn nodes_markup(nodes: Seq<NodeV>) -> Seq<Seg> {
    nodes_from(nodes, 0)
}

pub(crate) fn push_piece(out: &mut Vec<Piece>, p: Piece)
    ensures
        seg_view(final(out)@) == seg_view(old(out)@) + seq![p@],
{
    let ghost before = out@;
    out.push(p);
    assert(seg_view(out@) =~= seg_view(before) + seq![p@]);
}

fn push_html(out: &mut Vec<Piece>, s: &str)
    ensures
        seg_view(final(out)@) == seg_view(old(out)@) + html(s@),
{
    push_piece(out, Piece::Html(String::from_str(s)));
}

pub(crate) fn clone_opt(o: &Option<String>) -> (r: Option<String>)
    ensures
        opt_view(r) == opt_view(*o),
{
    match o {
        Some(s) => Some(s.clone()),
        None => None,
    }
}

fn clone_piece(p: &Piece) -> (r: Piece)
    ensures
        r@ == p@,
{
    match p {
        Piece::Html(s) => Piece::Html(s.clone()),
        Piece::Code { language, text } => Piece::Code { language: clone_opt(language), text: text.clone() },
    }
}

/// Appends a copy of `m` to `out`.
pub fn push_markup(out: &mut Vec<Piece>, m: &Markup)
    ensures
        seg_view(final(out)@) == seg_view(old(out)@) + m@,
{
    let mut i: usize = 0;
    while i < m.pieces.len()
        invariant
            i <= m.pieces.len(),
            seg_view(out@) == seg_view(old(out)@) + seg_view(m.pieces@).take(i as int),
        decreases m.pieces.len() - i,
    {
        push_piece(out, clone_piece(&m.pieces[i]));
        assert(seg_view(m.pieces@).take(i + 1) =~= seg_view(m.pieces@).take(i as int) + seq![
            m.pieces@[i as int]@,
        ]);
        i += 1;
    }
    assert(seg_view(m.pieces@).take(m.pieces.len() as int) =~= m@);
}

fn push_code_inner(out: &mut Vec<Piece>, info: &Option<String>, text: &String)
    ensures
        seg_view(final(out)@) == seg_view(old(out)@) + code_inner(opt_view(*info), text@),
{
    let language = code_language(info);
    let mut open = String::from_str(COPY_BUTTON);
    open.append(PRE_CODE_OPEN);
    let lang: Option<String> = match language {
        Some(l) => {
            open.append(LANGUAGE_PREFIX);
            push_escaped(&mut open, l);
            Some(String::from_str(l))
        },
        None => None,
    };
    open.append(ATTR_END);
    assert(open@ == COPY_BUTTON@ + PRE_CODE_OPEN@ + language_class(language_of(opt_view(*info)))
        + ATTR_END@);
    push_piece(out, Piece::Html(open));
    push_piece(out, Piece::Code { language: lang, text: text.clone() });
    push_html(out, CODE_PRE_CLOSE);
    assert(seg_view(out@) =~= seg_view(old(out)@) + code_inner(opt_view(*info), text@));
}

/// Renders one standalone code block.
fn render_code_block(out: &mut Vec<Piece>, info: &Option<String>, text: &String)
    ensures
        seg_view(final(out)@) == seg_view(old(out)@) + single_block(opt_view(*info), text@),
{
    let ghost before = seg_view(out@);
    push_html(out, CODE_BOX_OPEN);
    push_code_inner(out, info, text);
    push_html(out, DIV_CLOSE);
    assert(seg_view(out@) =~= before + single_block(opt_view(*info), text@));
}

/// Renders the run `nodes[start..end]` of adjacent code blocks as one group.
fn render_code_block_group(out: &mut Vec<Piece>, nodes: &Vec<RenderNode>, start: usize, end: usize)
    requires
        start < end <= nodes.len(),
    ensures
        seg_view(final(out)@) == seg_view(old(out)@) + wrap(
            CODE_GROUP_OPEN@,
            group_entries(node_view(nodes@), start as int, end as int),
            DIV_CLOSE@,
        ),
{
    let ghost nv = node_view(nodes@);
    push_html(out, CODE_GROUP_OPEN);
    let mut k: usize = start;
    while k < end
        invariant
            start <= k <= end,
            end <= nodes.len(),
            nv == node_view(nodes@),
            seg_view(out@) == seg_view(old(out)@) + html(CODE_GROUP_OPEN@) + group_entries(
                nv,
                start as int,
                k as int,
            ),
        decreases end - k,
    {
        let ghost before = seg_view(out@);
        match &nodes[k] {
            RenderNode::CodeBlock { info, text } => {
                if k > start {
                    push_html(out, ENTRY_OPEN_DIVIDED);
                } else {
                    push_html(out, ENTRY_OPEN);
                }
                push_code_inner(out, info, text);
                push_html(out, DIV_CLOSE);
                assert(seg_view(out@) =~= before + group_entry(opt_view(*info), text@, k > start));
            },
            RenderNode::Markup(m) => {
                push_markup(out, m);
            },
        }
        assert(group_entries(nv, start as int, k + 1) == group_entries(nv, start as int, k as int)
            + match nv[k as int] {
            NodeV::Code(info, text) => group_entry(info, text, k > start),
            NodeV::Markup(m) => m,
        });
        k += 1;
    }
    push_html(out, DIV_CLOSE);
    assert(seg_view(out@) =~= seg_view(old(out)@) + wrap(
        CODE_GROUP_OPEN@,
        group_entries(nv, start as int, end as int),
        DIV_CLOSE@,
    ));
}

/// The markup of a frame's children: finished markup as it is, each code block
/// alone as a standalone block, and each run of two or more adjacent code
/// blocks as one container.
pub fn render_nodes(nodes: &Vec<RenderNode>) -> (r: Markup)
    ensures
        r@ == nodes_markup(node_view(nodes@)),
{
    let ghost nv = node_view(nodes@);
    let mut out: Vec<Piece> = Vec::new();
    let mut idx: usize = 0;
    assert(seg_view(out@) =~= Seq::<Seg>::empty());
    while idx < nodes.len()
        invariant
            idx <= nodes.len(),
            nv == node_view(nodes@),
            seg_view(out@) + nodes_from(nv, idx as int) == nodes_markup(nv),
        decreases nodes.len() - idx,
    {
        let ghost before = seg_view(out@);
        match &nodes[idx] {
            RenderNode::Markup(m) => {
                push_markup(&mut out, m);
                assert(seg_view(out@) + nodes_from(nv, idx + 1) =~= before + nodes_from(
                    nv,
                    idx as int,
                ));
                idx += 1;
            },
            RenderNode::CodeBlock { info, text } => {
                let start = idx;
                proof {
                    lemma_run_end_bounds(nv, start as int);
                }
                while idx < nodes.len() && matches!(nodes[idx], RenderNode::CodeBlock { .. })
                    invariant
                        start <= idx <= nodes.len(),
                        nv == node_view(nodes@),
                        run_end(nv, start as int) == run_end(nv, idx as int),
                    decreases nodes.len() - idx,
                {
                    idx += 1;
                }
                proof {
                    lemma_run_end_bounds(nv, idx as int);
                }
                assert(run_end(nv, start as int) == idx);
                if idx - start == 1 {
                    render_code_block(&mut out, info, text);
                } else {
                    render_code_block_group(&mut out, nodes, start, idx);
                }
                assert(seg_view(out@) == before + code_run(nv, start as int, idx as int));
                assert(seg_view(out@) + nodes_from(nv, idx as int) =~= before + nodes_from(
                    nv,
                    start as int,
                ));
            },
        }
    }
    assert(seg_view(out@) =~= seg_view(out@) + nodes_from(nv, idx as int));
    Markup { pieces: out }
}

/// The code blocks of `segs`, in order, as (language, source) pairs.
pub open spec fn code_segs(segs: Seq<Seg>) -> Seq<(Option<Seq<char>>, Seq<char>)>
    decreases segs.len(),
{
    if segs.len() == 0 {
        Seq::empty()
    } else {
        match segs.last() {
            Seg::Html(_) => code_segs(segs.drop_last()),
            Seg::Code(lang, text) => code_segs(segs.drop_last()).push((lang, text)),
        }
    }
}

/// The serialised document: the HTML pieces as they are, and in place of the
/// k-th code block the k-th entry of `hs`.
pub open spec fn fill(segs: Seq<Seg>, hs: Seq<Seq<char>>) -> Seq<char>
    decreases segs.len(),
{
    if segs.len() == 0 {
        Seq::empty()
    } else {
        match segs.last() {
            Seg::Html(s) => fill(segs.drop_last(), hs) + s,
            Seg::Code(_, _) => fill(segs.drop_last(), hs.drop_last()) + hs.last(),
        }
    }
}

/// Whether a language asks for the shell transcript layout.
pub open spec fn shell_of(lang: Option<Seq<char>>) -> bool {
    lang matches Some(l) && is_shell_language(l)
}

/// The highlighted markup of a code block: its lines coloured (or escaped),
/// laid out as a transcript for shell languages.
pub open spec fn highlighted(lang: Option<Seq<char>>, text: Seq<char>) -> Seq<char> {
    block_markup(lines_of(text), line_markups(lang, lines_of(text)), shell_of(lang))
}

/// The highlighted markup of each code block of `segs`, in order.
pub open spec fn highlights(segs: Seq<Seg>) -> Seq<Seq<char>> {
    code_segs(segs).map_values(|c: (Option<Seq<char>>, Seq<char>)| highlighted(c.0, c.1))
}

impl Markup {
    /// Serialises the markup, putting the k-th entry of `highlighted` in place
    /// of the k-th code block.
    pub fn to_html_with(&self, highlighted: &Vec<String>) -> (r: String)
        requires
            highlighted.len() == code_segs(self@).len(),
        ensures
            r@ == fill(self@, views(highlighted@)),
    {
        let ghost segs = self@;
        let ghost hs = views(highlighted@);
        let mut out = String::new();
        let mut i: usize = 0;
        let mut c: usize = 0;
        while i < self.pieces.len()
            invariant
                i <= self.pieces.len(),
                segs == self@,
                hs == views(highlighted@),
                highlighted.len() == code_segs(segs).len(),
                c == code_segs(segs.take(i as int)).len(),
                c <= highlighted.len(),
                out@ == fill(segs.take(i as int), hs.take(c as int)),
            decreases self.pieces.len() - i,
        {
            proof {
                assert(segs.take(i + 1).drop_last() =~= segs.take(i as int));
                lemma_code_segs_prefix(segs, i + 1);
            }
            match &self.pieces[i] {
                Piece::Html(s) => {
                    out.append(s.as_str());
                },
                Piece::Code { .. } => {
                    proof {
                        lemma_code_segs_len_mono(segs, i + 1);
                    }
                    out.append(highlighted[c].as_str());
                    assert(hs.take(c + 1).drop_last() =~= hs.take(c as int));
                    c += 1;
                },
            }
            i += 1;
        }
        assert(segs.take(i as int) =~= segs);
        assert(hs.take(c as int) =~= hs);
        out
    }

    /// Serialises the markup, highlighting each code block with `highlighter`.
    pub fn to_html(&self, highlighter: &Highlighter) -> (r: String)
        ensures
            r@ == fill(self@, highlights(self@)),
    {
        let ghost segs = self@;
        let mut out = String::new();
        let mut i: usize = 0;
        while i < self.pieces.len()
            invariant
                i <= self.pieces.len(),
                segs == self@,
                out@ == fill(segs.take(i as int), highlights(segs.take(i as int))),
            decreases self.pieces.len() - i,
        {
            proof {
                assert(segs.take(i + 1).drop_last() =~= segs.take(i as int));
            }
            match &self.pieces[i] {
                Piece::Html(s) => {
                    out.append(s.as_str());
                    assert(code_segs(segs.take(i + 1)) == code_segs(segs.take(i as int)));
                },
                Piece::Code { language, text } => {
                    let (lang, shell) = match language {
                        Some(l) => (Some(l.as_str()), is_shell(l.as_str())),
                        None => (None, false),
                    };
                    let h = highlighter.highlight_code_block(text.as_str(), lang, shell);
                    out.append(h.as_str());
                    proof {
                        let cs = code_segs(segs.take(i + 1));
                        assert(cs == code_segs(segs.take(i as int)).push((opt_view(*language), text@)));
                        assert(opt_str_view(lang) == opt_view(*language));
                        assert(shell == shell_of(opt_view(*language)));
                        assert(highlights(segs.take(i + 1)).drop_last() =~= highlights(
                            segs.take(i as int),
                        ));
                    }
                },
            }
            i += 1;
        }
        assert(segs.take(i as int) =~= segs);
        out
    }
}

proof fn lemma_code_segs_prefix(segs: Seq<Seg>, n: int)
    requires
        0 < n <= segs.len(),
    ensures
        code_segs(segs.take(n)) == match segs[n - 1] {
            Seg::Html(_) => code_segs(segs.take(n - 1)),
            Seg::Code(lang, text) => code_segs(segs.take(n - 1)).push((lang, text)),
        },
{
    assert(segs.take(n).drop_last() =~= segs.take(n - 1));
}

proof fn lemma_code_segs_len_mono(segs: Seq<Seg>, n: int)
    requires
        0 <= n <= segs.len(),
    ensures
        code_segs(segs.take(n)).len() <= code_segs(segs).len(),
    decreases segs.len() - n,
{
    if n == segs.len() {
        assert(segs.take(n) =~= segs);
    } else {
        lemma_code_segs_len_mono(segs, n + 1);
        lemma_code_segs_prefix(segs, n + 1);
    }
}

} // verus!
