//! The frame-stack builder: turns a flat stream of markdown events into
//! nested, escaped markup, numbering heading anchors and image paths on the way.

use vstd::prelude::*;

use crate::highlight::{opt_view, Highlighter};
use crate::image::{extension, image_path, is_local, resolve_image_src, RenderError};
use crate::markup::{
    clone_opt, fill, highlights, html, node_view, nodes_markup, push_markup, push_piece,
    render_nodes, wrap, Markup, NodeV, Piece, RenderNode, Seg, ATTR_END, DIV_CLOSE,
};
use crate::meta::Post;
use crate::slug::{count_in, heading_base, numbered_slug, SlugRegistry};
use crate::text::{chars_of, decimal, escaped, has_prefix, push_decimal, push_escaped, starts_with};

verus! {

/// The kind of a block that a `Start` event opens.
#[derive(Debug)]
pub enum BlockKind {
    Paragraph,
    /// A heading of the given level (1 for the top level).
    Heading(u8),
    BlockQuote,
    /// A code block with its info string (`None` for an indented block).
    CodeBlock(Option<String>),
    /// A list, ordered from the given number, or unordered.
    List(Option<u64>),
    Item,
    Emphasis,
    Strong,
    Strikethrough,
    Link { dest_url: String, title: String },
    Image { dest_url: String, title: String },
    Table,
    TableHead,
    TableRow,
    TableCell,
    /// Any other block: its children are rendered without a wrapper.
    Other,
}

/// One markdown event.
#[derive(Debug)]
pub enum Event {
    Start(BlockKind),
    /// Closes the innermost open block.
    End,
    Text(String),
    /// Inline code.
    Code(String),
    InlineMath(String),
    DisplayMath(String),
    /// Block-level raw HTML, passed through unescaped.
    Html(String),
    /// Inline raw HTML, passed through unescaped.
    InlineHtml(String),
    FootnoteReference(String),
    SoftBreak,
    HardBreak,
    Rule,
    TaskListMarker(bool),
}

/// The kind of an open frame, with what it accumulates.
pub enum FrameKind {
    Root,
    Paragraph,
    Heading(u8),
    BlockQuote,
    /// A code block: its info string and the source text gathered so far.
    CodeBlock { info: Option<String>, text: String },
    List(Option<u64>),
    Item,
    Emphasis,
    Strong,
    Strikethrough,
    Link { dest_url: String, title: String },
    /// An image: where it points, its title, and the alt text gathered so far.
    Image { dest_url: String, title: String, alt: String },
    Table,
    TableHead,
    TableRow,
    TableCell,
}

/// An open block on the stack: its kind, its rendered children, and (for
/// headings) the text gathered for the anchor slug.
pub struct Frame {
    pub kind: FrameKind,
    pub buffer: Vec<RenderNode>,
    pub text: String,
}

/// The kind of a frame, as the contracts see it.
pub enum KindV {
    Root,
    Paragraph,
    Heading(u8),
    BlockQuote,
    CodeBlock(Option<Seq<char>>, Seq<char>),
    List(Option<u64>),
    Item,
    Emphasis,
    Strong,
    Strikethrough,
    Link(Seq<char>, Seq<char>),
    Image(Seq<char>, Seq<char>, Seq<char>),
    Table,
    TableHead,
    TableRow,
    TableCell,
}

/// A frame, as the contracts see it.
pub struct FrameV {
    pub kind: KindV,
    pub buffer: Seq<NodeV>,
    pub text: Seq<char>,
}

impl View for FrameKind {
    type V = KindV;

    open spec fn view(&self) -> KindV {
        match self {
            FrameKind::Root => KindV::Root,
            FrameKind::Paragraph => KindV::Paragraph,
            FrameKind::Heading(l) => KindV::Heading(*l),
            FrameKind::BlockQuote => KindV::BlockQuote,
            FrameKind::CodeBlock { info, text } => KindV::CodeBlock(opt_view(*info), text@),
            FrameKind::List(s) => KindV::List(*s),
            FrameKind::Item => KindV::Item,
            FrameKind::Emphasis => KindV::Emphasis,
            FrameKind::Strong => KindV::Strong,
            FrameKind::Strikethrough => KindV::Strikethrough,
            FrameKind::Link { dest_url, title } => KindV::Link(dest_url@, title@),
            FrameKind::Image { dest_url, title, alt } => KindV::Image(dest_url@, title@, alt@),
            FrameKind::Table => KindV::Table,
            FrameKind::TableHead => KindV::TableHead,
            FrameKind::TableRow => KindV::TableRow,
            FrameKind::TableCell => KindV::TableCell,
        }
    }
}

impl View for Frame {
    type V = FrameV;

    open spec fn view(&self) -> FrameV {
        FrameV { kind: self.kind@, buffer: node_view(self.buffer@), text: self.text@ }
    }
}

/// The views of a stack of frames.
pub open spec fn frame_views(fs: Seq<Frame>) -> Seq<FrameV> {
    fs.map_values(|f: Frame| f@)
}

pub const P_OPEN: &'static str = "<p class=\"text-gray-300 mt-4 first:mt-0\">";

pub const P_CLOSE: &'static str = "</p>";

pub const BLOCKQUOTE_OPEN: &'static str = "<blockquote class=\"text-gray-300\">";

pub const BLOCKQUOTE_CLOSE: &'static str = "</blockquote>";

pub const OL_OPEN: &'static str = "<ol class=\"list-decimal pl-6 space-y-2 text-gray-300 mb-4\" start=\"";

pub const OL_CLOSE: &'static str = "</ol>";

pub const UL_OPEN: &'static str = "<ul class=\"list-disc pl-6 space-y-2 text-gray-300 mb-4\">";

pub const UL_CLOSE: &'static str = "</ul>";

pub const LI_OPEN: &'static str = "<li>";

pub const LI_CLOSE: &'static str = "</li>";

pub const EM_OPEN: &'static str = "<em>";

pub const EM_CLOSE: &'static str = "</em>";

pub const STRONG_OPEN: &'static str = "<strong>";

pub const STRONG_CLOSE: &'static str = "</strong>";

pub const DEL_OPEN: &'static str = "<del>";

pub const DEL_CLOSE: &'static str = "</del>";

pub const TABLE_OPEN: &'static str = "<table>";

pub const TABLE_CLOSE: &'static str = "</table>";

pub const THEAD_OPEN: &'static str = "<thead>";

pub const THEAD_CLOSE: &'static str = "</thead>";

pub const TR_OPEN: &'static str = "<tr>";

pub const TR_CLOSE: &'static str = "</tr>";

pub const TD_OPEN: &'static str = "<td>";

pub const TD_CLOSE: &'static str = "</td>";

pub const A_OPEN: &'static str = "<a href=\"";

pub const TITLE_ATTR: &'static str = "\" title=\"";

pub const NEW_TAB_ATTRS: &'static str = "\" target=\"_blank\" rel=\"noopener noreferrer";

pub const A_CLOSE: &'static str = "</a>";

pub const FIGURE_OPEN: &'static str = "<figure class=\"flex flex-col items-center my-6\"><img class=\"max-w-full rounded-md border border-white/10\" src=\"";

pub const ALT_ATTR: &'static str = "\" alt=\"";

pub const FIGCAPTION_OPEN: &'static str = "\"><figcaption class=\"mt-2 text-sm text-gray-400 text-center\">";

pub const FIGCAPTION_CLOSE: &'static str = "</figcaption>";

pub const FIGURE_CLOSE: &'static str = "</figure>";

pub const H1_OPEN: &'static str = "<h1 id=\"";

pub const H1_REST: &'static str = "\" class=\"text-4xl md:text-5xl font-semibold tracking-tight text-white mt-10 mb-6 group flex items-baseline gap-3\"><span class=\"min-w-0\">";

pub const H1_CLOSE: &'static str = "</h1>";

pub const H2_OPEN: &'static str = "<h2 id=\"";

pub const H2_REST: &'static str = "\" class=\"text-2xl md:text-3xl font-semibold tracking-tight text-white mt-10 mb-4 group flex items-baseline gap-3\"><span class=\"min-w-0\">";

pub const H2_CLOSE: &'static str = "</h2>";

pub const H3_OPEN: &'static str = "<h3 id=\"";

pub const H3_REST: &'static str = "\" class=\"text-xl md:text-2xl font-semibold text-white mt-8 mb-3 group flex items-baseline gap-3\"><span class=\"min-w-0\">";

pub const H3_CLOSE: &'static str = "</h3>";

pub const PERMALINK_OPEN: &'static str = "</span><a class=\"inline-flex items-center text-white/40 hover:text-white/70 text-base align-middle no-underline border-b-0 opacity-0 group-hover:opacity-100 focus:opacity-100 focus-visible:opacity-100 transition-opacity translate-y-1\" href=\"#";

pub const PERMALINK_REST: &'static str = r#"" aria-label="Link to this section"><svg xmlns="http://www.w3.org/2000/svg" width="24" height="24" viewBox="0 0 24 24"><path fill="none" stroke="currentColor" stroke-linecap="round" stroke-linejoin="round" stroke-width="2" d="m9 15l6-6m-4-3l.463-.536a5 5 0 0 1 7.071 7.072L18 13m-5 5l-.397.534a5.07 5.07 0 0 1-7.127 0a4.97 4.97 0 0 1 0-7.071L6 11"/></svg></a>"#;

/// Whether a link leaves the site (and so opens in a new tab).
pub open spec fn is_external(dest: Seq<char>) -> bool {
    starts_with(dest, "http://"@) || starts_with(dest, "https://"@) || starts_with(dest, "mailto:"@)
}

/// The opening and closing tags of the frames that only wrap their children.
pub open spec fn plain_tags(kind: KindV) -> (Seq<char>, Seq<char>) {
    match kind {
        KindV::Paragraph => (P_OPEN@, P_CLOSE@),
        KindV::BlockQuote => (BLOCKQUOTE_OPEN@, BLOCKQUOTE_CLOSE@),
        KindV::List(None) => (UL_OPEN@, UL_CLOSE@),
        KindV::List(Some(start)) => (OL_OPEN@ + decimal(start as nat) + ATTR_END@, OL_CLOSE@),
        KindV::Item => (LI_OPEN@, LI_CLOSE@),
        KindV::Emphasis => (EM_OPEN@, EM_CLOSE@),
        KindV::Strong => (STRONG_OPEN@, STRONG_CLOSE@),
        KindV::Strikethrough => (DEL_OPEN@, DEL_CLOSE@),
        KindV::Table => (TABLE_OPEN@, TABLE_CLOSE@),
        KindV::TableHead => (THEAD_OPEN@, THEAD_CLOSE@),
        KindV::TableRow => (TR_OPEN@, TR_CLOSE@),
        KindV::TableCell => (TD_OPEN@, TD_CLOSE@),
        _ => (Seq::empty(), Seq::empty()),
    }
}

/// The opening tag of a link: new-tab attributes for external destinations, a
/// title attribute only when the title is not empty.
pub open spec fn link_open(dest: Seq<char>, title: Seq<char>) -> Seq<char> {
    A_OPEN@ + escaped(dest) + (if title.len() == 0 {
        Seq::empty()
    } else {
        TITLE_ATTR@ + escaped(title)
    }) + (if is_external(dest) {
        NEW_TAB_ATTRS@
    } else {
        Seq::empty()
    }) + ATTR_END@
}

/// A figure with the image and, when the title is not empty, a caption.
pub open spec fn figure(src: Seq<char>, title: Seq<char>, alt: Seq<char>) -> Seq<char> {
    FIGURE_OPEN@ + escaped(src) + ALT_ATTR@ + escaped(alt) + (if title.len() == 0 {
        ATTR_END@
    } else {
        TITLE_ATTR@ + escaped(title) + FIGCAPTION_OPEN@ + escaped(title) + FIGCAPTION_CLOSE@
    }) + FIGURE_CLOSE@
}

/// The three visual tiers of headings: level 1, level 2, and everything else.
pub open spec fn heading_tags(level: u8) -> (Seq<char>, Seq<char>, Seq<char>) {
    if level == 1 {
        (H1_OPEN@, H1_REST@, H1_CLOSE@)
    } else if level == 2 {
        (H2_OPEN@, H2_REST@, H2_CLOSE@)
    } else {
        (H3_OPEN@, H3_REST@, H3_CLOSE@)
    }
}

/// A heading with anchor id `slug`, its content, and a trailing permalink.
pub open spec fn heading_markup(level: u8, slug: Seq<char>, content: Seq<Seg>) -> Seq<Seg> {
    let (open, rest, close) = heading_tags(level);
    wrap(
        open + escaped(slug) + rest,
        content,
        PERMALINK_OPEN@ + escaped(slug) + PERMALINK_REST@ + close,
    )
}

/// The outcome of closing one frame: its node and the slug counts after it.
pub struct Closed {
    pub node: NodeV,
    pub slugs: Map<Seq<char>, nat>,
}

/// Closing frame `f`, with the slug counts of the document so far: headings
/// take the next slug of their base, images become figures (their source was
/// resolved when they opened), and code blocks stay deferred for grouping.
pub open spec fn close_frame(f: FrameV, slugs: Map<Seq<char>, nat>) -> Closed {
    match f.kind {
        KindV::Root => Closed { node: NodeV::Markup(nodes_markup(f.buffer)), slugs },
        KindV::CodeBlock(info, text) => Closed { node: NodeV::Code(info, text), slugs },
        KindV::Heading(level) => {
            let base = heading_base(f.text);
            let n = count_in(slugs, base) + 1;
            Closed {
                node: NodeV::Markup(
                    heading_markup(level, numbered_slug(base, n), nodes_markup(f.buffer)),
                ),
                slugs: slugs.insert(base, n),
            }
        },
        KindV::Link(dest, title) => Closed {
            node: NodeV::Markup(wrap(link_open(dest, title), nodes_markup(f.buffer), A_CLOSE@)),
            slugs,
        },
        KindV::Image(src, title, alt) => Closed {
            node: NodeV::Markup(html(figure(src, title, alt))),
            slugs,
        },
        _ => Closed {
            node: NodeV::Markup(
                wrap(plain_tags(f.kind).0, nodes_markup(f.buffer), plain_tags(f.kind).1),
            ),
            slugs,
        },
    }
}

fn one_piece(s: String) -> (r: Markup)
    ensures
        r@ == html(s@),
{
    let mut pieces: Vec<Piece> = Vec::new();
    pieces.push(Piece::Html(s));
    let r = Markup { pieces };
    assert(r@ =~= html(s@));
    r
}

fn wrap_markup(open: String, inner: &Markup, close: String) -> (r: Markup)
    ensures
        r@ == wrap(open@, inner@, close@),
{
    let mut pieces: Vec<Piece> = Vec::new();
    push_piece(&mut pieces, Piece::Html(open));
    push_markup(&mut pieces, inner);
    push_piece(&mut pieces, Piece::Html(close));
    let r = Markup { pieces };
    assert(r@ =~= wrap(open@, inner@, close@));
    r
}

fn plain_wrapper(kind: &FrameKind) -> (r: (String, String))
    ensures
        r.0@ == plain_tags(kind@).0,
        r.1@ == plain_tags(kind@).1,
{
    let (open, close): (&str, &str) = match kind {
        FrameKind::Paragraph => (P_OPEN, P_CLOSE),
        FrameKind::BlockQuote => (BLOCKQUOTE_OPEN, BLOCKQUOTE_CLOSE),
        FrameKind::List(None) => (UL_OPEN, UL_CLOSE),
        FrameKind::List(Some(start)) => {
            let mut open = String::from_str(OL_OPEN);
            push_decimal(&mut open, *start);
            open.append(ATTR_END);
            return (open, String::from_str(OL_CLOSE));
        },
        FrameKind::Item => (LI_OPEN, LI_CLOSE),
        FrameKind::Emphasis => (EM_OPEN, EM_CLOSE),
        FrameKind::Strong => (STRONG_OPEN, STRONG_CLOSE),
        FrameKind::Strikethrough => (DEL_OPEN, DEL_CLOSE),
        FrameKind::Table => (TABLE_OPEN, TABLE_CLOSE),
        FrameKind::TableHead => (THEAD_OPEN, THEAD_CLOSE),
        FrameKind::TableRow => (TR_OPEN, TR_CLOSE),
        FrameKind::TableCell => (TD_OPEN, TD_CLOSE),
        _ => {
            proof {
                reveal_strlit("");
            }
            ("", "")
        },
    };
    (String::from_str(open), String::from_str(close))
}

fn link_opening(dest: &String, title: &String) -> (r: String)
    ensures
        r@ == link_open(dest@, title@),
{
    let mut open = String::from_str(A_OPEN);
    push_escaped(&mut open, dest.as_str());
    if !title.as_str().is_empty() {
        open.append(TITLE_ATTR);
        push_escaped(&mut open, title.as_str());
    }
    let cs = chars_of(dest.as_str());
    if has_prefix(&cs, "http://") || has_prefix(&cs, "https://") || has_prefix(&cs, "mailto:") {
        open.append(NEW_TAB_ATTRS);
    }
    open.append(ATTR_END);
    open
}

fn figure_markup(src: &String, title: &String, alt: &String) -> (r: String)
    ensures
        r@ == figure(src@, title@, alt@),
{
    let mut out = String::from_str(FIGURE_OPEN);
    push_escaped(&mut out, src.as_str());
    out.append(ALT_ATTR);
    push_escaped(&mut out, alt.as_str());
    if title.as_str().is_empty() {
        out.append(ATTR_END);
    } else {
        out.append(TITLE_ATTR);
        push_escaped(&mut out, title.as_str());
        out.append(FIGCAPTION_OPEN);
        push_escaped(&mut out, title.as_str());
        out.append(FIGCAPTION_CLOSE);
    }
    out.append(FIGURE_CLOSE);
    out
}

fn render_heading(level: u8, frame: &Frame, slugs: &mut SlugRegistry) -> (r: RenderNode)
    requires
        old(slugs).wf(),
        forall|k: Seq<char>| old(slugs)@.contains_key(k) ==> #[trigger] old(slugs)@[k] < usize::MAX,
    ensures
        final(slugs).wf(),
        final(slugs)@ == old(slugs)@.insert(
            heading_base(frame.text@),
            count_in(old(slugs)@, heading_base(frame.text@)) + 1,
        ),
        r@ == NodeV::Markup(
            heading_markup(
                level,
                numbered_slug(
                    heading_base(frame.text@),
                    count_in(old(slugs)@, heading_base(frame.text@)) + 1,
                ),
                nodes_markup(node_view(frame.buffer@)),
            ),
        ),
{
    let slug = slugs.unique_slug(frame.text.as_str());
    let content = render_nodes(&frame.buffer);
    let (open, rest, close): (&str, &str, &str) = if level == 1 {
        (H1_OPEN, H1_REST, H1_CLOSE)
    } else if level == 2 {
        (H2_OPEN, H2_REST, H2_CLOSE)
    } else {
        (H3_OPEN, H3_REST, H3_CLOSE)
    };
    let mut before = String::from_str(open);
    push_escaped(&mut before, slug.as_str());
    before.append(rest);
    let mut after = String::from_str(PERMALINK_OPEN);
    push_escaped(&mut after, slug.as_str());
    after.append(PERMALINK_REST);
    after.append(close);
    RenderNode::Markup(wrap_markup(before, &content, after))
}

/// Closes `frame` into a node: see `close_frame` for what each kind becomes.
pub fn render_frame(frame: Frame, slugs: &mut SlugRegistry) -> (r: RenderNode)
    requires
        old(slugs).wf(),
        forall|k: Seq<char>| old(slugs)@.contains_key(k) ==> #[trigger] old(slugs)@[k] < usize::MAX,
    ensures
        final(slugs).wf(),
        final(slugs)@ == close_frame(frame@, old(slugs)@).slugs,
        r@ == close_frame(frame@, old(slugs)@).node,
{
    match &frame.kind {
        FrameKind::Root => RenderNode::Markup(render_nodes(&frame.buffer)),
        FrameKind::CodeBlock { info, text } => RenderNode::CodeBlock {
            info: clone_opt(info),
            text: text.clone(),
        },
        FrameKind::Heading(level) => render_heading(*level, &frame, slugs),
        FrameKind::Link { dest_url, title } => {
            let content = render_nodes(&frame.buffer);
            RenderNode::Markup(
                wrap_markup(link_opening(dest_url, title), &content, String::from_str(A_CLOSE)),
            )
        },
        FrameKind::Image { dest_url, title, alt } => RenderNode::Markup(
            one_piece(figure_markup(dest_url, title, alt)),
        ),
        _ => {
            let (open, close) = plain_wrapper(&frame.kind);
            let content = render_nodes(&frame.buffer);
            RenderNode::Markup(wrap_markup(open, &content, close))
        },
    }
}

pub const CODE_SPAN_OPEN: &'static str = "<code class=\"text-[0.95em] bg-white/10 px-1 py-0.5 rounded box-decoration-clone [box-decoration-break:clone]\">";

pub const CODE_SPAN_CLOSE: &'static str = "</code>";

pub const SPAN_OPEN: &'static str = "<span>";

pub const SPAN_CLOSE: &'static str = "</span>";

pub const DIV_OPEN: &'static str = "<div>";

pub const SUP_OPEN: &'static str = "<sup>";

pub const SUP_CLOSE: &'static str = "</sup>";

pub const SPACE: &'static str = " ";

pub const BR: &'static str = "<br>";

pub const HR: &'static str = "<hr>";

pub const CHECKBOX_CHECKED: &'static str = "<input type=\"checkbox\" disabled checked>";

pub const CHECKBOX_UNCHECKED: &'static str = "<input type=\"checkbox\" disabled>";

/// The builder's state: the open frames, the slug counts, the number of local
/// images seen, and the destination of a local image without extension, once
/// one has been met.
pub struct BuildV {
    pub frames: Seq<FrameV>,
    pub slugs: Map<Seq<char>, nat>,
    pub images: nat,
    pub failed: Option<Seq<char>>,
}

/// The state before the first event: the root frame alone.
pub open spec fn initial_state() -> BuildV {
    BuildV {
        frames: seq![FrameV { kind: KindV::Root, buffer: Seq::empty(), text: Seq::empty() }],
        slugs: Map::empty(),
        images: 0,
        failed: None,
    }
}

/// `st` with other frames.
pub open spec fn with_frames(st: BuildV, frames: Seq<FrameV>) -> BuildV {
    BuildV { frames, slugs: st.slugs, images: st.images, failed: st.failed }
}

/// The frames with `n` appended to the children of the top one.
pub open spec fn push_node(frames: Seq<FrameV>, n: NodeV) -> Seq<FrameV> {
    let top = frames.last();
    frames.update(
        frames.len() - 1,
        FrameV { kind: top.kind, buffer: top.buffer.push(n), text: top.text },
    )
}

/// The index of the topmost heading among `frames[..n]`, or -1.
pub open spec fn heading_below(frames: Seq<FrameV>, n: int) -> int
    decreases n,
{
    if n <= 0 {
        -1
    } else if frames[n - 1].kind is Heading {
        n - 1
    } else {
        heading_below(frames, n - 1)
    }
}

proof fn lemma_heading_below_range(frames: Seq<FrameV>, n: int)
    requires
        0 <= n <= frames.len(),
    ensures
        -1 <= heading_below(frames, n) < n,
        heading_below(frames, n) >= 0 ==> frames[heading_below(frames, n)].kind is Heading,
    decreases n,
{
    if n > 0 && !(frames[n - 1].kind is Heading) {
        lemma_heading_below_range(frames, n - 1);
    }
}

/// The frames with `t` added to the slug text of the nearest enclosing heading.
pub open spec fn add_heading_text(frames: Seq<FrameV>, t: Seq<char>) -> Seq<FrameV> {
    let h = heading_below(frames, frames.len() as int);
    if h < 0 {
        frames
    } else {
        frames.update(
            h,
            FrameV { kind: frames[h].kind, buffer: frames[h].buffer, text: frames[h].text + t },
        )
    }
}

/// A text event: code text goes verbatim into the open code block; otherwise
/// it feeds the enclosing heading's slug text and then becomes alt text of an
/// open image, or an escaped text child.
pub open spec fn text_step(frames: Seq<FrameV>, t: Seq<char>) -> Seq<FrameV> {
    let top = frames.last();
    match top.kind {
        KindV::CodeBlock(info, code) => frames.update(
            frames.len() - 1,
            FrameV { kind: KindV::CodeBlock(info, code + t), buffer: top.buffer, text: top.text },
        ),
        _ => {
            let f = add_heading_text(frames, t);
            let top1 = f.last();
            match top1.kind {
                KindV::Image(dest, title, alt) => f.update(
                    f.len() - 1,
                    FrameV {
                        kind: KindV::Image(dest, title, alt + t),
                        buffer: top1.buffer,
                        text: top1.text,
                    },
                ),
                _ => push_node(f, NodeV::Markup(html(escaped(t)))),
            }
        },
    }
}

/// The frame kind that a `Start` event opens.
pub open spec fn start_kind(k: BlockKind) -> KindV {
    match k {
        BlockKind::Paragraph => KindV::Paragraph,
        BlockKind::Heading(l) => KindV::Heading(l),
        BlockKind::BlockQuote => KindV::BlockQuote,
        BlockKind::CodeBlock(info) => KindV::CodeBlock(opt_view(info), Seq::empty()),
        BlockKind::List(s) => KindV::List(s),
        BlockKind::Item => KindV::Item,
        BlockKind::Emphasis => KindV::Emphasis,
        BlockKind::Strong => KindV::Strong,
        BlockKind::Strikethrough => KindV::Strikethrough,
        BlockKind::Link { dest_url, title } => KindV::Link(dest_url@, title@),
        BlockKind::Image { dest_url, title } => KindV::Image(dest_url@, title@, Seq::empty()),
        BlockKind::Table => KindV::Table,
        BlockKind::TableHead => KindV::TableHead,
        BlockKind::TableRow => KindV::TableRow,
        BlockKind::TableCell => KindV::TableCell,
        BlockKind::Other => KindV::Root,
    }
}

/// The markup of an event that neither opens nor closes a block nor carries
/// text: math as a plain container, raw HTML verbatim, footnote references as
/// superscripts, breaks, rules and task checkboxes.
pub open spec fn leaf_html(ev: Event) -> Seq<char> {
    match ev {
        Event::Code(c) => CODE_SPAN_OPEN@ + escaped(c@) + CODE_SPAN_CLOSE@,
        Event::InlineMath(t) => SPAN_OPEN@ + escaped(t@) + SPAN_CLOSE@,
        Event::DisplayMath(t) => DIV_OPEN@ + escaped(t@) + DIV_CLOSE@,
        Event::Html(t) => t@,
        Event::InlineHtml(t) => t@,
        Event::FootnoteReference(l) => SUP_OPEN@ + escaped(l@) + SUP_CLOSE@,
        Event::SoftBreak => SPACE@,
        Event::HardBreak => BR@,
        Event::Rule => HR@,
        Event::TaskListMarker(checked) => if checked {
            CHECKBOX_CHECKED@
        } else {
            CHECKBOX_UNCHECKED@
        },
        _ => Seq::empty(),
    }
}

/// Closing the top frame; with only the root left this does nothing.
pub open spec fn close_top(st: BuildV) -> BuildV {
    if st.frames.len() <= 1 {
        st
    } else {
        let c = close_frame(st.frames.last(), st.slugs);
        BuildV {
            frames: push_node(st.frames.drop_last(), c.node),
            slugs: c.slugs,
            images: st.images,
            failed: st.failed,
        }
    }
}

/// A frame that has just opened.
pub open spec fn fresh_frame(kind: KindV) -> FrameV {
    FrameV { kind, buffer: Seq::empty(), text: Seq::empty() }
}

/// Opening a block. A local image takes the next image number at once, so
/// images are numbered in document order, and its source becomes the numbered
/// path; a local image without an extension stops the build.
pub open spec fn start_step(st: BuildV, k: BlockKind, doc: Seq<char>) -> BuildV {
    match k {
        BlockKind::Image { dest_url, title } => {
            if !is_local(dest_url@) {
                with_frames(
                    st,
                    st.frames.push(fresh_frame(KindV::Image(dest_url@, title@, Seq::empty()))),
                )
            } else if extension(dest_url@) is None {
                BuildV {
                    frames: st.frames,
                    slugs: st.slugs,
                    images: st.images,
                    failed: Some(dest_url@),
                }
            } else {
                BuildV {
                    frames: st.frames.push(
                        fresh_frame(
                            KindV::Image(
                                image_path(doc, st.images + 1, extension(dest_url@).unwrap()),
                                title@,
                                Seq::empty(),
                            ),
                        ),
                    ),
                    slugs: st.slugs,
                    images: st.images + 1,
                    failed: st.failed,
                }
            }
        },
        _ => with_frames(st, st.frames.push(fresh_frame(start_kind(k)))),
    }
}

/// The effect of one event on the builder's state.
pub open spec fn step(st: BuildV, ev: Event, doc: Seq<char>) -> BuildV {
    match ev {
        Event::Start(k) => start_step(st, k, doc),
        Event::End => close_top(st),
        Event::Text(t) => with_frames(st, text_step(st.frames, t@)),
        Event::Code(c) => with_frames(
            st,
            push_node(add_heading_text(st.frames, c@), NodeV::Markup(html(leaf_html(ev)))),
        ),
        _ => with_frames(st, push_node(st.frames, NodeV::Markup(html(leaf_html(ev))))),
    }
}

/// The state after the given events; the first failure stops the build.
pub open spec fn run(events: Seq<Event>, doc: Seq<char>) -> BuildV
    decreases events.len(),
{
    if events.len() == 0 {
        initial_state()
    } else {
        let prev = run(events.drop_last(), doc);
        if prev.failed is Some {
            prev
        } else {
            step(prev, events.last(), doc)
        }
    }
}

/// The state after closing every frame left open.
pub open spec fn close_all(st: BuildV) -> BuildV
    decreases st.frames.len(),
{
    if st.failed is Some || st.frames.len() <= 1 {
        st
    } else {
        close_all(close_top(st))
    }
}

/// The rendering of a document: its root frame's children once every frame is
/// closed, or the destination of the first local image without extension.
pub open spec fn rendered(events: Seq<Event>, doc: Seq<char>) -> Result<Seq<Seg>, Seq<char>> {
    let st = close_all(run(events, doc));
    match st.failed {
        Some(d) => Err(d),
        None => Ok(nodes_markup(st.frames[0].buffer)),
    }
}

/// Whether `r` is the rendering `expected`.
pub open spec fn renders_as(r: Result<Markup, RenderError>, expected: Result<Seq<Seg>, Seq<char>>) -> bool {
    match (r, expected) {
        (Ok(m), Ok(e)) => m@ == e,
        (Err(RenderError::MissingImageExtension(d)), Err(e)) => d@ == e,
        _ => false,
    }
}

/// The builder state held in the given values.
pub open spec fn state_view(frames: Seq<Frame>, slugs: Map<Seq<char>, nat>, images: usize) -> BuildV {
    BuildV { frames: frame_views(frames), slugs, images: images as nat, failed: None }
}

fn append_node(node: RenderNode, frames: &mut Vec<Frame>)
    requires
        old(frames).len() >= 1,
    ensures
        frame_views(final(frames)@) == push_node(frame_views(old(frames)@), node@),
        final(frames).len() == old(frames).len(),
{
    let mut top = frames.pop().unwrap();
    let ghost before = node_view(top.buffer@);
    top.buffer.push(node);
    assert(node_view(top.buffer@) =~= before.push(node@));
    frames.push(top);
    assert(frame_views(frames@) =~= push_node(frame_views(old(frames)@), node@));
}

fn append_markup(markup: Markup, frames: &mut Vec<Frame>)
    requires
        old(frames).len() >= 1,
    ensures
        frame_views(final(frames)@) == push_node(frame_views(old(frames)@), NodeV::Markup(markup@)),
        final(frames).len() == old(frames).len(),
{
    append_node(RenderNode::Markup(markup), frames);
}

fn append_heading_text(frames: &mut Vec<Frame>, text: &str)
    ensures
        frame_views(final(frames)@) == add_heading_text(frame_views(old(frames)@), text@),
        final(frames).len() == old(frames).len(),
{
    let ghost fv = frame_views(frames@);
    let mut h: usize = frames.len();
    while h > 0 && !matches!(frames[h - 1].kind, FrameKind::Heading(_))
        invariant
            h <= frames.len(),
            fv == frame_views(frames@),
            heading_below(fv, fv.len() as int) == heading_below(fv, h as int),
        decreases h,
    {
        h -= 1;
    }
    if h > 0 {
        let mut f = frames.remove(h - 1);
        f.text.append(text);
        frames.insert(h - 1, f);
        assert(frame_views(frames@) =~= add_heading_text(fv, text@));
    }
}

fn top_is_code(frames: &Vec<Frame>) -> (r: bool)
    requires
        frames.len() >= 1,
    ensures
        r == frames@.last().kind@ is CodeBlock,
{
    matches!(frames[frames.len() - 1].kind, FrameKind::CodeBlock { .. })
}

fn top_is_image(frames: &Vec<Frame>) -> (r: bool)
    requires
        frames.len() >= 1,
    ensures
        r == frames@.last().kind@ is Image,
{
    matches!(frames[frames.len() - 1].kind, FrameKind::Image { .. })
}

/// Adds `t` to the text gathered by the top frame, when it is a code block or
/// an image.
fn append_to_top(frames: &mut Vec<Frame>, t: &str)
    requires
        old(frames).len() >= 1,
    ensures
        ({
            let fv = frame_views(old(frames)@);
            let top = fv.last();
            frame_views(final(frames)@) == match top.kind {
                KindV::CodeBlock(info, code) => fv.update(
                    fv.len() - 1,
                    FrameV { kind: KindV::CodeBlock(info, code + t@), buffer: top.buffer, text: top.text },
                ),
                KindV::Image(dest, title, alt) => fv.update(
                    fv.len() - 1,
                    FrameV { kind: KindV::Image(dest, title, alt + t@), buffer: top.buffer, text: top.text },
                ),
                _ => fv,
            }
        }),
        final(frames).len() == old(frames).len(),
{
    let Frame { kind, buffer, text } = frames.pop().unwrap();
    let kind = match kind {
        FrameKind::CodeBlock { info, text: code } => {
            let mut code = code;
            code.append(t);
            FrameKind::CodeBlock { info, text: code }
        },
        FrameKind::Image { dest_url, title, alt } => {
            let mut alt = alt;
            alt.append(t);
            FrameKind::Image { dest_url, title, alt }
        },
        other => other,
    };
    frames.push(Frame { kind, buffer, text });
    proof {
        let fv = frame_views(old(frames)@);
        assert(frame_views(frames@).drop_last() =~= fv.drop_last());
    }
}

fn handle_start_event(
    tag: &BlockKind,
    frames: &mut Vec<Frame>,
    post_id: &str,
    image_index: &mut usize,
    Ghost(slugs): Ghost<Map<Seq<char>, nat>>,
) -> (r: Result<(), RenderError>)
    requires
        *old(image_index) < usize::MAX,
    ensures
        ({
            let st = start_step(state_view(old(frames)@, slugs, *old(image_index)), *tag, post_id@);
            &&& (st.failed is None ==> (r is Ok && state_view(final(frames)@, slugs, *final(image_index))
                == st))
            &&& (st.failed matches Some(d) ==> (r matches Err(
                RenderError::MissingImageExtension(e),
            ) && e@ == d))
        }),
        r is Ok ==> final(frames).len() == old(frames).len() + 1,
        r is Ok ==> *final(image_index) <= *old(image_index) + 1,
{
    let kind = match tag {
        BlockKind::Paragraph => FrameKind::Paragraph,
        BlockKind::Heading(level) => FrameKind::Heading(*level),
        BlockKind::BlockQuote => FrameKind::BlockQuote,
        BlockKind::CodeBlock(info) => FrameKind::CodeBlock { info: clone_opt(info), text: String::new() },
        BlockKind::List(start) => FrameKind::List(*start),
        BlockKind::Item => FrameKind::Item,
        BlockKind::Emphasis => FrameKind::Emphasis,
        BlockKind::Strong => FrameKind::Strong,
        BlockKind::Strikethrough => FrameKind::Strikethrough,
        BlockKind::Link { dest_url, title } => FrameKind::Link {
            dest_url: dest_url.clone(),
            title: title.clone(),
        },
        BlockKind::Image { dest_url, title } => {
            let src = resolve_image_src(dest_url.as_str(), post_id, image_index)?;
            FrameKind::Image { dest_url: src, title: title.clone(), alt: String::new() }
        },
        BlockKind::Table => FrameKind::Table,
        BlockKind::TableHead => FrameKind::TableHead,
        BlockKind::TableRow => FrameKind::TableRow,
        BlockKind::TableCell => FrameKind::TableCell,
        BlockKind::Other => FrameKind::Root,
    };
    let frame = Frame { kind, buffer: Vec::new(), text: String::new() };
    assert(node_view(frame.buffer@) =~= Seq::<NodeV>::empty());
    let ghost before = frame_views(frames@);
    frames.push(frame);
    assert(frame_views(frames@) =~= before.push(frame@));
    Ok(())
}

fn handle_text_event(text: &str, frames: &mut Vec<Frame>)
    requires
        old(frames).len() >= 1,
    ensures
        frame_views(final(frames)@) == text_step(frame_views(old(frames)@), text@),
        final(frames).len() == old(frames).len(),
{
    if top_is_code(frames) {
        append_to_top(frames, text);
        return;
    }
    append_heading_text(frames, text);
    assert(frames.len() == frame_views(frames@).len());
    if top_is_image(frames) {
        append_to_top(frames, text);
        return;
    }
    let mut s = String::new();
    push_escaped(&mut s, text);
    append_markup(one_piece(s), frames);
}

fn leaf_markup(s: String, frames: &mut Vec<Frame>)
    requires
        old(frames).len() >= 1,
    ensures
        frame_views(final(frames)@) == push_node(frame_views(old(frames)@), NodeV::Markup(html(s@))),
        final(frames).len() == old(frames).len(),
{
    append_markup(one_piece(s), frames);
}

fn enclosed(open: &str, text: &str, close: &str) -> (r: String)
    ensures
        r@ == open@ + escaped(text@) + close@,
{
    let mut s = String::from_str(open);
    push_escaped(&mut s, text);
    s.append(close);
    s
}

fn handle_code_event(code: &str, frames: &mut Vec<Frame>)
    requires
        old(frames).len() >= 1,
    ensures
        frame_views(final(frames)@) == push_node(
            add_heading_text(frame_views(old(frames)@), code@),
            NodeV::Markup(html(CODE_SPAN_OPEN@ + escaped(code@) + CODE_SPAN_CLOSE@)),
        ),
        final(frames).len() == old(frames).len(),
{
    append_heading_text(frames, code);
    assert(frames.len() == frame_views(frames@).len());
    leaf_markup(enclosed(CODE_SPAN_OPEN, code, CODE_SPAN_CLOSE), frames);
}

fn handle_inline_math_event(text: &str, frames: &mut Vec<Frame>)
    requires
        old(frames).len() >= 1,
    ensures
        frame_views(final(frames)@) == push_node(
            frame_views(old(frames)@),
            NodeV::Markup(html(SPAN_OPEN@ + escaped(text@) + SPAN_CLOSE@)),
        ),
        final(frames).len() == old(frames).len(),
{
    leaf_markup(enclosed(SPAN_OPEN, text, SPAN_CLOSE), frames);
}

fn handle_display_math_event(text: &str, frames: &mut Vec<Frame>)
    requires
        old(frames).len() >= 1,
    ensures
        frame_views(final(frames)@) == push_node(
            frame_views(old(frames)@),
            NodeV::Markup(html(DIV_OPEN@ + escaped(text@) + DIV_CLOSE@)),
        ),
        final(frames).len() == old(frames).len(),
{
    leaf_markup(enclosed(DIV_OPEN, text, DIV_CLOSE), frames);
}

fn handle_html_event(raw: &str, frames: &mut Vec<Frame>)
    requires
        old(frames).len() >= 1,
    ensures
        frame_views(final(frames)@) == push_node(frame_views(old(frames)@), NodeV::Markup(html(raw@))),
        final(frames).len() == old(frames).len(),
{
    leaf_markup(String::from_str(raw), frames);
}

fn handle_footnote_reference_event(label: &str, frames: &mut Vec<Frame>)
    requires
        old(frames).len() >= 1,
    ensures
        frame_views(final(frames)@) == push_node(
            frame_views(old(frames)@),
            NodeV::Markup(html(SUP_OPEN@ + escaped(label@) + SUP_CLOSE@)),
        ),
        final(frames).len() == old(frames).len(),
{
    leaf_markup(enclosed(SUP_OPEN, label, SUP_CLOSE), frames);
}

fn handle_task_list_marker_event(checked: bool, frames: &mut Vec<Frame>)
    requires
        old(frames).len() >= 1,
    ensures
        frame_views(final(frames)@) == push_node(
            frame_views(old(frames)@),
            NodeV::Markup(html(if checked { CHECKBOX_CHECKED@ } else { CHECKBOX_UNCHECKED@ })),
        ),
        final(frames).len() == old(frames).len(),
{
    let s = if checked {
        CHECKBOX_CHECKED
    } else {
        CHECKBOX_UNCHECKED
    };
    leaf_markup(String::from_str(s), frames);
}

/// The bounds that keep the image counter and the slug counts from
/// overflowing within a budget of events: each event opens at most one frame
/// and numbers at most one image, and a slug count grows only when a frame
/// closes.
pub open spec fn counters_bounded(
    frames_len: nat,
    slugs: Map<Seq<char>, nat>,
    images: nat,
    budget: nat,
) -> bool {
    &&& images <= budget
    &&& frames_len <= budget + 1
    &&& forall|k: Seq<char>| slugs.contains_key(k) ==> #[trigger] slugs[k] + frames_len <= budget + 1
}

fn handle_end_event(
    frames: &mut Vec<Frame>,
    slugs: &mut SlugRegistry,
    Ghost(images): Ghost<usize>,
)
    requires
        old(frames).len() >= 1,
        old(slugs).wf(),
        forall|k: Seq<char>| old(slugs)@.contains_key(k) ==> #[trigger] old(slugs)@[k] < usize::MAX,
    ensures
        final(slugs).wf(),
        state_view(final(frames)@, final(slugs)@, images) == close_top(
            state_view(old(frames)@, old(slugs)@, images),
        ),
        final(frames).len() >= 1,
        final(frames).len() <= old(frames).len(),
        final(frames).len() == old(frames).len() ==> final(slugs)@ == old(slugs)@,
        forall|k: Seq<char>| #[trigger]
            final(slugs)@.contains_key(k) ==> final(slugs)@[k] <= count_in(old(slugs)@, k) + 1,
{
    if frames.len() <= 1 {
        return ;
    }
    let ghost fv = frame_views(frames@);
    let frame = frames.pop().unwrap();
    assert(frame_views(frames@) =~= fv.drop_last());
    let node = render_frame(frame, slugs);
    append_node(node, frames);
}

fn handle_event(
    event: &Event,
    frames: &mut Vec<Frame>,
    slugs: &mut SlugRegistry,
    post_id: &str,
    image_index: &mut usize,
) -> (r: Result<(), RenderError>)
    requires
        old(frames).len() >= 1,
        old(slugs).wf(),
        forall|k: Seq<char>| old(slugs)@.contains_key(k) ==> #[trigger] old(slugs)@[k] < usize::MAX,
        *old(image_index) < usize::MAX,
    ensures
        final(slugs).wf(),
        ({
            let st = step(state_view(old(frames)@, old(slugs)@, *old(image_index)), *event, post_id@);
            &&& (st.failed is None ==> (r is Ok && state_view(
                final(frames)@,
                final(slugs)@,
                *final(image_index),
            ) == st))
            &&& (st.failed matches Some(d) ==> (r matches Err(
                RenderError::MissingImageExtension(e),
            ) && e@ == d))
        }),
        r is Ok ==> final(frames).len() >= 1 && final(frames).len() <= old(frames).len() + 1,
        r is Ok && final(frames).len() >= old(frames).len() ==> final(slugs)@ == old(slugs)@,
        r is Ok ==> *final(image_index) <= *old(image_index) + 1,
        r is Ok ==> forall|k: Seq<char>| #[trigger]
            final(slugs)@.contains_key(k) ==> final(slugs)@[k] <= count_in(old(slugs)@, k) + 1,
{
    match event {
        Event::Start(tag) => {
            return handle_start_event(tag, frames, post_id, image_index, Ghost(slugs@));
        },
        Event::End => {
            handle_end_event(frames, slugs, Ghost(*image_index));
        },
        Event::Text(t) => {
            handle_text_event(t.as_str(), frames);
        },
        Event::Code(c) => {
            handle_code_event(c.as_str(), frames);
        },
        Event::InlineMath(t) => {
            handle_inline_math_event(t.as_str(), frames);
        },
        Event::DisplayMath(t) => {
            handle_display_math_event(t.as_str(), frames);
        },
        Event::Html(raw) => {
            handle_html_event(raw.as_str(), frames);
        },
        Event::InlineHtml(raw) => {
            handle_html_event(raw.as_str(), frames);
        },
        Event::FootnoteReference(label) => {
            handle_footnote_reference_event(label.as_str(), frames);
        },
        Event::SoftBreak => {
            leaf_markup(String::from_str(SPACE), frames);
        },
        Event::HardBreak => {
            leaf_markup(String::from_str(BR), frames);
        },
        Event::Rule => {
            leaf_markup(String::from_str(HR), frames);
        },
        Event::TaskListMarker(checked) => {
            handle_task_list_marker_event(*checked, frames);
        },
    }
    assert(frames.len() == frame_views(frames@).len());
    Ok(())
}

proof fn lemma_failure_persists(events: Seq<Event>, n: int, doc: Seq<char>)
    requires
        0 <= n <= events.len(),
        run(events.take(n), doc).failed is Some,
    ensures
        run(events, doc) == run(events.take(n), doc),
    decreases events.len() - n,
{
    if n < events.len() {
        assert(events.take(n + 1).drop_last() =~= events.take(n));
        lemma_failure_persists(events, n + 1, doc);
    } else {
        assert(events.take(n) =~= events);
    }
}

fn run_events(
    events: &Vec<Event>,
    frames: &mut Vec<Frame>,
    slugs: &mut SlugRegistry,
    post_id: &str,
    image_index: &mut usize,
) -> (r: Result<(), RenderError>)
    requires
        state_view(old(frames)@, old(slugs)@, *old(image_index)) == initial_state(),
        old(frames).len() == 1,
        old(slugs).wf(),
    ensures
        final(slugs).wf(),
        r is Ok ==> final(frames).len() >= 1 && counters_bounded(
            final(frames).len() as nat,
            final(slugs)@,
            *final(image_index) as nat,
            events.len() as nat,
        ) && state_view(final(frames)@, final(slugs)@, *final(image_index)) == run(
            events@,
            post_id@,
        ),
        r matches Err(RenderError::MissingImageExtension(e)) ==> run(events@, post_id@).failed
            == Some(e@),
{
    assert(events@.take(0) =~= Seq::<Event>::empty());
    let mut i: usize = 0;
    while i < events.len()
        invariant
            i <= events.len(),
            frames.len() >= 1,
            slugs.wf(),
            counters_bounded(frames.len() as nat, slugs@, *image_index as nat, i as nat),
            state_view(frames@, slugs@, *image_index) == run(events@.take(i as int), post_id@),
        decreases events.len() - i,
    {
        assert(events@.take(i + 1).drop_last() =~= events@.take(i as int));
        let ghost old_slugs = slugs@;
        let ghost old_len = frames.len();
        match handle_event(&events[i], frames, slugs, post_id, image_index) {
            Err(e) => {
                proof {
                    lemma_failure_persists(events@, i + 1, post_id@);
                }
                return Err(e);
            },
            Ok(()) => {},
        }
        assert forall|k: Seq<char>| slugs@.contains_key(k) implies #[trigger] slugs@[k]
            + frames.len() <= i + 2 by {
            if old_slugs.contains_key(k) {
                assert(old_slugs[k] + old_len <= i + 1);
            }
        }
        i += 1;
    }
    assert(events@.take(i as int) =~= events@);
    Ok(())
}

fn close_remaining(
    frames: &mut Vec<Frame>,
    slugs: &mut SlugRegistry,
    Ghost(images): Ghost<usize>,
    Ghost(budget): Ghost<nat>,
)
    requires
        old(frames).len() >= 1,
        old(slugs).wf(),
        budget <= usize::MAX,
        counters_bounded(old(frames).len() as nat, old(slugs)@, images as nat, budget),
    ensures
        final(frames).len() == 1,
        state_view(final(frames)@, final(slugs)@, images) == close_all(
            state_view(old(frames)@, old(slugs)@, images),
        ),
{
    while frames.len() > 1
        invariant
            frames.len() >= 1,
            slugs.wf(),
            budget <= usize::MAX,
            counters_bounded(frames.len() as nat, slugs@, images as nat, budget),
            close_all(state_view(frames@, slugs@, images)) == close_all(
                state_view(old(frames)@, old(slugs)@, images),
            ),
        decreases frames.len(),
    {
        let ghost old_slugs = slugs@;
        let ghost old_len = frames.len();
        let ghost st = state_view(frames@, slugs@, images);
        handle_end_event(frames, slugs, Ghost(images));
        assert(close_all(st) == close_all(close_top(st)));
        assert forall|k: Seq<char>| slugs@.contains_key(k) implies #[trigger] slugs@[k]
            + frames.len() <= budget + 1 by {
            if old_slugs.contains_key(k) {
                assert(old_slugs[k] + old_len <= budget + 1);
            }
        }
    }
}

/// Builds the markup of a document from its events: every block is closed into
/// its markup, heading anchors and local image paths are numbered in document
/// order, and blocks still open at the end are closed. Fails on the first local
/// image without a file extension.
pub fn render_markup(events: &Vec<Event>, post_id: &str) -> (r: Result<Markup, RenderError>)
    ensures
        renders_as(r, rendered(events@, post_id@)),
{
    let root = Frame { kind: FrameKind::Root, buffer: Vec::new(), text: String::new() };
    assert(node_view(root.buffer@) =~= Seq::<NodeV>::empty());
    let mut frames: Vec<Frame> = Vec::new();
    frames.push(root);
    let mut slugs = SlugRegistry::new();
    let mut image_index: usize = 0;
    assert(state_view(frames@, slugs@, image_index) =~= initial_state()) by {
        assert(frame_views(frames@) =~= initial_state().frames);
    }
    run_events(events, &mut frames, &mut slugs, post_id, &mut image_index)?;
    close_remaining(&mut frames, &mut slugs, Ghost(image_index), Ghost(events.len() as nat));
    let root = frames.pop().unwrap();
    Ok(render_nodes(&root.buffer))
}

/// The page of a document: its markup serialised with each code block
/// highlighted, or the destination of the first local image without extension.
pub open spec fn page_of(events: Seq<Event>, doc: Seq<char>) -> Result<Seq<char>, Seq<char>> {
    match rendered(events, doc) {
        Ok(segs) => Ok(fill(segs, highlights(segs))),
        Err(d) => Err(d),
    }
}

/// Whether `out` is the page of the document.
pub open spec fn renders_to(events: Seq<Event>, doc: Seq<char>, out: Seq<char>) -> bool {
    page_of(events, doc) == Ok::<Seq<char>, Seq<char>>(out)
}

/// Renders a document to HTML: builds its markup from its events, then
/// highlights each code block with `highlighter`.
pub fn render_post(post: &Post, highlighter: &Highlighter) -> (r: Result<String, RenderError>)
    ensures
        match page_of(post.events@, post.id@) {
            Ok(p) => r matches Ok(s) && s@ == p,
            Err(d) => r matches Err(RenderError::MissingImageExtension(e)) && e@ == d,
        },
{
    let m = render_markup(&post.events, post.id.as_str())?;
    Ok(m.to_html(highlighter))
}

/// The net number of blocks opened by `events`: one more for each `Start`,
/// one fewer for each `End`.
pub open spec fn depth(events: Seq<Event>) -> int
    decreases events.len(),
{
    if events.len() == 0 {
        0
    } else {
        depth(events.drop_last()) + match events.last() {
            Event::Start(_) => 1int,
            Event::End => -1int,
            _ => 0int,
        }
    }
}

/// Whether every `Start` is matched by exactly one later `End`, with proper
/// nesting: no prefix closes more blocks than it opened, and the whole
/// sequence closes all of them.
pub open spec fn balanced(events: Seq<Event>) -> bool {
    &&& depth(events) == 0
    &&& forall|n: int| 0 <= n <= events.len() ==> depth(#[trigger] events.take(n)) >= 0
}

proof fn lemma_stack_tracks_depth(events: Seq<Event>, doc: Seq<char>)
    requires
        forall|n: int| 0 <= n <= events.len() ==> depth(#[trigger] events.take(n)) >= 0,
    ensures
        run(events, doc).failed is None ==> run(events, doc).frames.len() == 1 + depth(events)
            && run(events, doc).frames[0].kind == KindV::Root,
    decreases events.len(),
{
    if events.len() > 0 {
        let prev = events.drop_last();
        assert forall|n: int| 0 <= n <= prev.len() implies depth(#[trigger] prev.take(n)) >= 0 by {
            assert(prev.take(n) =~= events.take(n));
        }
        lemma_stack_tracks_depth(prev, doc);
        assert(events.take(events.len() as int) =~= events);
        let st = run(prev, doc);
        if st.failed is None {
            lemma_step_keeps_root(st, events.last(), doc);
        }
    }
}

/// The stack-balance law: for a balanced event sequence whose build does not
/// fail, the builder ends with exactly one frame, the root, so closing the
/// remaining frames changes nothing.
pub proof fn lemma_balanced_leaves_root(events: Seq<Event>, doc: Seq<char>)
    requires
        balanced(events),
    ensures
        run(events, doc).failed is None ==> run(events, doc).frames.len() == 1 && run(
            events,
            doc,
        ).frames[0].kind == KindV::Root && close_all(run(events, doc)) == run(events, doc),
{
    lemma_stack_tracks_depth(events, doc);
}

proof fn lemma_step_keeps_root(st: BuildV, ev: Event, doc: Seq<char>)
    requires
        st.frames.len() >= 1,
        st.frames[0].kind == KindV::Root,
    ensures
        step(st, ev, doc).failed is None ==> step(st, ev, doc).frames.len() >= 1 && step(
            st,
            ev,
            doc,
        ).frames[0].kind == KindV::Root,
        step(st, ev, doc).failed is None ==> step(st, ev, doc).frames.len() == st.frames.len()
            + match ev {
            Event::Start(_) => 1int,
            Event::End => if st.frames.len() > 1 {
                -1int
            } else {
                0int
            },
            _ => 0int,
        },
{
    let fs = st.frames;
    match ev {
        Event::End => {
            if fs.len() > 1 {
                assert(push_node(fs.drop_last(), close_frame(fs.last(), st.slugs).node)[0].kind
                    == fs[0].kind);
            }
        },
        Event::Text(t) => {
            lemma_heading_below_range(fs, fs.len() as int);
            assert(add_heading_text(fs, t@)[0].kind == fs[0].kind);
        },
        Event::Code(c) => {
            lemma_heading_below_range(fs, fs.len() as int);
            assert(add_heading_text(fs, c@)[0].kind == fs[0].kind);
        },
        _ => {},
    }
}

proof fn lemma_run_keeps_root(events: Seq<Event>, doc: Seq<char>)
    ensures
        run(events, doc).failed is None ==> run(events, doc).frames.len() >= 1 && run(
            events,
            doc,
        ).frames[0].kind == KindV::Root,
    decreases events.len(),
{
    if events.len() > 0 {
        lemma_run_keeps_root(events.drop_last(), doc);
        let prev = run(events.drop_last(), doc);
        if prev.failed is None {
            lemma_step_keeps_root(prev, events.last(), doc);
        }
    }
}

proof fn lemma_close_all_keeps_root(st: BuildV)
    requires
        st.failed is None,
        st.frames.len() >= 1,
        st.frames[0].kind == KindV::Root,
    ensures
        close_all(st).failed is None,
        close_all(st).frames.len() == 1,
        close_all(st).frames[0].kind == KindV::Root,
    decreases st.frames.len(),
{
    if st.frames.len() > 1 {
        lemma_step_keeps_root(st, Event::End, Seq::empty());
        lemma_close_all_keeps_root(close_top(st));
    }
}

/// Whatever the event stream, a build that does not fail ends, once the
/// blocks left open are closed, with exactly one frame: the root.
pub proof fn lemma_build_ends_with_root(events: Seq<Event>, doc: Seq<char>)
    ensures
        close_all(run(events, doc)).failed is None ==> close_all(run(events, doc)).frames.len()
            == 1 && close_all(run(events, doc)).frames[0].kind == KindV::Root,
{
    lemma_run_keeps_root(events, doc);
    let st = run(events, doc);
    if st.failed is None {
        lemma_close_all_keeps_root(st);
    }
}

} // verus!
