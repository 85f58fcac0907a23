use blib::highlight::Highlighter;
use blib::image::RenderError;
use blib::markup::{CODE_BOX_OPEN, CODE_GROUP_OPEN, ENTRY_OPEN, ENTRY_OPEN_DIVIDED};
use blib::meta::{Date, Post, PostMeta};
use blib::render::{render_markup, render_post, BlockKind, Event};

fn start(k: BlockKind) -> Event {
    Event::Start(k)
}

fn text(s: &str) -> Event {
    Event::Text(s.to_string())
}

fn code_block(lang: &str, src: &str) -> Vec<Event> {
    vec![start(BlockKind::CodeBlock(Some(lang.to_string()))), text(src), Event::End]
}

fn plain(events: Vec<Event>, id: &str) -> String {
    let m = render_markup(&events, id).unwrap();
    let codes = m.pieces.iter().filter(|p| matches!(p, blib::markup::Piece::Code { .. })).count();
    let filler: Vec<String> = (0..codes).map(|i| format!("[code {}]", i)).collect();
    m.to_html_with(&filler)
}

fn post(id: &str, events: Vec<Event>) -> Post {
    Post {
        id: id.to_string(),
        meta: PostMeta {
            title: "T".to_string(),
            published: Date { year: 2024, month: 1, day: 2 },
            draft: false,
        },
        markdown: String::new(),
        events,
    }
}

#[test]
fn paragraph_text_is_escaped() {
    let out = plain(vec![start(BlockKind::Paragraph), text("<script>"), Event::End], "d");
    assert_eq!(out, "<p class=\"text-gray-300 mt-4 first:mt-0\">&lt;script&gt;</p>");
}

#[test]
fn raw_html_is_verbatim() {
    let out = plain(vec![Event::Html("<b>x</b>".to_string())], "d");
    assert_eq!(out, "<b>x</b>");
}

#[test]
fn all_five_metacharacters_escaped() {
    let out = plain(vec![text("a&b<c>d\"e'f")], "d");
    assert_eq!(out, "a&amp;b&lt;c&gt;d&quot;e&#39;f");
}

#[test]
fn empty_document_renders_empty() {
    assert_eq!(plain(vec![], "d"), "");
}

#[test]
fn three_adjacent_code_blocks_grouped() {
    let mut events = Vec::new();
    events.extend(code_block("sh", "a\n"));
    events.extend(code_block("sh", "b\n"));
    events.extend(code_block("rust", "c\n"));
    let out = plain(events, "d");
    assert_eq!(out.matches(CODE_GROUP_OPEN).count(), 1);
    assert_eq!(out.matches(CODE_BOX_OPEN).count(), 0);
    assert_eq!(out.matches(ENTRY_OPEN).count(), 1);
    assert_eq!(out.matches(ENTRY_OPEN_DIVIDED).count(), 2);
    let first = out.find(ENTRY_OPEN).unwrap();
    assert!(first < out.find(ENTRY_OPEN_DIVIDED).unwrap());
    let a = out.find("[code 0]").unwrap();
    let b = out.find("[code 1]").unwrap();
    let c = out.find("[code 2]").unwrap();
    assert!(a < b && b < c);
    assert!(out.starts_with(CODE_GROUP_OPEN));
    assert!(out.ends_with("</code></pre></div></div>"));
}

#[test]
fn separated_code_blocks_stay_apart() {
    let mut events = Vec::new();
    events.extend(code_block("sh", "a\n"));
    events.push(start(BlockKind::Paragraph));
    events.push(Event::End);
    events.extend(code_block("sh", "b\n"));
    let out = plain(events, "d");
    assert_eq!(out.matches(CODE_BOX_OPEN).count(), 2);
    assert_eq!(out.matches(CODE_GROUP_OPEN).count(), 0);
}

#[test]
fn single_code_block_markup() {
    let out = plain(code_block("rust {1}", "x\n"), "d");
    assert!(out.starts_with(CODE_BOX_OPEN));
    assert!(out.contains("<code class=\"block font-mono text-gray-100 language-rust\">[code 0]</code></pre></div>"));
    assert!(out.contains("aria-label=\"Copy code\""));
}

#[test]
fn code_text_gathered_verbatim() {
    let events = vec![
        start(BlockKind::CodeBlock(None)),
        text("a <b>\n"),
        text("c\n"),
        Event::End,
    ];
    let m = render_markup(&events, "d").unwrap();
    let codes: Vec<&String> = m
        .pieces
        .iter()
        .filter_map(|p| match p {
            blib::markup::Piece::Code { text, .. } => Some(text),
            _ => None,
        })
        .collect();
    assert_eq!(codes, vec!["a <b>\nc\n"]);
}

#[test]
fn headings_get_numbered_anchors() {
    let events = vec![
        start(BlockKind::Heading(1)),
        text("Intro"),
        Event::End,
        start(BlockKind::Heading(2)),
        text("Intro"),
        Event::End,
        start(BlockKind::Heading(4)),
        text("Intro"),
        Event::End,
    ];
    let out = plain(events, "d");
    assert!(out.contains("<h1 id=\"intro\" class=\"text-4xl"));
    assert!(out.contains("<h2 id=\"intro-2\" class=\"text-2xl"));
    assert!(out.contains("<h3 id=\"intro-3\" class=\"text-xl"));
    assert!(out.contains("href=\"#intro-3\""));
    assert!(out.contains("<span class=\"min-w-0\">Intro</span>"));
}

#[test]
fn inline_code_feeds_heading_slug() {
    let events = vec![
        start(BlockKind::Heading(2)),
        text("Use "),
        Event::Code("cargo".to_string()),
        Event::End,
    ];
    let out = plain(events, "d");
    assert!(out.contains("id=\"use-cargo\""));
    assert!(out.contains(">cargo</code>"));
}

#[test]
fn empty_heading_gets_section_anchor() {
    let out = plain(vec![start(BlockKind::Heading(1)), Event::End], "d");
    assert!(out.starts_with("<h1 id=\"section\""));
}

#[test]
fn images_resolved_in_document_order() {
    let events = vec![
        start(BlockKind::Image { dest_url: "a.png".to_string(), title: String::new() }),
        text("first"),
        Event::End,
        start(BlockKind::Image { dest_url: "b.jpg".to_string(), title: "Cap".to_string() }),
        Event::End,
        start(BlockKind::Image { dest_url: "https://x.com/a.png".to_string(), title: String::new() }),
        Event::End,
    ];
    let out = plain(events, "my-post");
    assert!(out.contains("src=\"/img/my-post/1.png\" alt=\"first\">"));
    assert!(out.contains("src=\"/img/my-post/2.jpg\" alt=\"\" title=\"Cap\"><figcaption class=\"mt-2 text-sm text-gray-400 text-center\">Cap</figcaption>"));
    assert!(out.contains("src=\"https://x.com/a.png\""));
    assert_eq!(out.matches("<figure").count(), 3);
}

#[test]
fn image_without_extension_fails_render() {
    let events = vec![
        start(BlockKind::Paragraph),
        start(BlockKind::Image { dest_url: "diagram".to_string(), title: String::new() }),
        Event::End,
        Event::End,
    ];
    match render_markup(&events, "d") {
        Err(RenderError::MissingImageExtension(d)) => assert_eq!(d, "diagram"),
        Ok(_) => panic!("expected a failure"),
    }
}

#[test]
fn links_external_and_internal() {
    let events = vec![
        start(BlockKind::Link { dest_url: "https://a.b".to_string(), title: String::new() }),
        text("x"),
        Event::End,
        start(BlockKind::Link { dest_url: "/about".to_string(), title: "About".to_string() }),
        text("y"),
        Event::End,
    ];
    let out = plain(events, "d");
    assert_eq!(
        out,
        "<a href=\"https://a.b\" target=\"_blank\" rel=\"noopener noreferrer\">x</a><a href=\"/about\" title=\"About\">y</a>"
    );
}

#[test]
fn lists_and_inline_wrappers() {
    let events = vec![
        start(BlockKind::List(Some(3))),
        start(BlockKind::Item),
        start(BlockKind::Emphasis),
        text("e"),
        Event::End,
        start(BlockKind::Strong),
        text("s"),
        Event::End,
        start(BlockKind::Strikethrough),
        text("d"),
        Event::End,
        Event::End,
        Event::End,
        start(BlockKind::List(None)),
        Event::End,
    ];
    let out = plain(events, "d");
    assert_eq!(
        out,
        "<ol class=\"list-decimal pl-6 space-y-2 text-gray-300 mb-4\" start=\"3\"><li><em>e</em><strong>s</strong><del>d</del></li></ol><ul class=\"list-disc pl-6 space-y-2 text-gray-300 mb-4\"></ul>"
    );
}

#[test]
fn leaf_events() {
    let events = vec![
        Event::InlineMath("x<y".to_string()),
        Event::DisplayMath("z".to_string()),
        Event::FootnoteReference("1".to_string()),
        Event::SoftBreak,
        Event::HardBreak,
        Event::Rule,
        Event::TaskListMarker(true),
        Event::TaskListMarker(false),
        Event::InlineHtml("<i>".to_string()),
    ];
    let out = plain(events, "d");
    assert_eq!(
        out,
        "<span>x&lt;y</span><div>z</div><sup>1</sup> <br><hr><input type=\"checkbox\" disabled checked><input type=\"checkbox\" disabled><i>"
    );
}

#[test]
fn tables_and_quotes() {
    let events = vec![
        start(BlockKind::BlockQuote),
        start(BlockKind::Table),
        start(BlockKind::TableHead),
        start(BlockKind::TableCell),
        text("h"),
        Event::End,
        Event::End,
        start(BlockKind::TableRow),
        start(BlockKind::TableCell),
        text("c"),
        Event::End,
        Event::End,
        Event::End,
        Event::End,
        start(BlockKind::Other),
        text("o"),
        Event::End,
    ];
    let out = plain(events, "d");
    assert_eq!(
        out,
        "<blockquote class=\"text-gray-300\"><table><thead><td>h</td></thead><tr><td>c</td></tr></table></blockquote>o"
    );
}

#[test]
fn stray_end_is_ignored() {
    assert_eq!(plain(vec![Event::End, text("a"), Event::End], "d"), "a");
}

#[test]
fn unclosed_blocks_are_closed() {
    let out = plain(vec![start(BlockKind::Paragraph), start(BlockKind::Emphasis), text("a")], "d");
    assert_eq!(out, "<p class=\"text-gray-300 mt-4 first:mt-0\"><em>a</em></p>");
}

#[test]
fn rendering_twice_is_identical() {
    let mut events = vec![start(BlockKind::Heading(1)), text("Title"), Event::End];
    events.extend(code_block("rust", "fn main() {}\n"));
    events.extend(code_block("bash", "echo hi\n\n"));
    let p = post("p", events);
    let h = Highlighter::new();
    let first = render_post(&p, &h).unwrap();
    let second = render_post(&p, &h).unwrap();
    assert_eq!(first, second);
    let m = render_markup(&p.events, "p").unwrap();
    assert_eq!(m.to_html(&h), m.to_html(&h));
}

#[test]
fn full_render_highlights_code() {
    let p = post("p", code_block("rust", "let x = 1;\n"));
    let h = Highlighter::new();
    let out = render_post(&p, &h).unwrap();
    assert!(out.starts_with(CODE_BOX_OPEN));
    assert!(out.contains("<span style=\""));
    assert!(!out.contains("[code"));
}

#[test]
fn nested_images_numbered_in_document_order() {
    let events = vec![
        start(BlockKind::Image { dest_url: "outer.png".to_string(), title: String::new() }),
        start(BlockKind::Image { dest_url: "inner.gif".to_string(), title: String::new() }),
        Event::End,
        Event::End,
        start(BlockKind::Image { dest_url: "after.jpg".to_string(), title: String::new() }),
        Event::End,
    ];
    let out = plain(events, "p");
    let outer = out.find("src=\"/img/p/1.png\"").unwrap();
    let after = out.find("src=\"/img/p/3.jpg\"").unwrap();
    assert!(outer < after);
    assert!(!out.contains("/img/p/2.gif"));
}

#[test]
fn unknown_language_block_renders_escaped() {
    let p = post("p", code_block("no-such-language", "a < b\n"));
    let h = Highlighter::new();
    let out = render_post(&p, &h).unwrap();
    assert!(out.contains(">a &lt; b\n</code>"));
    assert!(!out.contains("<span style="));
}
