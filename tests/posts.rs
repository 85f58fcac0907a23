use blib::highlight::Highlighter;
use blib::image::RenderError;
use blib::meta::{parse_date, strip_quotes, Date, Post, PostMeta};
use blib::posts::{pre_render_posts, published_newest_first, PostState};
use blib::render::{BlockKind, Event};

fn post(id: &str, date: (u16, u8, u8), draft: bool) -> Post {
    Post {
        id: id.to_string(),
        meta: PostMeta {
            title: id.to_uppercase(),
            published: Date { year: date.0, month: date.1, day: date.2 },
            draft,
        },
        markdown: String::new(),
        events: vec![
            Event::Start(BlockKind::Paragraph),
            Event::Text(id.to_string()),
            Event::End,
        ],
    }
}

#[test]
fn parse_date_valid() {
    assert_eq!(parse_date("2024-03-05"), Some((2024, 3, 5)));
    assert_eq!(parse_date("1999-12-31"), Some((1999, 12, 31)));
}

#[test]
fn parse_date_invalid() {
    assert_eq!(parse_date("2024-13-01"), None);
    assert_eq!(parse_date("2024-00-10"), None);
    assert_eq!(parse_date("2024-03-00"), None);
    assert_eq!(parse_date("2024-03-32"), None);
    assert_eq!(parse_date("2024-3-05"), None);
    assert_eq!(parse_date("2024/03/05"), None);
    assert_eq!(parse_date("abcd-ef-gh"), None);
    assert_eq!(parse_date(""), None);
}

#[test]
fn strip_quotes_pairs() {
    assert_eq!(strip_quotes("\"x y\""), "x y");
    assert_eq!(strip_quotes("'x'"), "x");
    assert_eq!(strip_quotes("'x\""), "'x\"");
    assert_eq!(strip_quotes("\""), "\"");
    assert_eq!(strip_quotes("''"), "");
    assert_eq!(strip_quotes("plain"), "plain");
}

#[test]
fn date_order() {
    let a = Date { year: 2023, month: 12, day: 31 };
    let b = Date { year: 2024, month: 1, day: 1 };
    let c = Date { year: 2024, month: 1, day: 2 };
    assert!(a.is_before(&b));
    assert!(b.is_before(&c));
    assert!(!c.is_before(&a));
    assert!(!b.is_before(&b));
    assert_eq!(a.is_before(&b), a < b);
}

#[test]
fn drafts_dropped_newest_first() {
    let posts = vec![
        post("old", (2020, 1, 1), false),
        post("draft", (2025, 1, 1), true),
        post("new", (2024, 6, 1), false),
        post("mid", (2022, 2, 2), false),
    ];
    let ids: Vec<String> = published_newest_first(posts).into_iter().map(|p| p.id).collect();
    assert_eq!(ids, vec!["new", "mid", "old"]);
}

#[test]
fn post_state_pages() {
    let h = Highlighter::new();
    let posts = vec![post("a", (2020, 1, 1), false), post("b", (2021, 1, 1), false), post("c", (2022, 1, 1), true)];
    let state = PostState::new(posts, &h).ok().unwrap();
    let ids: Vec<&str> = state.posts().iter().map(|p| p.id.as_str()).collect();
    assert_eq!(ids, vec!["b", "a"]);
    assert_eq!(state.page("a").unwrap(), "<p class=\"text-gray-300 mt-4 first:mt-0\">a</p>");
    assert!(state.page("c").is_none());
    assert!(state.page("zzz").is_none());
}

#[test]
fn pre_render_fails_on_bad_image() {
    let h = Highlighter::new();
    let mut bad = post("bad", (2020, 1, 1), false);
    bad.events = vec![
        Event::Start(BlockKind::Image { dest_url: "diagram".to_string(), title: String::new() }),
        Event::End,
    ];
    let posts = vec![post("ok", (2020, 1, 1), false), bad];
    match pre_render_posts(&posts, &h) {
        Err(RenderError::MissingImageExtension(d)) => assert_eq!(d, "diagram"),
        Ok(_) => panic!("expected a failure"),
    }
    let good = vec![post("x", (2020, 1, 1), false)];
    let pages = pre_render_posts(&good, &h).ok().unwrap();
    assert_eq!(pages, vec!["<p class=\"text-gray-300 mt-4 first:mt-0\">x</p>".to_string()]);
}
