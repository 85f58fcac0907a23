use blib::front_matter::{parse_front_matter, FrontMatterError};
use blib::meta::Date;

#[test]
fn front_matter_complete() {
    let content = "---\ntitle: \"Hello: world\"\npublished: 2024-03-05\ndraft: false\n---\n# Head\n\nBody\n";
    let fm = parse_front_matter(content).unwrap();
    assert_eq!(fm.title, "Hello: world");
    assert_eq!(fm.published, Date { year: 2024, month: 3, day: 5 });
    assert!(!fm.draft);
    assert_eq!(fm.markdown, "# Head\n\nBody");
}

#[test]
fn front_matter_crlf_and_spacing() {
    let content = "  ---  \r\n\r\n  title :  'Quoted'  \r\nother: x\r\npublished: 1999-12-31\r\ndraft: true\r\n---\r\nline\r\n";
    let fm = parse_front_matter(content).unwrap();
    assert_eq!(fm.title, "Quoted");
    assert_eq!(fm.published, Date { year: 1999, month: 12, day: 31 });
    assert!(fm.draft);
    assert_eq!(fm.markdown, "line");
}

#[test]
fn front_matter_errors() {
    assert_eq!(parse_front_matter("").err(), Some(FrontMatterError::MissingOpening));
    assert_eq!(parse_front_matter("title: x\n---\n").err(), Some(FrontMatterError::MissingOpening));
    assert_eq!(parse_front_matter("---\ntitle: x\n").err(), Some(FrontMatterError::Unterminated));
    assert_eq!(
        parse_front_matter("---\ntitle: x\nnonsense\n---\n").err(),
        Some(FrontMatterError::InvalidLine(3))
    );
    assert_eq!(
        parse_front_matter("---\ndraft: maybe\n---\n").err(),
        Some(FrontMatterError::InvalidDraft)
    );
    assert_eq!(
        parse_front_matter("---\npublished: 2024-01-01\ndraft: true\n---\n").err(),
        Some(FrontMatterError::MissingTitle)
    );
    assert_eq!(
        parse_front_matter("---\ntitle: t\ndraft: true\n---\n").err(),
        Some(FrontMatterError::MissingPublished)
    );
    assert_eq!(
        parse_front_matter("---\ntitle: t\npublished: 2024-1-1\ndraft: true\n---\n").err(),
        Some(FrontMatterError::InvalidDate)
    );
    assert_eq!(
        parse_front_matter("---\ntitle: t\npublished: 2024-01-01\n---\n").err(),
        Some(FrontMatterError::MissingDraft)
    );
}

#[test]
fn front_matter_later_key_wins_and_empty_body() {
    let content = "---\ntitle: a\ntitle: b\npublished: 2020-02-29\ndraft: true\n---";
    let fm = parse_front_matter(content).unwrap();
    assert_eq!(fm.title, "b");
    assert_eq!(fm.markdown, "");
}
