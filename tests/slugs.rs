use blib::slug::{slugify, slugify_lowered, SlugRegistry};

#[test]
fn slugify_punctuation_run() {
    assert_eq!(slugify("Hello, World!"), "hello-world");
}

#[test]
fn slugify_empty_text() {
    assert_eq!(slugify(""), "section");
    assert_eq!(slugify("!!!"), "section");
}

#[test]
fn slugify_non_ascii_prefix() {
    assert_eq!(slugify("日本語 Test"), "test");
}

#[test]
fn slugify_trims_and_collapses() {
    assert_eq!(slugify("  --Rust & Verus--  "), "rust-verus");
    assert_eq!(slugify_lowered("a__b  c"), "a-b-c");
    assert_eq!(slugify_lowered("x1 y2"), "x1-y2");
}

#[test]
fn slugify_lowercases_first() {
    assert_eq!(slugify("ABC Def"), "abc-def");
    assert_eq!(slugify_lowered("ABC"), "ABC");
}

#[test]
fn empty_heading_text_gets_section() {
    let mut reg = SlugRegistry::new();
    assert_eq!(reg.unique_slug(""), "section");
    assert_eq!(reg.unique_slug("!!!"), "section-2");
}

#[test]
fn shared_base_is_numbered_in_order() {
    let mut reg = SlugRegistry::new();
    let slugs: Vec<String> = (0..4).map(|_| reg.unique_slug("Intro")).collect();
    assert_eq!(slugs, vec!["intro", "intro-2", "intro-3", "intro-4"]);
    for i in 0..slugs.len() {
        for j in (i + 1)..slugs.len() {
            assert_ne!(slugs[i], slugs[j]);
        }
    }
}

#[test]
fn numbering_is_per_base() {
    let mut reg = SlugRegistry::new();
    assert_eq!(reg.unique_slug("A"), "a");
    assert_eq!(reg.unique_slug("B"), "b");
    assert_eq!(reg.unique_slug("a!"), "a-2");
    assert_eq!(reg.unique_slug("b"), "b-2");
}

#[test]
fn two_digit_suffix() {
    let mut reg = SlugRegistry::new();
    let mut last = String::new();
    for _ in 0..12 {
        last = reg.unique_slug("Step");
    }
    assert_eq!(last, "step-12");
}
