use blib::highlight::{
    assemble_lines, code_language, is_shell, Highlighter, BLANK_ROW, PROMPT_CLOSE, PROMPT_OPEN,
};

fn strings(v: &[&str]) -> Vec<String> {
    v.iter().map(|s| s.to_string()).collect()
}

#[test]
fn shell_trailing_blank_line_suppressed() {
    let lines = strings(&["echo hi\n", "\n"]);
    let htmls = strings(&["ECHO\n", "\n"]);
    let out = assemble_lines(&lines, &htmls, true);
    assert_eq!(out, format!("{}ECHO{}", PROMPT_OPEN, PROMPT_CLOSE));
}

#[test]
fn shell_interior_blank_line_kept() {
    let lines = strings(&["echo hi\n", "\n", "echo bye\n"]);
    let htmls = strings(&["A\n", "\n", "B\n"]);
    let out = assemble_lines(&lines, &htmls, true);
    assert_eq!(
        out,
        format!("{}A{}{}{}B{}", PROMPT_OPEN, PROMPT_CLOSE, BLANK_ROW, PROMPT_OPEN, PROMPT_CLOSE)
    );
}

#[test]
fn plain_layout_keeps_each_line() {
    let lines = strings(&["a\n", "\n", "b\n"]);
    let htmls = strings(&["X\n", "\n", "Y\n"]);
    assert_eq!(assemble_lines(&lines, &htmls, false), "X\n\nY\n");
}

#[test]
fn bash_block_through_highlighter() {
    let h = Highlighter::new();
    let out = h.highlight_code_block("echo hi\n\n", Some("bash"), true);
    assert_eq!(out.matches(PROMPT_OPEN).count(), 1);
    assert!(!out.contains(BLANK_ROW));
    assert!(out.contains("echo"));
    assert!(!out.contains('\n'));
}

#[test]
fn bash_block_interior_blank_row() {
    let h = Highlighter::new();
    let out = h.highlight_code_block("echo hi\n\necho bye\n", Some("bash"), true);
    assert_eq!(out.matches(PROMPT_OPEN).count(), 2);
    assert_eq!(out.matches(BLANK_ROW).count(), 1);
    let first = out.find(PROMPT_OPEN).unwrap();
    let blank = out.find(BLANK_ROW).unwrap();
    let last = out.rfind(PROMPT_OPEN).unwrap();
    assert!(first < blank && blank < last);
}

#[test]
fn no_language_only_escapes() {
    let h = Highlighter::new();
    assert_eq!(h.highlight_code_block("a < b\n", None, false), "a &lt; b\n");
}

#[test]
fn unknown_language_falls_back_to_plain() {
    let h = Highlighter::new();
    assert_eq!(h.highlight_code_block("a < b\n", Some("no-such-language"), false), "a &lt; b\n");
}

#[test]
fn known_language_is_coloured() {
    let h = Highlighter::new();
    let out = h.highlight_code_block("fn main() {}\n", Some("rust"), false);
    assert!(out.contains("<span style=\""));
    assert!(out.contains("main"));
}

#[test]
fn code_language_is_first_token() {
    assert_eq!(code_language(&Some("rust {1,3}".to_string())), Some("rust"));
    assert_eq!(code_language(&Some("  py  x".to_string())), Some("py"));
    assert_eq!(code_language(&Some("   ".to_string())), None);
    assert_eq!(code_language(&None), None);
}

#[test]
fn shell_languages() {
    assert!(is_shell("sh"));
    assert!(is_shell("bash"));
    assert!(is_shell("fish"));
    assert!(!is_shell("zsh"));
    assert!(!is_shell("bash2"));
}
