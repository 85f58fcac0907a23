//! Syntax highlighting of code blocks, with the shell transcript layout.

use vstd::prelude::*;

use syntect::easy::HighlightLines;
use syntect::highlighting::{Theme, ThemeSet};
use syntect::html::{styled_line_to_highlighted_html, IncludeBackground};
use syntect::parsing::SyntaxSet;

use crate::text::{
    chars_of, equals_str, escape_html, escaped, is_blank, is_space, is_space_char,
    lines_of, lines_with_endings, push_char, views,
};

verus! {

/// syntect's set of grammars, carried opaquely.
#[verifier::external_type_specification]
#[verifier::external_body]
pub struct ExSyntaxSet(SyntaxSet);

/// A syntect colour theme, carried opaquely.
#[verifier::external_type_specification]
#[verifier::external_body]
pub struct ExTheme(Theme);

/// syntect's set of colour themes, carried opaquely.
#[verifier::external_type_specification]
#[verifier::external_body]
pub struct ExThemeSet(ThemeSet);

/// syntect's bundled grammars, for lines that keep their newline.
pub assume_specification[ SyntaxSet::load_defaults_newlines ]() -> SyntaxSet;

/// syntect's bundled colour themes.
pub assume_specification[ ThemeSet::load_defaults ]() -> ThemeSet;

/// What syntect, with its bundled grammars and the highlighter's theme, makes
/// of the lines of a block in language `lang`: `None` when no grammar answers
/// to `lang`; otherwise, for each line in order, its coloured markup, or `None`
/// for a line syntect cannot take.
pub uninterp spec fn coloured_lines(lang: Seq<char>, lines: Seq<Seq<char>>) -> Option<
    Seq<Option<Seq<char>>>,
>;

/// The views of optional coloured lines.
pub open spec fn opt_lines_view(r: Option<Vec<Option<String>>>) -> Option<Seq<Option<Seq<char>>>> {
    match r {
        Some(v) => Some(v@.map_values(|o: Option<String>| opt_view(o))),
        None => None,
    }
}

/// Relies on syntect: `SyntaxSet::find_syntax_by_token` on the highlighter's
/// bundled grammars, then `HighlightLines::highlight_line` over the lines in
/// order with that same set and the highlighter's theme, and
/// `html::styled_line_to_highlighted_html` (no backgrounds) on each line. The
/// highlighter always holds the bundled grammars and theme, so the result
/// depends on the language and the lines alone; one entry comes per line.
#[verifier::external_body]
fn colour_block(hl: &Highlighter, lang: &str, lines: &Vec<String>) -> (r: Option<Vec<Option<String>>>)
    ensures
        opt_lines_view(r) == coloured_lines(lang@, views(lines@)),
        r matches Some(v) ==> v.len() == lines.len(),
{
    let syntax = hl.syntax_set.find_syntax_by_token(lang)?;
    let mut h = HighlightLines::new(syntax, hl.theme.as_ref()?);
    Some(lines.iter().map(|line| {
        h.highlight_line(line, &hl.syntax_set).ok().and_then(|ranges| {
            styled_line_to_highlighted_html(&ranges, IncludeBackground::No).ok()
        })
    }).collect())
}

/// Relies on `BTreeMap::get` over `ThemeSet::themes`: the theme stored under `name`.
#[verifier::external_body]
fn theme_named(set: &ThemeSet, name: &str) -> (r: Option<Theme>) {
    set.themes.get(name).cloned()
}

/// Relies on `BTreeMap::values` over `ThemeSet::themes`: the first theme by name.
#[verifier::external_body]
fn first_theme(set: &ThemeSet) -> (r: Option<Theme>) {
    set.themes.values().next().cloned()
}

/// The text of one prompt-less blank row in a shell transcript.
pub const BLANK_ROW: &'static str = "<span class=\"block\">&nbsp;</span>";

/// The opening of one prompted row in a shell transcript.
pub const PROMPT_OPEN: &'static str = "<span class=\"block before:content-['$'] before:mr-2 before:text-white/50\">";

/// The closing of one prompted row in a shell transcript.
pub const PROMPT_CLOSE: &'static str = "</span>";

/// `s` without its newline characters.
pub open spec fn without_newlines(s: Seq<char>) -> Seq<char>
    decreases s.len(),
{
    if s.len() == 0 {
        Seq::empty()
    } else if s.last() == '\n' {
        without_newlines(s.drop_last())
    } else {
        without_newlines(s.drop_last()).push(s.last())
    }
}

/// What one source line contributes: in plain mode its highlighted markup; in
/// shell mode a prompted row for a non-blank line, a blank row for a blank line
/// inside the block, and nothing for a blank last line.
pub open spec fn line_output(line: Seq<char>, html: Seq<char>, is_last: bool, shell: bool) -> Seq<
    char,
> {
    if !shell {
        html
    } else if is_blank(line) {
        if is_last {
            Seq::empty()
        } else {
            BLANK_ROW@
        }
    } else {
        PROMPT_OPEN@ + without_newlines(html) + PROMPT_CLOSE@
    }
}

/// The markup of the first `n` lines of a block, given the highlighted markup
/// of each line.
pub open spec fn transcript(lines: Seq<Seq<char>>, htmls: Seq<Seq<char>>, shell: bool, n: nat) -> Seq<
    char,
>
    decreases n,
{
    if n == 0 {
        Seq::empty()
    } else {
        transcript(lines, htmls, shell, (n - 1) as nat) + line_output(
            lines[n - 1],
            htmls[n - 1],
            n == lines.len(),
            shell,
        )
    }
}

/// The markup of a whole block, given the highlighted markup of each line.
pub open spec fn block_markup(lines: Seq<Seq<char>>, htmls: Seq<Seq<char>>, shell: bool) -> Seq<
    char,
> {
    transcript(lines, htmls, shell, lines.len())
}

/// Each line escaped, with no colouring.
pub open spec fn plain_lines(lines: Seq<Seq<char>>) -> Seq<Seq<char>> {
    lines.map_values(|l: Seq<char>| escaped(l))
}

/// Whether a language token asks for the shell transcript layout.
pub open spec fn is_shell_language(lang: Seq<char>) -> bool {
    lang == "sh"@ || lang == "bash"@ || lang == "fish"@
}

/// The first whitespace-free position at or after `i`.
pub open spec fn skip_spaces(s: Seq<char>, i: int) -> int
    decreases s.len() - i,
{
    if 0 <= i < s.len() && is_space(s[i]) {
        skip_spaces(s, i + 1)
    } else {
        i
    }
}

/// The end of the run of non-whitespace that starts at `i`.
pub open spec fn token_end(s: Seq<char>, i: int) -> int
    decreases s.len() - i,
{
    if 0 <= i < s.len() && !is_space(s[i]) {
        token_end(s, i + 1)
    } else {
        i
    }
}

/// The first whitespace-delimited token of an info string, if any.
pub open spec fn first_token(s: Seq<char>) -> Option<Seq<char>> {
    let a = skip_spaces(s, 0);
    if a >= s.len() {
        None
    } else {
        Some(s.subrange(a, token_end(s, a)))
    }
}

/// The language of a fenced block: the first token of its info string.
pub open spec fn language_of(info: Option<Seq<char>>) -> Option<Seq<char>> {
    match info {
        Some(i) => first_token(i),
        None => None,
    }
}

/// Whether a language token asks for the shell transcript layout.
pub fn is_shell(lang: &str) -> (r: bool)
    ensures
        r == is_shell_language(lang@),
{
    let cs = chars_of(lang);
    equals_str(&cs, "sh") || equals_str(&cs, "bash") || equals_str(&cs, "fish")
}

/// The language identifier of a code block: the first whitespace-delimited
/// token of its info string; trailing tokens are ignored.
pub fn code_language(info: &Option<String>) -> (r: Option<&str>)
    ensures
        r is None <==> language_of(opt_view(*info)) is None,
        r matches Some(l) ==> language_of(opt_view(*info)) == Some(l@),
{
    match info {
        None => None,
        Some(s) => {
            let text = s.as_str();
            let cs = chars_of(text);
            let mut a: usize = 0;
            while a < cs.len() && is_space_char(cs[a])
                invariant
                    a <= cs.len(),
                    skip_spaces(cs@, 0) == skip_spaces(cs@, a as int),
                decreases cs.len() - a,
            {
                a += 1;
            }
            if a == cs.len() {
                return None;
            }
            let mut b: usize = a;
            while b < cs.len() && !is_space_char(cs[b])
                invariant
                    a <= b <= cs.len(),
                    token_end(cs@, a as int) == token_end(cs@, b as int),
                decreases cs.len() - b,
            {
                b += 1;
            }
            Some(text.substring_char(a, b))
        },
    }
}

/// The view of an optional string.
pub open spec fn opt_view(o: Option<String>) -> Option<Seq<char>> {
    match o {
        Some(s) => Some(s@),
        None => None,
    }
}

/// Appends `s` to `out` without its newline characters.
fn push_without_newlines(out: &mut String, s: &str)
    ensures
        final(out)@ == old(out)@ + without_newlines(s@),
{
    let cs = chars_of(s);
    let mut i: usize = 0;
    while i < cs.len()
        invariant
            i <= cs.len(),
            cs@ == s@,
            out@ == old(out)@ + without_newlines(cs@.take(i as int)),
        decreases cs.len() - i,
    {
        proof {
            assert(cs@.take(i + 1).drop_last() == cs@.take(i as int));
        }
        if cs[i] != '\n' {
            push_char(out, cs[i]);
        }
        i += 1;
    }
    proof {
        assert(cs@.take(cs.len() as int) == cs@);
    }
}

fn is_blank_line(line: &str) -> (r: bool)
    ensures
        r == is_blank(line@),
{
    let cs = chars_of(line);
    let mut i: usize = 0;
    while i < cs.len()
        invariant
            i <= cs.len(),
            cs@ == line@,
            forall|k: int| 0 <= k < i ==> is_space(#[trigger] cs@[k]),
        decreases cs.len() - i,
    {
        if !is_space_char(cs[i]) {
            return false;
        }
        i += 1;
    }
    true
}

/// Lays out the highlighted lines of a block: as they are, or as a shell
/// transcript in which each non-blank line gets a prompt, blank lines inside
/// the block become blank rows and a blank last line is dropped.
pub fn assemble_lines(lines: &Vec<String>, htmls: &Vec<String>, shell_prompt: bool) -> (r: String)
    requires
        lines.len() == htmls.len(),
    ensures
        r@ == block_markup(views(lines@), views(htmls@), shell_prompt),
{
    let mut out = String::new();
    let mut i: usize = 0;
    while i < lines.len()
        invariant
            i <= lines.len(),
            lines.len() == htmls.len(),
            out@ == transcript(views(lines@), views(htmls@), shell_prompt, i as nat),
        decreases lines.len() - i,
    {
        let line = lines[i].as_str();
        let html = htmls[i].as_str();
        let ghost before = out@;
        if !shell_prompt {
            out.append(html);
        } else if is_blank_line(line) {
            if i + 1 < lines.len() {
                out.append(BLANK_ROW);
            }
        } else {
            out.append(PROMPT_OPEN);
            push_without_newlines(&mut out, html);
            out.append(PROMPT_CLOSE);
        }
        assert(out@ == before + line_output(
            views(lines@)[i as int],
            views(htmls@)[i as int],
            i + 1 == lines.len(),
            shell_prompt,
        ));
        i += 1;
    }
    out
}

/// Colours code with syntect's bundled grammars and themes.
pub struct Highlighter {
    syntax_set: SyntaxSet,
    theme: Option<Theme>,
}

impl Highlighter {
    /// Loads the bundled grammars and the `base16-ocean.dark` theme (or, failing
    /// that, the first bundled theme).
    pub fn new() -> Self {
        let syntax_set = SyntaxSet::load_defaults_newlines();
        let themes = ThemeSet::load_defaults();
        let theme = match theme_named(&themes, "base16-ocean.dark") {
            Some(t) => Some(t),
            None => first_theme(&themes),
        };
        Highlighter { syntax_set, theme }
    }

    /// The markup of each line: coloured by the grammar for `language` when
    /// one is found, otherwise (and for any line the grammar cannot take) the
    /// line escaped.
    pub fn highlight_lines(&self, lines: &Vec<String>, language: Option<&str>) -> (r: Vec<String>)
        ensures
            views(r@) == line_markups(opt_str_view(language), views(lines@)),
            r.len() == lines.len(),
    {
        let l = match language {
            Some(l) => l,
            None => {
                return plain_markups(lines);
            },
        };
        let cs = match colour_block(self, l, lines) {
            Some(cs) => cs,
            None => {
                return plain_markups(lines);
            },
        };
        let ghost target = line_markups(opt_str_view(language), views(lines@));
        let mut out: Vec<String> = Vec::new();
        let mut i: usize = 0;
        while i < lines.len()
            invariant
                i <= lines.len(),
                cs.len() == lines.len(),
                opt_lines_view(Some(cs)) == coloured_lines(l@, views(lines@)),
                target == line_markups(opt_str_view(language), views(lines@)),
                opt_str_view(language) == Some(l@),
                views(out@) == target.take(i as int),
                out.len() == i,
            decreases lines.len() - i,
        {
            let html = match &cs[i] {
                Some(h) => h.clone(),
                None => escape_html(lines[i].as_str()),
            };
            let ghost before = views(out@);
            out.push(html);
            proof {
                assert(cs@.map_values(|o: Option<String>| opt_view(o))[i as int] == opt_view(cs@[i as int]));
                assert(views(out@) =~= before.push(html@));
                assert(target.take(i + 1) =~= target.take(i as int).push(target[i as int]));
            }
            i += 1;
        }
        assert(target.take(i as int) =~= target);
        out
    }

    /// The highlighted markup of a code block, laid out as a shell transcript
    /// when `shell_prompt` is set. Without a language, or in one that syntect
    /// has no grammar for, the lines are only escaped.
    pub fn highlight_code_block(&self, code: &str, language: Option<&str>, shell_prompt: bool) -> (r:
        String)
        ensures
            r@ == block_markup(
                lines_of(code@),
                line_markups(opt_str_view(language), lines_of(code@)),
                shell_prompt,
            ),
    {
        let cs = chars_of(code);
        let lines = lines_with_endings(&cs);
        let htmls = self.highlight_lines(&lines, language);
        assemble_lines(&lines, &htmls, shell_prompt)
    }
}

/// Each line escaped.
fn plain_markups(lines: &Vec<String>) -> (r: Vec<String>)
    ensures
        views(r@) == plain_lines(views(lines@)),
        r.len() == lines.len(),
{
    let mut out: Vec<String> = Vec::new();
    let mut i: usize = 0;
    while i < lines.len()
        invariant
            i <= lines.len(),
            views(out@) == plain_lines(views(lines@)).take(i as int),
            out.len() == i,
        decreases lines.len() - i,
    {
        let ghost before = out@;
        out.push(escape_html(lines[i].as_str()));
        proof {
            assert(views(out@) =~= views(before).push(escaped(lines@[i as int]@)));
            assert(views(out@) =~= plain_lines(views(lines@)).take(i + 1));
        }
        i += 1;
    }
    assert(plain_lines(views(lines@)).take(lines.len() as int) =~= plain_lines(views(lines@)));
    out
}

/// The view of an optional string slice.
pub open spec fn opt_str_view(o: Option<&str>) -> Option<Seq<char>> {
    match o {
        Some(s) => Some(s@),
        None => None,
    }
}

/// Coloured lines where syntect gave them, escaped lines elsewhere.
pub open spec fn coloured_or_escaped(cs: Seq<Option<Seq<char>>>, lines: Seq<Seq<char>>) -> Seq<
    Seq<char>,
> {
    Seq::new(
        lines.len(),
        |i: int|
            match cs[i] {
                Some(h) => h,
                None => escaped(lines[i]),
            },
    )
}

/// The markup of each line of a block: without a language, or when syntect
/// has no grammar for it, each line escaped; otherwise each line coloured,
/// or escaped where syntect cannot take it.
pub open spec fn line_markups(lang: Option<Seq<char>>, lines: Seq<Seq<char>>) -> Seq<Seq<char>> {
    match lang {
        None => plain_lines(lines),
        Some(l) => match coloured_lines(l, lines) {
            None => plain_lines(lines),
            Some(cs) => coloured_or_escaped(cs, lines),
        },
    }
}

} // verus!
