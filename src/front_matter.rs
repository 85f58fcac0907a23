//! Front matter: the `---`-delimited header of a document, holding its title,
//! publication date and draft flag, followed by the markdown body.

use vstd::prelude::*;

use crate::highlight::skip_spaces;
use crate::meta::{date_of, parse_date, unquoted, Date};
use crate::text::{chars_of, equals_str, is_space, is_space_char, lines_of, lines_with_endings, push_char, string_of, views};

verus! {

/// Why a document's front matter could not be read.
#[derive(Clone, Copy, Debug, PartialEq, Eq, Structural)]
pub enum FrontMatterError {
    /// The first line is not `---`.
    MissingOpening,
    /// No later line is `---`.
    Unterminated,
    /// The given line (counting from 1) has no `key: value` shape.
    InvalidLine(usize),
    /// `draft` is neither `true` nor `false`.
    InvalidDraft,
    MissingTitle,
    MissingPublished,
    /// `published` is not a `YYYY-MM-DD` date.
    InvalidDate,
    MissingDraft,
}

/// What the front matter of a document gives.
pub struct FrontMatter {
    pub title: String,
    pub published: Date,
    pub draft: bool,
    /// The lines after the closing `---`, joined with newlines.
    pub markdown: String,
}

/// A line without its line ending (`\n` or `\r\n`).
pub open spec fn without_line_end(l: Seq<char>) -> Seq<char> {
    if l.len() > 0 && l.last() == '\n' {
        let a = l.drop_last();
        if a.len() > 0 && a.last() == '\r' {
            a.drop_last()
        } else {
            a
        }
    } else {
        l
    }
}

/// The lines of a text, without their line endings.
pub open spec fn text_lines(s: Seq<char>) -> Seq<Seq<char>> {
    lines_of(s).map_values(|l: Seq<char>| without_line_end(l))
}

/// The end of `s[..j]` once trailing whitespace is dropped.
pub open spec fn trim_end_at(s: Seq<char>, j: int) -> int
    decreases j,
{
    if 0 < j <= s.len() && is_space(s[j - 1]) {
        trim_end_at(s, j - 1)
    } else {
        j
    }
}

/// `s` without leading and trailing whitespace.
pub open spec fn trimmed(s: Seq<char>) -> Seq<char> {
    let a = skip_spaces(s, 0);
    let b = trim_end_at(s, s.len() as int);
    if a >= b {
        Seq::empty()
    } else {
        s.subrange(a, b)
    }
}

/// The index of the first `c` in `s` at or after `i`, or -1.
pub open spec fn index_from(s: Seq<char>, c: char, i: int) -> int
    decreases s.len() - i,
{
    if i < 0 || i >= s.len() {
        -1
    } else if s[i] == c {
        i
    } else {
        index_from(s, c, i + 1)
    }
}

/// The index of the first `c` in `s`, or -1.
pub open spec fn first_index_of(s: Seq<char>, c: char) -> int {
    index_from(s, c, 0)
}

/// The values read so far from the front matter.
pub struct Fields {
    pub title: Option<Seq<char>>,
    pub published: Option<Seq<char>>,
    pub draft: Option<bool>,
    pub error: Option<FrontMatterError>,
}

/// Reading one front-matter line (`number` counts from 1): blank lines are
/// skipped; otherwise the line must be `key: value`, where the value loses
/// surrounding whitespace and one pair of quotes; `title`, `published` and
/// `draft` are kept (a later line wins) and other keys are ignored.
pub open spec fn read_field(f: Fields, line: Seq<char>, number: int) -> Fields {
    let t = trimmed(line);
    let c = first_index_of(t, ':');
    if f.error is Some || t.len() == 0 {
        f
    } else if c < 0 {
        Fields { error: Some(FrontMatterError::InvalidLine(number as usize)), ..f }
    } else {
        let key = trimmed(t.take(c));
        let value = unquoted(trimmed(t.skip(c + 1)));
        if key == "title"@ {
            Fields { title: Some(value), ..f }
        } else if key == "published"@ {
            Fields { published: Some(value), ..f }
        } else if key == "draft"@ {
            if value == "true"@ {
                Fields { draft: Some(true), ..f }
            } else if value == "false"@ {
                Fields { draft: Some(false), ..f }
            } else {
                Fields { error: Some(FrontMatterError::InvalidDraft), ..f }
            }
        } else {
            f
        }
    }
}

/// The fields read from `lines[1..n]`.
pub open spec fn read_fields(lines: Seq<Seq<char>>, n: int) -> Fields
    decreases n,
{
    if n <= 1 {
        Fields { title: None, published: None, draft: None, error: None }
    } else {
        read_field(read_fields(lines, n - 1), lines[n - 1], n)
    }
}

/// The index of the first line at or after `k` that is `---` once trimmed, or
/// the number of lines.
pub open spec fn closing_line(lines: Seq<Seq<char>>, k: int) -> int
    decreases lines.len() - k,
{
    if k >= lines.len() || k < 0 {
        lines.len() as int
    } else if trimmed(lines[k]) == "---"@ {
        k
    } else {
        closing_line(lines, k + 1)
    }
}

/// Lines joined with newlines between them.
pub open spec fn joined(ls: Seq<Seq<char>>) -> Seq<char>
    decreases ls.len(),
{
    if ls.len() == 0 {
        Seq::empty()
    } else if ls.len() == 1 {
        ls[0]
    } else {
        joined(ls.drop_last()) + seq!['\n'] + ls.last()
    }
}

/// The front matter of a document: title, date, draft flag and body, or the
/// first thing wrong with it.
pub open spec fn front_matter_of(content: Seq<char>) -> Result<
    (Seq<char>, (u16, u8, u8), bool, Seq<char>),
    FrontMatterError,
> {
    let lines = text_lines(content);
    let k = closing_line(lines, 1);
    let f = read_fields(lines, k);
    if lines.len() == 0 || trimmed(lines[0]) != "---"@ {
        Err(FrontMatterError::MissingOpening)
    } else if k >= lines.len() {
        Err(FrontMatterError::Unterminated)
    } else if f.error is Some {
        Err(f.error.unwrap())
    } else if f.title is None {
        Err(FrontMatterError::MissingTitle)
    } else if f.published is None {
        Err(FrontMatterError::MissingPublished)
    } else if date_of(f.published.unwrap()) is None {
        Err(FrontMatterError::InvalidDate)
    } else if f.draft is None {
        Err(FrontMatterError::MissingDraft)
    } else {
        Ok(
            (
                f.title.unwrap(),
                date_of(f.published.unwrap()).unwrap(),
                f.draft.unwrap(),
                joined(lines.skip(k + 1)),
            ),
        )
    }
}

fn line_chars(line: &String) -> (r: Vec<char>)
    ensures
        r@ == without_line_end(line@),
{
    let mut cs = chars_of(line.as_str());
    let n = cs.len();
    if n > 0 && cs[n - 1] == '\n' {
        cs.pop();
        let m = cs.len();
        if m > 0 && cs[m - 1] == '\r' {
            cs.pop();
        }
    }
    cs
}

fn sub_chars(cs: &Vec<char>, a: usize, b: usize) -> (r: Vec<char>)
    requires
        a <= b <= cs.len(),
    ensures
        r@ == cs@.subrange(a as int, b as int),
{
    let mut out: Vec<char> = Vec::new();
    let mut i: usize = a;
    while i < b
        invariant
            a <= i <= b,
            b <= cs.len(),
            out@ == cs@.subrange(a as int, i as int),
        decreases b - i,
    {
        out.push(cs[i]);
        i += 1;
    }
    out
}

fn trim_chars(cs: &Vec<char>) -> (r: Vec<char>)
    ensures
        r@ == trimmed(cs@),
{
    let mut a: usize = 0;
    while a < cs.len() && is_space_char(cs[a])
        invariant
            a <= cs.len(),
            skip_spaces(cs@, 0) == skip_spaces(cs@, a as int),
        decreases cs.len() - a,
    {
        a += 1;
    }
    let mut b: usize = cs.len();
    while b > 0 && is_space_char(cs[b - 1])
        invariant
            b <= cs.len(),
            trim_end_at(cs@, cs.len() as int) == trim_end_at(cs@, b as int),
        decreases b,
    {
        b -= 1;
    }
    if a >= b {
        Vec::new()
    } else {
        sub_chars(cs, a, b)
    }
}

fn find_colon(cs: &Vec<char>) -> (r: Option<usize>)
    ensures
        r is None <==> first_index_of(cs@, ':') == -1,
        r matches Some(i) ==> first_index_of(cs@, ':') == i && i < cs.len(),
{
    let mut i: usize = 0;
    while i < cs.len()
        invariant
            i <= cs.len(),
            first_index_of(cs@, ':') == index_from(cs@, ':', i as int),
        decreases cs.len() - i,
    {
        if cs[i] == ':' {
            return Some(i);
        }
        i += 1;
    }
    None
}

/// The views of a sequence of character vectors.
pub open spec fn char_views(v: Seq<Vec<char>>) -> Seq<Seq<char>> {
    v.map_values(|x: Vec<char>| x@)
}

fn unquote_chars(cs: &Vec<char>) -> (r: Vec<char>)
    ensures
        r@ == unquoted(cs@),
{
    let n = cs.len();
    if n >= 2 && ((cs[0] == '\'' && cs[n - 1] == '\'') || (cs[0] == '"' && cs[n - 1] == '"')) {
        sub_chars(cs, 1, n - 1)
    } else {
        sub_chars(cs, 0, n)
    }
}

fn text_lines_of(content: &str) -> (r: Vec<Vec<char>>)
    ensures
        char_views(r@) == text_lines(content@),
{
    let cs = chars_of(content);
    let raw = lines_with_endings(&cs);
    let ghost target = text_lines(content@);
    let mut lines: Vec<Vec<char>> = Vec::new();
    let mut i: usize = 0;
    while i < raw.len()
        invariant
            i <= raw.len(),
            views(raw@) == lines_of(content@),
            target == text_lines(content@),
            char_views(lines@) == target.take(i as int),
        decreases raw.len() - i,
    {
        let l = line_chars(&raw[i]);
        let ghost before = char_views(lines@);
        lines.push(l);
        assert(char_views(lines@) =~= before.push(l@));
        assert(target.take(i + 1) =~= target.take(i as int).push(without_line_end(raw@[i as int]@)));
        i += 1;
    }
    assert(target.take(i as int) =~= target);
    lines
}

proof fn lemma_error_persists(lines: Seq<Seq<char>>, j: int, k: int)
    requires
        j <= k,
        read_fields(lines, j).error is Some,
    ensures
        read_fields(lines, k).error == read_fields(lines, j).error,
    decreases k - j,
{
    if j < k {
        lemma_error_persists(lines, j, k - 1);
    }
}

fn is_key(cs: &Vec<char>, key: &str) -> (r: bool)
    ensures
        r == (cs@ == key@),
{
    equals_str(cs, key)
}

/// Reads the front matter of a document: a first line `---`, `key: value`
/// lines up to the next `---` line, then the markdown body. `title`,
/// `published` (as `YYYY-MM-DD`) and `draft` (`true` or `false`) are required;
/// other keys are ignored.
pub fn parse_front_matter(content: &str) -> (r: Result<FrontMatter, FrontMatterError>)
    ensures
        match front_matter_of(content@) {
            Ok((title, (y, m, d), draft, body)) => r matches Ok(fm) && fm.title@ == title
                && fm.published == (Date { year: y, month: m, day: d }) && fm.draft == draft
                && fm.markdown@ == body,
            Err(e) => r matches Err(x) && x == e,
        },
{
    let lines = text_lines_of(content);
    let ghost ls = char_views(lines@);
    if lines.len() == 0 || !equals_str(&trim_chars(&lines[0]), "---") {
        return Err(FrontMatterError::MissingOpening);
    }
    let mut k: usize = 1;
    while k < lines.len() && !equals_str(&trim_chars(&lines[k]), "---")
        invariant
            1 <= k <= lines.len(),
            ls == char_views(lines@),
            closing_line(ls, 1) == closing_line(ls, k as int),
        decreases lines.len() - k,
    {
        k += 1;
    }
    if k >= lines.len() {
        return Err(FrontMatterError::Unterminated);
    }
    let mut title: Option<Vec<char>> = None;
    let mut published: Option<Vec<char>> = None;
    let mut draft: Option<bool> = None;
    let mut j: usize = 1;
    while j < k
        invariant
            1 <= j <= k < lines.len(),
            ls == char_views(lines@),
            ls == text_lines(content@),
            closing_line(ls, 1) == k,
            trimmed(ls[0]) == "---"@,
            ({
                let f = read_fields(ls, j as int);
                &&& f.error is None
                &&& f.title == match title {
                    Some(t) => Some(t@),
                    None => None::<Seq<char>>,
                }
                &&& f.published == match published {
                    Some(t) => Some(t@),
                    None => None::<Seq<char>>,
                }
                &&& f.draft == draft
            }),
        decreases k - j,
    {
        let t = trim_chars(&lines[j]);
        if t.len() > 0 {
            match find_colon(&t) {
                None => {
                    assert(trimmed(ls[j as int]) == t@);
                    assert(read_fields(ls, j + 1).error == Some(FrontMatterError::InvalidLine((j + 1) as usize)));
                    proof {
                        lemma_error_persists(ls, j + 1, k as int);
                    }
                    return Err(FrontMatterError::InvalidLine(j + 1));
                },
                Some(c) => {
                    let key = trim_chars(&sub_chars(&t, 0, c));
                    let value = unquote_chars(&trim_chars(&sub_chars(&t, c + 1, t.len())));
                    assert(t@.take(c as int) == t@.subrange(0, c as int));
                    assert(t@.skip(c + 1) == t@.subrange(c + 1, t@.len() as int));
                    if is_key(&key, "title") {
                        title = Some(value);
                    } else if is_key(&key, "published") {
                        published = Some(value);
                    } else if is_key(&key, "draft") {
                        if equals_str(&value, "true") {
                            draft = Some(true);
                        } else if equals_str(&value, "false") {
                            draft = Some(false);
                        } else {
                            assert(trimmed(ls[j as int]) == t@);
                            assert(read_fields(ls, j + 1).error == Some(FrontMatterError::InvalidDraft));
                            proof {
                                lemma_error_persists(ls, j + 1, k as int);
                            }
                            return Err(FrontMatterError::InvalidDraft);
                        }
                    }
                },
            }
        }
        j += 1;
    }
    let title = match title {
        Some(t) => string_of(&t),
        None => {
            return Err(FrontMatterError::MissingTitle);
        },
    };
    let published = match published {
        Some(p) => string_of(&p),
        None => {
            return Err(FrontMatterError::MissingPublished);
        },
    };
    let (year, month, day) = match parse_date(published.as_str()) {
        Some(d) => d,
        None => {
            return Err(FrontMatterError::InvalidDate);
        },
    };
    let draft = match draft {
        Some(d) => d,
        None => {
            return Err(FrontMatterError::MissingDraft);
        },
    };
    let ghost body = ls.skip(k + 1);
    let mut markdown = String::new();
    let mut m: usize = k + 1;
    while m < lines.len()
        invariant
            k + 1 <= m <= lines.len(),
            ls == char_views(lines@),
            body == ls.skip(k + 1),
            markdown@ == joined(body.take(m - k - 1)),
        decreases lines.len() - m,
    {
        let ghost before = markdown@;
        if m > k + 1 {
            push_char(&mut markdown, '\n');
        }
        let line = string_of(&lines[m]);
        markdown.append(line.as_str());
        proof {
            let n = m - k - 1;
            assert(body.take(n + 1).drop_last() =~= body.take(n));
            assert(body.take(n + 1).last() == ls[m as int]);
            if n == 0 {
                assert(markdown@ =~= joined(body.take(n + 1)));
            } else {
                assert(markdown@ =~= joined(body.take(n + 1)));
            }
        }
        m += 1;
    }
    assert(body.take(m - k - 1) =~= body);
    Ok(FrontMatter { title, published: Date { year, month, day }, draft, markdown })
}

} // verus!
