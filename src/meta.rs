//! Document metadata: publication dates, titles, draft flags, and the small
//! parsers used on front-matter values.

use vstd::prelude::*;

use crate::render::Event;
use crate::text::chars_of;

verus! {

/// A calendar date, ordered by year, then month, then day.
#[derive(Clone, Copy, Debug, PartialEq, Eq, Structural, PartialOrd, Ord, Hash)]
pub struct Date {
    pub year: u16,
    pub month: u8,
    pub day: u8,
}

/// A number that orders dates as (year, month, day) does.
pub open spec fn date_key(d: Date) -> int {
    d.year as int * 65536 + d.month as int * 256 + d.day as int
}

impl Date {
    /// Whether `self` comes strictly before `other`.
    pub fn is_before(&self, other: &Date) -> (r: bool)
        ensures
            r == (date_key(*self) < date_key(*other)),
    {
        if self.year != other.year {
            self.year < other.year
        } else if self.month != other.month {
            self.month < other.month
        } else {
            self.day < other.day
        }
    }
}

/// What a document's front matter says about it.
pub struct PostMeta {
    pub title: String,
    pub published: Date,
    pub draft: bool,
}

/// A document: its identifier (also used in image paths), its metadata, its
/// markdown source, and the events of that source.
pub struct Post {
    pub id: String,
    pub meta: PostMeta,
    pub markdown: String,
    pub events: Vec<Event>,
}

/// `s` without one pair of matching single or double quotes around it.
pub open spec fn unquoted(s: Seq<char>) -> Seq<char> {
    if s.len() >= 2 && ((s[0] == '\'' && s.last() == '\'') || (s[0] == '"' && s.last() == '"')) {
        s.subrange(1, s.len() - 1)
    } else {
        s
    }
}

/// Removes one pair of matching single or double quotes around a value.
pub fn strip_quotes(value: &str) -> (r: &str)
    ensures
        r@ == unquoted(value@),
{
    let cs = chars_of(value);
    let n = cs.len();
    if n >= 2 {
        let first = cs[0];
        let last = cs[n - 1];
        if (first == '\'' && last == '\'') || (first == '"' && last == '"') {
            return value.substring_char(1, n - 1);
        }
    }
    value
}

/// Whether `c` is an ASCII digit.
pub open spec fn is_digit(c: char) -> bool {
    48 <= c as u32 <= 57
}

/// The value of an ASCII digit.
pub open spec fn digit_value(c: char) -> int {
    c as u32 - 48
}

/// The number written by the digits `s[from..to]`.
pub open spec fn number(s: Seq<char>, from: int, to: int) -> int
    decreases to - from,
{
    if to <= from {
        0
    } else {
        number(s, from, to - 1) * 10 + digit_value(s[to - 1])
    }
}

/// Whether position `i` of a `YYYY-MM-DD` date holds what it should: a dash
/// at 4 and 7, a digit elsewhere.
pub open spec fn shaped_at(s: Seq<char>, i: int) -> bool {
    if i == 4 || i == 7 {
        s[i] == '-'
    } else {
        is_digit(s[i])
    }
}

/// Whether `s` has the shape `YYYY-MM-DD`.
pub open spec fn date_shaped(s: Seq<char>) -> bool {
    &&& s.len() == 10
    &&& forall|i: int| 0 <= i < 10 ==> #[trigger] shaped_at(s, i)
}

/// The date written as `YYYY-MM-DD`, with a month from 1 to 12 and a day from
/// 1 to 31.
pub open spec fn date_of(s: Seq<char>) -> Option<(u16, u8, u8)> {
    if date_shaped(s) && 1 <= number(s, 5, 7) <= 12 && 1 <= number(s, 8, 10) <= 31 {
        Some((number(s, 0, 4) as u16, number(s, 5, 7) as u8, number(s, 8, 10) as u8))
    } else {
        None
    }
}

proof fn lemma_number_bound(s: Seq<char>, from: int, to: int)
    requires
        0 <= from <= to <= s.len(),
        forall|i: int| from <= i < to ==> is_digit(#[trigger] s[i]),
    ensures
        0 <= number(s, from, to),
        to - from <= 4 ==> number(s, from, to) < 10000,
        to - from <= 3 ==> number(s, from, to) < 1000,
        to - from <= 2 ==> number(s, from, to) < 100,
        to - from <= 1 ==> number(s, from, to) < 10,
    decreases to - from,
{
    if to > from {
        lemma_number_bound(s, from, to - 1);
    }
}

fn parse_number(cs: &Vec<char>, from: usize, to: usize) -> (r: u32)
    requires
        from <= to <= cs.len(),
        to - from <= 4,
        forall|i: int| from <= i < to ==> is_digit(#[trigger] cs@[i]),
    ensures
        r == number(cs@, from as int, to as int),
{
    let mut v: u32 = 0;
    let mut i: usize = from;
    while i < to
        invariant
            from <= i <= to,
            to <= cs.len(),
            to - from <= 4,
            forall|k: int| from <= k < to ==> is_digit(#[trigger] cs@[k]),
            v == number(cs@, from as int, i as int),
        decreases to - i,
    {
        proof {
            lemma_number_bound(cs@, from as int, i + 1);
        }
        v = v * 10 + (cs[i] as u32 - 48);
        i += 1;
    }
    v
}

/// Reads a `YYYY-MM-DD` date; anything else, or a month or day out of range,
/// gives `None`.
pub fn parse_date(value: &str) -> (r: Option<(u16, u8, u8)>)
    ensures
        r == date_of(value@),
{
    let cs = chars_of(value);
    if cs.len() != 10 {
        return None;
    }
    let mut i: usize = 0;
    while i < 10
        invariant
            i <= 10,
            cs.len() == 10,
            cs@ == value@,
            forall|k: int| 0 <= k < i ==> #[trigger] shaped_at(cs@, k),
        decreases 10 - i,
    {
        let c = cs[i];
        let u = c as u32;
        let ok = if i == 4 || i == 7 {
            c == '-'
        } else {
            48 <= u && u <= 57
        };
        if !ok {
            assert(!shaped_at(cs@, i as int));
            return None;
        }
        i += 1;
    }
    assert(date_shaped(cs@));
    assert forall|k: int| 0 <= k < 4 implies is_digit(#[trigger] cs@[k]) by {
        assert(shaped_at(cs@, k));
    }
    assert forall|k: int| 5 <= k < 7 implies is_digit(#[trigger] cs@[k]) by {
        assert(shaped_at(cs@, k));
    }
    assert forall|k: int| 8 <= k < 10 implies is_digit(#[trigger] cs@[k]) by {
        assert(shaped_at(cs@, k));
    }
    proof {
        lemma_number_bound(cs@, 0, 4);
        lemma_number_bound(cs@, 5, 7);
        lemma_number_bound(cs@, 8, 10);
    }
    let year = parse_number(&cs, 0, 4);
    let month = parse_number(&cs, 5, 7);
    let day = parse_number(&cs, 8, 10);
    if month < 1 || month > 12 || day < 1 || day > 31 {
        return None;
    }
    Some((year as u16, month as u8, day as u8))
}

} // verus!
