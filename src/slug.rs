//! Heading anchors: slug derivation and per-document collision numbering.

use vstd::prelude::*;

use crate::text::{chars_of, decimal, lemma_decimal_injective, lemma_decimal_nonempty, push_decimal, string_of};

verus! {

/// What `str::to_lowercase` returns for the given characters.
pub uninterp spec fn lower_of(s: Seq<char>) -> Seq<char>;

/// Relies on `str::to_lowercase`: the Unicode lowercase mapping, which depends on
/// the characters alone; an empty string stays empty.
#[verifier::external_body]
fn lowercase(s: &str) -> (r: String)
    ensures
        r@ == lower_of(s@),
        s@.len() == 0 ==> r@.len() == 0,
{
    s.to_lowercase()
}

/// ASCII letters and digits.
pub open spec fn is_ascii_alnum(c: char) -> bool {
    let u = c as u32;
    (48 <= u <= 57) || (65 <= u <= 90) || (97 <= u <= 122)
}

fn is_ascii_alnum_char(c: char) -> (r: bool)
    ensures
        r == is_ascii_alnum(c),
{
    let u = c as u32;
    (48 <= u && u <= 57) || (65 <= u && u <= 90) || (97 <= u && u <= 122)
}

/// `s` with every ASCII letter or digit kept and every run of other characters
/// turned into a single hyphen; a run at the very start leaves no hyphen.
pub open spec fn dash_runs(s: Seq<char>) -> Seq<char>
    decreases s.len(),
{
    if s.len() == 0 {
        Seq::empty()
    } else {
        let prev = dash_runs(s.drop_last());
        let c = s.last();
        if is_ascii_alnum(c) {
            prev.push(c)
        } else if prev.len() == 0 || prev.last() == '-' {
            prev
        } else {
            prev.push('-')
        }
    }
}

/// The slug of already lowercased text: runs of characters other than ASCII
/// letters and digits become one hyphen, with no hyphen at either end.
pub open spec fn slug_of(s: Seq<char>) -> Seq<char> {
    let d = dash_runs(s);
    if d.len() > 0 && d.last() == '-' {
        d.drop_last()
    } else {
        d
    }
}

/// The slug of heading text, before collision numbering (possibly empty).
pub open spec fn slugified(text: Seq<char>) -> Seq<char> {
    slug_of(lower_of(text))
}

/// The base slug of a heading: its slug, or `section` when that is empty.
pub open spec fn heading_base(text: Seq<char>) -> Seq<char> {
    if slugified(text).len() == 0 {
        "section"@
    } else {
        slugified(text)
    }
}

/// The slug handed to the `n`-th heading (counting from 1) with base `base`.
pub open spec fn numbered_slug(base: Seq<char>, n: nat) -> Seq<char> {
    if n <= 1 {
        base
    } else {
        base + seq!['-'] + decimal(n)
    }
}

/// The slug of text that is already lowercase.
pub fn slugify_lowered(lowered: &str) -> (r: String)
    ensures
        r@ == slug_of(lowered@),
{
    let cs = chars_of(lowered);
    let mut out: Vec<char> = Vec::new();
    let mut i: usize = 0;
    while i < cs.len()
        invariant
            i <= cs.len(),
            out@ == dash_runs(cs@.take(i as int)),
        decreases cs.len() - i,
    {
        let c = cs[i];
        proof {
            assert(cs@.take(i + 1).drop_last() == cs@.take(i as int));
        }
        if is_ascii_alnum_char(c) {
            out.push(c);
        } else if out.len() > 0 && out[out.len() - 1] != '-' {
            out.push('-');
        }
        i += 1;
    }
    proof {
        assert(cs@.take(cs.len() as int) == cs@);
    }
    if out.len() > 0 && out[out.len() - 1] == '-' {
        out.pop();
    }
    string_of(&out)
}

/// The slug of heading text: lowercased, then reduced to ASCII letters and
/// digits with single hyphens between runs; `section` when nothing is left.
pub fn slugify(text: &str) -> (r: String)
    ensures
        r@ == heading_base(text@),
        r@.len() > 0,
        text@.len() == 0 ==> r@ == "section"@,
{
    let lowered = lowercase(text);
    let s = slugify_lowered(lowered.as_str());
    if s.as_str().is_empty() {
        proof {
            reveal_strlit("section");
        }
        String::from_str("section")
    } else {
        s
    }
}

/// The count recorded for `base` in `m`, zero when absent.
pub open spec fn count_in(m: Map<Seq<char>, nat>, base: Seq<char>) -> nat {
    if m.contains_key(base) {
        m[base]
    } else {
        0
    }
}

/// How many headings have claimed each base slug so far in one document.
pub struct SlugRegistry {
    keys: Vec<String>,
    counts: Vec<usize>,
    model: Ghost<Map<Seq<char>, nat>>,
}

impl View for SlugRegistry {
    type V = Map<Seq<char>, nat>;

    closed spec fn view(&self) -> Map<Seq<char>, nat> {
        self.model@
    }
}

impl SlugRegistry {
    /// The internal lists agree with the map of counts.
    pub closed spec fn wf(&self) -> bool {
        &&& self.keys.len() == self.counts.len()
        &&& forall|i: int, j: int|
            0 <= i < self.keys.len() && 0 <= j < self.keys.len() && i != j ==> #[trigger] self.keys@[i]@
                != #[trigger] self.keys@[j]@
        &&& forall|i: int|
            0 <= i < self.keys.len() ==> self.model@.contains_key(#[trigger] self.keys@[i]@)
                && self.model@[self.keys@[i]@] == self.counts@[i]
        &&& forall|k: Seq<char>|
            #[trigger] self.model@.contains_key(k) ==> exists|i: int|
                0 <= i < self.keys.len() && self.keys@[i]@ == k
    }

    /// How many headings have claimed `base`.
    pub open spec fn count(&self, base: Seq<char>) -> nat {
        count_in(self@, base)
    }

    /// An empty registry, as at the start of a document.
    pub fn new() -> (r: Self)
        ensures
            r.wf(),
            r@ == Map::<Seq<char>, nat>::empty(),
    {
        SlugRegistry { keys: Vec::new(), counts: Vec::new(), model: Ghost(Map::empty()) }
    }

    /// Records one more heading with base slug `base` and returns the slug it gets:
    /// `base` for the first one, `base-N` for the N-th.
    pub fn claim(&mut self, base: String) -> (r: String)
        requires
            old(self).wf(),
            old(self).count(base@) < usize::MAX,
        ensures
            final(self).wf(),
            final(self)@ == old(self)@.insert(base@, old(self).count(base@) + 1),
            r@ == numbered_slug(base@, old(self).count(base@) + 1),
    {
        let mut j: usize = 0;
        let mut found = false;
        while j < self.keys.len()
            invariant_except_break
                !found,
                forall|i: int| 0 <= i < j ==> self.keys@[i]@ != base@,
            invariant
                j <= self.keys.len(),
            ensures
                j <= self.keys.len(),
                found ==> j < self.keys.len() && self.keys@[j as int]@ == base@,
                !found ==> forall|i: int| 0 <= i < self.keys.len() ==> self.keys@[i]@ != base@,
            decreases self.keys.len() - j,
        {
            if self.keys[j] == base {
                found = true;
                break;
            }
            j += 1;
        }
        let n: usize;
        if found {
            assert(self.model@.contains_key(self.keys@[j as int]@));
            n = self.counts[j] + 1;
            self.counts.set(j, n);
            self.model = Ghost(self.model@.insert(base@, n as nat));
            assert forall|k: Seq<char>| #[trigger] self.model@.contains_key(k) implies exists|i: int|
                0 <= i < self.keys.len() && self.keys@[i]@ == k by {
                if k != base@ {
                    assert(old(self).model@.contains_key(k));
                    let i = choose|i: int| 0 <= i < old(self).keys.len() && old(self).keys@[i]@ == k;
                    assert(self.keys@[i]@ == k);
                } else {
                    assert(self.keys@[j as int]@ == k);
                }
            }
        } else {
            assert(!self.model@.contains_key(base@));
            n = 1;
            self.keys.push(base.clone());
            self.counts.push(1);
            self.model = Ghost(self.model@.insert(base@, 1));
            assert forall|k: Seq<char>| #[trigger] self.model@.contains_key(k) implies exists|i: int|
                0 <= i < self.keys.len() && self.keys@[i]@ == k by {
                if k != base@ {
                    assert(old(self).model@.contains_key(k));
                    let i = choose|i: int| 0 <= i < old(self).keys.len() && old(self).keys@[i]@ == k;
                    assert(self.keys@[i]@ == k);
                } else {
                    assert(self.keys@[self.keys.len() - 1]@ == k);
                }
            }
        }
        if n == 1 {
            base
        } else {
            let mut out = base;
            out.append("-");
            proof {
                reveal_strlit("-");
            }
            push_decimal(&mut out, n as u64);
            out
        }
    }

    /// The anchor slug for a heading with text `text`: its base slug (or
    /// `section` when that is empty), numbered by how many headings claimed it
    /// before.
    pub fn unique_slug(&mut self, text: &str) -> (r: String)
        requires
            old(self).wf(),
            forall|k: Seq<char>| old(self)@.contains_key(k) ==> #[trigger] old(self)@[k] < usize::MAX,
        ensures
            final(self).wf(),
            final(self)@ == old(self)@.insert(
                heading_base(text@),
                old(self).count(heading_base(text@)) + 1,
            ),
            r@ == numbered_slug(heading_base(text@), old(self).count(heading_base(text@)) + 1),
    {
        self.claim(slugify(text))
    }
}

/// Headings that share one base slug are numbered in document order: the first
/// keeps the base, the n-th (n ≥ 2) gets `base-n`, and no two of them get the
/// same slug.
pub proof fn lemma_shared_base_numbering(base: Seq<char>, i: nat, j: nat)
    requires
        1 <= i < j,
    ensures
        numbered_slug(base, 1) == base,
        numbered_slug(base, j) == base + seq!['-'] + decimal(j),
        numbered_slug(base, i) != numbered_slug(base, j),
{
    lemma_decimal_nonempty(j);
    if i == 1 {
        assert(numbered_slug(base, j).len() > base.len());
    } else {
        let si = numbered_slug(base, i);
        let sj = numbered_slug(base, j);
        if si == sj {
            let p = base.len() + 1;
            assert(si.subrange(p as int, si.len() as int) == decimal(i));
            assert(sj.subrange(p as int, sj.len() as int) == decimal(j));
            lemma_decimal_injective(i, j);
        }
    }
}

/// The registry after claiming `bases` in order, starting from an empty one;
/// each claim is the step that `SlugRegistry::claim` takes.
pub open spec fn registry_after(bases: Seq<Seq<char>>) -> Map<Seq<char>, nat>
    decreases bases.len(),
{
    if bases.len() == 0 {
        Map::empty()
    } else {
        let m = registry_after(bases.drop_last());
        m.insert(bases.last(), count_in(m, bases.last()) + 1)
    }
}

/// The slug handed to the `i`-th of the claims `bases`, made in order from an
/// empty registry.
pub open spec fn slug_at(bases: Seq<Seq<char>>, i: int) -> Seq<char> {
    numbered_slug(bases[i], count_in(registry_after(bases.take(i)), bases[i]) + 1)
}

/// How many of `bases` equal `b`.
pub open spec fn occurrences(bases: Seq<Seq<char>>, b: Seq<char>) -> nat
    decreases bases.len(),
{
    if bases.len() == 0 {
        0
    } else {
        occurrences(bases.drop_last(), b) + if bases.last() == b {
            1nat
        } else {
            0nat
        }
    }
}

proof fn lemma_registry_counts(bases: Seq<Seq<char>>, b: Seq<char>)
    ensures
        count_in(registry_after(bases), b) == occurrences(bases, b),
    decreases bases.len(),
{
    if bases.len() > 0 {
        lemma_registry_counts(bases.drop_last(), b);
    }
}

proof fn lemma_occurrences_grow(bases: Seq<Seq<char>>, b: Seq<char>, i: int, j: int)
    requires
        0 <= i < j <= bases.len(),
        bases[i] == b,
    ensures
        occurrences(bases.take(j), b) >= occurrences(bases.take(i), b) + 1,
    decreases j - i,
{
    if j == i + 1 {
        assert(bases.take(j).drop_last() =~= bases.take(i));
    } else {
        lemma_occurrences_grow(bases, b, i, j - 1);
        assert(bases.take(j).drop_last() =~= bases.take(j - 1));
    }
}

/// Numbering over a whole document: claiming the base slugs `bases` in order
/// from an empty registry (other bases may come in between), the claim at `i`
/// gets its base numbered by how many earlier claims had that base, plus one;
/// so the claims of one base get `base`, `base-2`, `base-3`, ... in order, no
/// two of them alike, and the registry ends with each base's number of claims.
pub proof fn lemma_document_numbering(bases: Seq<Seq<char>>, i: int, j: int)
    requires
        0 <= i < j < bases.len(),
        bases[i] == bases[j],
    ensures
        slug_at(bases, i) == numbered_slug(bases[i], occurrences(bases.take(i), bases[i]) + 1),
        slug_at(bases, j) == numbered_slug(bases[j], occurrences(bases.take(j), bases[j]) + 1),
        occurrences(bases.take(i), bases[i]) == 0 ==> slug_at(bases, i) == bases[i],
        slug_at(bases, i) != slug_at(bases, j),
        count_in(registry_after(bases), bases[i]) == occurrences(bases, bases[i]),
{
    let b = bases[i];
    lemma_registry_counts(bases.take(i), b);
    lemma_registry_counts(bases.take(j), b);
    lemma_registry_counts(bases, b);
    lemma_occurrences_grow(bases, b, i, j);
    lemma_shared_base_numbering(
        b,
        occurrences(bases.take(i), b) + 1,
        occurrences(bases.take(j), b) + 1,
    );
}

} // verus!
