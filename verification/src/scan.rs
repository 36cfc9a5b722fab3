//! Scanning a line from left to right: runs of one character class, and
//! occurrences of a fixed text.

use vstd::prelude::*;
use crate::text::{is_blank, is_blank_char, is_identifier, is_identifier_char, is_whitespace, is_whitespace_char};

verus! {

/// The character classes that the scanner knows.
#[derive(Clone, Copy, Debug)]
pub enum CharClass {
    /// Spaces and tabs.
    Blank,
    /// The characters of an identifier token.
    Identifier,
    /// The characters with the Unicode property `White_Space`.
    Whitespace,
}

impl CharClass {
    /// Whether `ch` belongs to the class.
    pub open spec fn has(self, ch: char) -> bool {
        match self {
            CharClass::Blank => is_blank(ch),
            CharClass::Identifier => is_identifier_char(ch),
            CharClass::Whitespace => is_whitespace(ch),
        }
    }

    /// Tells whether `ch` belongs to the class.
    pub fn holds(self, ch: char) -> (b: bool)
        ensures
            b == self.has(ch),
    {
        match self {
            CharClass::Blank => is_blank_char(ch),
            CharClass::Identifier => is_identifier(ch),
            CharClass::Whitespace => is_whitespace_char(ch),
        }
    }
}

/// Every character of `s` belongs to `class`.
pub open spec fn all_in(s: Seq<char>, class: CharClass) -> bool {
    forall|i: int| 0 <= i < s.len() ==> class.has(#[trigger] s[i])
}

/// The position at which the longest run of characters of `class` that
/// starts at `from` ends. It is `from` itself where no such character
/// stands at `from`.
pub open spec fn run_end(s: Seq<char>, class: CharClass, from: int) -> int
    decreases s.len() - from,
{
    if 0 <= from < s.len() && class.has(s[from]) {
        run_end(s, class, from + 1)
    } else {
        from
    }
}

/// `run_end` stops at the first character outside the class, or at the end
/// of the line.
pub proof fn lemma_run_end(s: Seq<char>, class: CharClass, from: int)
    requires
        0 <= from <= s.len(),
    ensures
        from <= run_end(s, class, from) <= s.len(),
        all_in(s.subrange(from, run_end(s, class, from)), class),
        run_end(s, class, from) < s.len() ==> !class.has(s[run_end(s, class, from)]),
    decreases s.len() - from,
{
    if from < s.len() && class.has(s[from]) {
        lemma_run_end(s, class, from + 1);
        let end = run_end(s, class, from);
        assert forall|i: int| 0 <= i < end - from implies class.has(
            #[trigger] s.subrange(from, end)[i],
        ) by {
            if i > 0 {
                assert(s.subrange(from + 1, end)[i - 1] == s[from + i]);
            }
        }
    }
}

/// A position that ends a run of `class` from `from`, with a character
/// outside the class (or nothing) behind it, is `run_end`.
pub proof fn lemma_run_end_is(s: Seq<char>, class: CharClass, from: int, end: int)
    requires
        0 <= from <= end <= s.len(),
        all_in(s.subrange(from, end), class),
        end < s.len() ==> !class.has(s[end]),
    ensures
        run_end(s, class, from) == end,
    decreases end - from,
{
    if from < end {
        assert(s.subrange(from, end)[0] == s[from]);
        assert forall|i: int| 0 <= i < end - (from + 1) implies class.has(
            #[trigger] s.subrange(from + 1, end)[i],
        ) by {
            assert(s.subrange(from, end)[i + 1] == s[from + 1 + i]);
        }
        lemma_run_end_is(s, class, from + 1, end);
    }
}

/// Finds where the run of characters of `class` that starts at `from` ends.
pub fn scan(s: &[char], class: CharClass, from: usize) -> (end: usize)
    ensures
        end == run_end(s@, class, from as int),
        from <= end,
        from <= s.len() ==> end <= s.len(),
{
    if from > s.len() {
        return from;
    }
    let mut i: usize = from;
    while i < s.len() && class.holds(s[i])
        invariant
            from <= i <= s.len(),
            run_end(s@, class, i as int) == run_end(s@, class, from as int),
        decreases s.len() - i,
    {
        i += 1;
    }
    i
}

/// The text `p` stands in `s` at position `at`.
pub open spec fn has_prefix_at(s: Seq<char>, at: int, p: Seq<char>) -> bool {
    0 <= at && at + p.len() <= s.len() && s.subrange(at, at + p.len()) == p
}

/// The text `p` stands somewhere in `s`.
pub open spec fn occurs_in(s: Seq<char>, p: Seq<char>) -> bool {
    exists|at: int| has_prefix_at(s, at, p)
}

/// Where `p` stands at `at`, the characters of `s` from `at` on are those
/// of `p`.
pub proof fn lemma_prefix_chars(s: Seq<char>, at: int, p: Seq<char>)
    requires
        has_prefix_at(s, at, p),
    ensures
        forall|i: int| 0 <= i < p.len() ==> s[at + i] == #[trigger] p[i],
{
    assert forall|i: int| 0 <= i < p.len() implies s[at + i] == #[trigger] p[i] by {
        assert(s.subrange(at, at + p.len())[i] == s[at + i]);
    }
}

/// Where `a + b` stands at `at`, `a` stands at `at` and `b` behind it.
pub proof fn lemma_prefix_split(s: Seq<char>, at: int, a: Seq<char>, b: Seq<char>)
    requires
        has_prefix_at(s, at, a + b),
    ensures
        has_prefix_at(s, at, a),
        has_prefix_at(s, at + a.len(), b),
{
    let whole = s.subrange(at, at + (a + b).len());
    assert(s.subrange(at, at + a.len()) =~= whole.subrange(0, a.len() as int));
    assert(s.subrange(at + a.len(), at + a.len() + b.len()) =~= whole.subrange(
        a.len() as int,
        (a + b).len() as int,
    ));
    assert((a + b).subrange(0, a.len() as int) =~= a);
    assert((a + b).subrange(a.len() as int, (a + b).len() as int) =~= b);
}

/// `mid` stands in `head + mid + tail` behind `head`.
pub proof fn lemma_prefix_in_concat(head: Seq<char>, mid: Seq<char>, tail: Seq<char>)
    ensures
        has_prefix_at(head + mid + tail, head.len() as int, mid),
{
    assert((head + mid + tail).subrange(head.len() as int, (head.len() + mid.len()) as int) =~= mid);
}

/// Tells whether the text `p` stands in `s` at position `at`.
pub fn starts_with_at(s: &[char], at: usize, p: &[char]) -> (b: bool)
    ensures
        b == has_prefix_at(s@, at as int, p@),
{
    if at > s.len() || p.len() > s.len() - at {
        return false;
    }
    let mut k: usize = 0;
    while k < p.len()
        invariant
            at + p.len() <= s.len(),
            k <= p.len(),
            s@.subrange(at as int, at + k) == p@.subrange(0, k as int),
        decreases p.len() - k,
    {
        if s[at + k] != p[k] {
            proof {
                assert(s@.subrange(at as int, at + p.len())[k as int] == s@[at + k]);
            }
            return false;
        }
        k += 1;
        assert(s@.subrange(at as int, at + k) =~= p@.subrange(0, k as int)) by {
            assert forall|i: int| 0 <= i < k implies s@.subrange(at as int, at + k)[i]
                == p@.subrange(0, k as int)[i] by {
                if i < k - 1 {
                    assert(s@.subrange(at as int, at + k - 1)[i] == p@.subrange(0, k - 1)[i]);
                }
            }
        }
    }
    assert(p@.subrange(0, k as int) =~= p@);
    true
}

/// The first position from `from` on at which `p` stands in `s`, or the
/// length of `s` (or `from`, if that is greater) where there is none.
pub open spec fn find_from(s: Seq<char>, p: Seq<char>, from: int) -> int
    decreases s.len() - from,
{
    if from < 0 || from >= s.len() || has_prefix_at(s, from, p) {
        from
    } else {
        find_from(s, p, from + 1)
    }
}

/// `find_from` passes over no occurrence of `p`, and stops at one or at the
/// end of `s`.
pub proof fn lemma_find_from(s: Seq<char>, p: Seq<char>, from: int)
    requires
        0 <= from <= s.len(),
    ensures
        from <= find_from(s, p, from) <= s.len(),
        forall|i: int| from <= i < find_from(s, p, from) ==> !has_prefix_at(s, i, p),
        find_from(s, p, from) < s.len() ==> has_prefix_at(s, find_from(s, p, from), p),
    decreases s.len() - from,
{
    if from < s.len() && !has_prefix_at(s, from, p) {
        lemma_find_from(s, p, from + 1);
    }
}

/// A position that no occurrence of `p` precedes from `from` on, and that
/// is an occurrence or the end of `s`, is `find_from`.
pub proof fn lemma_find_from_is(s: Seq<char>, p: Seq<char>, from: int, at: int)
    requires
        0 <= from <= at <= s.len(),
        forall|i: int| from <= i < at ==> !has_prefix_at(s, i, p),
        at < s.len() ==> has_prefix_at(s, at, p),
    ensures
        find_from(s, p, from) == at,
    decreases at - from,
{
    if from < at {
        lemma_find_from_is(s, p, from + 1, at);
    }
}

/// Finds the first position from `from` on at which `p` stands in `s`; the
/// length of `s` where there is none.
pub fn find(s: &[char], p: &[char], from: usize) -> (at: usize)
    ensures
        at == find_from(s@, p@, from as int),
        from <= at,
        from <= s.len() ==> at <= s.len(),
{
    if from > s.len() {
        return from;
    }
    let mut i: usize = from;
    while i < s.len() && !starts_with_at(s, i, p)
        invariant
            from <= i <= s.len(),
            find_from(s@, p@, i as int) == find_from(s@, p@, from as int),
        decreases s.len() - i,
    {
        i += 1;
    }
    i
}

} // verus!
