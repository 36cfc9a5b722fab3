//! The listing as a whole: a header, a separator, and one codec per line.
//!
//! The data begin behind the first separator. They are cut at line feeds;
//! each piece is trimmed of whitespace at both ends, and the pieces that
//! are then empty are passed over. Every line that is left must be a
//! record: the first that is none fails the whole listing.

use vstd::prelude::*;
use vstd::slice::{slice_subrange, slice_to_vec};
use crate::codec::{records, Codec, CodecView};
use crate::error::{Fault, LineFailure, ListingFailure, ParseError};
use crate::grammar::parse_line;
use crate::scan::{
    find, find_from, has_prefix_at, lemma_find_from, occurs_in, run_end, scan, CharClass,
};
use crate::text::{chars_of, is_whitespace, is_whitespace_char};

verus! {

/// The run of dashes that parts the header of a listing from its data.
pub open spec fn separator() -> Seq<char> {
    "-------"@
}

/// The text that ends a line.
pub open spec fn line_feed() -> Seq<char> {
    seq!['\n']
}

/// The position behind the first separator of `text`, where it has one.
pub open spec fn data_start(text: Seq<char>) -> Option<int> {
    let at = find_from(text, separator(), 0);
    if at < text.len() {
        Some(at + separator().len())
    } else {
        None
    }
}

/// A text has a data section exactly where the separator stands in it.
pub proof fn lemma_data_start(text: Seq<char>)
    ensures
        data_start(text) is Some <==> occurs_in(text, separator()),
        data_start(text) matches Some(start) ==> separator().len() <= start <= text.len(),
{
    reveal_strlit("-------");
    lemma_find_from(text, separator(), 0);
    if data_start(text) is Some {
        assert(has_prefix_at(text, find_from(text, separator(), 0), separator()));
    }
}

/// The position behind the last character of `s` that is no whitespace;
/// 0 where there is none.
pub open spec fn trim_end(s: Seq<char>) -> int
    decreases s.len(),
{
    if s.len() > 0 && is_whitespace(s.last()) {
        trim_end(s.drop_last())
    } else {
        s.len() as int
    }
}

/// The position of the first character of `s` that is no whitespace; the
/// length of `s` where there is none.
pub open spec fn trim_start(s: Seq<char>) -> int {
    run_end(s, CharClass::Whitespace, 0)
}

/// `s` without the whitespace at its two ends.
pub open spec fn trimmed(s: Seq<char>) -> Seq<char> {
    if trim_start(s) < trim_end(s) {
        s.subrange(trim_start(s), trim_end(s))
    } else {
        Seq::empty()
    }
}

/// The lines of `s` from `from` on: the pieces between line feeds, each
/// trimmed, without those that are then empty.
pub open spec fn lines_from(s: Seq<char>, from: int) -> Seq<Seq<char>>
    decreases s.len() - from,
    via lines_from_terminates
{
    if from < 0 || from >= s.len() {
        Seq::empty()
    } else {
        let end = find_from(s, line_feed(), from);
        let line = trimmed(s.subrange(from, end));
        let rest = if end < s.len() {
            lines_from(s, end + 1)
        } else {
            Seq::empty()
        };
        if line.len() > 0 {
            seq![line] + rest
        } else {
            rest
        }
    }
}

#[via_fn]
proof fn lines_from_terminates(s: Seq<char>, from: int) {
    if 0 <= from < s.len() {
        lemma_find_from(s, line_feed(), from);
    }
}

/// The data lines of a listing; `None` where the text has no separator.
pub open spec fn listing_lines(text: Seq<char>) -> Option<Seq<Seq<char>>> {
    match data_start(text) {
        None => None,
        Some(start) => Some(lines_from(text, start)),
    }
}

/// The records of `lines`, in their order; or the first line that is no
/// record, with the place and the token at which it fails.
pub open spec fn parse_lines(lines: Seq<Seq<char>>) -> Result<Seq<CodecView>, LineFailure>
    decreases lines.len(),
{
    if lines.len() == 0 {
        Ok(Seq::empty())
    } else {
        match parse_lines(lines.drop_last()) {
            Err(failure) => Err(failure),
            Ok(found) => match parse_line(lines.last()) {
                Ok(record) => Ok(found.push(record)),
                Err(fault) => Err(LineFailure { line: lines.last(), fault }),
            },
        }
    }
}

/// The records of a listing, or why it has none.
pub open spec fn parse_listing(text: Seq<char>) -> Result<Seq<CodecView>, ListingFailure> {
    match listing_lines(text) {
        None => Err(ListingFailure::MissingDataSection),
        Some(lines) => match parse_lines(lines) {
            Ok(found) => Ok(found),
            Err(failure) => Err(ListingFailure::Line(failure)),
        },
    }
}

/// Every record of `found` is well formed.
pub open spec fn all_well_formed(found: Seq<CodecView>) -> bool {
    forall|i: int| 0 <= i < found.len() ==> (#[trigger] found[i]).well_formed()
}

/// The character sequences of a vector of lines.
pub open spec fn rows(lines: Seq<Vec<char>>) -> Seq<Seq<char>> {
    Seq::new(lines.len(), |i: int| lines[i]@)
}

/// Finds the position behind the last character of `s` that is no
/// whitespace.
pub fn scan_back(s: &[char]) -> (end: usize)
    ensures
        end == trim_end(s@),
        end <= s.len(),
{
    let mut end: usize = s.len();
    assert(s@.take(end as int) =~= s@);
    while end > 0 && is_whitespace_char(s[end - 1])
        invariant
            end <= s.len(),
            trim_end(s@.take(end as int)) == trim_end(s@),
        decreases end,
    {
        assert(s@.take(end as int).drop_last() =~= s@.take(end - 1));
        end -= 1;
    }
    end
}

/// Cuts a listing into its data lines. `None` where the text has no
/// separator.
pub fn split_lines(text: &[char]) -> (r: Option<Vec<Vec<char>>>)
    ensures
        match r {
            Some(lines) => listing_lines(text@) == Some(rows(lines@)),
            None => listing_lines(text@) is None,
        },
        r is None <==> !occurs_in(text@, separator()),
{
    proof {
        lemma_data_start(text@);
    }
    let dashes = chars_of("-------");
    let at = find(text, dashes.as_slice(), 0);
    if at >= text.len() {
        return None;
    }
    proof {
        lemma_find_from(text@, separator(), 0);
    }
    let start = at + dashes.len();
    let feed: Vec<char> = vec!['\n'];
    assert(feed@ =~= line_feed());
    let mut lines: Vec<Vec<char>> = Vec::new();
    let mut from: usize = start;
    assert(rows(lines@) + lines_from(text@, from as int) =~= lines_from(text@, start as int));
    while from < text.len()
        invariant
            start <= from <= text.len(),
            feed@ == line_feed(),
            rows(lines@) + lines_from(text@, from as int) == lines_from(text@, start as int),
        decreases text.len() - from,
    {
        let ghost before = lines@;
        let end = find(text, feed.as_slice(), from);
        let piece = slice_subrange(text, from, end);
        let first = scan(piece, CharClass::Whitespace, 0);
        let last = scan_back(piece);
        if first < last {
            lines.push(slice_to_vec(slice_subrange(piece, first, last)));
            assert(rows(lines@) =~= rows(before) + seq![trimmed(piece@)]);
        }
        let next: usize = if end < text.len() {
            end + 1
        } else {
            end
        };
        assert(rows(lines@) + lines_from(text@, next as int) =~= rows(before) + lines_from(
            text@,
            from as int,
        ));
        from = next;
    }
    assert(rows(lines@) =~= lines_from(text@, start as int));
    Some(lines)
}

/// Whether an exec result of [`Codec::parse_from_cli`] is the spec result
/// `expected`.
pub open spec fn listing_match(
    r: Result<Vec<Codec>, ParseError>,
    expected: Result<Seq<CodecView>, ListingFailure>,
) -> bool {
    match (r, expected) {
        (Ok(codecs), Ok(found)) => records(codecs@) == found,
        (Err(error), Err(failure)) => error@ == failure,
        _ => false,
    }
}

impl Codec {
    /// Parses the lines of a listing, in their order. The first line that
    /// is no record fails the whole.
    pub fn parse_lines(lines: &Vec<Vec<char>>) -> (r: Result<Vec<Codec>, ParseError>)
        ensures
            listing_match(
                r,
                match parse_lines(rows(lines@)) {
                    Ok(found) => Ok(found),
                    Err(failure) => Err(ListingFailure::Line(failure)),
                },
            ),
            r matches Ok(codecs) ==> all_well_formed(records(codecs@)),
            r matches Err(ParseError::Line(error)) ==> error.offset <= error.line@.len(),
    {
        let mut codecs: Vec<Codec> = Vec::new();
        let mut i: usize = 0;
        assert(rows(lines@).take(0) =~= Seq::<Seq<char>>::empty());
        assert(records(codecs@) =~= Seq::<CodecView>::empty());
        while i < lines.len()
            invariant
                i <= lines.len(),
                parse_lines(rows(lines@).take(i as int)) == Ok::<Seq<CodecView>, LineFailure>(
                    records(codecs@),
                ),
                all_well_formed(records(codecs@)),
            decreases lines.len() - i,
        {
            let ghost before = codecs@;
            assert(rows(lines@).take(i + 1).drop_last() =~= rows(lines@).take(i as int));
            assert(rows(lines@).take(i + 1).last() == lines@[i as int]@);
            match Codec::parse_chars(lines[i].as_slice()) {
                Ok(codec) => {
                    codecs.push(codec);
                    assert(records(codecs@) =~= records(before).push(codec@));
                },
                Err(error) => {
                    proof {
                        lemma_failure_stays(rows(lines@), i + 1);
                    }
                    return Err(ParseError::Line(error));
                },
            }
            i += 1;
        }
        assert(rows(lines@).take(i as int) =~= rows(lines@));
        Ok(codecs)
    }

    /// Parses the whole text of a listing into its records, in the order of
    /// the lines.
    pub fn parse_from_cli(input: &str) -> (r: Result<Vec<Codec>, ParseError>)
        ensures
            listing_match(r, parse_listing(input@)),
            r matches Err(ParseError::MissingDataSection) <==> !occurs_in(input@, separator()),
            r matches Ok(codecs) ==> all_well_formed(records(codecs@)),
            r matches Err(ParseError::Line(error)) ==> error.offset <= error.line@.len(),
    {
        proof {
            lemma_data_start(input@);
        }
        let text = chars_of(input);
        match split_lines(text.as_slice()) {
            None => Err(ParseError::MissingDataSection),
            Some(lines) => Codec::parse_lines(&lines),
        }
    }
}

/// The records of lines are those of each line, in the order of the
/// lines; a failure is that of the first line that is no record.
pub proof fn lemma_parse_lines(lines: Seq<Seq<char>>)
    ensures
        match parse_lines(lines) {
            Ok(found) => {
                &&& found.len() == lines.len()
                &&& forall|i: int|
                    0 <= i < lines.len() ==> parse_line(#[trigger] lines[i]) == Ok::<
                        CodecView,
                        Fault,
                    >(found[i])
            },
            Err(failure) => exists|k: int|
                {
                    &&& 0 <= k < lines.len()
                    &&& failure.line == #[trigger] lines[k]
                    &&& parse_line(lines[k]) == Err::<CodecView, Fault>(failure.fault)
                    &&& forall|i: int| 0 <= i < k ==> parse_line(#[trigger] lines[i]) is Ok
                },
        },
    decreases lines.len(),
{
    if lines.len() > 0 {
        let front = lines.drop_last();
        lemma_parse_lines(front);
        match parse_lines(front) {
            Ok(found) => {
                assert forall|i: int| 0 <= i < front.len() implies parse_line(#[trigger] lines[i])
                    == Ok::<CodecView, Fault>(found[i]) by {
                    assert(front[i] == lines[i]);
                }
                if parse_line(lines.last()) is Err {
                    let k = lines.len() - 1;
                    assert(lines[k] == lines.last());
                    assert forall|i: int| 0 <= i < k implies parse_line(#[trigger] lines[i]) is Ok by {
                        assert(front[i] == lines[i]);
                    }
                }
            },
            Err(failure) => {
                let k = choose|k: int|
                    {
                        &&& 0 <= k < front.len()
                        &&& failure.line == #[trigger] front[k]
                        &&& parse_line(front[k]) == Err::<CodecView, Fault>(failure.fault)
                        &&& forall|i: int| 0 <= i < k ==> parse_line(#[trigger] front[i]) is Ok
                    };
                assert(front[k] == lines[k]);
                assert forall|i: int| 0 <= i < k implies parse_line(#[trigger] lines[i]) is Ok by {
                    assert(front[i] == lines[i]);
                }
            },
        }
    }
}

/// A failure among the first `n` lines is the failure of the whole.
pub proof fn lemma_failure_stays(lines: Seq<Seq<char>>, n: int)
    requires
        0 <= n <= lines.len(),
        parse_lines(lines.take(n)) is Err,
    ensures
        parse_lines(lines) == parse_lines(lines.take(n)),
    decreases lines.len() - n,
{
    if n < lines.len() {
        assert(lines.take(n + 1).drop_last() =~= lines.take(n));
        lemma_failure_stays(lines, n + 1);
    } else {
        assert(lines.take(n) =~= lines);
    }
}

} // verus!
