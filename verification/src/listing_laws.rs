//! What holds of the splitter and of the parse of a whole listing, on all
//! inputs.

use vstd::prelude::*;
use crate::codec::CodecView;
use crate::error::{Fault, LineFailure, ListingFailure};
use crate::grammar::parse_line;
use crate::listing::{
    lemma_data_start, lemma_failure_stays, lemma_parse_lines, line_feed, lines_from,
    listing_lines, parse_lines, parse_listing, separator, trim_end, trim_start, trimmed,
};
use crate::scan::{
    all_in, find_from, has_prefix_at, lemma_find_from, lemma_find_from_is, lemma_prefix_chars,
    lemma_prefix_split, lemma_run_end, lemma_run_end_is, occurs_in, CharClass,
};
use crate::text::is_whitespace;

verus! {

/// Fail fast: where line `k` is the first that is no record, the lines
/// have no records at all: the result is the failure of line `k`, with the
/// text of that line.
pub proof fn law_fail_fast(lines: Seq<Seq<char>>, k: int)
    requires
        0 <= k < lines.len(),
        parse_line(lines[k]) is Err,
        forall|i: int| 0 <= i < k ==> parse_line(#[trigger] lines[i]) is Ok,
    ensures
        parse_lines(lines) == Err::<Seq<CodecView>, LineFailure>(
            LineFailure { line: lines[k], fault: parse_line(lines[k])->Err_0 },
        ),
{
    law_all_lines_parse(lines.take(k));
    assert(lines.take(k + 1).drop_last() =~= lines.take(k));
    assert(lines.take(k + 1).last() == lines[k]);
    lemma_failure_stays(lines, k + 1);
}

/// Where every line is a record, the lines have as many records as there
/// are lines, in the order of the lines.
pub proof fn law_all_lines_parse(lines: Seq<Seq<char>>)
    requires
        forall|i: int| 0 <= i < lines.len() ==> parse_line(#[trigger] lines[i]) is Ok,
    ensures
        parse_lines(lines) == Ok::<Seq<CodecView>, LineFailure>(
            Seq::new(lines.len(), |i: int| parse_line(lines[i])->Ok_0),
        ),
    decreases lines.len(),
{
    let found = Seq::new(lines.len(), |i: int| parse_line(lines[i])->Ok_0);
    if lines.len() == 0 {
        assert(found =~= Seq::<CodecView>::empty());
    } else {
        let front = lines.drop_last();
        assert forall|i: int| 0 <= i < front.len() implies parse_line(#[trigger] front[i]) is Ok by {
            assert(front[i] == lines[i]);
        }
        law_all_lines_parse(front);
        let front_found = Seq::new(front.len(), |i: int| parse_line(front[i])->Ok_0);
        assert(front_found.push(parse_line(lines.last())->Ok_0) =~= found);
    }
}

/// Missing separator: a text has no data section, and the parse says so,
/// exactly where the separator stands nowhere in it.
pub proof fn law_missing_separator(text: Seq<char>)
    ensures
        parse_listing(text) == Err::<Seq<CodecView>, ListingFailure>(
            ListingFailure::MissingDataSection,
        ) <==> !occurs_in(text, separator()),
{
    lemma_data_start(text);
}

/// Records in order: the records of a listing are those of its lines, one
/// for each line and in the order of the lines; and a listing fails on a
/// line exactly where that line is the first that is no record.
pub proof fn law_records_follow_lines(text: Seq<char>)
    requires
        listing_lines(text) is Some,
    ensures
        ({
            let lines = listing_lines(text)->0;
            match parse_listing(text) {
                Ok(found) => {
                    &&& found.len() == lines.len()
                    &&& forall|i: int|
                        0 <= i < lines.len() ==> parse_line(#[trigger] lines[i]) == Ok::<
                            CodecView,
                            Fault,
                        >(found[i])
                },
                Err(ListingFailure::Line(failure)) => exists|k: int|
                    {
                        &&& 0 <= k < lines.len()
                        &&& failure.line == #[trigger] lines[k]
                        &&& parse_line(lines[k]) == Err::<CodecView, Fault>(failure.fault)
                        &&& forall|i: int| 0 <= i < k ==> parse_line(#[trigger] lines[i]) is Ok
                    },
                Err(ListingFailure::MissingDataSection) => false,
            }
        }),
{
    lemma_parse_lines(listing_lines(text)->0);
}

/// A line as the splitter hands it on: not empty, without a line feed,
/// and without whitespace at its two ends.
pub open spec fn is_clean_line(line: Seq<char>) -> bool {
    &&& line.len() > 0
    &&& !is_whitespace(line[0])
    &&& !is_whitespace(line.last())
    &&& forall|i: int| 0 <= i < line.len() ==> line[i] != '\n'
}

/// Every line of `lines` is clean.
pub open spec fn clean_lines(lines: Seq<Seq<char>>) -> bool {
    forall|i: int| 0 <= i < lines.len() ==> is_clean_line(#[trigger] lines[i])
}

/// The lines one behind the other, a line feed behind each.
pub open spec fn unlines(lines: Seq<Seq<char>>) -> Seq<char>
    decreases lines.len(),
{
    if lines.len() == 0 {
        Seq::empty()
    } else {
        lines[0] + line_feed() + unlines(lines.drop_first())
    }
}

/// A listing: a header, the separator, a line feed and the data lines.
pub open spec fn listing_text(header: Seq<char>, lines: Seq<Seq<char>>) -> Seq<char> {
    header + separator() + line_feed() + unlines(lines)
}

/// Where the trailing whitespace of `s` begins.
pub proof fn lemma_trim_end(s: Seq<char>)
    ensures
        0 <= trim_end(s) <= s.len(),
        trim_end(s) > 0 ==> !is_whitespace(s[trim_end(s) - 1]),
        forall|i: int| trim_end(s) <= i < s.len() ==> is_whitespace(s[i]),
    decreases s.len(),
{
    if s.len() > 0 && is_whitespace(s.last()) {
        lemma_trim_end(s.drop_last());
        assert forall|i: int| trim_end(s) <= i < s.len() implies is_whitespace(s[i]) by {
            if i < s.len() - 1 {
                assert(s.drop_last()[i] == s[i]);
            }
        }
    }
}

/// Trimming leaves a line that is not empty, has no whitespace at its two
/// ends and lies within the text that was trimmed.
proof fn lemma_trimmed(s: Seq<char>)
    ensures
        trimmed(s).len() > 0 ==> {
            &&& !is_whitespace(trimmed(s)[0])
            &&& !is_whitespace(trimmed(s).last())
            &&& 0 <= trim_start(s) < trim_end(s) <= s.len()
        },
{
    lemma_trim_end(s);
    lemma_run_end(s, CharClass::Whitespace, 0);
}

/// Trimming: a text is whitespace, then its trimming, then whitespace
/// again; the trimming has no whitespace at its two ends, and it is empty
/// exactly where the text is whitespace throughout.
pub proof fn law_trim(s: Seq<char>)
    ensures
        trimmed(s).len() == 0 <==> all_in(s, CharClass::Whitespace),
        trimmed(s).len() > 0 ==> {
            &&& s == s.take(trim_start(s)) + trimmed(s) + s.skip(trim_end(s))
            &&& all_in(s.take(trim_start(s)), CharClass::Whitespace)
            &&& all_in(s.skip(trim_end(s)), CharClass::Whitespace)
            &&& !is_whitespace(trimmed(s)[0])
            &&& !is_whitespace(trimmed(s).last())
        },
{
    lemma_trim_end(s);
    lemma_run_end(s, CharClass::Whitespace, 0);
    lemma_trimmed(s);
    let from = trim_start(s);
    let to = trim_end(s);
    if from < to {
        assert(trimmed(s)[0] == s[from]);
        assert(s =~= s.take(from) + trimmed(s) + s.skip(to));
        assert(s.take(from) =~= s.subrange(0, from));
    } else {
        if from < s.len() {
            assert(is_whitespace(s[from]));
        }
        assert(s.subrange(0, from) =~= s);
    }
    if all_in(s, CharClass::Whitespace) {
        assert(s.subrange(0, s.len() as int) =~= s);
        lemma_run_end_is(s, CharClass::Whitespace, 0, s.len() as int);
    }
}

/// A clean line is its own trimming.
proof fn lemma_clean_line_trimmed(line: Seq<char>)
    requires
        is_clean_line(line),
    ensures
        trimmed(line) == line,
{
    lemma_trim_end(line);
    assert(line.subrange(0, line.len() as int) =~= line);
}

/// A line feed stands where the character is a line feed.
proof fn lemma_line_feed_at(s: Seq<char>, at: int)
    ensures
        has_prefix_at(s, at, line_feed()) <==> 0 <= at < s.len() && s[at] == '\n',
{
    if 0 <= at < s.len() {
        assert(line_feed()[0] == '\n');
        if s[at] == '\n' {
            assert(s.subrange(at, at + 1) =~= line_feed());
        } else {
            assert(s.subrange(at, at + 1)[0] == s[at]);
        }
    }
}

/// The lines of a text are clean.
pub proof fn law_lines_are_clean(s: Seq<char>, from: int)
    requires
        0 <= from <= s.len(),
    ensures
        clean_lines(lines_from(s, from)),
    decreases s.len() - from,
{
    if from < s.len() {
        let end = find_from(s, line_feed(), from);
        lemma_find_from(s, line_feed(), from);
        let piece = s.subrange(from, end);
        let line = trimmed(piece);
        let rest = if end < s.len() {
            lines_from(s, end + 1)
        } else {
            Seq::empty()
        };
        if end < s.len() {
            law_lines_are_clean(s, end + 1);
        }
        if line.len() > 0 {
            lemma_trimmed(piece);
            assert forall|i: int| 0 <= i < line.len() implies line[i] != '\n' by {
                lemma_line_feed_at(s, from + trim_start(piece) + i);
            }
            assert(is_clean_line(line));
            assert forall|i: int| 0 <= i < lines_from(s, from).len() implies is_clean_line(
                #[trigger] lines_from(s, from)[i],
            ) by {
                if i > 0 {
                    assert(lines_from(s, from)[i] == rest[i - 1]);
                }
            }
        }
    }
}

/// Lines that stand in a text one behind the other, a line feed behind
/// each, up to the end of the text, are the lines of the text from there.
proof fn lemma_unlines(s: Seq<char>, at: int, lines: Seq<Seq<char>>)
    requires
        clean_lines(lines),
        has_prefix_at(s, at, unlines(lines)),
        at + unlines(lines).len() == s.len(),
    ensures
        lines_from(s, at) == lines,
    decreases lines.len(),
{
    if lines.len() == 0 {
        assert(lines_from(s, at) =~= lines);
    } else {
        let line = lines[0];
        let rest = lines.drop_first();
        let end = at + line.len();
        assert(is_clean_line(line));
        assert(clean_lines(rest)) by {
            assert forall|i: int| 0 <= i < rest.len() implies is_clean_line(#[trigger] rest[i]) by {
                assert(rest[i] == lines[i + 1]);
            }
        }
        assert(unlines(lines) =~= line + (line_feed() + unlines(rest)));
        lemma_prefix_split(s, at, line, line_feed() + unlines(rest));
        lemma_prefix_split(s, end, line_feed(), unlines(rest));
        lemma_prefix_chars(s, at, line);
        assert forall|i: int| at <= i < end implies !has_prefix_at(s, i, line_feed()) by {
            lemma_line_feed_at(s, i);
            assert(s[at + (i - at)] == line[i - at]);
        }
        lemma_find_from_is(s, line_feed(), at, end);
        lemma_clean_line_trimmed(line);
        lemma_unlines(s, end + 1, rest);
        if end + 1 == s.len() {
            assert(rest.len() == 0) by {
                if rest.len() > 0 {
                    assert(is_clean_line(rest[0]));
                }
            }
        }
        assert(lines_from(s, at) =~= lines);
    }
}

/// Split and join: a listing made of a header in which (with the separator
/// behind it) the separator stands nowhere before the header's end, the
/// separator, and clean lines with a line feed behind each, has exactly
/// those lines as its data lines.
pub proof fn law_lines_of_listing(header: Seq<char>, lines: Seq<Seq<char>>)
    requires
        forall|i: int| 0 <= i < header.len() ==> !has_prefix_at(header + separator(), i, separator()),
        clean_lines(lines),
    ensures
        listing_lines(listing_text(header, lines)) == Some(lines),
{
    reveal_strlit("-------");
    let text = listing_text(header, lines);
    let at = header.len() as int;
    let start = at + separator().len();
    assert(text =~= header + (separator() + (line_feed() + unlines(lines))));
    assert(text.subrange(0, text.len() as int) =~= text);
    lemma_prefix_split(text, 0, header, separator() + (line_feed() + unlines(lines)));
    lemma_prefix_split(text, at, separator(), line_feed() + unlines(lines));
    lemma_prefix_split(text, start, line_feed(), unlines(lines));
    assert forall|i: int| 0 <= i < at implies !has_prefix_at(text, i, separator()) by {
        if has_prefix_at(text, i, separator()) {
            assert((header + separator()).subrange(i, i + separator().len()) =~= text.subrange(
                i,
                i + separator().len(),
            ));
            assert(has_prefix_at(header + separator(), i, separator()));
        }
    }
    lemma_find_from_is(text, separator(), 0, at);
    lemma_line_feed_at(text, start);
    lemma_find_from_is(text, line_feed(), start, start);
    assert(trimmed(text.subrange(start, start)) =~= Seq::<char>::empty()) by {
        lemma_trim_end(text.subrange(start, start));
    }
    lemma_unlines(text, start + 1, lines);
    if start + 1 == text.len() {
        assert(lines_from(text, start) =~= lines);
    }
}

/// Fail fast on a whole listing: where line `k` of such a listing is the
/// first that is no record, the listing has no records: its parse is the
/// failure of line `k`, with the text of that line.
pub proof fn law_fail_fast_listing(header: Seq<char>, lines: Seq<Seq<char>>, k: int)
    requires
        forall|i: int| 0 <= i < header.len() ==> !has_prefix_at(header + separator(), i, separator()),
        clean_lines(lines),
        0 <= k < lines.len(),
        parse_line(lines[k]) is Err,
        forall|i: int| 0 <= i < k ==> parse_line(#[trigger] lines[i]) is Ok,
    ensures
        parse_listing(listing_text(header, lines)) == Err::<Seq<CodecView>, ListingFailure>(
            ListingFailure::Line(
                LineFailure { line: lines[k], fault: parse_line(lines[k])->Err_0 },
            ),
        ),
{
    law_lines_of_listing(header, lines);
    law_fail_fast(lines, k);
}

} // verus!
