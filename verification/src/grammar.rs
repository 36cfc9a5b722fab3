//! The grammar of one line of the listing, and the parser that follows it.
//!
//! A line is read from left to right, and no step is taken back:
//!
//! ```text
//! line       = flag("D") flag("E") kind flag("I") flag("L") flag("S")
//!              blanks extension blanks name [ list("encoders") ] [ list("decoders") ]
//! flag(x)    = x | "."
//! kind       = "V" | "A" | "S" | "D" | "T"
//! blanks     = one or more spaces or tabs
//! extension  = token
//! token      = one or more ASCII letters, digits, "_", "-", "."
//! name       = one or more characters, up to the first "(encoders:" or to
//!              the end of the line
//! list(x)    = "(" x ":" blanks token { blanks token } ")"
//! ```
//!
//! A list is read only where its opening text stands; once it has been
//! opened, the rest of it is required. Nothing may follow the record.
//! Every failure is reported with the number of characters before it and
//! the token that was required there.

use vstd::prelude::*;
use crate::codec::{encoders_marker, is_identifier_token, texts, Codec, CodecKind, CodecView};
use crate::error::{Expected, Fault, LineFailure, LineFault, LineParseError};
use crate::scan::{
    find, find_from, has_prefix_at, lemma_find_from, lemma_run_end, run_end, scan, starts_with_at,
    CharClass,
};
use crate::text::{chars_of, is_identifier, is_identifier_char, string_of};

verus! {

/// What a flag position holds: `Some(true)` for the flag's letter,
/// `Some(false)` for a full stop, `None` for anything else or nothing.
pub open spec fn flag_at(s: Seq<char>, at: int, letter: char) -> Option<bool> {
    if 0 <= at < s.len() && s[at] == letter {
        Some(true)
    } else if 0 <= at < s.len() && s[at] == '.' {
        Some(false)
    } else {
        None
    }
}

/// The kind that a letter stands for.
pub open spec fn kind_of(ch: char) -> Option<CodecKind> {
    if ch == 'V' {
        Some(CodecKind::Video)
    } else if ch == 'A' {
        Some(CodecKind::Audio)
    } else if ch == 'S' {
        Some(CodecKind::Subtitle)
    } else if ch == 'D' {
        Some(CodecKind::Data)
    } else if ch == 'T' {
        Some(CodecKind::Attachment)
    } else {
        None
    }
}

/// The kind that the character at `at` stands for.
pub open spec fn kind_at(s: Seq<char>, at: int) -> Option<CodecKind> {
    if 0 <= at < s.len() {
        kind_of(s[at])
    } else {
        None
    }
}

/// The text that opens the list named `coder`.
pub open spec fn clause_prefix(coder: Seq<char>) -> Seq<char> {
    seq!['('] + coder + seq![':']
}

/// Whether a further token of a list follows the token that starts at
/// `at`: blanks behind the token, and an identifier character behind them.
pub open spec fn list_goes_on(s: Seq<char>, at: int) -> bool {
    let end = run_end(s, CharClass::Identifier, at);
    let next = run_end(s, CharClass::Blank, end);
    at < end && end < next && next < s.len() && is_identifier_char(s[next])
}

/// The tokens of the list whose first token starts at `at`: identifier
/// tokens with blanks between them, as many as there are.
pub open spec fn list_items(s: Seq<char>, at: int) -> Seq<Seq<char>>
    decreases s.len() - at,
{
    let end = run_end(s, CharClass::Identifier, at);
    if list_goes_on(s, at) {
        seq![s.subrange(at, end)] + list_items(s, run_end(s, CharClass::Blank, end))
    } else {
        seq![s.subrange(at, end)]
    }
}

/// Where the last token of the list ends whose first token starts at `at`.
pub open spec fn list_end(s: Seq<char>, at: int) -> int
    decreases s.len() - at,
{
    let end = run_end(s, CharClass::Identifier, at);
    if list_goes_on(s, at) {
        list_end(s, run_end(s, CharClass::Blank, end))
    } else {
        end
    }
}

/// The optional list named `coder` at `at`: its tokens and the position
/// behind its closing parenthesis. Where the opening text does not stand at
/// `at`, the list is absent: no tokens, and the position is `at`. Where it
/// does, blanks, at least one token and the parenthesis are required.
pub open spec fn coders_at(s: Seq<char>, at: int, coder: Seq<char>) -> Result<
    (Seq<Seq<char>>, int),
    Fault,
> {
    let first_blank = at + clause_prefix(coder).len();
    let first = run_end(s, CharClass::Blank, first_blank);
    let end = list_end(s, first);
    if !has_prefix_at(s, at, clause_prefix(coder)) {
        Ok((Seq::empty(), at))
    } else if first == first_blank {
        Err(Fault { offset: first_blank, expected: Expected::Whitespace })
    } else if run_end(s, CharClass::Identifier, first) == first {
        Err(Fault { offset: first, expected: Expected::CoderName })
    } else if !(end < s.len() && s[end] == ')') {
        Err(Fault { offset: end, expected: Expected::CloseParen })
    } else {
        Ok((list_items(s, first), end + 1))
    }
}

/// Where the extension starts: behind the blanks that follow the six
/// single characters.
pub open spec fn extension_start(s: Seq<char>) -> int {
    run_end(s, CharClass::Blank, 6)
}

/// Where the extension ends.
pub open spec fn extension_end(s: Seq<char>) -> int {
    run_end(s, CharClass::Identifier, extension_start(s))
}

/// Where the name starts: behind the blanks that follow the extension.
pub open spec fn name_start(s: Seq<char>) -> int {
    run_end(s, CharClass::Blank, extension_end(s))
}

/// Where the name ends: at the first place from its start on at which the
/// text that opens the list of encoders stands, or at the end of the line.
pub open spec fn name_end(s: Seq<char>) -> int {
    find_from(s, encoders_marker(), name_start(s))
}

/// The record that the longest conforming beginning of `s` describes, with
/// the number of characters of that beginning; or the first place at which
/// `s` departs from the grammar.
pub open spec fn grammar(s: Seq<char>) -> Result<(CodecView, int), Fault> {
    let extension_start = extension_start(s);
    let extension_end = extension_end(s);
    let name_start = name_start(s);
    let name_end = name_end(s);
    if flag_at(s, 0, 'D') is None {
        Err(Fault { offset: 0, expected: Expected::DecodableFlag })
    } else if flag_at(s, 1, 'E') is None {
        Err(Fault { offset: 1, expected: Expected::EncodableFlag })
    } else if kind_at(s, 2) is None {
        Err(Fault { offset: 2, expected: Expected::Kind })
    } else if flag_at(s, 3, 'I') is None {
        Err(Fault { offset: 3, expected: Expected::IntraFrameFlag })
    } else if flag_at(s, 4, 'L') is None {
        Err(Fault { offset: 4, expected: Expected::LossyFlag })
    } else if flag_at(s, 5, 'S') is None {
        Err(Fault { offset: 5, expected: Expected::LosslessFlag })
    } else if extension_start == 6 {
        Err(Fault { offset: 6, expected: Expected::Whitespace })
    } else if extension_end == extension_start {
        Err(Fault { offset: extension_start, expected: Expected::Extension })
    } else if name_start == extension_end {
        Err(Fault { offset: extension_end, expected: Expected::Whitespace })
    } else if name_end == name_start {
        Err(Fault { offset: name_start, expected: Expected::Name })
    } else {
        match coders_at(s, name_end, "encoders"@) {
            Err(fault) => Err(fault),
            Ok((encoders, encoders_end)) => match coders_at(s, encoders_end, "decoders"@) {
                Err(fault) => Err(fault),
                Ok((decoders, decoders_end)) => Ok(
                    (
                        CodecView {
                            decodable: flag_at(s, 0, 'D')->0,
                            encodable: flag_at(s, 1, 'E')->0,
                            kind: kind_at(s, 2)->0,
                            intra_frame_only: flag_at(s, 3, 'I')->0,
                            lossy_capable: flag_at(s, 4, 'L')->0,
                            lossless_capable: flag_at(s, 5, 'S')->0,
                            extension: s.subrange(extension_start, extension_end),
                            name: s.subrange(name_start, name_end),
                            encoders,
                            decoders,
                        },
                        decoders_end,
                    ),
                ),
            },
        }
    }
}

/// The record that the line `s` describes, or the first place at which `s`
/// departs from the grammar. Text behind the record is such a departure.
pub open spec fn parse_line(s: Seq<char>) -> Result<CodecView, Fault> {
    match grammar(s) {
        Err(fault) => Err(fault),
        Ok((record, end)) => if end == s.len() {
            Ok(record)
        } else {
            Err(Fault { offset: end, expected: Expected::EndOfLine })
        },
    }
}

/// A list whose first token is not empty has identifier tokens only, at
/// least one, and ends within the line.
pub proof fn lemma_list(s: Seq<char>, at: int)
    requires
        0 <= at < s.len(),
        is_identifier_char(s[at]),
    ensures
        at < list_end(s, at) <= s.len(),
        list_items(s, at).len() > 0,
        forall|i: int|
            0 <= i < list_items(s, at).len() ==> is_identifier_token(#[trigger] list_items(s, at)[i]),
    decreases s.len() - at,
{
    let end = run_end(s, CharClass::Identifier, at);
    lemma_run_end(s, CharClass::Identifier, at);
    lemma_run_end(s, CharClass::Identifier, at + 1);
    assert(is_identifier_token(s.subrange(at, end)));
    if list_goes_on(s, at) {
        let next = run_end(s, CharClass::Blank, end);
        lemma_list(s, next);
        assert forall|i: int| 0 <= i < list_items(s, at).len() implies is_identifier_token(
            #[trigger] list_items(s, at)[i],
        ) by {
            if i > 0 {
                assert(list_items(s, at)[i] == list_items(s, next)[i - 1]);
            }
        }
    }
}

/// A list that is read has identifier tokens only and ends within the
/// line; it has no tokens exactly where its opening text is absent.
pub proof fn lemma_coders_at(s: Seq<char>, at: int, coder: Seq<char>)
    requires
        0 <= at <= s.len(),
    ensures
        match coders_at(s, at, coder) {
            Ok((items, end)) => {
                &&& at <= end <= s.len()
                &&& items.len() == 0 <==> !has_prefix_at(s, at, clause_prefix(coder))
                &&& forall|i: int| 0 <= i < items.len() ==> is_identifier_token(#[trigger] items[i])
            },
            Err(fault) => at <= fault.offset <= s.len(),
        },
{
    if has_prefix_at(s, at, clause_prefix(coder)) {
        let first_blank = at + clause_prefix(coder).len();
        let first = run_end(s, CharClass::Blank, first_blank);
        lemma_run_end(s, CharClass::Blank, first_blank);
        lemma_run_end(s, CharClass::Identifier, first);
        if first != first_blank && run_end(s, CharClass::Identifier, first) != first {
            lemma_list(s, first);
        }
    }
}

/// The text that opens the list of encoders is what ends a name.
pub proof fn lemma_marker()
    ensures
        clause_prefix("encoders"@) == encoders_marker(),
{
    reveal_strlit("(encoders:");
    reveal_strlit("encoders");
    assert(clause_prefix("encoders"@) =~= encoders_marker());
}

/// A record that the grammar yields is well formed, and it ends within the
/// line. A fault lies within the line or at its end.
pub proof fn lemma_grammar(s: Seq<char>)
    ensures
        match grammar(s) {
            Ok((record, end)) => record.well_formed() && name_end(s) <= end <= s.len(),
            Err(fault) => 0 <= fault.offset <= s.len(),
        },
{
    if flag_at(s, 5, 'S') is Some {
        lemma_run_end(s, CharClass::Blank, 6);
        lemma_run_end(s, CharClass::Identifier, extension_start(s));
        lemma_run_end(s, CharClass::Blank, extension_end(s));
        lemma_find_from(s, encoders_marker(), name_start(s));
        let name = s.subrange(name_start(s), name_end(s));
        if name_start(s) < name_end(s) {
            assert(name[0] == s[name_start(s)]);
            assert forall|i: int| !has_prefix_at(name, i, encoders_marker()) by {
                reveal_strlit("(encoders:");
                if has_prefix_at(name, i, encoders_marker()) {
                    assert(name.subrange(i, i + encoders_marker().len()) =~= s.subrange(
                        name_start(s) + i,
                        name_start(s) + i + encoders_marker().len(),
                    ));
                    assert(has_prefix_at(s, name_start(s) + i, encoders_marker()));
                }
            }
            lemma_coders_at(s, name_end(s), "encoders"@);
            lemma_marker();
            if let Ok((encoders, encoders_end)) = coders_at(s, name_end(s), "encoders"@) {
                lemma_coders_at(s, encoders_end, "decoders"@);
            }
        }
    }
}

/// Reads the flag at `at`: `flag` for true, a full stop for false.
pub fn parse_flag(s: &[char], at: usize, flag: char) -> (r: Option<bool>)
    ensures
        r == flag_at(s@, at as int, flag),
{
    if at < s.len() && s[at] == flag {
        Some(true)
    } else if at < s.len() && s[at] == '.' {
        Some(false)
    } else {
        None
    }
}

/// Reads the kind at `at`.
pub fn parse_codec_kind(s: &[char], at: usize) -> (r: Option<CodecKind>)
    ensures
        r == kind_at(s@, at as int),
{
    if at >= s.len() {
        return None;
    }
    let ch = s[at];
    if ch == 'V' {
        Some(CodecKind::Video)
    } else if ch == 'A' {
        Some(CodecKind::Audio)
    } else if ch == 'S' {
        Some(CodecKind::Subtitle)
    } else if ch == 'D' {
        Some(CodecKind::Data)
    } else if ch == 'T' {
        Some(CodecKind::Attachment)
    } else {
        None
    }
}

/// Whether an exec result of [`parse_coders`] is the spec result `expected`.
pub open spec fn coders_match(
    r: Result<(Vec<String>, usize), LineFault>,
    expected: Result<(Seq<Seq<char>>, int), Fault>,
) -> bool {
    match (r, expected) {
        (Ok((items, end)), Ok((spec_items, spec_end))) => texts(items@) == spec_items && end
            == spec_end,
        (Err(fault), Err(spec_fault)) => fault@ == spec_fault,
        _ => false,
    }
}

/// Reads the optional list named `coder` ("encoders" or "decoders") at
/// `at`. Returns its tokens and the position behind it; no tokens and `at`
/// itself where the list is absent.
pub fn parse_coders(s: &[char], at: usize, coder: &str) -> (r: Result<
    (Vec<String>, usize),
    LineFault,
>)
    ensures
        coders_match(r, coders_at(s@, at as int, coder@)),
        r matches Ok((items, end)) ==> at <= end && (at <= s.len() ==> end <= s.len()),
{
    let mut prefix: Vec<char> = Vec::new();
    prefix.push('(');
    let mut label = chars_of(coder);
    prefix.append(&mut label);
    prefix.push(':');
    assert(prefix@ =~= clause_prefix(coder@));
    let mut items: Vec<String> = Vec::new();
    if at > s.len() || !starts_with_at(s, at, prefix.as_slice()) {
        assert(texts(items@) =~= Seq::<Seq<char>>::empty());
        return Ok((items, at));
    }
    let first_blank = at + prefix.len();
    let first = scan(s, CharClass::Blank, first_blank);
    if first == first_blank {
        return Err(LineFault { offset: first_blank, expected: Expected::Whitespace });
    }
    let mut start = first;
    let mut end = scan(s, CharClass::Identifier, start);
    if end == start {
        return Err(LineFault { offset: start, expected: Expected::CoderName });
    }
    loop
        invariant_except_break
            first <= start < end <= s.len(),
            end == run_end(s@, CharClass::Identifier, start as int),
            list_items(s@, first as int) == texts(items@) + list_items(s@, start as int),
            list_end(s@, first as int) == list_end(s@, start as int),
        ensures
            first < end <= s.len(),
            list_items(s@, first as int) == texts(items@),
            list_end(s@, first as int) == end,
        decreases s.len() - start,
    {
        let ghost before = items@;
        items.push(string_of(s, start, end));
        let next = scan(s, CharClass::Blank, end);
        if next > end && next < s.len() && is_identifier(s[next]) {
            assert(list_goes_on(s@, start as int));
            assert(texts(items@) =~= texts(before) + seq![s@.subrange(start as int, end as int)]);
            assert(texts(items@) + list_items(s@, next as int) =~= texts(before) + list_items(
                s@,
                start as int,
            ));
            proof {
                lemma_run_end(s@, CharClass::Identifier, next + 1);
            }
            start = next;
            end = scan(s, CharClass::Identifier, start);
        } else {
            assert(!list_goes_on(s@, start as int));
            assert(texts(items@) =~= texts(before) + list_items(s@, start as int));
            break ;
        }
    }
    if end < s.len() && s[end] == ')' {
        Ok((items, end + 1))
    } else {
        Err(LineFault { offset: end, expected: Expected::CloseParen })
    }
}

/// Whether an exec result of [`Codec::parser`] is the spec result `expected`.
pub open spec fn parser_match(
    r: Result<(Codec, usize), LineFault>,
    expected: Result<(CodecView, int), Fault>,
) -> bool {
    match (r, expected) {
        (Ok((codec, end)), Ok((record, spec_end))) => codec@ == record && end == spec_end,
        (Err(fault), Err(spec_fault)) => fault@ == spec_fault,
        _ => false,
    }
}

/// Whether an exec result of [`Codec::parse`] on `line` is the spec result
/// `expected`: the same record, or the same fault together with the line.
pub open spec fn parse_match(
    r: Result<Codec, LineParseError>,
    line: Seq<char>,
    expected: Result<CodecView, Fault>,
) -> bool {
    match (r, expected) {
        (Ok(codec), Ok(record)) => codec@ == record,
        (Err(error), Err(fault)) => error@ == (LineFailure { line, fault }),
        _ => false,
    }
}

impl Codec {
    /// Reads one record from the beginning of `input` and returns it with
    /// the number of characters that it took. Text may follow the record.
    pub fn parser(input: &[char]) -> (r: Result<(Codec, usize), LineFault>)
        ensures
            parser_match(r, grammar(input@)),
            r matches Ok((codec, end)) ==> codec@.well_formed() && end <= input.len(),
            r matches Err(fault) ==> fault.offset <= input.len(),
    {
        proof {
            lemma_grammar(input@);
        }
        let decodable = match parse_flag(input, 0, 'D') {
            Some(flag) => flag,
            None => return Err(LineFault { offset: 0, expected: Expected::DecodableFlag }),
        };
        let encodable = match parse_flag(input, 1, 'E') {
            Some(flag) => flag,
            None => return Err(LineFault { offset: 1, expected: Expected::EncodableFlag }),
        };
        let kind = match parse_codec_kind(input, 2) {
            Some(kind) => kind,
            None => return Err(LineFault { offset: 2, expected: Expected::Kind }),
        };
        let intra_frame_only = match parse_flag(input, 3, 'I') {
            Some(flag) => flag,
            None => return Err(LineFault { offset: 3, expected: Expected::IntraFrameFlag }),
        };
        let lossy_capable = match parse_flag(input, 4, 'L') {
            Some(flag) => flag,
            None => return Err(LineFault { offset: 4, expected: Expected::LossyFlag }),
        };
        let lossless_capable = match parse_flag(input, 5, 'S') {
            Some(flag) => flag,
            None => return Err(LineFault { offset: 5, expected: Expected::LosslessFlag }),
        };
        let extension_start = scan(input, CharClass::Blank, 6);
        if extension_start == 6 {
            return Err(LineFault { offset: 6, expected: Expected::Whitespace });
        }
        let extension_end = scan(input, CharClass::Identifier, extension_start);
        if extension_end == extension_start {
            return Err(LineFault { offset: extension_start, expected: Expected::Extension });
        }
        let name_start = scan(input, CharClass::Blank, extension_end);
        if name_start == extension_end {
            return Err(LineFault { offset: extension_end, expected: Expected::Whitespace });
        }
        let marker = chars_of("(encoders:");
        let name_end = find(input, marker.as_slice(), name_start);
        if name_end == name_start {
            return Err(LineFault { offset: name_start, expected: Expected::Name });
        }
        let (encoders, encoders_end) = match parse_coders(input, name_end, "encoders") {
            Ok(found) => found,
            Err(fault) => return Err(fault),
        };
        let (decoders, decoders_end) = match parse_coders(input, encoders_end, "decoders") {
            Ok(found) => found,
            Err(fault) => return Err(fault),
        };
        let codec = Codec {
            decodable,
            encodable,
            kind,
            intra_frame_only,
            lossy_capable,
            lossless_capable,
            extension: string_of(input, extension_start, extension_end),
            name: string_of(input, name_start, name_end),
            encoders,
            decoders,
        };
        Ok((codec, decoders_end))
    }

    /// Parses the characters of one line: the whole of `line` must be one
    /// record.
    pub fn parse_chars(line: &[char]) -> (r: Result<Codec, LineParseError>)
        ensures
            parse_match(r, line@, parse_line(line@)),
            r matches Ok(codec) ==> codec@.well_formed(),
            r matches Err(error) ==> error.offset <= line.len(),
    {
        assert(line@.subrange(0, line@.len() as int) =~= line@);
        match Codec::parser(line) {
            Ok((codec, end)) => {
                if end == line.len() {
                    Ok(codec)
                } else {
                    Err(
                        LineParseError {
                            line: string_of(line, 0, line.len()),
                            offset: end,
                            expected: Expected::EndOfLine,
                        },
                    )
                }
            },
            Err(fault) => {
                Err(
                    LineParseError {
                        line: string_of(line, 0, line.len()),
                        offset: fault.offset,
                        expected: fault.expected,
                    },
                )
            },
        }
    }

    /// Parses one line of the listing: the whole of `input` must be one
    /// record. The error names the line, the number of characters before
    /// the place where it departs from the grammar, and the token that was
    /// required there.
    pub fn parse(input: &str) -> (r: Result<Codec, LineParseError>)
        ensures
            parse_match(r, input@, parse_line(input@)),
            r matches Ok(codec) ==> codec@.well_formed(),
            r matches Err(error) ==> error.offset <= input@.len(),
    {
        let line = chars_of(input);
        Codec::parse_chars(line.as_slice())
    }
}

} // verus!
