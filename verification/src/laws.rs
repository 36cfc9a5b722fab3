//! What holds of the line parser on all inputs, proved from the grammar.

use vstd::prelude::*;
use crate::codec::{encoders_marker, is_identifier_token, CodecKind, CodecView};
use crate::error::Fault;
use crate::grammar::{
    clause_prefix, coders_at, extension_end, extension_start, flag_at, kind_at, lemma_coders_at,
    lemma_grammar, lemma_marker, list_end, list_goes_on, list_items, name_end, name_start,
    parse_line,
};
use crate::scan::{
    all_in, find_from, has_prefix_at, lemma_find_from, lemma_find_from_is, lemma_prefix_chars,
    lemma_prefix_in_concat, lemma_prefix_split, lemma_run_end, lemma_run_end_is, run_end,
    CharClass,
};
use crate::text::{is_blank, is_identifier_char};

verus! {

/// The character that a line shows for a flag: the flag's letter where it
/// is set, a full stop where it is not.
pub open spec fn flag_char(flag: bool, letter: char) -> char {
    if flag {
        letter
    } else {
        '.'
    }
}

/// The letter that a line shows for a kind.
pub open spec fn kind_letter(kind: CodecKind) -> char {
    match kind {
        CodecKind::Video => 'V',
        CodecKind::Audio => 'A',
        CodecKind::Subtitle => 'S',
        CodecKind::Data => 'D',
        CodecKind::Attachment => 'T',
    }
}

/// The six single characters with which a line begins.
pub open spec fn flag_block(
    decodable: bool,
    encodable: bool,
    kind: CodecKind,
    intra_frame_only: bool,
    lossy_capable: bool,
    lossless_capable: bool,
) -> Seq<char> {
    seq![
        flag_char(decodable, 'D'),
        flag_char(encodable, 'E'),
        kind_letter(kind),
        flag_char(intra_frame_only, 'I'),
        flag_char(lossy_capable, 'L'),
        flag_char(lossless_capable, 'S'),
    ]
}

/// The six single characters with which the line of `record` begins.
pub open spec fn record_block(record: CodecView) -> Seq<char> {
    flag_block(
        record.decodable,
        record.encodable,
        record.kind,
        record.intra_frame_only,
        record.lossy_capable,
        record.lossless_capable,
    )
}

/// The tokens of a list as a line shows them: before each token the
/// blanks that part it from what precedes it.
pub open spec fn spaced(items: Seq<Seq<char>>, gaps: Seq<Seq<char>>) -> Seq<char>
    decreases items.len(),
{
    if items.len() == 0 || gaps.len() == 0 {
        Seq::empty()
    } else {
        gaps[0] + items[0] + spaced(items.drop_first(), gaps.drop_first())
    }
}

/// The list named `coder` as a line shows it; nothing for an empty list.
pub open spec fn rendered_list(
    coder: Seq<char>,
    items: Seq<Seq<char>>,
    gaps: Seq<Seq<char>>,
) -> Seq<char> {
    if items.len() == 0 {
        Seq::empty()
    } else {
        clause_prefix(coder) + spaced(items, gaps) + seq![')']
    }
}

/// One or more blanks.
pub open spec fn is_gap(gap: Seq<char>) -> bool {
    gap.len() > 0 && all_in(gap, CharClass::Blank)
}

/// As many gaps as there are tokens, each of one or more blanks.
pub open spec fn gaps_for(gaps: Seq<Seq<char>>, items: Seq<Seq<char>>) -> bool {
    &&& gaps.len() == items.len()
    &&& forall|i: int| 0 <= i < gaps.len() ==> is_gap(#[trigger] gaps[i])
}

/// Every token of `items` is an identifier token.
pub open spec fn identifier_tokens(items: Seq<Seq<char>>) -> bool {
    forall|i: int| 0 <= i < items.len() ==> is_identifier_token(#[trigger] items[i])
}

/// Flags round trip: a line that begins with the six characters for five
/// flags and a kind, whatever follows them, never fails within those six
/// characters, and a record read from it has those five flags and that kind.
pub proof fn law_flags_round_trip(
    decodable: bool,
    encodable: bool,
    kind: CodecKind,
    intra_frame_only: bool,
    lossy_capable: bool,
    lossless_capable: bool,
    rest: Seq<char>,
)
    ensures
        match parse_line(
            flag_block(
                decodable,
                encodable,
                kind,
                intra_frame_only,
                lossy_capable,
                lossless_capable,
            ) + rest,
        ) {
            Ok(record) => {
                &&& record.decodable == decodable
                &&& record.encodable == encodable
                &&& record.kind == kind
                &&& record.intra_frame_only == intra_frame_only
                &&& record.lossy_capable == lossy_capable
                &&& record.lossless_capable == lossless_capable
            },
            Err(fault) => fault.offset >= 6,
        },
{
    let block = flag_block(
        decodable,
        encodable,
        kind,
        intra_frame_only,
        lossy_capable,
        lossless_capable,
    );
    let line = block + rest;
    assert(line[0] == block[0]);
    assert(line[1] == block[1]);
    assert(line[2] == block[2]);
    assert(line[3] == block[3]);
    assert(line[4] == block[4]);
    assert(line[5] == block[5]);
    lemma_positions(line);
    lemma_coders_at(line, name_end(line), "encoders"@);
    if let Ok((encoders, encoders_end)) = coders_at(line, name_end(line), "encoders"@) {
        lemma_coders_at(line, encoders_end, "decoders"@);
    }
}

/// The places that the grammar visits lie in their order within the line.
proof fn lemma_positions(s: Seq<char>)
    requires
        s.len() >= 6,
    ensures
        6 <= extension_start(s) <= extension_end(s) <= name_start(s) <= name_end(s) <= s.len(),
{
    lemma_run_end(s, CharClass::Blank, 6);
    lemma_run_end(s, CharClass::Identifier, extension_start(s));
    lemma_run_end(s, CharClass::Blank, extension_end(s));
    lemma_find_from(s, encoders_marker(), name_start(s));
}

/// Name boundary: in a line that is a record, the name is the text from
/// the name's start up to the first place at which the text that opens the
/// list of encoders stands, or up to the end of the line where it stands
/// nowhere. Every character before that place is kept, a parenthesis that
/// opens anything else among them.
pub proof fn law_name_boundary(s: Seq<char>)
    requires
        parse_line(s) is Ok,
    ensures
        ({
            let name = parse_line(s)->Ok_0.name;
            let start = name_start(s);
            let end = start + name.len();
            &&& name.len() > 0
            &&& 0 <= start && end <= s.len()
            &&& forall|i: int| 0 <= i < name.len() ==> name[i] == s[start + i]
            &&& forall|i: int| start <= i < end ==> !has_prefix_at(s, i, encoders_marker())
            &&& end == s.len() || has_prefix_at(s, end, encoders_marker())
        }),
{
    lemma_positions(s);
    lemma_find_from(s, encoders_marker(), name_start(s));
}

/// The shape of a record's line: a line that is a record consists of the
/// six characters that show its flags and its kind, one or more blanks, its
/// extension, one or more blanks, its name, and, only where it has
/// encoders, the lists behind the name.
pub proof fn law_line_shape(s: Seq<char>)
    requires
        parse_line(s) is Ok,
    ensures
        ({
            let record = parse_line(s)->Ok_0;
            &&& 6 < extension_start(s) < extension_end(s) < name_start(s) < name_end(s) <= s.len()
            &&& s.subrange(0, 6) == record_block(record)
            &&& all_in(s.subrange(6, extension_start(s)), CharClass::Blank)
            &&& s.subrange(extension_start(s), extension_end(s)) == record.extension
            &&& all_in(s.subrange(extension_end(s), name_start(s)), CharClass::Blank)
            &&& s.subrange(name_start(s), name_end(s)) == record.name
            &&& record.encoders.len() == 0 ==> name_end(s) == s.len() && record.decoders.len() == 0
            &&& record.encoders.len() > 0 ==> has_prefix_at(s, name_end(s), encoders_marker())
        }),
{
    let record = parse_line(s)->Ok_0;
    lemma_positions(s);
    lemma_run_end(s, CharClass::Blank, 6);
    lemma_run_end(s, CharClass::Blank, extension_end(s));
    lemma_find_from(s, encoders_marker(), name_start(s));
    lemma_marker();
    lemma_coders_at(s, name_end(s), "encoders"@);
    let encoders_end = coders_at(s, name_end(s), "encoders"@)->Ok_0.1;
    lemma_coders_at(s, encoders_end, "decoders"@);
    assert(s.subrange(0, 6) =~= record_block(record));
    if record.encoders.len() == 0 {
        assert(encoders_end == name_end(s));
        if name_end(s) < s.len() {
            assert(has_prefix_at(s, name_end(s), clause_prefix("encoders"@)));
        }
    }
}

/// A run of characters of one class that stands at `at`, with a character
/// outside the class or nothing behind it, is the whole run there.
proof fn lemma_run_spans(s: Seq<char>, class: CharClass, at: int, run: Seq<char>)
    requires
        has_prefix_at(s, at, run),
        all_in(run, class),
        at + run.len() < s.len() ==> !class.has(s[at + run.len()]),
    ensures
        run_end(s, class, at) == at + run.len(),
{
    lemma_run_end_is(s, class, at, at + run.len());
}

/// The tokens and the gaps behind the first of each.
proof fn lemma_rest(items: Seq<Seq<char>>, gaps: Seq<Seq<char>>)
    requires
        items.len() > 0,
        identifier_tokens(items),
        gaps_for(gaps, items),
    ensures
        is_identifier_token(items[0]),
        is_gap(gaps[0]),
        identifier_tokens(items.drop_first()),
        gaps_for(gaps.drop_first(), items.drop_first()),
        spaced(items, gaps).len() == gaps[0].len() + items[0].len() + spaced(
            items.drop_first(),
            gaps.drop_first(),
        ).len(),
{
    let rest = items.drop_first();
    let rest_gaps = gaps.drop_first();
    assert forall|i: int| 0 <= i < rest.len() implies is_identifier_token(#[trigger] rest[i]) by {
        assert(rest[i] == items[i + 1]);
    }
    assert forall|i: int| 0 <= i < rest_gaps.len() implies is_gap(#[trigger] rest_gaps[i]) by {
        assert(rest_gaps[i] == gaps[i + 1]);
    }
}

/// A shown list is read token by token: the blanks before a token are a
/// whole run of blanks, the token is a whole run of identifier characters,
/// and the closing parenthesis ends the list.
proof fn lemma_spaced_list(s: Seq<char>, at: int, items: Seq<Seq<char>>, gaps: Seq<Seq<char>>)
    requires
        items.len() > 0,
        identifier_tokens(items),
        gaps_for(gaps, items),
        has_prefix_at(s, at, spaced(items, gaps) + seq![')']),
    ensures
        run_end(s, CharClass::Blank, at) == at + gaps[0].len(),
        at + gaps[0].len() < s.len(),
        is_identifier_char(s[at + gaps[0].len()]),
        list_items(s, at + gaps[0].len()) == items,
        list_end(s, at + gaps[0].len()) == at + spaced(items, gaps).len(),
    decreases items.len(),
{
    let gap = gaps[0];
    let token = items[0];
    let rest = items.drop_first();
    let rest_gaps = gaps.drop_first();
    let tail = spaced(rest, rest_gaps) + seq![')'];
    let first = at + gap.len();
    let end = first + token.len();
    lemma_rest(items, gaps);
    assert(spaced(items, gaps) + seq![')'] =~= gap + (token + tail));
    lemma_prefix_split(s, at, gap, token + tail);
    lemma_prefix_split(s, first, token, tail);
    lemma_prefix_chars(s, first, token);
    assert(s[first] == token[0]);
    assert(is_identifier_char(token[0]));
    lemma_run_spans(s, CharClass::Blank, at, gap);
    if rest.len() == 0 {
        assert(tail =~= seq![')']);
        lemma_prefix_chars(s, end, tail);
        assert(s[end] == tail[0]);
        lemma_run_spans(s, CharClass::Identifier, first, token);
        lemma_run_end_is(s, CharClass::Blank, end, end);
        assert(!list_goes_on(s, first));
        assert(list_items(s, first) =~= items);
    } else {
        lemma_spaced_list(s, end, rest, rest_gaps);
        let next = end + rest_gaps[0].len();
        lemma_rest(rest, rest_gaps);
        assert(tail =~= rest_gaps[0] + (rest[0] + spaced(rest.drop_first(), rest_gaps.drop_first())
            + seq![')']));
        lemma_prefix_split(
            s,
            end,
            rest_gaps[0],
            rest[0] + spaced(rest.drop_first(), rest_gaps.drop_first()) + seq![')'],
        );
        lemma_prefix_chars(s, end, rest_gaps[0]);
        assert(s[end] == rest_gaps[0][0]);
        assert(is_blank(rest_gaps[0][0]));
        lemma_run_spans(s, CharClass::Identifier, first, token);
        assert(list_goes_on(s, first));
        assert(list_items(s, first) =~= items);
    }
}

/// A shown list that stands at `at` is read as its tokens.
proof fn lemma_shown_list(
    s: Seq<char>,
    at: int,
    coder: Seq<char>,
    items: Seq<Seq<char>>,
    gaps: Seq<Seq<char>>,
)
    requires
        items.len() > 0,
        identifier_tokens(items),
        gaps_for(gaps, items),
        has_prefix_at(s, at, rendered_list(coder, items, gaps)),
    ensures
        coders_at(s, at, coder) == Ok::<(Seq<Seq<char>>, int), Fault>(
            (items, at + rendered_list(coder, items, gaps).len()),
        ),
{
    let prefix = clause_prefix(coder);
    let first_blank = at + prefix.len();
    let first = first_blank + gaps[0].len();
    let list = spaced(items, gaps) + seq![')'];
    assert(rendered_list(coder, items, gaps) =~= prefix + list);
    lemma_prefix_split(s, at, prefix, list);
    lemma_spaced_list(s, first_blank, items, gaps);
    lemma_rest(items, gaps);
    lemma_run_end(s, CharClass::Identifier, first + 1);
    lemma_prefix_chars(s, first_blank, list);
    assert(list[spaced(items, gaps).len() as int] == ')');
    assert(s[first_blank + spaced(items, gaps).len()] == ')');
}

/// Coder lists: a list that a line shows with one or more identifier
/// tokens, one or more blanks before each, is read as those tokens in
/// their order, whatever stands before and behind the list.
pub proof fn law_coder_list(
    head: Seq<char>,
    coder: Seq<char>,
    items: Seq<Seq<char>>,
    gaps: Seq<Seq<char>>,
    tail: Seq<char>,
)
    requires
        items.len() > 0,
        identifier_tokens(items),
        gaps_for(gaps, items),
    ensures
        coders_at(head + rendered_list(coder, items, gaps) + tail, head.len() as int, coder)
            == Ok::<(Seq<Seq<char>>, int), Fault>(
            (items, (head.len() + rendered_list(coder, items, gaps).len()) as int),
        ),
{
    let s = head + rendered_list(coder, items, gaps) + tail;
    lemma_prefix_in_concat(head, rendered_list(coder, items, gaps), tail);
    lemma_shown_list(s, head.len() as int, coder, items, gaps);
}

/// The blanks of a line: those before the extension, those before the
/// name, and those before each token of the two lists.
pub struct Blanks {
    pub gap: Seq<char>,
    pub second_gap: Seq<char>,
    pub encoder_gaps: Seq<Seq<char>>,
    pub decoder_gaps: Seq<Seq<char>>,
}

impl Blanks {
    /// Whether these are blanks for the line of `record`.
    pub open spec fn fit(self, record: CodecView) -> bool {
        &&& is_gap(self.gap)
        &&& is_gap(self.second_gap)
        &&& gaps_for(self.encoder_gaps, record.encoders)
        &&& gaps_for(self.decoder_gaps, record.decoders)
    }
}

/// A line as the tool shows a record: the six single characters, blanks,
/// the extension, blanks, the name, and the two lists, each only if it has
/// tokens.
pub open spec fn rendered(record: CodecView, blanks: Blanks) -> Seq<char> {
    record_block(record) + blanks.gap + record.extension + blanks.second_gap + record.name
        + rendered_list("encoders"@, record.encoders, blanks.encoder_gaps) + rendered_list(
        "decoders"@,
        record.decoders,
        blanks.decoder_gaps,
    )
}

/// The name of a shown record ends where it ends in the record: the text
/// that opens the list of encoders stands nowhere in it, and none begins
/// in it and runs over its end.
proof fn lemma_name_spans(s: Seq<char>, at: int, name: Seq<char>)
    requires
        has_prefix_at(s, at, name),
        forall|i: int| !has_prefix_at(name, i, encoders_marker()),
        at + name.len() == s.len() || has_prefix_at(s, at + name.len(), encoders_marker()),
    ensures
        find_from(s, encoders_marker(), at) == at + name.len(),
{
    reveal_strlit("(encoders:");
    let marker = encoders_marker();
    let end = at + name.len();
    assert forall|i: int| at <= i < end implies !has_prefix_at(s, i, marker) by {
        if has_prefix_at(s, i, marker) {
            if i + marker.len() <= end {
                assert(name.subrange(i - at, i - at + marker.len()) =~= s.subrange(
                    at,
                    at + name.len(),
                ).subrange(i - at, i - at + marker.len()));
                assert(s.subrange(at, at + name.len()).subrange(i - at, i - at + marker.len())
                    =~= s.subrange(i, i + marker.len()));
                assert(has_prefix_at(name, i - at, marker));
            } else {
                lemma_prefix_chars(s, i, marker);
                lemma_prefix_chars(s, end, marker);
                assert(s[end] == marker[0]);
                assert(s[i + (end - i)] == marker[end - i]);
            }
        }
    }
    lemma_find_from_is(s, marker, at, end);
}

/// Where the parts of a shown record stand in its line.
spec fn laid_out(s: Seq<char>, record: CodecView, blanks: Blanks) -> bool {
    let extension_from: int = 6 + blanks.gap.len() as int;
    let extension_to: int = extension_from + record.extension.len();
    let name_from: int = extension_to + blanks.second_gap.len();
    let name_to: int = name_from + record.name.len();
    let encoders = rendered_list("encoders"@, record.encoders, blanks.encoder_gaps);
    let decoders = rendered_list("decoders"@, record.decoders, blanks.decoder_gaps);
    &&& has_prefix_at(s, 0, record_block(record))
    &&& has_prefix_at(s, 6, blanks.gap)
    &&& has_prefix_at(s, extension_from, record.extension)
    &&& has_prefix_at(s, extension_to, blanks.second_gap)
    &&& has_prefix_at(s, name_from, record.name)
    &&& has_prefix_at(s, name_to, encoders)
    &&& has_prefix_at(s, name_to + encoders.len(), decoders)
    &&& s.len() == name_to + encoders.len() + decoders.len()
}

/// The parts of a shown record stand in its line one behind the other.
proof fn lemma_laid_out(record: CodecView, blanks: Blanks)
    ensures
        laid_out(rendered(record, blanks), record, blanks),
{
    let block = record_block(record);
    let encoders = rendered_list("encoders"@, record.encoders, blanks.encoder_gaps);
    let decoders = rendered_list("decoders"@, record.decoders, blanks.decoder_gaps);
    let s = rendered(record, blanks);
    let after_name = encoders + decoders;
    let after_gap = record.name + after_name;
    let after_extension = blanks.second_gap + after_gap;
    let after_first_gap = record.extension + after_extension;
    let after_block = blanks.gap + after_first_gap;
    let extension_from: int = 6 + blanks.gap.len() as int;
    let extension_to: int = extension_from + record.extension.len();
    let name_from: int = extension_to + blanks.second_gap.len();
    let name_to: int = name_from + record.name.len();
    assert(s =~= block + after_block);
    assert(s.subrange(0, s.len() as int) =~= s);
    assert(has_prefix_at(s, 0, block + after_block));
    lemma_prefix_split(s, 0, block, after_block);
    lemma_prefix_split(s, 6, blanks.gap, after_first_gap);
    lemma_prefix_split(s, extension_from, record.extension, after_extension);
    lemma_prefix_split(s, extension_to, blanks.second_gap, after_gap);
    lemma_prefix_split(s, name_from, record.name, after_name);
    lemma_prefix_split(s, name_to, encoders, decoders);
}

/// The flags and the kind of a shown record are read as they are in the
/// record.
proof fn lemma_flags_read(s: Seq<char>, record: CodecView)
    requires
        has_prefix_at(s, 0, record_block(record)),
    ensures
        flag_at(s, 0, 'D') == Some(record.decodable),
        flag_at(s, 1, 'E') == Some(record.encodable),
        kind_at(s, 2) == Some(record.kind),
        flag_at(s, 3, 'I') == Some(record.intra_frame_only),
        flag_at(s, 4, 'L') == Some(record.lossy_capable),
        flag_at(s, 5, 'S') == Some(record.lossless_capable),
{
    let block = record_block(record);
    lemma_prefix_chars(s, 0, block);
    assert(s[0] == block[0] && s[1] == block[1] && s[2] == block[2] && s[3] == block[3] && s[4]
        == block[4] && s[5] == block[5]);
}

/// The extension and the name of a shown record are found where they
/// stand.
proof fn lemma_fields_found(s: Seq<char>, record: CodecView, blanks: Blanks)
    requires
        record.well_formed(),
        blanks.fit(record),
        laid_out(s, record, blanks),
    ensures
        extension_start(s) == 6 + blanks.gap.len(),
        extension_end(s) == extension_start(s) + record.extension.len(),
        name_start(s) == extension_end(s) + blanks.second_gap.len(),
        name_end(s) == name_start(s) + record.name.len(),
        s.subrange(extension_start(s), extension_end(s)) == record.extension,
        s.subrange(name_start(s), name_end(s)) == record.name,
{
    let extension_from: int = 6 + blanks.gap.len() as int;
    let extension_to: int = extension_from + record.extension.len();
    let name_from: int = extension_to + blanks.second_gap.len();
    let name_to: int = name_from + record.name.len();
    lemma_prefix_chars(s, extension_from, record.extension);
    lemma_prefix_chars(s, extension_to, blanks.second_gap);
    lemma_prefix_chars(s, name_from, record.name);
    assert(s[extension_from] == record.extension[0]);
    assert(s[extension_to] == blanks.second_gap[0]);
    assert(s[name_from] == record.name[0]);
    assert(is_identifier_char(record.extension[0]));
    assert(is_blank(blanks.second_gap[0]));
    lemma_run_spans(s, CharClass::Blank, 6, blanks.gap);
    lemma_run_spans(s, CharClass::Identifier, extension_from, record.extension);
    lemma_run_spans(s, CharClass::Blank, extension_to, blanks.second_gap);
    if record.encoders.len() > 0 {
        let list = spaced(record.encoders, blanks.encoder_gaps) + seq![')'];
        assert(rendered_list("encoders"@, record.encoders, blanks.encoder_gaps) =~= clause_prefix(
            "encoders"@,
        ) + list);
        lemma_prefix_split(s, name_to, clause_prefix("encoders"@), list);
        lemma_marker();
    }
    lemma_name_spans(s, name_from, record.name);
}

/// A list of a shown record is read as it is in the record: its tokens
/// where it has some, and nothing at the end of the line where it has none.
proof fn lemma_list_read(
    s: Seq<char>,
    at: int,
    coder: Seq<char>,
    items: Seq<Seq<char>>,
    gaps: Seq<Seq<char>>,
)
    requires
        identifier_tokens(items),
        gaps_for(gaps, items),
        has_prefix_at(s, at, rendered_list(coder, items, gaps)),
        items.len() == 0 ==> at == s.len(),
    ensures
        coders_at(s, at, coder) == Ok::<(Seq<Seq<char>>, int), Fault>(
            (items, at + rendered_list(coder, items, gaps).len()),
        ),
{
    if items.len() > 0 {
        lemma_shown_list(s, at, coder, items, gaps);
    } else {
        assert(items =~= Seq::<Seq<char>>::empty());
    }
}

/// Render and parse: the line that shows a well-formed record, with any
/// blanks between its fields and before the tokens of its lists, is read
/// as that record.
pub proof fn law_render_parse(record: CodecView, blanks: Blanks)
    requires
        record.well_formed(),
        blanks.fit(record),
    ensures
        parse_line(rendered(record, blanks)) == Ok::<CodecView, Fault>(record),
{
    let s = rendered(record, blanks);
    lemma_laid_out(record, blanks);
    lemma_flags_read(s, record);
    lemma_fields_found(s, record, blanks);
    let encoders_to = name_end(s) + rendered_list(
        "encoders"@,
        record.encoders,
        blanks.encoder_gaps,
    ).len();
    lemma_list_read(s, name_end(s), "encoders"@, record.encoders, blanks.encoder_gaps);
    lemma_list_read(s, encoders_to, "decoders"@, record.decoders, blanks.decoder_gaps);
}

/// The blanks before each token of the list whose first blanks start at
/// `from`.
pub open spec fn list_gaps(s: Seq<char>, from: int) -> Seq<Seq<char>>
    decreases s.len() - from,
{
    let first = run_end(s, CharClass::Blank, from);
    let end = run_end(s, CharClass::Identifier, first);
    if from < first && list_goes_on(s, first) {
        seq![s.subrange(from, first)] + list_gaps(s, end)
    } else {
        seq![s.subrange(from, first)]
    }
}

/// The blanks before the tokens of the list named `coder` that is read at
/// `at`; none where no list stands there.
pub open spec fn coder_gaps(s: Seq<char>, at: int, coder: Seq<char>) -> Seq<Seq<char>> {
    if has_prefix_at(s, at, clause_prefix(coder)) {
        list_gaps(s, at + clause_prefix(coder).len())
    } else {
        Seq::empty()
    }
}

/// The blanks of a line that is a record.
pub open spec fn blanks_of(s: Seq<char>) -> Blanks {
    let encoders_end = coders_at(s, name_end(s), "encoders"@)->Ok_0.1;
    Blanks {
        gap: s.subrange(6, extension_start(s)),
        second_gap: s.subrange(extension_end(s), name_start(s)),
        encoder_gaps: coder_gaps(s, name_end(s), "encoders"@),
        decoder_gaps: coder_gaps(s, encoders_end, "decoders"@),
    }
}

/// The text of a list that was read is its blanks and its tokens in turn.
proof fn lemma_list_text(s: Seq<char>, from: int)
    requires
        0 <= from < run_end(s, CharClass::Blank, from) < s.len(),
        is_identifier_char(s[run_end(s, CharClass::Blank, from)]),
    ensures
        ({
            let first = run_end(s, CharClass::Blank, from);
            &&& gaps_for(list_gaps(s, from), list_items(s, first))
            &&& from < list_end(s, first) <= s.len()
            &&& s.subrange(from, list_end(s, first)) == spaced(
                list_items(s, first),
                list_gaps(s, from),
            )
        }),
    decreases s.len() - from,
{
    let first = run_end(s, CharClass::Blank, from);
    let end = run_end(s, CharClass::Identifier, first);
    let gap = s.subrange(from, first);
    let token = s.subrange(first, end);
    let items = list_items(s, first);
    let gaps = list_gaps(s, from);
    lemma_run_end(s, CharClass::Blank, from);
    lemma_run_end(s, CharClass::Identifier, first);
    lemma_run_end(s, CharClass::Identifier, first + 1);
    assert(is_gap(gap));
    if list_goes_on(s, first) {
        let next = run_end(s, CharClass::Blank, end);
        lemma_list_text(s, end);
        let rest = list_items(s, next);
        let rest_gaps = list_gaps(s, end);
        assert(items == seq![token] + rest);
        assert(gaps == seq![gap] + rest_gaps);
        assert(items.drop_first() =~= rest);
        assert(gaps.drop_first() =~= rest_gaps);
        assert forall|i: int| 0 <= i < gaps.len() implies is_gap(#[trigger] gaps[i]) by {
            if i > 0 {
                assert(gaps[i] == rest_gaps[i - 1]);
            }
        }
        assert(s.subrange(from, list_end(s, first)) =~= gap + token + s.subrange(
            end,
            list_end(s, next),
        ));
    } else {
        assert(items.drop_first() =~= Seq::<Seq<char>>::empty());
        assert(gaps.drop_first() =~= Seq::<Seq<char>>::empty());
        assert(spaced(items.drop_first(), gaps.drop_first()) =~= Seq::<char>::empty());
        assert(s.subrange(from, end) =~= gap + token + Seq::<char>::empty());
    }
}

/// The text of a list that was read is the list as a line shows it, with
/// the blanks that it has in the line.
proof fn lemma_coders_text(s: Seq<char>, at: int, coder: Seq<char>)
    requires
        0 <= at <= s.len(),
        coders_at(s, at, coder) is Ok,
    ensures
        ({
            let (items, end) = coders_at(s, at, coder)->Ok_0;
            &&& at <= end <= s.len()
            &&& identifier_tokens(items)
            &&& gaps_for(coder_gaps(s, at, coder), items)
            &&& s.subrange(at, end) == rendered_list(coder, items, coder_gaps(s, at, coder))
        }),
{
    let (items, end) = coders_at(s, at, coder)->Ok_0;
    lemma_coders_at(s, at, coder);
    if has_prefix_at(s, at, clause_prefix(coder)) {
        let from = at + clause_prefix(coder).len();
        let first = run_end(s, CharClass::Blank, from);
        lemma_run_end(s, CharClass::Blank, from);
        lemma_run_end(s, CharClass::Identifier, first);
        lemma_list_text(s, from);
        assert(s.subrange(at, end) =~= clause_prefix(coder) + s.subrange(from, list_end(s, first))
            + seq![')']);
    } else {
        assert(s.subrange(at, end) =~= Seq::<char>::empty());
    }
}

/// Parse and render: a line that is a record is the line that shows that
/// record with the blanks of the line. With [`law_render_parse`]: the
/// lines that are records are exactly the lines that show a well-formed
/// record, and to read such a line is to undo the showing.
pub proof fn law_parse_render(s: Seq<char>)
    requires
        parse_line(s) is Ok,
    ensures
        ({
            let record = parse_line(s)->Ok_0;
            &&& record.well_formed()
            &&& blanks_of(s).fit(record)
            &&& rendered(record, blanks_of(s)) == s
        }),
{
    let record = parse_line(s)->Ok_0;
    let blanks = blanks_of(s);
    lemma_grammar(s);
    law_line_shape(s);
    lemma_coders_text(s, name_end(s), "encoders"@);
    let encoders_end = coders_at(s, name_end(s), "encoders"@)->Ok_0.1;
    lemma_coders_text(s, encoders_end, "decoders"@);
    assert(s =~= s.subrange(0, 6) + s.subrange(6, extension_start(s)) + s.subrange(
        extension_start(s),
        extension_end(s),
    ) + s.subrange(extension_end(s), name_start(s)) + s.subrange(name_start(s), name_end(s))
        + s.subrange(name_end(s), encoders_end) + s.subrange(encoders_end, s.len() as int));
}

/// An empty list is an absent list: where a list is read, it has no
/// tokens exactly where its opening text does not stand in the line.
pub proof fn law_empty_list_is_absent(s: Seq<char>, at: int, coder: Seq<char>)
    requires
        0 <= at <= s.len(),
        coders_at(s, at, coder) is Ok,
    ensures
        coders_at(s, at, coder)->Ok_0.0.len() == 0 <==> !has_prefix_at(s, at, clause_prefix(coder)),
{
    lemma_coders_at(s, at, coder);
}

} // verus!
