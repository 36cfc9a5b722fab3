use rqd::codec::{Codec, CodecKind};
use rqd::error::{Expected, LineFault, LineParseError};
use rqd::text::{chars_of, is_blank_char, is_identifier, is_whitespace_char, string_of};

fn strings(items: &[&str]) -> Vec<String> {
    items.iter().map(|s| s.to_string()).collect()
}

fn fails(line: &str, offset: usize, expected: Expected) {
    let error = Codec::parse(line).unwrap_err();
    assert_eq!(error.line, line);
    assert_eq!((error.offset, error.expected), (offset, expected), "line {:?}", line);
}

#[test]
fn parse() {
    let input = "D.AIL. acelp.kelvin         Sipro ACELP.KELVIN";

    Codec::parse(input).unwrap();
}

#[test]
fn audio_line_without_coder_lists() {
    let codec = Codec::parse("D.AIL. acelp.kelvin         Sipro ACELP.KELVIN").unwrap();
    assert_eq!(
        codec,
        Codec {
            decodable: true,
            encodable: false,
            kind: CodecKind::Audio,
            intra_frame_only: true,
            lossy_capable: true,
            lossless_capable: false,
            extension: "acelp.kelvin".to_string(),
            name: "Sipro ACELP.KELVIN".to_string(),
            encoders: vec![],
            decoders: vec![],
        }
    );
}

#[test]
fn video_line_with_both_coder_lists() {
    let codec = Codec::parse(
        "DEVILS h264 H.264 / AVC / MPEG-4 AVC(encoders: libx264 h264_nvenc)(decoders: h264 h264_cuvid)",
    )
    .unwrap();
    assert_eq!(
        codec,
        Codec {
            decodable: true,
            encodable: true,
            kind: CodecKind::Video,
            intra_frame_only: true,
            lossy_capable: true,
            lossless_capable: true,
            extension: "h264".to_string(),
            name: "H.264 / AVC / MPEG-4 AVC".to_string(),
            encoders: strings(&["libx264", "h264_nvenc"]),
            decoders: strings(&["h264", "h264_cuvid"]),
        }
    );
}

#[test]
fn blank_before_the_encoders_belongs_to_the_name() {
    let codec = Codec::parse("DEVILS h264 H.264 / AVC (encoders: libx264 h264_nvenc)").unwrap();
    assert_eq!(codec.name, "H.264 / AVC ");
    assert_eq!(codec.encoders, strings(&["libx264", "h264_nvenc"]));
    assert!(codec.decoders.is_empty());
}

#[test]
fn text_between_the_two_lists_fails_the_line() {
    let line =
        "DEVILS h264 H.264 / AVC / MPEG-4 AVC (encoders: libx264 h264_nvenc) (decoders: h264 h264_cuvid)";
    fails(line, line.find(" (decoders:").unwrap(), Expected::EndOfLine);
}

#[test]
fn every_combination_of_flags_and_kind_round_trips() {
    let kinds = [
        ('V', CodecKind::Video),
        ('A', CodecKind::Audio),
        ('S', CodecKind::Subtitle),
        ('D', CodecKind::Data),
        ('T', CodecKind::Attachment),
    ];
    let mut seen = 0;
    for bits in 0..32u32 {
        for (letter, kind) in kinds {
            let flag = |bit: u32, set: char| if bits & (1 << bit) != 0 { set } else { '.' };
            let line = format!(
                "{}{}{}{}{}{} ext Some name",
                flag(0, 'D'),
                flag(1, 'E'),
                letter,
                flag(2, 'I'),
                flag(3, 'L'),
                flag(4, 'S'),
            );
            let codec = Codec::parse(&line).unwrap();
            assert_eq!(codec.decodable, bits & 1 != 0, "{}", line);
            assert_eq!(codec.encodable, bits & 2 != 0, "{}", line);
            assert_eq!(codec.kind, kind, "{}", line);
            assert_eq!(codec.intra_frame_only, bits & 4 != 0, "{}", line);
            assert_eq!(codec.lossy_capable, bits & 8 != 0, "{}", line);
            assert_eq!(codec.lossless_capable, bits & 16 != 0, "{}", line);
            assert_eq!(codec.extension, "ext");
            assert_eq!(codec.name, "Some name");
            seen += 1;
        }
    }
    assert_eq!(seen, 160);
}

#[test]
fn a_parenthesis_that_opens_no_encoders_stays_in_the_name() {
    let codec = Codec::parse("D.V.L. 4xm 4X Movie (native) (encoder: x) (decoders: a)").unwrap();
    assert_eq!(codec.name, "4X Movie (native) (encoder: x) (decoders: a)");
    assert!(codec.encoders.is_empty());
    assert!(codec.decoders.is_empty());
}

#[test]
fn the_name_ends_exactly_before_the_encoders() {
    let codec = Codec::parse("DEV.L. f Foo (bar)(encoders: x)").unwrap();
    assert_eq!(codec.name, "Foo (bar)");
    assert_eq!(codec.encoders, strings(&["x"]));
    let codec = Codec::parse("DEV.L. f Foo(encoders: x)").unwrap();
    assert_eq!(codec.name, "Foo");
}

#[test]
fn the_name_ends_at_the_first_encoders_marker() {
    let line = "DEV.L. f Foo(encoders: x)(encoders: y)";
    fails(line, line.rfind("(encoders:").unwrap(), Expected::EndOfLine);
}

#[test]
fn a_coder_list_keeps_its_order() {
    let codec = Codec::parse("DEV.L. f Foo(encoders: a b c)").unwrap();
    assert_eq!(codec.encoders, strings(&["a", "b", "c"]));
    assert!(codec.decoders.is_empty());
}

#[test]
fn an_absent_coder_list_is_empty_and_an_empty_one_is_an_error() {
    let codec = Codec::parse("DEV.L. f Foo").unwrap();
    assert!(codec.encoders.is_empty());
    assert!(codec.decoders.is_empty());
    let line = "DEV.L. f Foo(encoders: )";
    fails(line, line.find(')').unwrap(), Expected::CoderName);
}

#[test]
fn blanks_in_a_coder_list_may_be_many_and_may_be_tabs() {
    let codec = Codec::parse("DEV.L.\tf \t Foo(encoders: \t a  b\tc-1)(decoders:\td_2 e.3)").unwrap();
    assert_eq!(codec.extension, "f");
    assert_eq!(codec.name, "Foo");
    assert_eq!(codec.encoders, strings(&["a", "b", "c-1"]));
    assert_eq!(codec.decoders, strings(&["d_2", "e.3"]));
}

#[test]
fn a_name_may_hold_any_character() {
    let codec = Codec::parse("..S... srt Sous-titres « é » (SubRip)").unwrap();
    assert_eq!(codec.kind, CodecKind::Subtitle);
    assert_eq!(codec.name, "Sous-titres « é » (SubRip)");
    assert!(!codec.decodable && !codec.encodable);
}

#[test]
fn each_flag_position_reports_its_own_failure() {
    fails("", 0, Expected::DecodableFlag);
    fails("X.AIL. a b", 0, Expected::DecodableFlag);
    fails("dEAIL. a b", 0, Expected::DecodableFlag);
    fails("D", 1, Expected::EncodableFlag);
    fails("DDAIL. a b", 1, Expected::EncodableFlag);
    fails("DE", 2, Expected::Kind);
    fails("DE.IL. a b", 2, Expected::Kind);
    fails("DEXIL. a b", 2, Expected::Kind);
    fails("DEA", 3, Expected::IntraFrameFlag);
    fails("DEALL. a b", 3, Expected::IntraFrameFlag);
    fails("DEAI", 4, Expected::LossyFlag);
    fails("DEAIS. a b", 4, Expected::LossyFlag);
    fails("DEAIL", 5, Expected::LosslessFlag);
    fails("DEAILL a b", 5, Expected::LosslessFlag);
}

#[test]
fn missing_blanks_are_reported_where_they_should_stand() {
    fails("DEAILS", 6, Expected::Whitespace);
    fails("DEAILSx y", 6, Expected::Whitespace);
    fails("DEAILS\nx y", 6, Expected::Whitespace);
    fails("DEAILS ext", 10, Expected::Whitespace);
    fails("DEAILS ext\u{a0}name", 10, Expected::Whitespace);
    fails("DEAILS exté name", 10, Expected::Whitespace);
    fails("DEAILS f Foo(encoders:a)", 22, Expected::Whitespace);
    fails("DEAILS f Foo(encoders: a)(decoders:)", 35, Expected::Whitespace);
}

#[test]
fn empty_fields_are_reported() {
    fails("DEAILS  ", 8, Expected::Extension);
    fails("DEAILS (x) y", 7, Expected::Extension);
    fails("DEAILS ext ", 11, Expected::Name);
    fails("DEAILS ext \t", 12, Expected::Name);
    fails("DEAILS ext (encoders: a)", 11, Expected::Name);
    fails("DEAILS f Foo(encoders: ", 23, Expected::CoderName);
    fails("DEAILS f Foo(encoders: ,a)", 23, Expected::CoderName);
    for expected in [Expected::Extension, Expected::Name, Expected::CoderName] {
        assert!(expected.empty_field());
    }
    for expected in [
        Expected::DecodableFlag,
        Expected::EncodableFlag,
        Expected::Kind,
        Expected::IntraFrameFlag,
        Expected::LossyFlag,
        Expected::LosslessFlag,
        Expected::Whitespace,
        Expected::CloseParen,
        Expected::EndOfLine,
    ] {
        assert!(!expected.empty_field());
    }
}

#[test]
fn an_open_coder_list_is_reported_behind_its_last_token() {
    fails("DEAILS f Foo(encoders: a b", 26, Expected::CloseParen);
    fails("DEAILS f Foo(encoders: a b )", 26, Expected::CloseParen);
    fails("DEAILS f Foo(encoders: a, b)", 24, Expected::CloseParen);
    fails("DEAILS f Foo(encoders: a)(decoders: b", 37, Expected::CloseParen);
}

#[test]
fn text_behind_the_record_is_reported() {
    fails("DEAILS f Foo(encoders: a) ", 25, Expected::EndOfLine);
    fails("DEAILS f Foo(encoders: a)x", 25, Expected::EndOfLine);
    fails("DEAILS f Foo(encoders: a)(decoders: b)(decoders: c)", 38, Expected::EndOfLine);
}

#[test]
fn the_offset_counts_characters() {
    fails("DEAILS f Fé(encoders: é)", 22, Expected::CoderName);
}

#[test]
fn the_byte_offset_counts_the_bytes_before_the_failure() {
    let line = "DEAILS f Fé(encoders: é)";
    let error = Codec::parse(line).unwrap_err();
    assert_eq!(error.offset, 22);
    assert_eq!(error.byte_offset(), 23);
    assert_eq!(&line[error.byte_offset()..], "é)");
    let error = Codec::parse("DEAILS f 𝄞(encoders: a").unwrap_err();
    assert_eq!((error.offset, error.byte_offset()), (22, 25));
    let error = Codec::parse("").unwrap_err();
    assert_eq!((error.offset, error.byte_offset()), (0, 0));
    let error = LineParseError { line: "é".to_string(), offset: 7, expected: Expected::Name };
    assert_eq!(error.byte_offset(), 2);
}

#[test]
fn the_parser_reads_a_record_and_leaves_the_rest() {
    let line = chars_of("DEAILS f Foo(encoders: a)(decoders: b) and more");
    let (codec, end) = Codec::parser(&line).unwrap();
    assert_eq!(end, 38);
    assert_eq!(codec.name, "Foo");
    assert_eq!(codec.encoders, strings(&["a"]));
    assert_eq!(codec.decoders, strings(&["b"]));
    assert_eq!(string_of(&line, end, line.len()), " and more");
    let fault = Codec::parser(&chars_of("DEAILS f Foo(encoders: a")).unwrap_err();
    assert_eq!(fault, LineFault { offset: 24, expected: Expected::CloseParen });
}

#[test]
fn parse_chars_agrees_with_parse() {
    for line in ["D.AIL. acelp.kelvin         Sipro ACELP.KELVIN", "DEAILS f Foo(encoders: a", ""] {
        assert_eq!(Codec::parse_chars(&chars_of(line)), Codec::parse(line));
    }
}

#[test]
fn identifier_characters_are_ascii_letters_digits_and_three_marks() {
    for ch in ['a', 'z', 'A', 'Z', 'm', 'Q', '0', '9', '5', '_', '-', '.'] {
        assert!(is_identifier(ch), "{:?}", ch);
    }
    for ch in [' ', '\t', '(', ')', ':', ',', '/', '@', '[', '`', '{', 'é', 'ß', 'Ω', '٣', '\u{ff21}'] {
        assert!(!is_identifier(ch), "{:?}", ch);
    }
    let mut count = 0;
    for code in 0..=0x10FFFFu32 {
        if let Some(ch) = char::from_u32(code) {
            let expected = ch.is_ascii_alphanumeric() || ch == '_' || ch == '-' || ch == '.';
            assert_eq!(is_identifier(ch), expected, "{:?}", ch);
            if expected {
                count += 1;
            }
        }
    }
    assert_eq!(count, 65);
}

#[test]
fn blanks_are_space_and_tab() {
    for code in 0..=0x10FFFFu32 {
        if let Some(ch) = char::from_u32(code) {
            assert_eq!(is_blank_char(ch), ch == ' ' || ch == '\t', "{:?}", ch);
        }
    }
}

#[test]
fn whitespace_is_what_the_standard_library_trims() {
    for code in 0..=0x10FFFFu32 {
        if let Some(ch) = char::from_u32(code) {
            assert_eq!(is_whitespace_char(ch), ch.is_whitespace(), "{:?}", ch);
        }
    }
}

#[test]
fn characters_and_strings_convert_both_ways() {
    let text = "a é\t𝄞 (encoders:";
    let chars = chars_of(text);
    assert_eq!(chars, text.chars().collect::<Vec<char>>());
    assert_eq!(string_of(&chars, 0, chars.len()), text);
    assert_eq!(string_of(&chars, 2, 5), "é\t𝄞");
    assert_eq!(string_of(&chars, 3, 3), "");
    assert!(chars_of("").is_empty());
}

#[test]
fn expected_tokens_have_distinct_descriptions() {
    let all = [
        Expected::DecodableFlag,
        Expected::EncodableFlag,
        Expected::Kind,
        Expected::IntraFrameFlag,
        Expected::LossyFlag,
        Expected::LosslessFlag,
        Expected::Whitespace,
        Expected::Extension,
        Expected::Name,
        Expected::CoderName,
        Expected::CloseParen,
        Expected::EndOfLine,
    ];
    for (i, a) in all.iter().enumerate() {
        assert!(!a.describe().is_empty());
        for b in &all[i + 1..] {
            assert_ne!(a.describe(), b.describe());
        }
    }
    assert_eq!(Expected::Kind.describe(), "one of `V`, `A`, `S`, `D`, `T`");
    assert_eq!(Expected::EndOfLine.describe(), "the end of the line");
}
