use rqd::codec::{Codec, CodecKind};
use rqd::error::{Expected, LineParseError, ParseError};
use rqd::listing::{scan_back, split_lines};
use rqd::text::chars_of;

const HEADER: &str = "Codecs:\n D..... = Decoding supported\n .E.... = Encoding supported\n ..V... = Video codec\n ..A... = Audio codec\n ..S... = Subtitle codec\n ..D... = Data codec\n ..T... = Attachment codec\n ...I.. = Intra frame-only codec\n ....L. = Lossy compression\n .....S = Lossless compression\n -------\n";

fn lines_of(text: &str) -> Option<Vec<String>> {
    split_lines(&chars_of(text))
        .map(|lines| lines.iter().map(|line| line.iter().collect::<String>()).collect())
}

#[test]
fn a_listing_parses_to_its_records_in_order() {
    let text = format!(
        "{}{}",
        HEADER,
        " D.VI.S 012v                 Uncompressed 4:2:2 10-bit\n D.V.L. 4xm                  4X Movie\n DEA.L. aac                  AAC (Advanced Audio Coding)(encoders: aac libfdk_aac)(decoders: aac aac_fixed)\n ..D... bin_data             binary data\n D.S... srt                  SubRip subtitle\n ..T... ttf                  TrueType font\n"
    );
    let codecs = Codec::parse_from_cli(&text).unwrap();
    let extensions: Vec<&str> = codecs.iter().map(|codec| codec.extension.as_str()).collect();
    assert_eq!(extensions, ["012v", "4xm", "aac", "bin_data", "srt", "ttf"]);
    let kinds: Vec<CodecKind> = codecs.iter().map(|codec| codec.kind).collect();
    assert_eq!(
        kinds,
        [
            CodecKind::Video,
            CodecKind::Video,
            CodecKind::Audio,
            CodecKind::Data,
            CodecKind::Subtitle,
            CodecKind::Attachment
        ]
    );
    assert_eq!(codecs[0].name, "Uncompressed 4:2:2 10-bit");
    assert!(codecs[0].decodable && !codecs[0].encodable);
    assert!(codecs[0].intra_frame_only && !codecs[0].lossy_capable && codecs[0].lossless_capable);
    assert_eq!(codecs[2].name, "AAC (Advanced Audio Coding)");
    assert_eq!(codecs[2].encoders, ["aac", "libfdk_aac"]);
    assert_eq!(codecs[2].decoders, ["aac", "aac_fixed"]);
    assert_eq!(codecs[5].name, "TrueType font");
}

#[test]
fn a_text_without_separator_has_no_data_section() {
    for text in ["", "Codecs:\n D.VI.S 012v Uncompressed\n", "------", "--- ----", "- - - - - - -"] {
        assert_eq!(Codec::parse_from_cli(text), Err(ParseError::MissingDataSection), "{:?}", text);
        assert_eq!(lines_of(text), None);
    }
}

#[test]
fn a_separator_without_data_gives_no_records() {
    for text in ["-------", "head\n-------\n", "-------\n\n  \r\n\t\n", "x-------  "] {
        assert_eq!(Codec::parse_from_cli(text), Ok(vec![]), "{:?}", text);
    }
}

#[test]
fn the_data_begin_behind_the_first_separator() {
    assert_eq!(lines_of("a\n-------\nb\n-------\nc"), Some(vec!["b".into(), "-------".into(), "c".into()]));
    assert_eq!(lines_of("---------x"), Some(vec!["--x".into()]));
    assert_eq!(lines_of("-------x\ny"), Some(vec!["x".into(), "y".into()]));
}

#[test]
fn lines_are_trimmed_and_empty_ones_are_passed_over() {
    let text = "-------\n\n  a b \t\r\n\u{a0}\u{3000}\n\u{2003}c\u{85}\n\r\n d\n\n";
    assert_eq!(lines_of(text), Some(vec!["a b".into(), "c".into(), "d".into()]));
    assert_eq!(lines_of("-------a"), Some(vec!["a".into()]));
    assert_eq!(lines_of("-------a\rb\n"), Some(vec!["a\rb".into()]));
}

#[test]
fn trailing_whitespace_is_found_from_the_back() {
    assert_eq!(scan_back(&chars_of("")), 0);
    assert_eq!(scan_back(&chars_of(" \t\n")), 0);
    assert_eq!(scan_back(&chars_of("a")), 1);
    assert_eq!(scan_back(&chars_of(" a b \r\n")), 4);
    assert_eq!(scan_back(&chars_of("a\u{2028}\u{205f}")), 1);
}

#[test]
fn one_bad_line_fails_the_whole_listing_wherever_it_stands() {
    let good = ["D.VI.S 012v Uncompressed 4:2:2 10-bit", "D.V.L. 4xm 4X Movie", "DEA.L. aac AAC"];
    let bad = "D.V.L? 4xm 4X Movie";
    for position in 0..=3 {
        let mut lines: Vec<&str> = good.to_vec();
        lines.insert(position, bad);
        let text = format!("{} {}\n", HEADER, lines.join("\n "));
        assert_eq!(
            Codec::parse_from_cli(&text),
            Err(ParseError::Line(LineParseError {
                line: bad.to_string(),
                offset: 5,
                expected: Expected::LosslessFlag,
            })),
            "position {}",
            position
        );
    }
    let text = format!("{} {}\n", HEADER, good.join("\n "));
    assert_eq!(Codec::parse_from_cli(&text).unwrap().len(), 3);
}

#[test]
fn the_first_bad_line_is_the_one_reported() {
    let text = "-------\nD.V.L. 4xm 4X Movie\nD.V.L. 4xm\nbroken\n";
    assert_eq!(
        Codec::parse_from_cli(text),
        Err(ParseError::Line(LineParseError {
            line: "D.V.L. 4xm".to_string(),
            offset: 10,
            expected: Expected::Whitespace,
        }))
    );
}

#[test]
fn parse_lines_agrees_with_parsing_each_line() {
    let lines = vec![chars_of("D.V.L. 4xm 4X Movie"), chars_of("DEA.L. aac AAC(encoders: aac)")];
    let codecs = Codec::parse_lines(&lines).unwrap();
    assert_eq!(codecs.len(), 2);
    assert_eq!(codecs[0], Codec::parse("D.V.L. 4xm 4X Movie").unwrap());
    assert_eq!(codecs[1], Codec::parse("DEA.L. aac AAC(encoders: aac)").unwrap());
    assert_eq!(Codec::parse_lines(&vec![]), Ok(vec![]));
    let lines = vec![chars_of("D.V.L. 4xm 4X Movie"), chars_of("")];
    assert_eq!(
        Codec::parse_lines(&lines),
        Err(ParseError::Line(LineParseError {
            line: String::new(),
            offset: 0,
            expected: Expected::DecodableFlag,
        }))
    );
}
