use rqd::codec::Codec;
use rqd::plan::{decimal_string, file_name, levels, targets, Outcome, Step, Target};
use rqd::score::score_text;

fn target(extension: &str, encoder: &str) -> Target {
    Target { extension: extension.to_string(), encoder: encoder.to_string() }
}

#[test]
fn the_quality_levels_fall_from_100_to_20() {
    assert_eq!(levels(), [100, 99, 95, 90, 80, 60, 40, 20]);
}

#[test]
fn a_codec_is_encoded_with_its_encoders_or_under_its_own_name() {
    let codecs: Vec<Codec> = [
        "DEV.L. h264 H.264(encoders: libx264 h264_nvenc)",
        "DEV.L. gif GIF",
        "DEV.L. av1 AV1(encoders: libaom-av1)",
    ]
    .iter()
    .map(|line| Codec::parse(line).unwrap())
    .collect();
    assert_eq!(
        targets(&codecs),
        [
            target("h264", "libx264"),
            target("h264", "h264_nvenc"),
            target("gif", "gif"),
            target("av1", "libaom-av1")
        ]
    );
    assert!(targets(&vec![]).is_empty());
}

#[test]
fn numbers_are_written_in_decimal() {
    for n in 0..=255u8 {
        assert_eq!(decimal_string(n), n.to_string());
    }
}

#[test]
fn a_file_is_named_after_the_input_the_codec_the_encoder_and_the_level() {
    assert_eq!(
        file_name("clip", &target("h264", "libx264"), 100),
        "rqd/clip.h264.libx264.q100.mp4"
    );
    assert_eq!(file_name("a.b", &target("av1", "libaom-av1"), 20), "rqd/a.b.av1.libaom-av1.q20.mp4");
    assert_eq!(file_name("", &target("x", "y"), 0), "rqd/.x.y.q0.mp4");
    for level in levels() {
        assert_eq!(
            file_name("clip", &target("gif", "gif"), level),
            format!("rqd/{}.{}.{}.q{}.mp4", "clip", "gif", "gif", level)
        );
    }
}

#[test]
fn a_run_walks_the_levels_and_leaves_an_encoder_that_failed() {
    assert_eq!(Step::first(), Step { target: 0, level: 0 });
    let mut step = Step::first();
    let mut visited = vec![];
    let outcomes = [Outcome::Encoded, Outcome::Exists, Outcome::Failed];
    let mut turn = 0;
    while step.target < 3 {
        visited.push((step.target, step.level));
        let outcome = if step.target == 1 {
            turn += 1;
            outcomes[turn - 1]
        } else {
            Outcome::Encoded
        };
        step = step.after(outcome, 3);
    }
    let mut expected: Vec<(usize, usize)> = (0..8).map(|level| (0, level)).collect();
    expected.extend([(1, 0), (1, 1), (1, 2)]);
    expected.extend((0..8).map(|level| (2, level)));
    assert_eq!(visited, expected);
    assert_eq!(step, Step { target: 3, level: 0 });
    assert_eq!(Step { target: 4, level: 6 }.after(Outcome::Exists, 5), Step { target: 4, level: 7 });
    assert_eq!(Step { target: 4, level: 7 }.after(Outcome::Exists, 5), Step { target: 5, level: 0 });
    assert_eq!(Step { target: 4, level: 0 }.after(Outcome::Failed, 5), Step { target: 5, level: 0 });
}

#[test]
fn a_failed_encoding_leaves_no_file() {
    assert!(Outcome::Exists.has_file());
    assert!(Outcome::Encoded.has_file());
    assert!(!Outcome::Failed.has_file());
}

#[test]
fn the_score_is_the_number_behind_its_words() {
    let printed = "frame=  100 fps= 25\n[Parsed_libvmaf_0 @ 0x55d] VMAF score: 93.417562\nvideo:0kB audio:0kB\n";
    assert_eq!(score_text(printed), Some("93.417562".to_string()));
    assert_eq!(score_text("VMAF score: 100"), Some("100".to_string()));
    assert_eq!(score_text("VMAF score: 1.2.3 VMAF score: 7"), Some("7".to_string()));
    assert_eq!(score_text("VMAF score: x\nVMAF score: .5x"), Some(".5".to_string()));
    assert_eq!(score_text(""), None);
    assert_eq!(score_text("VMAF score: n/a"), None);
    assert_eq!(score_text("VMAF score:93"), None);
    assert_eq!(score_text("vmaf score: 93"), None);
}
