use rqd::codec::Codec;
use rqd::select::{candidates, has_suffix, is_hardware_coder, same_text, select, Choice};
use rqd::text::chars_of;

fn listing() -> Vec<Codec> {
    [
        "DEV.L. h264 H.264(encoders: libx264 h264_nvenc h264_qsv)",
        "DEV.L. hevc H.265(encoders: libx265)",
        "D.V.L. vvc H.266",
        "DEV.L. av1 AV1(encoders: libaom-av1 av1_vaapi)",
        "DEV.L. vp9 VP9(encoders: libvpx-vp9 vp9_qsv)",
        "DEA.L. aac AAC(encoders: aac_videotoolbox)",
        ".EV.L. gif GIF",
        "D.V.L. theora Theora(encoders: x_amf)",
    ]
    .iter()
    .map(|line| Codec::parse(line).unwrap())
    .collect()
}

fn extensions(codecs: &[Codec]) -> Vec<&str> {
    codecs.iter().map(|codec| codec.extension.as_str()).collect()
}

#[test]
fn hardware_coders_are_told_by_the_end_of_their_name() {
    for name in ["h264_nvenc", "nvenc", "hevc_qsv", "av1_vaapi", "h264_amf", "h264_videotoolbox", "xqsv"] {
        assert!(is_hardware_coder(name), "{}", name);
    }
    for name in ["", "libx264", "nvenc_h264", "nven", "qs", "h264_cuvid", "amf ", "NVENC", "videotoolbo", "envenc2"] {
        assert!(!is_hardware_coder(name), "{}", name);
    }
}

#[test]
fn a_suffix_is_the_end_of_a_text() {
    assert!(has_suffix(&chars_of("abc"), "bc"));
    assert!(has_suffix(&chars_of("abc"), "abc"));
    assert!(has_suffix(&chars_of("abc"), ""));
    assert!(has_suffix(&chars_of(""), ""));
    assert!(!has_suffix(&chars_of("abc"), "ab"));
    assert!(!has_suffix(&chars_of("bc"), "abc"));
    assert!(!has_suffix(&chars_of(""), "a"));
}

#[test]
fn texts_are_compared_character_by_character() {
    assert!(same_text("", ""));
    assert!(same_text("h264", "h264"));
    assert!(!same_text("h264", "h265"));
    assert!(!same_text("h264", "h26"));
    assert!(!same_text("h26", "h264"));
    assert!(!same_text("é", "e"));
}

#[test]
fn labels_lead_back_to_their_choices() {
    for choice in [Choice::Hardware, Choice::Recommended, Choice::Custom] {
        assert_eq!(Choice::from_label(choice.label()), Some(choice));
    }
    assert_eq!(Choice::Hardware.label(), "All Hardware Encoding Available Codecs");
    assert_eq!(Choice::Recommended.label(), "H.264 / H.265 / H.266 / AV1");
    assert_eq!(Choice::Custom.label(), "Custom");
    assert_eq!(Choice::from_label("custom"), None);
    assert_eq!(Choice::from_label(""), None);
}

#[test]
fn the_hardware_choice_takes_video_encoders_with_a_hardware_coder() {
    let chosen = select(listing(), Choice::Hardware, &vec![]);
    assert_eq!(extensions(&chosen), ["h264", "av1", "vp9"]);
}

#[test]
fn the_recommended_choice_goes_by_the_extension() {
    let chosen = select(listing(), Choice::Recommended, &vec!["VP9".to_string()]);
    assert_eq!(extensions(&chosen), ["h264", "hevc", "vvc", "av1"]);
}

#[test]
fn the_custom_choice_takes_the_named_codecs_in_listing_order() {
    let selected = vec!["VP9".to_string(), "H.264".to_string(), "None such".to_string()];
    let chosen = select(listing(), Choice::Custom, &selected);
    assert_eq!(extensions(&chosen), ["h264", "vp9"]);
    assert!(select(listing(), Choice::Custom, &vec![]).is_empty());
    assert!(select(vec![], Choice::Hardware, &vec![]).is_empty());
}

#[test]
fn the_candidates_are_the_names_of_the_video_encoders() {
    assert_eq!(candidates(&listing()), ["H.264", "H.265", "AV1", "VP9", "GIF"]);
    assert!(candidates(&vec![]).is_empty());
}

#[test]
fn codecs_answer_for_themselves() {
    let codecs = listing();
    assert!(codecs[0].is_video_encoder() && codecs[0].has_hardware_encoder() && codecs[0].is_recommended());
    assert!(codecs[1].is_video_encoder() && !codecs[1].has_hardware_encoder());
    assert!(!codecs[2].is_video_encoder() && codecs[2].is_recommended());
    assert!(!codecs[5].is_video_encoder() && codecs[5].has_hardware_encoder() && !codecs[5].is_recommended());
    assert!(!codecs[7].is_video_encoder() && codecs[7].has_hardware_encoder());
    for choice in [Choice::Hardware, Choice::Recommended, Choice::Custom] {
        for codec in &codecs {
            let selected = vec!["GIF".to_string()];
            let expected = match choice {
                Choice::Hardware => codec.is_video_encoder() && codec.has_hardware_encoder(),
                Choice::Recommended => codec.is_recommended(),
                Choice::Custom => codec.name == "GIF",
            };
            assert_eq!(choice.takes(codec, &selected), expected);
        }
    }
}
