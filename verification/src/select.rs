//! Choosing codecs from a parsed listing.

use vstd::prelude::*;
use crate::codec::{records, texts, Codec, CodecKind, CodecView};
use crate::scan::{has_prefix_at, starts_with_at};
use crate::text::chars_of;

verus! {

/// `s` ends with the text `suffix`.
pub open spec fn ends_with(s: Seq<char>, suffix: Seq<char>) -> bool {
    has_prefix_at(s, s.len() - suffix.len(), suffix)
}

/// Tells whether `s` ends with the text `suffix`.
pub fn has_suffix(s: &[char], suffix: &str) -> (b: bool)
    ensures
        b == ends_with(s@, suffix@),
{
    let tail = chars_of(suffix);
    tail.len() <= s.len() && starts_with_at(s, s.len() - tail.len(), tail.as_slice())
}

/// A coder whose name ends as those of the hardware encoders do.
pub open spec fn is_hardware_coder_name(name: Seq<char>) -> bool {
    ||| ends_with(name, "nvenc"@)
    ||| ends_with(name, "qsv"@)
    ||| ends_with(name, "vaapi"@)
    ||| ends_with(name, "amf"@)
    ||| ends_with(name, "videotoolbox"@)
}

/// Tells whether the coder named `input` runs on hardware: whether its
/// name ends in `nvenc`, `qsv`, `vaapi`, `amf` or `videotoolbox`.
pub fn is_hardware_coder(input: &str) -> (b: bool)
    ensures
        b == is_hardware_coder_name(input@),
{
    let name = chars_of(input);
    let name = name.as_slice();
    has_suffix(name, "nvenc") || has_suffix(name, "qsv") || has_suffix(name, "vaapi") || has_suffix(
        name,
        "amf",
    ) || has_suffix(name, "videotoolbox")
}

/// Tells whether two texts are the same.
pub fn same_text(a: &str, b: &str) -> (same: bool)
    ensures
        same == (a@ == b@),
{
    let left = chars_of(a);
    let right = chars_of(b);
    if left.len() != right.len() {
        return false;
    }
    let same = starts_with_at(left.as_slice(), 0, right.as_slice());
    assert(left@.subrange(0, left@.len() as int) =~= left@);
    same
}

/// A codec with which the tool can encode video.
pub open spec fn is_video_encoder(codec: CodecView) -> bool {
    codec.kind == CodecKind::Video && codec.encodable
}

/// A codec one of whose listed encoders runs on hardware.
pub open spec fn has_hardware_encoder(codec: CodecView) -> bool {
    exists|i: int| 0 <= i < codec.encoders.len() && is_hardware_coder_name(codec.encoders[i])
}

/// One of the four codecs of the recommended set, told by its extension.
pub open spec fn is_recommended(codec: CodecView) -> bool {
    ||| codec.extension == "h264"@
    ||| codec.extension == "hevc"@
    ||| codec.extension == "av1"@
    ||| codec.extension == "vvc"@
}

impl Codec {
    /// Tells whether the tool can encode video with this codec.
    pub fn is_video_encoder(&self) -> (b: bool)
        ensures
            b == is_video_encoder(self@),
    {
        self.kind == CodecKind::Video && self.encodable
    }

    /// Tells whether one of the listed encoders runs on hardware.
    pub fn has_hardware_encoder(&self) -> (b: bool)
        ensures
            b == has_hardware_encoder(self@),
    {
        let mut i: usize = 0;
        while i < self.encoders.len()
            invariant
                i <= self.encoders.len(),
                forall|j: int| 0 <= j < i ==> !is_hardware_coder_name(self@.encoders[j]),
            decreases self.encoders.len() - i,
        {
            if is_hardware_coder(self.encoders[i].as_str()) {
                assert(is_hardware_coder_name(self@.encoders[i as int]));
                return true;
            }
            i += 1;
        }
        false
    }

    /// Tells whether the codec belongs to the recommended set.
    pub fn is_recommended(&self) -> (b: bool)
        ensures
            b == is_recommended(self@),
    {
        let extension = self.extension.as_str();
        same_text(extension, "h264") || same_text(extension, "hevc") || same_text(extension, "av1")
            || same_text(extension, "vvc")
    }
}

/// The sets of codecs that a user can ask for.
#[derive(Debug, Clone, Copy, PartialEq, Eq, Structural)]
pub enum Choice {
    /// Every video codec that has an encoder on hardware.
    Hardware,
    /// H.264, H.265, H.266 and AV1.
    Recommended,
    /// The codecs that the user names.
    Custom,
}

impl Choice {
    /// The words that offer the choice to the user.
    pub open spec fn label_text(self) -> Seq<char> {
        match self {
            Choice::Hardware => "All Hardware Encoding Available Codecs"@,
            Choice::Recommended => "H.264 / H.265 / H.266 / AV1"@,
            Choice::Custom => "Custom"@,
        }
    }

    /// The choice that `label` offers, if it offers one.
    pub open spec fn of_label(label: Seq<char>) -> Option<Choice> {
        if label == Choice::Hardware.label_text() {
            Some(Choice::Hardware)
        } else if label == Choice::Recommended.label_text() {
            Some(Choice::Recommended)
        } else if label == Choice::Custom.label_text() {
            Some(Choice::Custom)
        } else {
            None
        }
    }

    /// Whether the choice takes `codec`, where `selected` holds the names
    /// that the user picked for a custom choice.
    pub open spec fn accepts(self, codec: CodecView, selected: Seq<Seq<char>>) -> bool {
        match self {
            Choice::Hardware => is_video_encoder(codec) && has_hardware_encoder(codec),
            Choice::Recommended => is_recommended(codec),
            Choice::Custom => selected.contains(codec.name),
        }
    }

    /// `accepts` as a predicate on codecs.
    pub open spec fn rule(self, selected: Seq<Seq<char>>) -> spec_fn(CodecView) -> bool {
        |codec: CodecView| self.accepts(codec, selected)
    }

    /// The words that offer the choice to the user.
    pub fn label(self) -> (r: &'static str)
        ensures
            r@ == self.label_text(),
    {
        match self {
            Choice::Hardware => "All Hardware Encoding Available Codecs",
            Choice::Recommended => "H.264 / H.265 / H.266 / AV1",
            Choice::Custom => "Custom",
        }
    }

    /// Finds the choice that `label` offers.
    pub fn from_label(label: &str) -> (r: Option<Choice>)
        ensures
            r == Choice::of_label(label@),
    {
        if same_text(label, Choice::Hardware.label()) {
            Some(Choice::Hardware)
        } else if same_text(label, Choice::Recommended.label()) {
            Some(Choice::Recommended)
        } else if same_text(label, Choice::Custom.label()) {
            Some(Choice::Custom)
        } else {
            None
        }
    }

    /// Tells whether the choice takes `codec`.
    pub fn takes(self, codec: &Codec, selected: &Vec<String>) -> (b: bool)
        ensures
            b == self.accepts(codec@, texts(selected@)),
    {
        match self {
            Choice::Hardware => codec.is_video_encoder() && codec.has_hardware_encoder(),
            Choice::Recommended => codec.is_recommended(),
            Choice::Custom => {
                let mut i: usize = 0;
                while i < selected.len()
                    invariant
                        self == Choice::Custom,
                        i <= selected.len(),
                        forall|j: int| 0 <= j < i ==> texts(selected@)[j] != codec@.name,
                    decreases selected.len() - i,
                {
                    if same_text(selected[i].as_str(), codec.name.as_str()) {
                        assert(texts(selected@)[i as int] == codec@.name);
                        assert(texts(selected@).contains(codec@.name));
                        return true;
                    }
                    i += 1;
                }
                false
            },
        }
    }
}

/// The label of a choice leads back to the choice.
pub proof fn law_label_round_trip(choice: Choice)
    ensures
        Choice::of_label(choice.label_text()) == Some(choice),
{
    reveal_strlit("All Hardware Encoding Available Codecs");
    reveal_strlit("H.264 / H.265 / H.266 / AV1");
    reveal_strlit("Custom");
    assert("All Hardware Encoding Available Codecs"@.len() != "H.264 / H.265 / H.266 / AV1"@.len());
    assert("All Hardware Encoding Available Codecs"@.len() != "Custom"@.len());
    assert("H.264 / H.265 / H.266 / AV1"@.len() != "Custom"@.len());
}

/// The names of the codecs with which the tool can encode video, in the
/// order of the listing: what a custom choice is made from.
pub fn candidates(codecs: &Vec<Codec>) -> (names: Vec<String>)
    ensures
        texts(names@) == records(codecs@).filter(|codec: CodecView| is_video_encoder(codec)).map_values(
            |codec: CodecView| codec.name,
        ),
{
    let ghost rule = |codec: CodecView| is_video_encoder(codec);
    let ghost name = |codec: CodecView| codec.name;
    let mut names: Vec<String> = Vec::new();
    let mut i: usize = 0;
    assert(records(codecs@).take(0) =~= Seq::<CodecView>::empty());
    assert(texts(names@) =~= Seq::<CodecView>::empty().filter(rule).map_values(name)) by {
        reveal(Seq::filter);
    }
    while i < codecs.len()
        invariant
            i <= codecs.len(),
            rule == |codec: CodecView| is_video_encoder(codec),
            name == |codec: CodecView| codec.name,
            texts(names@) == records(codecs@).take(i as int).filter(rule).map_values(name),
        decreases codecs.len() - i,
    {
        let ghost before = names@;
        let ghost front = records(codecs@).take(i as int);
        assert(records(codecs@).take(i + 1) =~= front.push(codecs@[i as int]@));
        proof {
            front.lemma_filter_push(codecs@[i as int]@, rule);
        }
        if codecs[i].is_video_encoder() {
            names.push(codecs[i].name.clone());
            assert(texts(names@) =~= texts(before).push(codecs@[i as int]@.name));
            assert(front.filter(rule).push(codecs@[i as int]@).map_values(name) =~= front.filter(
                rule,
            ).map_values(name).push(codecs@[i as int]@.name));
        }
        i += 1;
    }
    assert(records(codecs@).take(i as int) =~= records(codecs@));
    names
}

/// The codecs that `choice` takes, in the order of the listing. `selected`
/// holds the names that the user picked; only a custom choice reads it.
pub fn select(codecs: Vec<Codec>, choice: Choice, selected: &Vec<String>) -> (chosen: Vec<Codec>)
    ensures
        records(chosen@) == records(codecs@).filter(choice.rule(texts(selected@))),
{
    let ghost rule = choice.rule(texts(selected@));
    let ghost all = codecs@;
    let mut chosen: Vec<Codec> = Vec::new();
    assert(records(chosen@) =~= Seq::<CodecView>::empty().filter(rule)) by {
        reveal(Seq::filter);
    }
    assert(records(all.take(0)) =~= Seq::<CodecView>::empty());
    for codec in it: codecs
        invariant
            it.seq() == all,
            rule == choice.rule(texts(selected@)),
            records(chosen@) == records(all.take(it.index() as int)).filter(rule),
    {
        let ghost before = chosen@;
        let ghost front = records(all.take(it.index() as int));
        assert(records(all.take(it.index() + 1)) =~= front.push(codec@));
        proof {
            front.lemma_filter_push(codec@, rule);
        }
        if choice.takes(&codec, selected) {
            chosen.push(codec);
            assert(records(chosen@) =~= records(before).push(codec@));
        }
    }
    assert(all.take(all.len() as int) =~= all);
    chosen
}

} // verus!
