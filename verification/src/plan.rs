//! Planning the encodings: which encoders to run for the chosen codecs, at
//! which quality levels, into which files, and how a run goes on after each
//! encoding.

use vstd::prelude::*;
use crate::codec::{records, Codec, CodecView};

verus! {

/// The quality levels at which every encoder is run, in their order.
pub open spec fn quality_levels() -> Seq<u8> {
    seq![100u8, 99u8, 95u8, 90u8, 80u8, 60u8, 40u8, 20u8]
}

/// The quality levels at which every encoder is run, in their order.
pub fn levels() -> (r: Vec<u8>)
    ensures
        r@ == quality_levels(),
{
    let r: Vec<u8> = vec![100u8, 99u8, 95u8, 90u8, 80u8, 60u8, 40u8, 20u8];
    assert(r@ =~= quality_levels());
    r
}

/// One encoder to run, with the extension of the codec it is run for.
#[derive(Debug, Clone, PartialEq, Eq)]
pub struct Target {
    pub extension: String,
    pub encoder: String,
}

/// A [`Target`] as a mathematical value.
pub struct TargetView {
    pub extension: Seq<char>,
    pub encoder: Seq<char>,
}

impl View for Target {
    type V = TargetView;

    open spec fn view(&self) -> TargetView {
        TargetView { extension: self.extension@, encoder: self.encoder@ }
    }
}

/// The views of a vector of targets.
pub open spec fn target_views(v: Seq<Target>) -> Seq<TargetView> {
    Seq::new(v.len(), |i: int| v[i]@)
}

/// The encoders to run for a codec: those that the listing names, or the
/// one that goes by the codec's extension where it names none.
pub open spec fn coders_to_try(codec: CodecView) -> Seq<Seq<char>> {
    if codec.encoders.len() > 0 {
        codec.encoders
    } else {
        seq![codec.extension]
    }
}

/// The targets of one codec, in the order of its encoders.
pub open spec fn codec_targets(codec: CodecView) -> Seq<TargetView> {
    coders_to_try(codec).map_values(
        |encoder: Seq<char>| TargetView { extension: codec.extension, encoder },
    )
}

/// The targets of the chosen codecs: those of the first codec, then those
/// of the second, and so on.
pub open spec fn plan(codecs: Seq<CodecView>) -> Seq<TargetView> {
    codecs.flat_map(|codec: CodecView| codec_targets(codec))
}

/// Lists the encoders to run for the chosen codecs.
pub fn targets(codecs: &Vec<Codec>) -> (r: Vec<Target>)
    ensures
        target_views(r@) == plan(records(codecs@)),
{
    let ghost each = |codec: CodecView| codec_targets(codec);
    let mut r: Vec<Target> = Vec::new();
    let mut i: usize = 0;
    assert(records(codecs@).take(0).map_values(each) =~= Seq::<Seq<TargetView>>::empty());
    assert(target_views(r@) =~= Seq::<Seq<TargetView>>::empty().flatten());
    while i < codecs.len()
        invariant
            i <= codecs.len(),
            each == |codec: CodecView| codec_targets(codec),
            target_views(r@) == records(codecs@).take(i as int).map_values(each).flatten(),
        decreases codecs.len() - i,
    {
        let codec = &codecs[i];
        let ghost before = target_views(r@);
        let ghost front = records(codecs@).take(i as int).map_values(each);
        assert(records(codecs@).take(i + 1).map_values(each) =~= front.push(codec_targets(codec@)));
        proof {
            front.lemma_flatten_push(codec_targets(codec@));
        }
        if codec.encoders.len() > 0 {
            let mut j: usize = 0;
            while j < codec.encoders.len()
                invariant
                    j <= codec.encoders.len(),
                    codec.encoders.len() > 0,
                    target_views(r@) == before + codec_targets(codec@).take(j as int),
                decreases codec.encoders.len() - j,
            {
                let ghost so_far = r@;
                r.push(
                    Target { extension: codec.extension.clone(), encoder: codec.encoders[j].clone() },
                );
                assert(target_views(r@) =~= target_views(so_far).push(
                    codec_targets(codec@)[j as int],
                ));
                assert(codec_targets(codec@).take(j + 1) =~= codec_targets(codec@).take(
                    j as int,
                ).push(codec_targets(codec@)[j as int]));
                j += 1;
            }
            assert(codec_targets(codec@).take(j as int) =~= codec_targets(codec@));
        } else {
            let ghost so_far = r@;
            r.push(Target { extension: codec.extension.clone(), encoder: codec.extension.clone() });
            assert(target_views(r@) =~= target_views(so_far).push(codec_targets(codec@)[0]));
            assert(codec_targets(codec@) =~= seq![codec_targets(codec@)[0]]);
        }
        i += 1;
    }
    assert(records(codecs@).take(i as int) =~= records(codecs@));
    r
}

/// The character of a decimal digit.
pub open spec fn digit(d: nat) -> char {
    if d == 0 {
        '0'
    } else if d == 1 {
        '1'
    } else if d == 2 {
        '2'
    } else if d == 3 {
        '3'
    } else if d == 4 {
        '4'
    } else if d == 5 {
        '5'
    } else if d == 6 {
        '6'
    } else if d == 7 {
        '7'
    } else if d == 8 {
        '8'
    } else {
        '9'
    }
}

/// A number in decimal digits, without leading zeros.
pub open spec fn decimal(n: nat) -> Seq<char>
    decreases n,
{
    if n < 10 {
        seq![digit(n)]
    } else {
        decimal(n / 10).push(digit(n % 10))
    }
}

/// The character of the decimal digit `d`.
fn digit_char(d: u8) -> (c: char)
    requires
        d < 10,
    ensures
        c == digit(d as nat),
{
    if d == 0 {
        '0'
    } else if d == 1 {
        '1'
    } else if d == 2 {
        '2'
    } else if d == 3 {
        '3'
    } else if d == 4 {
        '4'
    } else if d == 5 {
        '5'
    } else if d == 6 {
        '6'
    } else if d == 7 {
        '7'
    } else if d == 8 {
        '8'
    } else {
        '9'
    }
}

/// Writes `n` in decimal digits.
pub fn decimal_string(n: u8) -> (r: String)
    ensures
        r@ == decimal(n as nat),
{
    let mut r = String::new();
    if n >= 100 {
        r.push(digit_char(n / 100));
    }
    if n >= 10 {
        r.push(digit_char((n / 10) % 10));
    }
    r.push(digit_char(n % 10));
    proof {
        reveal_with_fuel(decimal, 3);
        assert(r@ =~= decimal(n as nat));
    }
    r
}

/// The path of the file that holds `basename` as `target` encodes it at
/// `level`.
pub open spec fn file_name_of(basename: Seq<char>, target: TargetView, level: u8) -> Seq<char> {
    "rqd/"@ + basename + "."@ + target.extension + "."@ + target.encoder + ".q"@ + decimal(
        level as nat,
    ) + ".mp4"@
}

/// Names the file that holds `basename` as `target` encodes it at `level`:
/// `rqd/`, the base name, the extension, the encoder and `q` with the
/// level, parted by full stops, and `.mp4`.
pub fn file_name(basename: &str, target: &Target, level: u8) -> (r: String)
    ensures
        r@ == file_name_of(basename@, target@, level),
{
    let mut r = String::new();
    r.append("rqd/");
    r.append(basename);
    r.append(".");
    r.append(target.extension.as_str());
    r.append(".");
    r.append(target.encoder.as_str());
    r.append(".q");
    r.append(decimal_string(level).as_str());
    r.append(".mp4");
    assert(r@ =~= file_name_of(basename@, target@, level));
    r
}

/// How one encoding ended.
#[derive(Debug, Clone, Copy, PartialEq, Eq, Structural)]
pub enum Outcome {
    /// The file was there already; nothing was encoded.
    Exists,
    /// The encoder wrote the file.
    Encoded,
    /// The encoder failed.
    Failed,
}

impl Outcome {
    /// Whether the file of the encoding is there to be evaluated.
    pub open spec fn keeps_file(self) -> bool {
        self != Outcome::Failed
    }

    /// Tells whether the file of the encoding is there to be evaluated.
    pub fn has_file(self) -> (b: bool)
        ensures
            b == self.keeps_file(),
    {
        match self {
            Outcome::Failed => false,
            _ => true,
        }
    }
}

/// A place in a run: the index of the target and that of the quality level.
#[derive(Debug, Clone, Copy, PartialEq, Eq, Structural)]
pub struct Step {
    pub target: usize,
    pub level: usize,
}

impl Step {
    /// Whether the step names one of the quality levels.
    pub open spec fn is_valid(self) -> bool {
        self.level < quality_levels().len()
    }

    /// The step that follows `self` after `outcome`: the next level of the
    /// same target, or, after the last level and after a failure, the first
    /// level of the next target. A failed encoder is not run again.
    pub open spec fn next(self, outcome: Outcome) -> Step {
        if outcome != Outcome::Failed && self.level + 1 < quality_levels().len() {
            Step { target: self.target, level: (self.level + 1) as usize }
        } else {
            Step { target: (self.target + 1) as usize, level: 0 }
        }
    }

    /// The first step of a run.
    pub fn first() -> (r: Step)
        ensures
            r == (Step { target: 0, level: 0 }),
            r.is_valid(),
    {
        Step { target: 0, level: 0 }
    }

    /// The step that follows `self` after `outcome`, in a run over
    /// `targets` targets.
    pub fn after(self, outcome: Outcome, targets: usize) -> (r: Step)
        requires
            self.target < targets,
        ensures
            r == self.next(outcome),
            r.target <= targets,
            r.is_valid(),
    {
        match outcome {
            Outcome::Failed => Step { target: self.target + 1, level: 0 },
            _ => {
                if self.level < 7 {
                    Step { target: self.target, level: self.level + 1 }
                } else {
                    Step { target: self.target + 1, level: 0 }
                }
            },
        }
    }
}

} // verus!
