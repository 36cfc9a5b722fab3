//! The record that one line of the listing describes.

use vstd::prelude::*;
use crate::scan::{all_in, has_prefix_at, CharClass};
use crate::text::is_blank;

verus! {

/// The media category of a codec.
#[derive(Debug, Clone, Copy, PartialEq, Eq, Structural)]
pub enum CodecKind {
    Video,
    Audio,
    Subtitle,
    Data,
    Attachment,
}

/// One codec of the listing.
///
/// An empty `encoders` (or `decoders`) means that the line named no
/// encoders: a list that is written out has at least one entry.
#[derive(Debug, Clone, PartialEq, Eq)]
pub struct Codec {
    pub decodable: bool,
    pub encodable: bool,
    pub kind: CodecKind,
    pub intra_frame_only: bool,
    pub lossy_capable: bool,
    pub lossless_capable: bool,
    pub extension: String,
    pub name: String,
    pub encoders: Vec<String>,
    pub decoders: Vec<String>,
}

/// The text that ends the name of a codec and opens its list of encoders.
pub open spec fn encoders_marker() -> Seq<char> {
    "(encoders:"@
}

/// The character sequences of a vector of strings.
pub open spec fn texts(v: Seq<String>) -> Seq<Seq<char>> {
    Seq::new(v.len(), |i: int| v[i]@)
}

/// A token of one or more identifier characters.
pub open spec fn is_identifier_token(t: Seq<char>) -> bool {
    t.len() > 0 && all_in(t, CharClass::Identifier)
}

/// A [`Codec`] as a mathematical value.
pub struct CodecView {
    pub decodable: bool,
    pub encodable: bool,
    pub kind: CodecKind,
    pub intra_frame_only: bool,
    pub lossy_capable: bool,
    pub lossless_capable: bool,
    pub extension: Seq<char>,
    pub name: Seq<char>,
    pub encoders: Seq<Seq<char>>,
    pub decoders: Seq<Seq<char>>,
}

impl CodecView {
    /// What holds of every record that the line grammar yields, and of no
    /// other: the extension and every listed coder are identifier tokens;
    /// the name is not empty, does not begin with a blank and nowhere holds
    /// the text that opens the list of encoders; and decoders are listed
    /// only where encoders are.
    pub open spec fn well_formed(self) -> bool {
        &&& is_identifier_token(self.extension)
        &&& self.decoders.len() > 0 ==> self.encoders.len() > 0
        &&& self.name.len() > 0
        &&& !is_blank(self.name[0])
        &&& forall|i: int| !has_prefix_at(self.name, i, encoders_marker())
        &&& forall|i: int|
            0 <= i < self.encoders.len() ==> is_identifier_token(#[trigger] self.encoders[i])
        &&& forall|i: int|
            0 <= i < self.decoders.len() ==> is_identifier_token(#[trigger] self.decoders[i])
    }
}

impl View for Codec {
    type V = CodecView;

    open spec fn view(&self) -> CodecView {
        CodecView {
            decodable: self.decodable,
            encodable: self.encodable,
            kind: self.kind,
            intra_frame_only: self.intra_frame_only,
            lossy_capable: self.lossy_capable,
            lossless_capable: self.lossless_capable,
            extension: self.extension@,
            name: self.name@,
            encoders: texts(self.encoders@),
            decoders: texts(self.decoders@),
        }
    }
}

/// The views of a vector of records.
pub open spec fn records(v: Seq<Codec>) -> Seq<CodecView> {
    Seq::new(v.len(), |i: int| v[i]@)
}

} // verus!
