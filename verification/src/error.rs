//! What a parse reports when the text is not a listing.

use vstd::prelude::*;
use vstd::utf8::encode_utf8;
use crate::text::{chars_of, string_of};

verus! {

/// The token that the grammar required at the place where a line failed.
#[derive(Debug, Clone, Copy, PartialEq, Eq, Structural)]
pub enum Expected {
    /// `D` or `.`
    DecodableFlag,
    /// `E` or `.`
    EncodableFlag,
    /// One of `V`, `A`, `S`, `D`, `T`
    Kind,
    /// `I` or `.`
    IntraFrameFlag,
    /// `L` or `.`
    LossyFlag,
    /// `S` or `.`
    LosslessFlag,
    /// One or more spaces or tabs
    Whitespace,
    /// The extension: one or more identifier characters
    Extension,
    /// The name: one or more characters
    Name,
    /// The name of an encoder or decoder: one or more identifier characters
    CoderName,
    /// `)`
    CloseParen,
    /// The end of the line
    EndOfLine,
}

impl Expected {
    /// Whether the failure is an empty field: a token of one or more
    /// characters that matched none.
    pub open spec fn is_empty_field(self) -> bool {
        self == Expected::Extension || self == Expected::Name || self == Expected::CoderName
    }

    /// Tells whether the failure is an empty field.
    pub fn empty_field(self) -> (b: bool)
        ensures
            b == self.is_empty_field(),
    {
        match self {
            Expected::Extension | Expected::Name | Expected::CoderName => true,
            _ => false,
        }
    }

    /// The words by which a message names the token.
    pub open spec fn description(self) -> Seq<char> {
        match self {
            Expected::DecodableFlag => "`D` or `.`"@,
            Expected::EncodableFlag => "`E` or `.`"@,
            Expected::Kind => "one of `V`, `A`, `S`, `D`, `T`"@,
            Expected::IntraFrameFlag => "`I` or `.`"@,
            Expected::LossyFlag => "`L` or `.`"@,
            Expected::LosslessFlag => "`S` or `.`"@,
            Expected::Whitespace => "whitespace"@,
            Expected::Extension => "an extension"@,
            Expected::Name => "a name"@,
            Expected::CoderName => "the name of a coder"@,
            Expected::CloseParen => "`)`"@,
            Expected::EndOfLine => "the end of the line"@,
        }
    }

    /// The words by which a message names the token.
    pub fn describe(self) -> (r: &'static str)
        ensures
            r@ == self.description(),
    {
        match self {
            Expected::DecodableFlag => "`D` or `.`",
            Expected::EncodableFlag => "`E` or `.`",
            Expected::Kind => "one of `V`, `A`, `S`, `D`, `T`",
            Expected::IntraFrameFlag => "`I` or `.`",
            Expected::LossyFlag => "`L` or `.`",
            Expected::LosslessFlag => "`S` or `.`",
            Expected::Whitespace => "whitespace",
            Expected::Extension => "an extension",
            Expected::Name => "a name",
            Expected::CoderName => "the name of a coder",
            Expected::CloseParen => "`)`",
            Expected::EndOfLine => "the end of the line",
        }
    }
}

/// A failure of the line grammar as a mathematical value: the number of
/// characters that precede the place of the failure, and what was required
/// there.
pub struct Fault {
    pub offset: int,
    pub expected: Expected,
}

/// A failure of the line grammar: where, and what was required there.
/// `offset` counts the characters of the line that precede the place.
#[derive(Debug, Clone, Copy, PartialEq, Eq)]
pub struct LineFault {
    pub offset: usize,
    pub expected: Expected,
}

impl View for LineFault {
    type V = Fault;

    open spec fn view(&self) -> Fault {
        Fault { offset: self.offset as int, expected: self.expected }
    }
}

/// A line that does not conform to the grammar: its text, the number of
/// its characters that precede the place of the failure, and the token that
/// was required there.
#[derive(Debug, Clone, PartialEq, Eq)]
pub struct LineParseError {
    pub line: String,
    pub offset: usize,
    pub expected: Expected,
}

/// A [`LineParseError`] as a mathematical value.
pub struct LineFailure {
    pub line: Seq<char>,
    pub fault: Fault,
}

impl View for LineParseError {
    type V = LineFailure;

    open spec fn view(&self) -> LineFailure {
        LineFailure {
            line: self.line@,
            fault: Fault { offset: self.offset as int, expected: self.expected },
        }
    }
}

impl LineFailure {
    /// The characters of the line that precede the place of the failure.
    pub open spec fn before(self) -> Seq<char> {
        if 0 <= self.fault.offset <= self.line.len() {
            self.line.take(self.fault.offset)
        } else {
            self.line
        }
    }

    /// The number of bytes that precede the place of the failure in the
    /// UTF-8 text of the line.
    pub open spec fn byte_offset(self) -> nat {
        encode_utf8(self.before()).len()
    }
}

impl LineParseError {
    /// Counts the bytes that precede the place of the failure in the UTF-8
    /// text of the line.
    pub fn byte_offset(&self) -> (r: usize)
        ensures
            r == self@.byte_offset() as usize,
    {
        let line = chars_of(self.line.as_str());
        let upto = if self.offset <= line.len() {
            self.offset
        } else {
            line.len()
        };
        let before = string_of(line.as_slice(), 0, upto);
        assert(before@ =~= self@.before());
        before.as_str().len()
    }
}

/// Why a listing could not be parsed.
#[derive(Debug, Clone, PartialEq, Eq)]
pub enum ParseError {
    /// The text has no separator between its header and its data.
    MissingDataSection,
    /// A data line does not conform to the grammar.
    Line(LineParseError),
}

/// A [`ParseError`] as a mathematical value.
pub enum ListingFailure {
    MissingDataSection,
    Line(LineFailure),
}

impl View for ParseError {
    type V = ListingFailure;

    open spec fn view(&self) -> ListingFailure {
        match self {
            ParseError::MissingDataSection => ListingFailure::MissingDataSection,
            ParseError::Line(error) => ListingFailure::Line(error@),
        }
    }
}

} // verus!
