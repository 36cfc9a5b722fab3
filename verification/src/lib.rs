//! Typed records for a multimedia tool's codec listing.
//!
//! The tool prints one column-aligned line per codec. This crate turns that
//! text into [`codec::Codec`] records, chooses among them, and plans the
//! encodings to compare. Every function it offers carries a contract that
//! the verifier has proved.
//!
//! - [`text`] and [`scan`]: characters, their classes, and scanning a line.
//! - [`codec`] and [`error`]: the record of a codec, and what a parse
//!   reports when the text is no listing.
//! - [`grammar`]: the grammar of a line and its parser; [`laws`] holds what
//!   is proved of it.
//! - [`listing`]: the whole listing, cut into lines and parsed;
//!   [`listing_laws`] holds what is proved of it.
//! - [`select`], [`plan`] and [`score`]: choosing codecs, planning the
//!   encodings, and finding the quality score in the tool's output.

pub mod codec;
pub mod error;
pub mod grammar;
pub mod laws;
pub mod listing;
pub mod listing_laws;
pub mod plan;
pub mod scan;
pub mod score;
pub mod select;
pub mod text;
