//! Lazy, fail-closed decoding of OpenType layout tables (the structures shared
//! by GSUB and GPOS): script, language, feature and lookup lists, feature
//! variations, coverage tables and class-definition tables.
//!
//! Every structure borrows a sub-range of one immutable byte buffer and decodes
//! values only at the moment of access. Malformed or truncated input is an
//! expected input class: every fallible operation returns an absence signal
//! (`None`), never a panic.
//!
//! Sorted-order invariants of the format (ascending tags in record lists,
//! ascending glyph ids in coverage arrays) are a trust boundary: they are
//! assumed, not re-validated, and lookups that rely on them degrade to a wrong
//! or missing result, never a crash, when a font violates them. Contracts that
//! depend on sortedness say so explicitly.

use vstd::prelude::*;

pub mod ggg;
pub mod parser;

use crate::parser::be16;
use crate::parser::be32;
use crate::parser::FromData;
use crate::parser::SearchKey;

verus! {

/// A 4-byte identifier used for scripts, languages and features.
#[derive(Clone, Copy, PartialEq, Eq, Structural, Debug)]
pub struct Tag(pub u32);

impl Tag {
    /// Builds a tag from its four bytes, most significant first.
    pub fn from_bytes(bytes: &[u8; 4]) -> (r: Tag)
        ensures
            r.0 == be32(bytes@, 0),
    {
        let b0 = bytes[0];
        let b1 = bytes[1];
        let b2 = bytes[2];
        let b3 = bytes[3];
        Tag(
            (b0 as u32) * 0x1000000 + (b1 as u32) * 0x10000 + (b2 as u32) * 0x100 + (b3 as u32),
        )
    }
}

impl FromData for Tag {
    open spec fn spec_size() -> int {
        4
    }

    open spec fn spec_parse(data: Seq<u8>) -> Tag {
        Tag(be32(data, 0))
    }

    proof fn size_facts() {
    }

    fn size() -> usize {
        4
    }

    fn parse(data: &[u8]) -> (r: Option<Tag>) {
        if data.len() == 4 {
            match u32::parse(data) {
                Some(n) => Some(Tag(n)),
                None => None,
            }
        } else {
            None
        }
    }
}

/// A glyph identifier.
#[derive(Clone, Copy, PartialEq, Eq, Structural, Debug)]
pub struct GlyphId(pub u16);

impl FromData for GlyphId {
    open spec fn spec_size() -> int {
        2
    }

    open spec fn spec_parse(data: Seq<u8>) -> GlyphId {
        GlyphId(be16(data, 0))
    }

    proof fn size_facts() {
    }

    fn size() -> usize {
        2
    }

    fn parse(data: &[u8]) -> (r: Option<GlyphId>) {
        if data.len() == 2 {
            match u16::parse(data) {
                Some(n) => Some(GlyphId(n)),
                None => None,
            }
        } else {
            None
        }
    }
}

impl SearchKey for GlyphId {
    open spec fn spec_key(&self) -> u64 {
        self.0 as u64
    }

    fn key(&self) -> u64 {
        self.0 as u64
    }
}

/// A variation-axis coordinate already normalized to the 2.14 fixed range.
#[derive(Clone, Copy, PartialEq, Eq, Structural, Debug)]
pub struct NormalizedCoord(pub i16);

impl NormalizedCoord {
    /// The raw 2.14 fixed value.
    pub fn get(&self) -> (r: i16)
        ensures
            r == self.0,
    {
        self.0
    }
}

} // verus!
