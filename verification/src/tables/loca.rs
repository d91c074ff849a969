use vstd::prelude::*;
use crate::parse::primitives::{u16_at, u32_at};
use crate::parse::{DynArr, Parse};
use crate::tables::{PrimaryTable, TableTag};

verus! {

/// The glyph-location table: one byte offset into the outline table per
/// glyph, plus a final sentinel.  Whether an entry is 16 or 32 bits wide
/// comes from the font header, so this table cannot be decoded from its
/// bytes alone.
#[derive(Debug)]
pub enum Loca<'a> {
    Short(S<'a>),
    Long(L<'a>),
}

/// 16-bit location entries.
#[derive(Debug)]
pub struct S<'a>(pub DynArr<'a, u16>);

/// 32-bit location entries.
#[derive(Debug)]
pub struct L<'a>(pub DynArr<'a, u32>);

impl<'a> PrimaryTable for Loca<'a> {
    open spec fn spec_tag() -> TableTag {
        TableTag::GlyphLocation
    }

    fn tag() -> (r: TableTag) {
        TableTag::GlyphLocation
    }
}

impl<'a> Loca<'a> {
    /// Number of offsets the table holds.
    pub open spec fn spec_len(self) -> nat {
        match self {
            Loca::Short(arr) => arr.0.spec_len(),
            Loca::Long(arr) => arr.0.spec_len(),
        }
    }

    /// The byte offset entry `idx` holds: a short entry stores half the
    /// offset and is doubled on reading; a long entry stores it directly.
    pub open spec fn spec_offset_at(self, idx: int) -> int {
        match self {
            Loca::Short(arr) => 2 * u16_at(arr.0.bytes(), idx),
            Loca::Long(arr) => u32_at(arr.0.bytes(), idx),
        }
    }

    /// The outline offset of glyph `idx`, or `None` when entries `idx` and
    /// `idx + 1` coincide: such a glyph has no outline at all.
    pub fn at(&self, idx: usize) -> (r: Option<u32>)
        requires
            idx + 1 < self.spec_len(),
        ensures
            r is Some <==> self.spec_offset_at(idx as int) != self.spec_offset_at(idx + 1),
            r is Some ==> r.unwrap() == self.spec_offset_at(idx as int),
    {
        // Materialize the entry count as a machine word, so the index
        // arithmetic below is known to stay in range.
        let _entries: usize = match self {
            Loca::Short(arr) => arr.0.len(),
            Loca::Long(arr) => arr.0.len(),
        };
        let offset = self.at_inner(idx);
        let next_offset = self.at_inner(idx + 1);
        if offset == next_offset {
            None
        } else {
            Some(offset)
        }
    }

    /// Read entry `idx`, doubling and widening short entries.
    fn at_inner(&self, idx: usize) -> (r: u32)
        requires
            idx < self.spec_len(),
        ensures
            r == self.spec_offset_at(idx as int),
    {
        match self {
            Loca::Short(arr) => arr.0.at(idx) as u32 * 2,
            Loca::Long(arr) => arr.0.at(idx),
        }
    }
}

} // verus!
