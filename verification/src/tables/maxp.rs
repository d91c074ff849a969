use vstd::prelude::*;
use crate::parse::{lemma_prefix_bytes_equal, BufView, Parse};
use crate::parse::primitives::{be16, signed16, u16_at, Fixed};
use crate::tables::{PrimaryTable, TableTag};

verus! {

/// The maximum-profile table: the glyph count and, from version one on, a
/// block of further limits.
#[derive(Debug)]
pub struct MaxP<'a> {
    pub version: Fixed,
    pub num_glyphs: u16,
    pub ext_start: BufView<'a, MaxPV1Ext>,
}

impl<'a> PrimaryTable for MaxP<'a> {
    open spec fn spec_tag() -> TableTag {
        TableTag::MaximumProfile
    }

    fn tag() -> (r: TableTag) {
        TableTag::MaximumProfile
    }
}

impl<'a> MaxP<'a> {
    /// Decode the table head; the version-one block stays a lazy view.
    pub fn parse_table(buf: &'a [u8]) -> (r: Option<MaxP<'a>>)
        ensures
            r is Some <==> buf@.len() >= 6,
            r is Some ==> {
                &&& r.unwrap().version == Fixed(
                    signed16(be16(buf@[0], buf@[1])) as i16,
                    signed16(be16(buf@[2], buf@[3])) as i16,
                )
                &&& r.unwrap().num_glyphs == u16_at(buf@, 2)
                &&& r.unwrap().ext_start.bytes() == buf@.skip(6)
            },
    {
        if buf.len() < 6 {
            return None;
        }
        let (b, version) = Fixed::parse(buf);
        let (b, num_glyphs) = u16::parse(b);
        proof {
            assert(b@ =~= buf@.skip(6));
        }
        Some(MaxP { version, num_glyphs, ext_start: BufView(b, core::marker::PhantomData) })
    }

    /// Version 0.5 holds the glyph count alone.
    pub fn is_version_0_5(&self) -> (r: bool)
        ensures
            r == (self.version == Fixed(0, 0x5000)),
    {
        self.version.0 == 0 && self.version.1 == 0x5000
    }

    /// Version 1.0 carries the block of further limits.
    pub fn is_version_1(&self) -> (r: bool)
        ensures
            r == (self.version == Fixed(1, 0)),
    {
        self.version.0 == 1 && self.version.1 == 0
    }

    /// The version-one block, decoded on demand.  `None` for other
    /// versions or when the table's bytes run out before the block ends.
    pub fn version_1_ext(&self) -> (r: Option<MaxPV1Ext>)
        ensures
            r is Some <==> self.version == Fixed(1, 0) && self.ext_start.bytes().len() >= 26,
            r is Some ==> MaxPV1Ext::parsed(self.ext_start.bytes(), r.unwrap()),
    {
        if self.is_version_1() && self.ext_start.0.len() >= 26 {
            Some(self.ext_start.at(0))
        } else {
            None
        }
    }
}

/// The limits that a version-one maximum profile declares.
#[allow(non_snake_case)]
#[derive(Debug, PartialEq, Clone, Copy)]
pub struct MaxPV1Ext {
    pub max_points: u16,
    pub max_contours: u16,
    pub max_composite_points: u16,
    pub max_composite_contours: u16,
    pub max_zones: u16,
    pub max_twilight_points: u16,
    pub max_storage: u16,
    pub max_function_defs: u16,
    pub max_instruction_defs: u16,
    pub max_stack_elements: u16,
    pub max_size_Of_instructions: u16,
    pub max_component_elements: u16,
    pub max_component_depth: u16,
}

impl Parse for MaxPV1Ext {
    open spec fn spec_size() -> nat {
        26
    }

    open spec fn parsed(data: Seq<u8>, v: Self) -> bool {
        &&& v.max_points == u16_at(data, 0)
        &&& v.max_contours == u16_at(data, 1)
        &&& v.max_composite_points == u16_at(data, 2)
        &&& v.max_composite_contours == u16_at(data, 3)
        &&& v.max_zones == u16_at(data, 4)
        &&& v.max_twilight_points == u16_at(data, 5)
        &&& v.max_storage == u16_at(data, 6)
        &&& v.max_function_defs == u16_at(data, 7)
        &&& v.max_instruction_defs == u16_at(data, 8)
        &&& v.max_stack_elements == u16_at(data, 9)
        &&& v.max_size_Of_instructions == u16_at(data, 10)
        &&& v.max_component_elements == u16_at(data, 11)
        &&& v.max_component_depth == u16_at(data, 12)
    }

    proof fn parsed_prefix_only(d1: Seq<u8>, d2: Seq<u8>, v: Self) {
        lemma_prefix_bytes_equal(d1, d2, 26);
    }

    proof fn parsed_unique(data: Seq<u8>, v1: Self, v2: Self) {
    }

    proof fn size_positive() {
    }

    fn approx_file_size() -> (r: usize) {
        26
    }

    fn parse<'a>(buf: &'a [u8]) -> (r: (&'a [u8], Self)) {
        let (b, max_points) = u16::parse(buf);
        let (b, max_contours) = u16::parse(b);
        let (b, max_composite_points) = u16::parse(b);
        let (b, max_composite_contours) = u16::parse(b);
        let (b, max_zones) = u16::parse(b);
        let (b, max_twilight_points) = u16::parse(b);
        let (b, max_storage) = u16::parse(b);
        let (b, max_function_defs) = u16::parse(b);
        let (b, max_instruction_defs) = u16::parse(b);
        let (b, max_stack_elements) = u16::parse(b);
        let (b, max_size_Of_instructions) = u16::parse(b);
        let (b, max_component_elements) = u16::parse(b);
        let (b, max_component_depth) = u16::parse(b);
        let v = MaxPV1Ext {
            max_points,
            max_contours,
            max_composite_points,
            max_composite_contours,
            max_zones,
            max_twilight_points,
            max_storage,
            max_function_defs,
            max_instruction_defs,
            max_stack_elements,
            max_size_Of_instructions,
            max_component_elements,
            max_component_depth,
        };
        (b, v)
    }
}

} // verus!
