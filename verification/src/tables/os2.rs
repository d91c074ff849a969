use vstd::prelude::*;
use crate::parse::primitives::{be16, be32, signed16, u16_at, i16_at, FontUnit};
use crate::parse::{BufView, Parse};
use crate::tables::{PrimaryTable, TableTag};

verus! {

/// A quantity measured in ems.
#[derive(Debug, PartialEq, Eq, Clone, Copy)]
pub struct Em<T>(pub T);

impl<T: Parse> Parse for Em<T> {
    open spec fn spec_size() -> nat {
        T::spec_size()
    }

    open spec fn parsed(data: Seq<u8>, v: Self) -> bool {
        T::parsed(data, v.0)
    }

    proof fn parsed_prefix_only(d1: Seq<u8>, d2: Seq<u8>, v: Self) {
        T::parsed_prefix_only(d1, d2, v.0);
    }

    proof fn parsed_unique(data: Seq<u8>, v1: Self, v2: Self) {
        T::parsed_unique(data, v1.0, v2.0);
    }

    proof fn size_positive() {
        T::size_positive();
    }

    fn approx_file_size() -> (r: usize) {
        T::approx_file_size()
    }

    fn parse<'a>(buf: &'a [u8]) -> (r: (&'a [u8], Self)) {
        let (b, v) = T::parse(buf);
        (b, Em(v))
    }
}

/// A quantity measured in twentieths of a typographic point.
#[derive(Debug, PartialEq, Eq, Clone, Copy)]
pub struct TWIP<T>(pub T);

impl<T: Parse> Parse for TWIP<T> {
    open spec fn spec_size() -> nat {
        T::spec_size()
    }

    open spec fn parsed(data: Seq<u8>, v: Self) -> bool {
        T::parsed(data, v.0)
    }

    proof fn parsed_prefix_only(d1: Seq<u8>, d2: Seq<u8>, v: Self) {
        T::parsed_prefix_only(d1, d2, v.0);
    }

    proof fn parsed_unique(data: Seq<u8>, v1: Self, v2: Self) {
        T::parsed_unique(data, v1.0, v2.0);
    }

    proof fn size_positive() {
        T::size_positive();
    }

    fn approx_file_size() -> (r: usize) {
        T::approx_file_size()
    }

    fn parse<'a>(buf: &'a [u8]) -> (r: (&'a [u8], Self)) {
        let (b, v) = T::parse(buf);
        (b, TWIP(v))
    }
}

/// The compatibility-metrics table: a version word, the base block every
/// version carries, the block added in version four, and the bytes of the
/// version-five block where present.
#[derive(Debug)]
pub struct OS2<'a> {
    pub version: u16,
    pub base_table: Version0Ext,
    pub v4_table: Version4Ext,
    pub v5_table: BufView<'a, u8>,
}

impl<'a> PrimaryTable for OS2<'a> {
    open spec fn spec_tag() -> TableTag {
        TableTag::Compatibility
    }

    fn tag() -> (r: TableTag) {
        TableTag::Compatibility
    }
}

impl<'a> OS2<'a> {
    /// Decode the table.  Only versions four and five are understood, and
    /// the table must reach past the version-four block.
    pub fn parse_table(buf: &'a [u8]) -> (r: Option<OS2<'a>>)
        ensures
            r is Some <==> buf@.len() >= 96 && u16_at(buf@, 0) >= 4,
            r is Some ==> {
                &&& r.unwrap().version == u16_at(buf@, 0)
                &&& Version0Ext::parsed(buf@.skip(2), r.unwrap().base_table)
                &&& Version4Ext::parsed(buf@.skip(68), r.unwrap().v4_table)
            },
    {
        if buf.len() < 96 {
            return None;
        }
        let (b, version) = u16::parse(buf);
        if version < 4 {
            return None;
        }
        let (b, base_table) = Version0Ext::parse(b);
        let (b, v4_table) = Version4Ext::parse(b);
        proof {
            assert(buf@.subrange(2, buf@.len() as int) =~= buf@.skip(2));
            assert(buf@.subrange(2, buf@.len() as int).subrange(66, buf@.len() - 2) =~= buf@.skip(
                68,
            ));
        }
        Some(OS2 { version, base_table, v4_table, v5_table: BufView(b, core::marker::PhantomData) })
    }
}

/// The block of fields every version of the table carries.
#[derive(Debug, PartialEq, Clone, Copy)]
pub struct Version0Ext {
    /// Average weighted advance width of lower-case letters and space
    pub x_avg_char_width: Em<i16>,
    /// Visual weight of the strokes
    pub us_weight_class: u16,
    /// Relative change from the normal aspect ratio
    pub us_width_class: u16,
    /// Font embedding licensing bits
    pub fs_type: i16,
    /// Recommended horizontal size for subscripts
    pub y_subscript_x_size: FontUnit<i16>,
    /// Recommended vertical size for subscripts
    pub y_subscript_y_size: FontUnit<i16>,
    /// Recommended horizontal offset for subscripts
    pub y_subscript_x_offset: FontUnit<i16>,
    /// Recommended vertical offset for subscripts
    pub y_subscript_y_offset: FontUnit<i16>,
    /// Recommended horizontal size for superscripts
    pub y_superscript_x_size: FontUnit<i16>,
    /// Recommended vertical size for superscripts
    pub y_superscript_y_size: FontUnit<i16>,
    /// Recommended horizontal offset for superscripts
    pub y_superscript_x_offset: FontUnit<i16>,
    /// Recommended vertical offset for superscripts
    pub y_superscript_y_offset: FontUnit<i16>,
    /// Width of the strikeout stroke
    pub y_strikeout_size: FontUnit<i16>,
    /// Position of the strikeout stroke relative to the baseline
    pub y_strikeout_position: FontUnit<i16>,
    /// Classification of the font-family design
    pub s_family_class: i16,
    /// Ten bytes describing the visual characteristics of the typeface
    pub panose: [u8; 10],
    /// Unicode block coverage bits
    pub ul_char_range: [u32; 4],
    /// Four-character identifier of the font vendor
    pub ach_vend_id: [u8; 4],
    /// Nature-of-the-font bits
    pub fs_selection: u16,
    /// The minimum Unicode index in this font
    pub fs_first_char_index: u16,
    /// The maximum Unicode index in this font
    pub fs_last_char_index: u16,
}

impl Parse for Version0Ext {
    open spec fn spec_size() -> nat {
        66
    }

    open spec fn parsed(data: Seq<u8>, v: Self) -> bool {
        &&& v.x_avg_char_width == Em(i16_at(data, 0) as i16)
        &&& v.us_weight_class == u16_at(data, 1)
        &&& v.us_width_class == u16_at(data, 2)
        &&& v.fs_type == i16_at(data, 3)
        &&& v.y_subscript_x_size == FontUnit(i16_at(data, 4) as i16)
        &&& v.y_subscript_y_size == FontUnit(i16_at(data, 5) as i16)
        &&& v.y_subscript_x_offset == FontUnit(i16_at(data, 6) as i16)
        &&& v.y_subscript_y_offset == FontUnit(i16_at(data, 7) as i16)
        &&& v.y_superscript_x_size == FontUnit(i16_at(data, 8) as i16)
        &&& v.y_superscript_y_size == FontUnit(i16_at(data, 9) as i16)
        &&& v.y_superscript_x_offset == FontUnit(i16_at(data, 10) as i16)
        &&& v.y_superscript_y_offset == FontUnit(i16_at(data, 11) as i16)
        &&& v.y_strikeout_size == FontUnit(i16_at(data, 12) as i16)
        &&& v.y_strikeout_position == FontUnit(i16_at(data, 13) as i16)
        &&& v.s_family_class == i16_at(data, 14)
        &&& v.panose@ == data.subrange(30, 40)
        &&& v.ul_char_range@ =~= seq![
            be32(data[40], data[41], data[42], data[43]) as u32,
            be32(data[44], data[45], data[46], data[47]) as u32,
            be32(data[48], data[49], data[50], data[51]) as u32,
            be32(data[52], data[53], data[54], data[55]) as u32,
        ]
        &&& v.ach_vend_id@ == data.subrange(56, 60)
        &&& v.fs_selection == u16_at(data, 30)
        &&& v.fs_first_char_index == u16_at(data, 31)
        &&& v.fs_last_char_index == u16_at(data, 32)
    }

    proof fn parsed_prefix_only(d1: Seq<u8>, d2: Seq<u8>, v: Self) {
        crate::parse::lemma_prefix_bytes_equal(d1, d2, 66);
        assert(d1.subrange(30, 40) =~= d2.subrange(30, 40));
        assert(d1.subrange(56, 60) =~= d2.subrange(56, 60));
    }

    proof fn parsed_unique(data: Seq<u8>, v1: Self, v2: Self) {
        assert(v1.panose@ == v2.panose@);
        assert(v1.panose =~= v2.panose);
        assert(v1.ul_char_range =~= v2.ul_char_range);
        assert(v1.ach_vend_id =~= v2.ach_vend_id);
    }

    proof fn size_positive() {
    }

    fn approx_file_size() -> (r: usize) {
        66
    }

    fn parse<'a>(buf: &'a [u8]) -> (r: (&'a [u8], Self)) {
        let (b, x_avg_char_width) = Em::<i16>::parse(buf);
        let (b, us_weight_class) = u16::parse(b);
        let (b, us_width_class) = u16::parse(b);
        let (b, fs_type) = i16::parse(b);
        let (b, y_subscript_x_size) = FontUnit::<i16>::parse(b);
        let (b, y_subscript_y_size) = FontUnit::<i16>::parse(b);
        let (b, y_subscript_x_offset) = FontUnit::<i16>::parse(b);
        let (b, y_subscript_y_offset) = FontUnit::<i16>::parse(b);
        let (b, y_superscript_x_size) = FontUnit::<i16>::parse(b);
        let (b, y_superscript_y_size) = FontUnit::<i16>::parse(b);
        let (b, y_superscript_x_offset) = FontUnit::<i16>::parse(b);
        let (b, y_superscript_y_offset) = FontUnit::<i16>::parse(b);
        let (b, y_strikeout_size) = FontUnit::<i16>::parse(b);
        let (b, y_strikeout_position) = FontUnit::<i16>::parse(b);
        let (b, s_family_class) = i16::parse(b);
        let panose: [u8; 10] = [
            buf[30],
            buf[31],
            buf[32],
            buf[33],
            buf[34],
            buf[35],
            buf[36],
            buf[37],
            buf[38],
            buf[39],
        ];
        let r0 = (buf[40] as u32) * 0x1000000 + (buf[41] as u32) * 0x10000 + (buf[42] as u32)
            * 0x100 + (buf[43] as u32);
        let r1 = (buf[44] as u32) * 0x1000000 + (buf[45] as u32) * 0x10000 + (buf[46] as u32)
            * 0x100 + (buf[47] as u32);
        let r2 = (buf[48] as u32) * 0x1000000 + (buf[49] as u32) * 0x10000 + (buf[50] as u32)
            * 0x100 + (buf[51] as u32);
        let r3 = (buf[52] as u32) * 0x1000000 + (buf[53] as u32) * 0x10000 + (buf[54] as u32)
            * 0x100 + (buf[55] as u32);
        let ul_char_range: [u32; 4] = [r0, r1, r2, r3];
        let ach_vend_id: [u8; 4] = [buf[56], buf[57], buf[58], buf[59]];
        let tail = vstd::slice::slice_subrange(buf, 60, buf.len());
        let (b, fs_selection) = u16::parse(tail);
        let (b, fs_first_char_index) = u16::parse(b);
        let (b, fs_last_char_index) = u16::parse(b);
        let rest = vstd::slice::slice_subrange(buf, 66, buf.len());
        proof {
            assert(panose@ =~= buf@.subrange(30, 40));
            assert(ach_vend_id@ =~= buf@.subrange(56, 60));
            assert(rest@ =~= buf@.subrange(66, buf@.len() as int));
        }
        (
            rest,
            Version0Ext {
                x_avg_char_width,
                us_weight_class,
                us_width_class,
                fs_type,
                y_subscript_x_size,
                y_subscript_y_size,
                y_subscript_x_offset,
                y_subscript_y_offset,
                y_superscript_x_size,
                y_superscript_y_size,
                y_superscript_x_offset,
                y_superscript_y_offset,
                y_strikeout_size,
                y_strikeout_position,
                s_family_class,
                panose,
                ul_char_range,
                ach_vend_id,
                fs_selection,
                fs_first_char_index,
                fs_last_char_index,
            },
        )
    }
}

/// The block of fields the table carries from version four on.
#[derive(Debug, PartialEq, Clone, Copy)]
pub struct Version4Ext {
    /// The typographic ascender for this font
    pub s_typo_ascender: FontUnit<i16>,
    /// The typographic descender for this font
    pub s_typo_descender: FontUnit<i16>,
    /// The typographic line gap for this font
    pub s_typo_line_gap: FontUnit<i16>,
    /// The ascender metric for Windows
    pub us_win_ascent: FontUnit<u16>,
    /// The descender metric for Windows
    pub us_win_descent: FontUnit<u16>,
    /// Code page coverage bits 0-31
    pub ul_code_page_range1: u32,
    /// Code page coverage bits 32-63
    pub ul_code_page_range2: u32,
    /// Height of non-ascending lower-case letters
    pub sx_height: FontUnit<i16>,
    /// Height of upper-case letters
    pub s_cap_height: FontUnit<i16>,
    /// Glyph shown for an unsupported character
    pub us_default_char: u16,
    /// The break character
    pub us_break_char: u16,
    /// Longest contextual lookup this font uses
    pub us_max_context: u16,
}

impl Parse for Version4Ext {
    open spec fn spec_size() -> nat {
        28
    }

    open spec fn parsed(data: Seq<u8>, v: Self) -> bool {
        &&& v.s_typo_ascender == FontUnit(i16_at(data, 0) as i16)
        &&& v.s_typo_descender == FontUnit(i16_at(data, 1) as i16)
        &&& v.s_typo_line_gap == FontUnit(i16_at(data, 2) as i16)
        &&& v.us_win_ascent == FontUnit(u16_at(data, 3) as u16)
        &&& v.us_win_descent == FontUnit(u16_at(data, 4) as u16)
        &&& v.ul_code_page_range1 == be32(data[10], data[11], data[12], data[13])
        &&& v.ul_code_page_range2 == be32(data[14], data[15], data[16], data[17])
        &&& v.sx_height == FontUnit(i16_at(data, 9) as i16)
        &&& v.s_cap_height == FontUnit(i16_at(data, 10) as i16)
        &&& v.us_default_char == u16_at(data, 11)
        &&& v.us_break_char == u16_at(data, 12)
        &&& v.us_max_context == u16_at(data, 13)
    }

    proof fn parsed_prefix_only(d1: Seq<u8>, d2: Seq<u8>, v: Self) {
        crate::parse::lemma_prefix_bytes_equal(d1, d2, 28);
    }

    proof fn parsed_unique(data: Seq<u8>, v1: Self, v2: Self) {
    }

    proof fn size_positive() {
    }

    fn approx_file_size() -> (r: usize) {
        28
    }

    fn parse<'a>(buf: &'a [u8]) -> (r: (&'a [u8], Self)) {
        let (b, s_typo_ascender) = FontUnit::<i16>::parse(buf);
        let (b, s_typo_descender) = FontUnit::<i16>::parse(b);
        let (b, s_typo_line_gap) = FontUnit::<i16>::parse(b);
        let (b, us_win_ascent) = FontUnit::<u16>::parse(b);
        let (b, us_win_descent) = FontUnit::<u16>::parse(b);
        let (b, ul_code_page_range1) = u32::parse(b);
        let (b, ul_code_page_range2) = u32::parse(b);
        let (b, sx_height) = FontUnit::<i16>::parse(b);
        let (b, s_cap_height) = FontUnit::<i16>::parse(b);
        let (b, us_default_char) = u16::parse(b);
        let (b, us_break_char) = u16::parse(b);
        let (b, us_max_context) = u16::parse(b);
        (
            b,
            Version4Ext {
                s_typo_ascender,
                s_typo_descender,
                s_typo_line_gap,
                us_win_ascent,
                us_win_descent,
                ul_code_page_range1,
                ul_code_page_range2,
                sx_height,
                s_cap_height,
                us_default_char,
                us_break_char,
                us_max_context,
            },
        )
    }
}

/// The block of fields proposed for version five.
#[derive(Debug, PartialEq, Clone, Copy)]
pub struct Version5Ext {
    /// Lowest size at which the font starts to be used, inclusive
    pub us_lower_point_size: TWIP<u16>,
    /// Highest size at which the font starts to be used, exclusive
    pub us_upper_point_size: TWIP<u16>,
}

impl Parse for Version5Ext {
    open spec fn spec_size() -> nat {
        4
    }

    open spec fn parsed(data: Seq<u8>, v: Self) -> bool {
        &&& v.us_lower_point_size == TWIP(u16_at(data, 0) as u16)
        &&& v.us_upper_point_size == TWIP(u16_at(data, 1) as u16)
    }

    proof fn parsed_prefix_only(d1: Seq<u8>, d2: Seq<u8>, v: Self) {
        crate::parse::lemma_prefix_bytes_equal(d1, d2, 4);
    }

    proof fn parsed_unique(data: Seq<u8>, v1: Self, v2: Self) {
    }

    proof fn size_positive() {
    }

    fn approx_file_size() -> (r: usize) {
        4
    }

    fn parse<'a>(buf: &'a [u8]) -> (r: (&'a [u8], Self)) {
        let (b, us_lower_point_size) = TWIP::<u16>::parse(buf);
        let (b, us_upper_point_size) = TWIP::<u16>::parse(b);
        (b, Version5Ext { us_lower_point_size, us_upper_point_size })
    }
}

} // verus!
