use vstd::prelude::*;
use vstd::slice::{slice_index_get, slice_subrange};
use crate::parse::font_directory::{parse_font_directory, spec_offset_subtable};
use crate::tables::font_directory::{spec_first_with_tag, FontDirectory, TableDirRecord};
use crate::tables::cmap::{
    cmap_format_offset, cmap_num_records, f12_lookup, f12_sorted, f12_wf, f4_lookup, f4_wf, CMap,
    Format12, Format4,
};
use crate::tables::head::{spec_head, Head, IndexToLocFormat};
use crate::tables::hhea::{spec_hhea, HHEA};
use vstd::arithmetic::div_mod::lemma_hoist_over_denominator;
use crate::parse::primitives::{be16, signed16, u16_at, Fixed, FontUnit};
use crate::tables::glyf::{glyph_at_ok, glyph_header_at, glyph_instr_len, Glyf, Glyph};
use crate::tables::hmtx::{HorizMetric, HMTX};
use crate::tables::loca::{Loca, L, S};
use crate::tables::maxp::MaxP;
use crate::math::{rdiv, rdiv64, Matrix, Point};
use crate::render::{
    lemma_flatten_bounded, scale_coord, spec_commands, spec_doubled, spec_flatten, FillInRaster,
    FlattenedDrawCommands, GlyphPlacementMetrics, TextRenderMetrics,
};
use crate::tables::glyf::{CompositeCoordinates, Coordinate, Description, Glyf as GlyfTable, SimpleGlyph};
use crate::tables::os2::OS2;
use crate::tables::vmtx::{VertMetric, VMTX};
use crate::tables::vhea::{spec_vhea, VHEA};
use crate::tables::{PrimaryTable, TableTag};

verus! {

/// Why a byte buffer could not be read as a font at all.
#[derive(Debug, Clone, Copy, PartialEq, Eq, Structural)]
pub enum ReadFontError {
    /// The file does not begin with an offset subtable.
    NotAFont,
}

/// A font file: the underlying bytes and its parsed table directory.
/// Tables are decoded on demand; nothing copies the buffer.
pub struct Font<'file> {
    pub buf: &'file [u8],
    pub font_dir: FontDirectory<'file>,
}

impl<'a> Font<'a> {
    /// The font file's bytes.
    pub open spec fn bytes(self) -> Seq<u8> {
        self.buf@
    }

    /// The directory records of this font.
    pub open spec fn spec_records(self) -> Seq<TableDirRecord> {
        self.font_dir.spec_records()
    }

    /// The first directory record filed under `tag`.
    pub open spec fn spec_record_for(self, tag: TableTag) -> Option<TableDirRecord> {
        spec_first_with_tag(self.spec_records(), tag)
    }

    /// The byte range of the table filed under `tag`: present when the
    /// directory names the tag and the range lies inside the file.
    pub open spec fn spec_table_bytes(self, tag: TableTag) -> Option<Seq<u8>> {
        match self.spec_record_for(tag) {
            None => None,
            Some(record) => if record.offset + record.length <= self.bytes().len() {
                Some(
                    self.bytes().subrange(
                        record.offset as int,
                        record.offset as int + record.length as int,
                    ),
                )
            } else {
                None
            },
        }
    }

    /// A well-formed font: the directory bytes of the parsed directory are
    /// the file's bytes after the offset subtable.
    pub open spec fn wf(self) -> bool {
        &&& self.font_dir.table_dir_start@ == self.bytes().skip(12)
        &&& spec_offset_subtable(self.bytes()) == Some(self.font_dir.offsets)
    }

    /// Read the table directory at the front of `buf`.  Fails exactly when
    /// the file does not begin with a well-formed offset subtable.
    pub fn from_buffer(buf: &'a [u8]) -> (r: Result<Font<'a>, ReadFontError>)
        ensures
            r is Ok <==> spec_offset_subtable(buf@) is Some,
            r is Ok ==> {
                &&& r.unwrap().bytes() == buf@
                &&& r.unwrap().wf()
            },
    {
        match parse_font_directory(buf) {
            None => Err(ReadFontError::NotAFont),
            Some((_rest, font_dir)) => Ok(Font { buf, font_dir }),
        }
    }

    /// The byte range of the table that `T` is filed under, or `None` when
    /// the directory does not name it or the range leaves the file.
    pub fn get_table_slice<T: PrimaryTable>(&self) -> (r: Option<&'a [u8]>)
        ensures
            r is Some <==> self.spec_table_bytes(T::spec_tag()) is Some,
            r is Some ==> r.unwrap()@ == self.spec_table_bytes(T::spec_tag()).unwrap(),
    {
        match self.font_dir.table_record::<T>() {
            None => None,
            Some(record) => {
                let offset = record.offset as usize;
                let length = record.length as usize;
                if offset <= self.buf.len() && length <= self.buf.len() - offset {
                    Some(slice_subrange(self.buf, offset, offset + length))
                } else {
                    None
                }
            },
        }
    }
}

/// Return-type-directed lookup: decode the table of type `T` from the
/// font, resolving whatever other tables its decoding depends on.  Each
/// impl's `spec_get_table` says exactly which table value the font holds.
pub trait GetTable<T>: Sized {
    /// What the decoded table, or its absence, says about this font.
    spec fn table_from(&self, r: Option<T>) -> bool;

    fn get_table(&self) -> (r: Option<T>)
        ensures
            self.table_from(r),
    ;
}

impl<'a> GetTable<Head> for Font<'a> {
    /// The font header, decoded from its table's bytes.
    open spec fn table_from(&self, r: Option<Head>) -> bool {
        r == match self.spec_table_bytes(TableTag::FontHeader) {
            None => None::<Head>,
            Some(data) => spec_head(data),
        }
    }

    fn get_table(&self) -> (r: Option<Head>) {
        match self.get_table_slice::<Head>() {
            None => None,
            Some(slice) => Head::parse_table(slice),
        }
    }
}

impl<'a> GetTable<HHEA> for Font<'a> {
    /// The horizontal header, decoded from its table's bytes.
    open spec fn table_from(&self, r: Option<HHEA>) -> bool {
        r == match self.spec_table_bytes(TableTag::HorizontalHeader) {
            None => None::<HHEA>,
            Some(data) => spec_hhea(data),
        }
    }

    fn get_table(&self) -> (r: Option<HHEA>) {
        match self.get_table_slice::<HHEA>() {
            None => None,
            Some(slice) => HHEA::parse_table(slice),
        }
    }
}

impl<'a> GetTable<VHEA> for Font<'a> {
    /// The vertical header, decoded from its table's bytes.
    open spec fn table_from(&self, r: Option<VHEA>) -> bool {
        r == match self.spec_table_bytes(TableTag::VerticalHeader) {
            None => None::<VHEA>,
            Some(data) => spec_vhea(data),
        }
    }

    fn get_table(&self) -> (r: Option<VHEA>) {
        match self.get_table_slice::<VHEA>() {
            None => None,
            Some(slice) => VHEA::parse_table(slice),
        }
    }
}

impl<'a> GetTable<MaxP<'a>> for Font<'a> {
    /// The maximum profile, decoded from its table's bytes.
    open spec fn table_from(&self, r: Option<MaxP<'a>>) -> bool {
        match self.spec_table_bytes(TableTag::MaximumProfile) {
            None => r is None,
            Some(data) => {
                &&& r is Some <==> data.len() >= 6
                &&& r is Some ==> {
                    let m = r.unwrap();
                    &&& m.version == Fixed(
                        signed16(be16(data[0], data[1])) as i16,
                        signed16(be16(data[2], data[3])) as i16,
                    )
                    &&& m.num_glyphs == u16_at(data, 2)
                    &&& m.ext_start.bytes() == data.skip(6)
                }
            },
        }
    }

    fn get_table(&self) -> (r: Option<MaxP<'a>>) {
        match self.get_table_slice::<MaxP<'a>>() {
            None => None,
            Some(slice) => MaxP::parse_table(slice),
        }
    }
}


impl<'a> GetTable<CMap<'a>> for Font<'a> {
    /// The character map, decoded from its table's bytes.
    open spec fn table_from(&self, r: Option<CMap<'a>>) -> bool {
        match self.spec_table_bytes(TableTag::CharacterCodeMapping) {
            None => r is None,
            Some(data) => {
                &&& r is Some <==> data.len() >= 4 && data.len() >= 4 + 8 * cmap_num_records(data)
                &&& r is Some ==> r.unwrap().wf() && r.unwrap().bytes() == data
            },
        }
    }

    fn get_table(&self) -> (r: Option<CMap<'a>>) {
        match self.get_table_slice::<CMap<'a>>() {
            None => None,
            Some(slice) => CMap::parse_table(slice),
        }
    }
}

impl<'a> GetTable<Loca<'a>> for Font<'a> {
    /// The glyph-location table.  Its entry width comes from the font
    /// header and it is handed out only when the maximum profile is
    /// readable too, since the glyph count lives there.
    open spec fn table_from(&self, r: Option<Loca<'a>>) -> bool {
        let head = match self.spec_table_bytes(TableTag::FontHeader) {
            None => None,
            Some(data) => spec_head(data),
        };
        let maxp_ok = match self.spec_table_bytes(TableTag::MaximumProfile) {
            None => false,
            Some(data) => data.len() >= 6,
        };
        match self.spec_table_bytes(TableTag::GlyphLocation) {
            None => r is None,
            Some(data) => match head {
                None => r is None,
                Some(h) => if !maxp_ok {
                    r is None
                } else {
                    match h.index_to_loc_format {
                        IndexToLocFormat::Short => r matches Some(Loca::Short(arr)) && arr.0.bytes()
                            == data,
                        IndexToLocFormat::Long => r matches Some(Loca::Long(arr)) && arr.0.bytes()
                            == data,
                    }
                },
            },
        }
    }

    fn get_table(&self) -> (r: Option<Loca<'a>>) {
        let head: Head = match self.get_table() {
            None => {
                return None;
            },
            Some(h) => h,
        };
        let maxp: MaxP<'a> = match self.get_table() {
            None => {
                return None;
            },
            Some(m) => m,
        };
        let loca_buf = match self.get_table_slice::<Loca<'a>>() {
            None => {
                return None;
            },
            Some(b) => b,
        };
        let loca = match head.index_to_loc_format {
            IndexToLocFormat::Short => Loca::Short(S(crate::parse::DynArr(
                loca_buf,
                core::marker::PhantomData,
            ))),
            IndexToLocFormat::Long => Loca::Long(L(crate::parse::DynArr(
                loca_buf,
                core::marker::PhantomData,
            ))),
        };
        Some(loca)
    }
}

impl<'a> GetTable<HMTX<'a>> for Font<'a> {
    /// The horizontal metrics table, split by the entry count that the
    /// horizontal header declares.
    open spec fn table_from(&self, r: Option<HMTX<'a>>) -> bool {
        let hhea = match self.spec_table_bytes(TableTag::HorizontalHeader) {
            None => None,
            Some(data) => crate::tables::hhea::spec_hhea(data),
        };
        match self.spec_table_bytes(TableTag::HorizontalMetrics) {
            None => r is None,
            Some(data) => match hhea {
                None => r is None,
                Some(h) => if data.len() < h.num_horiz_metrics * 4 {
                    r is None
                } else {
                    &&& r is Some
                    &&& r.unwrap().horiz_metrics.bytes() == data.subrange(
                        0,
                        h.num_horiz_metrics * 4,
                    )
                    &&& r.unwrap().left_bearings.bytes() == data.skip(h.num_horiz_metrics * 4)
                },
            },
        }
    }

    fn get_table(&self) -> (r: Option<HMTX<'a>>) {
        let hhea: crate::tables::hhea::HHEA = match self.get_table() {
            None => {
                return None;
            },
            Some(h) => h,
        };
        let hmtx_buf = match self.get_table_slice::<HMTX<'a>>() {
            None => {
                return None;
            },
            Some(b) => b,
        };
        let num = hhea.num_horiz_metrics as usize;
        if hmtx_buf.len() / 4 < num {
            proof {
                assert(num * 4 > hmtx_buf@.len()) by (nonlinear_arith)
                    requires
                        hmtx_buf@.len() as int / 4 < num as int,
                        num >= 0,
                ;
            }
            return None;
        }
        proof {
            assert(num * 4 <= hmtx_buf@.len()) by (nonlinear_arith)
                requires
                    hmtx_buf@.len() as int / 4 >= num as int,
                    num >= 0,
            ;
        }
        Some(HMTX::parse_metrics(hmtx_buf, hhea.num_horiz_metrics))
    }
}

impl<'a> GetTable<VMTX<'a>> for Font<'a> {
    /// The vertical metrics table, split by the entry count that the
    /// vertical header declares.
    open spec fn table_from(&self, r: Option<VMTX<'a>>) -> bool {
        let vhea = match self.spec_table_bytes(TableTag::VerticalHeader) {
            None => None,
            Some(data) => spec_vhea(data),
        };
        match self.spec_table_bytes(TableTag::VerticalMetrics) {
            None => r is None,
            Some(data) => match vhea {
                None => r is None,
                Some(h) => if data.len() < h.num_vert_metrics * 4 {
                    r is None
                } else {
                    &&& r is Some
                    &&& r.unwrap().vert_metrics.bytes() == data.subrange(0, h.num_vert_metrics * 4)
                    &&& r.unwrap().top_bearings.bytes() == data.skip(h.num_vert_metrics * 4)
                },
            },
        }
    }

    fn get_table(&self) -> (r: Option<VMTX<'a>>) {
        let vhea: VHEA = match self.get_table() {
            None => {
                return None;
            },
            Some(h) => h,
        };
        let vmtx_buf = match self.get_table_slice::<VMTX<'a>>() {
            None => {
                return None;
            },
            Some(b) => b,
        };
        let num = vhea.num_vert_metrics as usize;
        if vmtx_buf.len() / 4 < num {
            proof {
                assert(num * 4 > vmtx_buf@.len()) by (nonlinear_arith)
                    requires
                        vmtx_buf@.len() as int / 4 < num as int,
                        num >= 0,
                ;
            }
            return None;
        }
        proof {
            assert(num * 4 <= vmtx_buf@.len()) by (nonlinear_arith)
                requires
                    vmtx_buf@.len() as int / 4 >= num as int,
                    num >= 0,
            ;
        }
        Some(VMTX::parse_metrics(vmtx_buf, vhea.num_vert_metrics))
    }
}


impl<'a> Font<'a> {
    /// The glyph id the font's character map assigns to `cp` through the
    /// format-4 subtable.
    pub open spec fn spec_glyph_id_bmp(self, cp: int) -> Option<u32> {
        match self.spec_table_bytes(TableTag::CharacterCodeMapping) {
            None => None,
            Some(data) => if !(data.len() >= 4 && data.len() >= 4 + 8 * cmap_num_records(data)) {
                None
            } else {
                match cmap_format_offset(data, 4) {
                    None => None,
                    Some(off) => if !(data.skip(off).len() >= 14 && f4_wf(data.skip(off))) {
                        None
                    } else {
                        match f4_lookup(data.skip(off), cp) {
                            None => None,
                            Some(g) => Some(g as u32),
                        }
                    },
                }
            },
        }
    }

    /// The glyph id the font's character map assigns to `cp` through the
    /// format-12 subtable, provided its groups are ascending and disjoint.
    pub open spec fn spec_glyph_id_full(self, cp: int) -> Option<u32> {
        match self.spec_table_bytes(TableTag::CharacterCodeMapping) {
            None => None,
            Some(data) => if !(data.len() >= 4 && data.len() >= 4 + 8 * cmap_num_records(data)) {
                None
            } else {
                match cmap_format_offset(data, 12) {
                    None => None,
                    Some(off) => if !(data.skip(off).len() >= 16 && f12_wf(data.skip(off))) {
                        None
                    } else {
                        f12_lookup(data.skip(off), cp)
                    },
                }
            },
        }
    }

    /// Whether the format-12 subtable, if the font has one, keeps its
    /// groups ascending and disjoint as the format requires.
    pub open spec fn spec_full_map_sorted(self) -> bool {
        match self.spec_table_bytes(TableTag::CharacterCodeMapping) {
            None => true,
            Some(data) => match cmap_format_offset(data, 12) {
                None => true,
                Some(off) => f12_sorted(data.skip(off)),
            },
        }
    }

    /// Map a character to its glyph id: code points in the basic plane go
    /// through the format-4 subtable, the rest through format 12.
    pub fn get_glyph_id(&self, code_point: char) -> (r: Option<u32>)
        ensures
            (code_point as int) < 0x10000 ==> r == self.spec_glyph_id_bmp(code_point as int),
            (code_point as int) >= 0x10000 && self.spec_full_map_sorted() ==> r
                == self.spec_glyph_id_full(code_point as int),
    {
        let cmap: CMap<'a> = match self.get_table() {
            None => {
                return None;
            },
            Some(c) => c,
        };
        if (code_point as u32) < 0x10000 {
            let format4: Format4<'a> = match cmap.get_format() {
                None => {
                    return None;
                },
                Some(f) => f,
            };
            match format4.lookup_glyph_id(code_point as u32 as u16) {
                None => None,
                Some(v) => Some(v as u32),
            }
        } else {
            let format12: Format12<'a> = match cmap.get_format() {
                None => {
                    return None;
                },
                Some(f) => f,
            };
            format12.lookup_glyph_id(code_point as u32)
        }
    }
}


impl<'a> GetTable<Glyf<'a>> for Font<'a> {
    /// The glyph outline table: its raw bytes, indexed through the
    /// location table.
    open spec fn table_from(&self, r: Option<Glyf<'a>>) -> bool {
        match self.spec_table_bytes(TableTag::GlyphOutline) {
            None => r is None,
            Some(data) => r matches Some(g) && g.bytes() == data,
        }
    }

    fn get_table(&self) -> (r: Option<Glyf<'a>>) {
        match self.get_table_slice::<Glyf<'a>>() {
            None => None,
            Some(slice) => Some(Glyf(crate::parse::BufView(slice, core::marker::PhantomData))),
        }
    }
}

impl<'a> GetTable<OS2<'a>> for Font<'a> {
    /// The compatibility-metrics table, decoded from its table's bytes.
    open spec fn table_from(&self, r: Option<OS2<'a>>) -> bool {
        match self.spec_table_bytes(TableTag::Compatibility) {
            None => r is None,
            Some(data) => {
                &&& r is Some <==> data.len() >= 96 && u16_at(data, 0) >= 4
                &&& r is Some ==> {
                    &&& r.unwrap().version == u16_at(data, 0)
                    &&& <crate::tables::os2::Version0Ext as crate::parse::Parse>::parsed(data.skip(2), r.unwrap().base_table)
                    &&& <crate::tables::os2::Version4Ext as crate::parse::Parse>::parsed(data.skip(68), r.unwrap().v4_table)
                }
            },
        }
    }

    fn get_table(&self) -> (r: Option<OS2<'a>>) {
        match self.get_table_slice::<OS2<'a>>() {
            None => None,
            Some(slice) => OS2::parse_table(slice),
        }
    }
}

impl<'a> Font<'a> {
    /// Whether the location and outline tables can be resolved at all:
    /// the header, maximum profile, location and outline tables are
    /// present and readable.
    pub open spec fn spec_loca_ready(self) -> bool {
        &&& (match self.spec_table_bytes(TableTag::FontHeader) {
            None => false,
            Some(d) => spec_head(d) is Some,
        })
        &&& (match self.spec_table_bytes(TableTag::MaximumProfile) {
            None => false,
            Some(d) => d.len() >= 6,
        })
        &&& self.spec_table_bytes(TableTag::GlyphLocation) is Some
    }

    /// The decoded font header, where the font has one.
    pub open spec fn spec_head_table(self) -> Option<Head> {
        match self.spec_table_bytes(TableTag::FontHeader) {
            None => None,
            Some(d) => spec_head(d),
        }
    }

    /// The byte offset of glyph `glyph_id` in the outline table: entry
    /// `glyph_id` of the location table, or `None` when the next entry
    /// holds the same offset, for a glyph with no outline, or the table
    /// is too short.
    pub open spec fn spec_glyph_offset(self, glyph_id: int) -> Option<int> {
        if !self.spec_loca_ready() {
            None
        } else {
            let h = self.spec_head_table().unwrap();
            let ldata = self.spec_table_bytes(TableTag::GlyphLocation).unwrap();
            let w: int = match h.index_to_loc_format {
                IndexToLocFormat::Short => 2,
                IndexToLocFormat::Long => 4,
            };
            if glyph_id + 2 > ldata.len() as int / w {
                None
            } else {
                let o1 = match h.index_to_loc_format {
                    IndexToLocFormat::Short => 2 * u16_at(ldata, glyph_id),
                    IndexToLocFormat::Long => crate::parse::primitives::u32_at(ldata, glyph_id),
                };
                let o2 = match h.index_to_loc_format {
                    IndexToLocFormat::Short => 2 * u16_at(ldata, glyph_id + 1),
                    IndexToLocFormat::Long => crate::parse::primitives::u32_at(ldata, glyph_id + 1),
                };
                if o1 == o2 {
                    None
                } else {
                    Some(o1)
                }
            }
        }
    }

    /// The glyph record bytes of `glyph_id`: the outline table from that
    /// glyph's offset on.
    pub open spec fn spec_glyph_record_tail(self, glyph_id: int) -> Option<Seq<u8>> {
        match self.spec_glyph_offset(glyph_id) {
            None => None,
            Some(off) => match self.spec_table_bytes(TableTag::GlyphOutline) {
                None => None,
                Some(g) => if off <= g.len() {
                    Some(g.skip(off))
                } else {
                    None
                },
            },
        }
    }

    /// Resolve a glyph id to its decoded glyph: its offset through the
    /// location table, its record through the outline table.  `None` for
    /// a glyph with no outline or an unresolvable record.
    pub fn get_glyph_for_id(&self, glyph_id: u32) -> (r: Option<Glyph<'a>>)
        ensures
            r is Some <==> (self.spec_glyph_record_tail(glyph_id as int) matches Some(d)
                && glyph_at_ok(d)),
            r is Some ==> {
                let d = self.spec_glyph_record_tail(glyph_id as int).unwrap();
                let h = glyph_header_at(d);
                &&& r.unwrap().header == h
                &&& h.number_of_contours > 0 <==> r.unwrap().desc is Simple
                &&& h.number_of_contours <= 0 <==> r.unwrap().desc is Composite
            },
    {
        let loca: Loca<'a> = match self.get_table() {
            None => {
                return None;
            },
            Some(l) => l,
        };
        let glyf: Glyf<'a> = match self.get_table() {
            None => {
                return None;
            },
            Some(g) => g,
        };
        let count: usize = match &loca {
            Loca::Short(arr) => arr.0.len(),
            Loca::Long(arr) => arr.0.len(),
        };
        if count < 2 || glyph_id as usize > count - 2 {
            return None;
        }
        let glyph_offset = match loca.at(glyph_id as usize) {
            None => {
                return None;
            },
            Some(o) => o,
        };
        let glyf_len = glyf.0.0.len();
        if glyph_offset as usize > glyf_len {
            return None;
        }
        glyf.at_offset(glyph_offset as usize)
    }

    /// Whether the character map maps `cp` to a glyph id whose record
    /// resolves and decodes.  This is exactly when a glyph is owed.
    pub open spec fn spec_glyph_resolves(self, gid: Option<u32>) -> bool {
        &&& gid is Some
        &&& self.spec_glyph_record_tail(gid.unwrap() as int) is Some
        &&& glyph_at_ok(self.spec_glyph_record_tail(gid.unwrap() as int).unwrap())
    }

    /// Resolve a character to its decoded glyph, through the character
    /// map and then the location and outline tables.
    pub fn get_glyph(&self, code_point: char) -> (r: Option<Glyph<'a>>)
        ensures
            (code_point as int) < 0x10000 ==> (r is Some <==> self.spec_glyph_resolves(
                self.spec_glyph_id_bmp(code_point as int),
            )),
            (code_point as int) >= 0x10000 && self.spec_full_map_sorted() ==> (r is Some
                <==> self.spec_glyph_resolves(self.spec_glyph_id_full(code_point as int))),
            r is Some ==> exists|gid: int|
                {
                    &&& #[trigger] self.spec_glyph_record_tail(gid) is Some
                    &&& glyph_at_ok(self.spec_glyph_record_tail(gid).unwrap())
                    &&& r.unwrap().header == glyph_header_at(
                        self.spec_glyph_record_tail(gid).unwrap(),
                    )
                    &&& (code_point as int) < 0x10000 ==> self.spec_glyph_id_bmp(
                        code_point as int,
                    ) == Some(gid as u32)
                    &&& (code_point as int) >= 0x10000 && self.spec_full_map_sorted()
                        ==> self.spec_glyph_id_full(code_point as int) == Some(gid as u32)
                },
            (code_point as int) < 0x10000 && self.spec_glyph_id_bmp(code_point as int) is None
                ==> r is None,
            (code_point as int) >= 0x10000 && self.spec_full_map_sorted()
                && self.spec_glyph_id_full(code_point as int) is None ==> r is None,
    {
        let glyph_id = match self.get_glyph_id(code_point) {
            None => {
                return None;
            },
            Some(g) => g,
        };
        self.get_glyph_for_id(glyph_id)
    }

    /// The line metrics the compatibility table declares.
    pub fn text_render_metrics(&self) -> (r: Option<TextRenderMetrics>)
        ensures
            match self.spec_table_bytes(TableTag::Compatibility) {
                None => r is None,
                Some(data) => {
                    &&& r is Some <==> data.len() >= 96 && u16_at(data, 0) >= 4
                    &&& r is Some ==> r.unwrap() == (TextRenderMetrics {
                        ascent: FontUnit(crate::parse::primitives::i16_at(data.skip(68), 0) as i16),
                        descent: FontUnit(
                            crate::parse::primitives::i16_at(data.skip(68), 1) as i16,
                        ),
                        line_gap: FontUnit(
                            crate::parse::primitives::i16_at(data.skip(68), 2) as i16,
                        ),
                    })
                },
            },
    {
        let os2: OS2<'a> = match self.get_table() {
            None => {
                return None;
            },
            Some(o) => o,
        };
        let base = os2.v4_table;
        Some(
            TextRenderMetrics {
                ascent: base.s_typo_ascender,
                descent: base.s_typo_descender,
                line_gap: base.s_typo_line_gap,
            },
        )
    }
}


impl<'a> Font<'a> {
    /// The decoded horizontal header, where the font has one.
    pub open spec fn spec_hhea_table(self) -> Option<HHEA> {
        match self.spec_table_bytes(TableTag::HorizontalHeader) {
            None => None,
            Some(d) => spec_hhea(d),
        }
    }

    /// The horizontal metrics of glyph `glyph_id`: a full entry inside
    /// the declared run, a bare bearing after it, nothing past the table.
    pub open spec fn spec_horiz_metric(self, glyph_id: int) -> Option<HorizMetric> {
        match (self.spec_hhea_table(), self.spec_table_bytes(TableTag::HorizontalMetrics)) {
            (Some(h), Some(data)) => {
                let n = h.num_horiz_metrics as int;
                if data.len() < n * 4 {
                    None
                } else if glyph_id < n {
                    Some(
                        HorizMetric {
                            advance_width: Some(u16_at(data, 2 * glyph_id) as u16),
                            left_bearing: crate::parse::primitives::i16_at(
                                data,
                                2 * glyph_id + 1,
                            ) as i16,
                        },
                    )
                } else if glyph_id - n < (data.len() - n * 4) / 2 {
                    Some(
                        HorizMetric {
                            advance_width: None,
                            left_bearing: crate::parse::primitives::i16_at(
                                data.skip(4 * n),
                                glyph_id - n,
                            ) as i16,
                        },
                    )
                } else {
                    None
                }
            },
            _ => None,
        }
    }

    /// The decoded vertical header, where the font has one.
    pub open spec fn spec_vhea_table(self) -> Option<crate::tables::vhea::VHEA> {
        match self.spec_table_bytes(TableTag::VerticalHeader) {
            None => None,
            Some(d) => crate::tables::vhea::spec_vhea(d),
        }
    }

    /// The vertical metrics of glyph `glyph_id`: a full entry inside the
    /// declared run, a bare bearing after it, nothing past the table.
    pub open spec fn spec_vert_metric(self, glyph_id: int) -> Option<VertMetric> {
        match (self.spec_vhea_table(), self.spec_table_bytes(TableTag::VerticalMetrics)) {
            (Some(h), Some(data)) => {
                let n = h.num_vert_metrics as int;
                if data.len() < n * 4 {
                    None
                } else if glyph_id < n {
                    Some(
                        VertMetric {
                            advance_height: Some(FontUnit(u16_at(data, 2 * glyph_id) as u16)),
                            top_bearing: FontUnit(
                                crate::parse::primitives::i16_at(data, 2 * glyph_id + 1) as i16,
                            ),
                        },
                    )
                } else if glyph_id - n < (data.len() - n * 4) / 2 {
                    Some(
                        VertMetric {
                            advance_height: None,
                            top_bearing: FontUnit(
                                crate::parse::primitives::i16_at(
                                    data.skip(4 * n),
                                    glyph_id - n,
                                ) as i16,
                            ),
                        },
                    )
                } else {
                    None
                }
            },
            _ => None,
        }
    }

    /// Whether the glyph of `gid` yields placement metrics: its record
    /// decodes, its box corner is representable negated, and a horizontal
    /// metrics entry exists for it.
    pub open spec fn spec_placement_ready(self, gid: Option<u32>) -> bool {
        &&& self.spec_glyph_resolves(gid)
        &&& glyph_header_at(self.spec_glyph_record_tail(gid.unwrap() as int).unwrap()).x_min
            != i16::MIN
        &&& glyph_header_at(self.spec_glyph_record_tail(gid.unwrap() as int).unwrap()).y_min
            != i16::MIN
        &&& self.spec_horiz_metric(gid.unwrap() as int) is Some
    }

    /// Where a character's glyph sits and how far the pen advances past
    /// it, all in design units.  `None` when the character, its glyph, or
    /// its horizontal metrics cannot be resolved.
    #[allow(unused_variables)]
    pub fn placement_metrics(&self, code_point: char, size: usize) -> (r: Option<
        GlyphPlacementMetrics,
    >)
        ensures
            (code_point as int) < 0x10000 ==> (r is Some <==> self.spec_placement_ready(
                self.spec_glyph_id_bmp(code_point as int),
            )),
            (code_point as int) >= 0x10000 && self.spec_full_map_sorted() ==> (r is Some
                <==> self.spec_placement_ready(self.spec_glyph_id_full(code_point as int))),
            r is Some ==> exists|gid: int|
                {
                    &&& #[trigger] self.spec_glyph_record_tail(gid) is Some
                    &&& glyph_at_ok(self.spec_glyph_record_tail(gid).unwrap())
                    &&& (code_point as int) < 0x10000 ==> self.spec_glyph_id_bmp(
                        code_point as int,
                    ) == Some(gid as u32)
                    &&& (code_point as int) >= 0x10000 && self.spec_full_map_sorted()
                        ==> self.spec_glyph_id_full(code_point as int) == Some(gid as u32)
                    &&& {
                        let h = glyph_header_at(self.spec_glyph_record_tail(gid).unwrap());
                        r.unwrap().shift == [
                            FontUnit((-h.x_min) as i16),
                            FontUnit((-h.y_min) as i16),
                        ]
                    }
                    &&& self.spec_horiz_metric(gid) is Some
                    &&& r.unwrap().left_bearing == FontUnit(
                        self.spec_horiz_metric(gid).unwrap().left_bearing,
                    )
                    &&& r.unwrap().horiz_advance == match self.spec_horiz_metric(
                        gid,
                    ).unwrap().advance_width {
                        Some(w) => Some(FontUnit(w)),
                        None => None::<FontUnit<u16>>,
                    }
                    &&& (r.unwrap().top_bearing, r.unwrap().vert_advance) == match self
                        .spec_vert_metric(gid) {
                        Some(vm) => (vm.top_bearing, vm.advance_height),
                        None => (FontUnit(0i16), None::<FontUnit<u16>>),
                    }
                },
    {
        let glyph_id = match self.get_glyph_id(code_point) {
            None => {
                return None;
            },
            Some(g) => g,
        };
        let glyph = match self.get_glyph_for_id(glyph_id) {
            None => {
                return None;
            },
            Some(g) => g,
        };
        if glyph.header.x_min == i16::MIN || glyph.header.y_min == i16::MIN {
            return None;
        }
        let shift = [FontUnit(-glyph.header.x_min), FontUnit(-glyph.header.y_min)];
        let hmtx: HMTX<'a> = match self.get_table() {
            None => {
                return None;
            },
            Some(h) => h,
        };
        let full = hmtx.horiz_metrics.len();
        let bare = hmtx.left_bearings.len();
        let gid = glyph_id as usize;
        if gid >= full && gid - full >= bare {
            return None;
        }
        proof {
            if glyph_id < full {
                let data = self.spec_table_bytes(TableTag::HorizontalMetrics).unwrap();
                let n = self.spec_hhea_table().unwrap().num_horiz_metrics as int;
                assert(4 * (glyph_id as int) + 4 <= 4 * n) by (nonlinear_arith)
                    requires
                        glyph_id < n,
                ;
                assert(hmtx.horiz_metrics.bytes()[4 * (glyph_id as int)] == data[4 * (
                glyph_id as int)]);
                assert(hmtx.horiz_metrics.bytes()[4 * (glyph_id as int) + 1] == data[4 * (
                glyph_id as int) + 1]);
                assert(hmtx.horiz_metrics.bytes()[4 * (glyph_id as int) + 2] == data[4 * (
                glyph_id as int) + 2]);
                assert(hmtx.horiz_metrics.bytes()[4 * (glyph_id as int) + 3] == data[4 * (
                glyph_id as int) + 3]);
            }
        }
        let horiz_metrics = hmtx.metrics_for_glyph(glyph_id);
        let (top_bearing, vert_advance): (FontUnit<i16>, Option<FontUnit<u16>>) = {
            let vmtx: Option<VMTX<'a>> = self.get_table();
            match vmtx {
                Some(v) => {
                    let vfull = v.vert_metrics.len();
                    let vbare = v.top_bearings.len();
                    if gid < vfull || gid - vfull < vbare {
                        let vm = v.metrics_for_glyph(glyph_id);
                        (vm.top_bearing, vm.advance_height)
                    } else {
                        (FontUnit(0), None)
                    }
                },
                None => (FontUnit(0), None),
            }
        };
        Some(
            GlyphPlacementMetrics {
                shift,
                left_bearing: FontUnit(horiz_metrics.left_bearing),
                top_bearing,
                horiz_advance: match horiz_metrics.advance_width {
                    Some(w) => Some(FontUnit(w)),
                    None => None,
                },
                vert_advance,
            },
        )
    }
}


impl<'a> Font<'a> {
    /// Whether a simple glyph rasterizes at `size`: the header is
    /// readable, the size is in range for the design grid, the box is
    /// nondegenerate and fits the raster, the contours are well
    /// delimited, and the outline's segments fit the raster's capacity.
    pub open spec fn spec_renders_simple(
        self,
        header: crate::tables::glyf::Header,
        simp: SimpleGlyph<'a>,
        size: int,
    ) -> bool {
        let head = self.spec_head_table();
        &&& head is Some
        &&& head.unwrap().units_per_em >= 1
        &&& 1 <= size <= 0x4000
        &&& 0x20000 * size <= 0x10000 * head.unwrap().units_per_em
        &&& header.x_min < header.x_max
        &&& header.y_min < header.y_max
        &&& ((header.x_max - header.x_min) * size + head.unwrap().units_per_em - 1) / (
        head.unwrap().units_per_em as int) <= 0x4000
        &&& ((header.y_max - header.y_min) * size + head.unwrap().units_per_em - 1) / (
        head.unwrap().units_per_em as int) <= 0x4000
        &&& simp.contours_ok()
        &&& crate::render::lines_through(
            simp,
            simp.end_points_of_contours.spec_len() as int,
            2 * header.x_min,
            2 * header.y_min,
            size,
            head.unwrap().units_per_em as int,
        ).len() <= 0x10000000
    }

    /// Rasterize one glyph at `size` points into a hard-edged grayscale
    /// bitmap: scanline winding fill of its flattened, scaled outline,
    /// background 0xFF and ink 0x00.  The bitmap covers the glyph's
    /// bounding box, one pixel per `units_per_em / size` design units,
    /// rounded up.  `None` when the font header is unreadable, the size
    /// is zero or too large for the design grid, the bitmap would leave
    /// the raster's range, or the outline is inconsistent.  A composite
    /// glyph rasterizes to an empty bitmap: its outline lives in the
    /// glyphs its components name.
    pub fn render_glyph(&self, glyph: &Glyph<'a>, size: usize) -> (r: Option<Matrix<u8>>)
        requires
            glyph.coords_ok(),
        ensures
            r is Some ==> {
                let h = glyph.header;
                let upem = self.spec_head_table().unwrap().units_per_em as int;
                &&& self.spec_head_table() is Some
                &&& upem > 0
                &&& r.unwrap().wf()
                &&& r.unwrap().width == ((h.x_max - h.x_min) * size + upem - 1) / upem
                &&& r.unwrap().height == ((h.y_max - h.y_min) * size + upem - 1) / upem
            },
            glyph.desc matches Description::Simple(simp) ==> (r is Some
                <==> self.spec_renders_simple(glyph.header, simp, size as int)),
            r is Some ==> (glyph.desc matches Description::Simple(simp) ==> forall|x: int, y: int|
                0 <= x < r.unwrap().width && 0 <= y < r.unwrap().height ==> r.unwrap().spec_at(
                    x,
                    y,
                ) == (if crate::render::spec_winding(
                    crate::render::lines_through(
                        simp,
                        simp.end_points_of_contours.spec_len() as int,
                        2 * glyph.header.x_min,
                        2 * glyph.header.y_min,
                        size as int,
                        self.spec_head_table().unwrap().units_per_em as int,
                    ),
                    y,
                    x,
                ) != 0 {
                    0u8
                } else {
                    0xFFu8
                })),
    {
        let head: Head = match self.get_table() {
            None => {
                return None;
            },
            Some(h) => h,
        };
        let upem = head.units_per_em as u64;
        if upem == 0 || size == 0 || size > 0x4000 {
            return None;
        }
        if 0x20000u64 * (size as u64) > 0x10000u64 * upem {
            return None;
        }
        if glyph.header.x_max <= glyph.header.x_min || glyph.header.y_max <= glyph.header.y_min {
            return None;
        }
        let wu = (glyph.header.x_max as i64 - glyph.header.x_min as i64) as u64;
        let hu = (glyph.header.y_max as i64 - glyph.header.y_min as i64) as u64;
        proof {
            assert(wu * size <= 0xFFFF * 0x4000 && hu * size <= 0xFFFF * 0x4000)
                by (nonlinear_arith)
                requires
                    0 < wu <= 0xFFFF,
                    0 < hu <= 0xFFFF,
                    0 < size <= 0x4000,
            ;
        }
        let width_px = (wu * (size as u64) + upem - 1) / upem;
        let height_px = (hu * (size as u64) + upem - 1) / upem;
        if width_px > 0x4000 || height_px > 0x4000 {
            return None;
        }
        let mut raster = FillInRaster::new(width_px as u32, height_px as u32);
        let x_origin = glyph.header.x_min as i32 * 2;
        let y_origin = glyph.header.y_min as i32 * 2;
        match &glyph.desc {
            Description::Composite(comp) => {
                let loca: Loca<'a> = match self.get_table() {
                    None => {
                        return None;
                    },
                    Some(l) => l,
                };
                let glyf: Glyf<'a> = match self.get_table() {
                    None => {
                        return None;
                    },
                    Some(g) => g,
                };
                // One unit of 2.14 scale and no offset at the top; eight
                // levels of components guard against records that name
                // each other.
                if !self.add_component_lines(
                    &mut raster,
                    &loca,
                    &glyf,
                    comp.components,
                    0,
                    0,
                    0x4000,
                    0,
                    0,
                    0x4000,
                    x_origin,
                    y_origin,
                    size,
                    upem,
                    8,
                ) {
                    return None;
                }
                Some(raster.into_bitmap())
            },
            Description::Simple(simp) => {
                let mut walker = glyph.coordinates();
                let ghost full = walker.stream();
                let mut coords: Vec<Coordinate> = Vec::new();
                let mut done = false;
                while !done
                    invariant
                        walker.wf(),
                        done ==> walker.stream().len() == 0,
                        full == simp.spec_stream(),
                        forall|j: int|
                            0 <= j < coords@.len() ==> #[trigger] coords@[j] == (Coordinate {
                                on_curve: full[j].0,
                                x: full[j].1 as i16,
                                y: full[j].2 as i16,
                            }),
                        walker.stream() == full.skip(coords@.len() as int),
                        coords@.len() <= full.len(),
                    decreases walker.stream().len() + (if done {
                        0int
                    } else {
                        1int
                    }),
                {
                    let ghost before = walker.stream();
                    match walker.next() {
                        None => {
                            done = true;
                            proof {
                                assert(walker.stream() =~= before);
                            }
                        },
                        Some(c) => {
                            proof {
                                assert(before.len() > 0);
                                assert(full.skip(coords@.len() as int).skip(1) =~= full.skip(
                                    coords@.len() as int + 1,
                                ));
                                assert(before[0] == full[coords@.len() as int]);
                            }
                            coords.push(c);
                        },
                    }
                }
                proof {
                    assert(coords@ =~= simp.spec_coords());
                }
                let n_contours = simp.end_points_of_contours.len();
                let n_coords = coords.len();
                let mut start: usize = 0;
                let mut ci: usize = 0;
                while ci < n_contours
                    invariant
                        0 <= ci <= n_contours,
                        glyph.desc == Description::Simple(*simp),
                        forall|c2: int| 0 <= c2 < ci ==> #[trigger] simp.contour_ok_at(c2),
                        self.spec_head_table() == Some(head),
                        upem == head.units_per_em,
                        x_origin == 2 * glyph.header.x_min,
                        y_origin == 2 * glyph.header.y_min,
                        raster.wf(),
                        raster.windings.width == width_px,
                        raster.windings.height == height_px,
                        raster.lines@.len() <= 0x10000000,
                        width_px <= 0x4000,
                        height_px <= 0x4000,
                        n_contours == simp.end_points_of_contours.spec_len(),
                        n_coords == coords@.len(),
                        coords@ == simp.spec_coords(),
                        start <= n_coords,
                        start as int == (if ci == 0 {
                            0int
                        } else {
                            crate::parse::primitives::u16_at(
                                simp.end_points_of_contours.bytes(),
                                ci as int - 1,
                            ) + 1
                        }),
                        raster.lines@ == crate::render::lines_through(
                            *simp,
                            ci as int,
                            x_origin as int,
                            y_origin as int,
                            size as int,
                            upem as int,
                        ),
                        1 <= size <= 0x4000,
                        1 <= upem <= 0xFFFF,
                        0x20000 * size <= 0x10000 * upem,
                        -0x10000 <= x_origin <= 0x10000,
                        -0x10000 <= y_origin <= 0x10000,
                    decreases n_contours - ci,
                {
                    let end = simp.end_points_of_contours.at(ci);
                    proof {
                        simp.end_points_of_contours.lemma_elem_tail_index(ci as int, 0);
                        simp.end_points_of_contours.lemma_elem_tail_index(ci as int, 1);
                    }
                    let end = end as usize;
                    if end >= n_coords || start > end {
                        proof {
                            assert(!simp.contour_ok_at(ci as int));
                        }
                        return None;
                    }
                    let contour = slice_subrange(coords.as_slice(), start, end + 1);
                    if !contour[0].on_curve {
                        proof {
                            assert(contour@[0] == simp.spec_coords()[start as int]);
                            assert(!simp.contour_ok_at(ci as int));
                        }
                        return None;
                    }
                    proof {
                        assert(contour@ =~= simp.spec_contour(ci as int));
                        assert(contour@[0] == simp.spec_coords()[start as int]);
                        assert(simp.contour_ok_at(ci as int));
                    }
                    let fdc = FlattenedDrawCommands::from_coordinates(contour);
                    proof {
                        if contour@.len() > 0 {
                            crate::render::lemma_draw_cmds_bounded(
                                contour@.skip(1),
                                Some(contour@[0]),
                                spec_doubled(contour@[0]),
                                None,
                            );
                        }
                        lemma_flatten_bounded(spec_commands(contour@));
                    }
                    let ghost base = raster.lines@;
                    let m = fdc.segments.len();
                    let mut j: usize = 0;
                    while j < m
                        invariant
                            0 <= j <= m,
                            0 <= ci < n_contours,
                            glyph.desc == Description::Simple(*simp),
                            n_contours == simp.end_points_of_contours.spec_len(),
                            base == crate::render::lines_through(
                                *simp,
                                ci as int,
                                x_origin as int,
                                y_origin as int,
                                size as int,
                                upem as int,
                            ),
                            fdc.segments@ == crate::render::spec_flatten(
                                crate::render::spec_commands(simp.spec_contour(ci as int)),
                            ),
                            x_origin == 2 * glyph.header.x_min,
                            y_origin == 2 * glyph.header.y_min,
                            self.spec_head_table() == Some(head),
                            upem == head.units_per_em,
                            raster.wf(),
                            raster.windings.width == width_px,
                            raster.windings.height == height_px,
                            raster.lines@.len() <= 0x10000000,
                            m == fdc.segments@.len(),
                            forall|jj: int|
                                0 <= jj < m ==> crate::render::pt_bounded(
                                    (#[trigger] fdc.segments@[jj]).0,
                                ) && crate::render::pt_bounded(fdc.segments@[jj].1),
                            raster.lines@ == base + crate::render::scaled_lines(
                                fdc.segments@.take(j as int),
                                x_origin as int,
                                y_origin as int,
                                size as int,
                                upem as int,
                            ),
                            1 <= size <= 0x4000,
                            1 <= upem <= 0xFFFF,
                            0x20000 * size <= 0x10000 * upem,
                            -0x10000 <= x_origin <= 0x10000,
                            -0x10000 <= y_origin <= 0x10000,
                        decreases m - j,
                    {
                        let seg = *slice_index_get(fdc.segments.as_slice(), j);
                        let a = Point {
                            x: scale_coord(seg.0.x, x_origin, size as i64, upem as i64),
                            y: scale_coord(seg.0.y, y_origin, size as i64, upem as i64),
                        };
                        let b = Point {
                            x: scale_coord(seg.1.x, x_origin, size as i64, upem as i64),
                            y: scale_coord(seg.1.y, y_origin, size as i64, upem as i64),
                        };
                        proof {
                            assert(fdc.segments@.take(j as int + 1).drop_last()
                                =~= fdc.segments@.take(j as int));
                            assert(fdc.segments@.take(j as int + 1).last()
                                == fdc.segments@[j as int]);
                            assert(a == crate::render::spec_scale_pt(
                                seg.0,
                                x_origin as int,
                                y_origin as int,
                                size as int,
                                upem as int,
                            ));
                            assert(b == crate::render::spec_scale_pt(
                                seg.1,
                                x_origin as int,
                                y_origin as int,
                                size as int,
                                upem as int,
                            ));
                        }
                        raster.add_line(a, b);
                        if raster.lines.len() > 0x10000000 {
                            proof {
                                assert(raster.lines@ == base + crate::render::scaled_lines(
                                    fdc.segments@.take(j as int + 1),
                                    x_origin as int,
                                    y_origin as int,
                                    size as int,
                                    upem as int,
                                ));
                                crate::render::lemma_scaled_take_le(
                                    fdc.segments@,
                                    j as int + 1,
                                    x_origin as int,
                                    y_origin as int,
                                    size as int,
                                    upem as int,
                                );
                                crate::render::lemma_lines_through_le(
                                    *simp,
                                    ci as int,
                                    n_contours as int,
                                    x_origin as int,
                                    y_origin as int,
                                    size as int,
                                    upem as int,
                                );
                            }
                            return None;
                        }
                        j = j + 1;
                    }
                    proof {
                        assert(fdc.segments@.take(m as int) =~= fdc.segments@);
                        assert(fdc.segments@ == crate::render::spec_flatten(
                            crate::render::spec_commands(simp.spec_contour(ci as int)),
                        ));
                        assert(crate::render::scaled_lines(
                            fdc.segments@,
                            x_origin as int,
                            y_origin as int,
                            size as int,
                            upem as int,
                        ) == crate::render::contour_lines(
                            *simp,
                            ci as int,
                            x_origin as int,
                            y_origin as int,
                            size as int,
                            upem as int,
                        ));
                        assert(crate::render::lines_through(
                            *simp,
                            ci as int + 1,
                            x_origin as int,
                            y_origin as int,
                            size as int,
                            upem as int,
                        ) == crate::render::lines_through(
                            *simp,
                            ci as int,
                            x_origin as int,
                            y_origin as int,
                            size as int,
                            upem as int,
                        ) + crate::render::contour_lines(
                            *simp,
                            ci as int,
                            x_origin as int,
                            y_origin as int,
                            size as int,
                            upem as int,
                        ));
                    }
                    start = end + 1;
                    ci = ci + 1;
                }
                proof {
                    assert(simp.contours_ok());
                }
                let ghost glines = raster.lines@;
                let bmp = raster.into_bitmap();
                proof {
                    assert(glines == crate::render::lines_through(
                        *simp,
                        simp.end_points_of_contours.spec_len() as int,
                        2 * glyph.header.x_min,
                        2 * glyph.header.y_min,
                        size as int,
                        upem as int,
                    ));
                }
                Some(bmp)
            },
        }
    }
}


impl<'a> Font<'a> {
    /// Resolve and rasterize the sub-glyphs a component record list
    /// names: each record's glyph is found through the location and
    /// outline tables, its points are moved by the accumulated transform
    /// composed with the record's own — parent applied after child — and
    /// its contours are flattened and scaled into the raster like a
    /// simple glyph's own.  Nested composite components recurse, with
    /// `depth` bounding the descent so that a font whose components name
    /// each other still terminates.  `false` when a record, glyph,
    /// stream, transform, position, or the raster's capacity does not
    /// work out; the raster keeps its dimensions and well-formedness
    /// either way.
    fn add_component_lines(
        &self,
        raster: &mut FillInRaster,
        loca: &Loca<'a>,
        glyf: &Glyf<'a>,
        components: &'a [u8],
        tdx: i64,
        tdy: i64,
        xx: i64,
        xy: i64,
        yx: i64,
        yy: i64,
        x_origin: i32,
        y_origin: i32,
        size: usize,
        upem: u64,
        depth: u8,
    ) -> (r: bool)
        requires
            old(raster).wf(),
            old(raster).windings.width <= 0x4000,
            old(raster).windings.height <= 0x4000,
            old(raster).lines@.len() <= 0x10000000,
            1 <= size <= 0x4000,
            1 <= upem <= 0xFFFF,
            0x20000 * size <= 0x10000 * upem,
            -0x10000 <= x_origin <= 0x10000,
            -0x10000 <= y_origin <= 0x10000,
            -0x8000 <= tdx <= 0x8000,
            -0x8000 <= tdy <= 0x8000,
            -0x8000 <= xx <= 0x8000,
            -0x8000 <= xy <= 0x8000,
            -0x8000 <= yx <= 0x8000,
            -0x8000 <= yy <= 0x8000,
        ensures
            final(raster).wf(),
            final(raster).windings.width == old(raster).windings.width,
            final(raster).windings.height == old(raster).windings.height,
            final(raster).lines@.len() <= 0x10000000,
        decreases depth,
    {
        if depth == 0 {
            return false;
        }
        let mut walker = CompositeCoordinates {
            glyf: GlyfTable(glyf.0),
            components,
            component_idx: 0,
            current_glyph: None,
        };
        let mut done = false;
        while !done
            invariant
                raster.wf(),
                raster.windings.width == old(raster).windings.width,
                raster.windings.height == old(raster).windings.height,
                raster.windings.width <= 0x4000,
                raster.windings.height <= 0x4000,
                raster.lines@.len() <= 0x10000000,
                1 <= size <= 0x4000,
                1 <= upem <= 0xFFFF,
                0x20000 * size <= 0x10000 * upem,
                -0x10000 <= x_origin <= 0x10000,
                -0x10000 <= y_origin <= 0x10000,
                -0x8000 <= tdx <= 0x8000,
                -0x8000 <= tdy <= 0x8000,
                -0x8000 <= xx <= 0x8000,
                -0x8000 <= xy <= 0x8000,
                -0x8000 <= yx <= 0x8000,
                -0x8000 <= yy <= 0x8000,
                1 <= depth,
            decreases walker.components@.len() + (if done {
                0int
            } else {
                1int
            }),
        {
            let ghost before = walker.components@;
            match walker.next_component() {
                None => {
                    done = true;
                },
                Some(rec) => {
                    if !rec.more {
                        done = true;
                    }
                    proof {
                        assert(walker.components@.len() < before.len() || !rec.more);
                    }
                    // Compose: the accumulated transform applied after the
                    // record's own, all in 2.14 fixed point.
                    proof {
                        assert(forall|p: int, q: int|
                            -0x8000 <= p <= 0x8000 && -0x8000 <= q <= 0x8000
                                ==> -0x40000000 <= #[trigger] (p * q) <= 0x40000000)
                            by (nonlinear_arith);
                    }
                    let nxx = rdiv64(xx * rec.xx as i64 + xy * rec.yx as i64, 0x4000);
                    let nxy = rdiv64(xx * rec.xy as i64 + xy * rec.yy as i64, 0x4000);
                    let nyx = rdiv64(yx * rec.xx as i64 + yy * rec.yx as i64, 0x4000);
                    let nyy = rdiv64(yx * rec.xy as i64 + yy * rec.yy as i64, 0x4000);
                    let ndx = rdiv64(xx * rec.dx as i64 + xy * rec.dy as i64, 0x4000) + tdx;
                    let ndy = rdiv64(yx * rec.dx as i64 + yy * rec.dy as i64, 0x4000) + tdy;
                    if nxx < -0x8000 || nxx > 0x8000 || nxy < -0x8000 || nxy > 0x8000 || nyx
                        < -0x8000 || nyx > 0x8000 || nyy < -0x8000 || nyy > 0x8000 || ndx < -0x8000
                        || ndx > 0x8000 || ndy < -0x8000 || ndy > 0x8000 {
                        return false;
                    }
                    let count: usize = match loca {
                        Loca::Short(arr) => arr.0.len(),
                        Loca::Long(arr) => arr.0.len(),
                    };
                    if count < 2 || rec.glyph_index as usize > count - 2 {
                        return false;
                    }
                    match loca.at(rec.glyph_index as usize) {
                        None => {
                            // a component naming an empty glyph draws nothing
                        },
                        Some(off) => {
                            let glyf_len = glyf.0.0.len();
                            if off as usize > glyf_len {
                                return false;
                            }
                            let sub = match glyf.at_offset(off as usize) {
                                None => {
                                    return false;
                                },
                                Some(g) => g,
                            };
                            match &sub.desc {
                                Description::Composite(c2) => {
                                    if !self.add_component_lines(
                                        raster,
                                        loca,
                                        glyf,
                                        c2.components,
                                        ndx,
                                        ndy,
                                        nxx,
                                        nxy,
                                        nyx,
                                        nyy,
                                        x_origin,
                                        y_origin,
                                        size,
                                        upem,
                                        depth - 1,
                                    ) {
                                        return false;
                                    }
                                },
                                Description::Simple(ssimp) => {
                                    if !ssimp.validate() {
                                        return false;
                                    }
                                    if !self.add_transformed_simple(
                                        raster,
                                        &sub,
                                        ssimp,
                                        ndx,
                                        ndy,
                                        nxx,
                                        nxy,
                                        nyx,
                                        nyy,
                                        x_origin,
                                        y_origin,
                                        size,
                                        upem,
                                    ) {
                                        return false;
                                    }
                                },
                            }
                        },
                    }
                },
            }
        }
        true
    }

    /// Walk one simple glyph's points, move each by the 2.14 transform
    /// and design-unit offset, and rasterize its contours, flattened and
    /// scaled like a glyph of its own.  `false` when a position leaves
    /// the design grid, the contours are not well delimited, or the
    /// raster's capacity is hit.
    fn add_transformed_simple(
        &self,
        raster: &mut FillInRaster,
        sub: &crate::tables::glyf::Glyph<'a>,
        ssimp: &SimpleGlyph<'a>,
        tdx: i64,
        tdy: i64,
        xx: i64,
        xy: i64,
        yx: i64,
        yy: i64,
        x_origin: i32,
        y_origin: i32,
        size: usize,
        upem: u64,
    ) -> (r: bool)
        requires
            old(raster).wf(),
            old(raster).windings.width <= 0x4000,
            old(raster).windings.height <= 0x4000,
            old(raster).lines@.len() <= 0x10000000,
            1 <= size <= 0x4000,
            1 <= upem <= 0xFFFF,
            0x20000 * size <= 0x10000 * upem,
            -0x10000 <= x_origin <= 0x10000,
            -0x10000 <= y_origin <= 0x10000,
            -0x8000 <= tdx <= 0x8000,
            -0x8000 <= tdy <= 0x8000,
            -0x8000 <= xx <= 0x8000,
            -0x8000 <= xy <= 0x8000,
            -0x8000 <= yx <= 0x8000,
            -0x8000 <= yy <= 0x8000,
            sub.coords_ok(),
            sub.desc == Description::Simple(*ssimp),
        ensures
            final(raster).wf(),
            final(raster).windings.width == old(raster).windings.width,
            final(raster).windings.height == old(raster).windings.height,
            final(raster).lines@.len() <= 0x10000000,
    {
        let mut w = sub.coordinates();
        let mut coords: Vec<Coordinate> = Vec::new();
        let mut walk_done = false;
        while !walk_done
            invariant
                w.wf(),
                walk_done ==> w.stream().len() == 0,
                raster.wf(),
                raster.windings.width == old(raster).windings.width,
                raster.windings.height == old(raster).windings.height,
                raster.lines@.len() <= 0x10000000,
                -0x8000 <= tdx <= 0x8000,
                -0x8000 <= tdy <= 0x8000,
                -0x8000 <= xx <= 0x8000,
                -0x8000 <= xy <= 0x8000,
                -0x8000 <= yx <= 0x8000,
                -0x8000 <= yy <= 0x8000,
            decreases w.stream().len() + (if walk_done {
                0int
            } else {
                1int
            }),
        {
            match w.next() {
                None => {
                    walk_done = true;
                },
                Some(c) => {
                    proof {
                        assert(forall|p: int, q: int|
                            -0x8000 <= p <= 0x8000 && -0x8000 <= q <= 0x8000
                                ==> -0x40000000 <= #[trigger] (p * q) <= 0x40000000)
                            by (nonlinear_arith);
                    }
                    let tx = rdiv64(xx * c.x as i64 + xy * c.y as i64, 0x4000) + tdx;
                    let ty = rdiv64(yx * c.x as i64 + yy * c.y as i64, 0x4000) + tdy;
                    if tx < -0x8000 || tx > 0x7FFF || ty < -0x8000 || ty > 0x7FFF {
                        return false;
                    }
                    coords.push(
                        Coordinate { on_curve: c.on_curve, x: tx as i16, y: ty as i16 },
                    );
                },
            }
        }
        let n_contours = ssimp.end_points_of_contours.len();
        let n_coords = coords.len();
        let mut start: usize = 0;
        let mut ci: usize = 0;
        while ci < n_contours
            invariant
                raster.wf(),
                raster.windings.width == old(raster).windings.width,
                raster.windings.height == old(raster).windings.height,
                raster.windings.width <= 0x4000,
                raster.windings.height <= 0x4000,
                raster.lines@.len() <= 0x10000000,
                n_contours == ssimp.end_points_of_contours.spec_len(),
                n_coords == coords@.len(),
                start <= n_coords,
                1 <= size <= 0x4000,
                1 <= upem <= 0xFFFF,
                0x20000 * size <= 0x10000 * upem,
                -0x10000 <= x_origin <= 0x10000,
                -0x10000 <= y_origin <= 0x10000,
            decreases n_contours - ci,
        {
            let end = ssimp.end_points_of_contours.at(ci);
            let end = end as usize;
            if end >= n_coords || start > end {
                return false;
            }
            let contour = slice_subrange(coords.as_slice(), start, end + 1);
            if !contour[0].on_curve {
                return false;
            }
            let fdc = FlattenedDrawCommands::from_coordinates(contour);
            proof {
                if contour@.len() > 0 {
                    crate::render::lemma_draw_cmds_bounded(
                        contour@.skip(1),
                        Some(contour@[0]),
                        spec_doubled(contour@[0]),
                        None,
                    );
                }
                lemma_flatten_bounded(spec_commands(contour@));
            }
            let m = fdc.segments.len();
            let mut j: usize = 0;
            while j < m
                invariant
                    0 <= j <= m,
                    raster.wf(),
                    raster.windings.width == old(raster).windings.width,
                    raster.windings.height == old(raster).windings.height,
                    raster.windings.width <= 0x4000,
                    raster.windings.height <= 0x4000,
                    raster.lines@.len() <= 0x10000000,
                    m == fdc.segments@.len(),
                    forall|jj: int|
                        0 <= jj < m ==> crate::render::pt_bounded(
                            (#[trigger] fdc.segments@[jj]).0,
                        ) && crate::render::pt_bounded(fdc.segments@[jj].1),
                    1 <= size <= 0x4000,
                    1 <= upem <= 0xFFFF,
                    0x20000 * size <= 0x10000 * upem,
                    -0x10000 <= x_origin <= 0x10000,
                    -0x10000 <= y_origin <= 0x10000,
                decreases m - j,
            {
                if raster.lines.len() >= 0x10000000 {
                    return false;
                }
                let seg = *slice_index_get(fdc.segments.as_slice(), j);
                let a = Point {
                    x: scale_coord(seg.0.x, x_origin, size as i64, upem as i64),
                    y: scale_coord(seg.0.y, y_origin, size as i64, upem as i64),
                };
                let b = Point {
                    x: scale_coord(seg.1.x, x_origin, size as i64, upem as i64),
                    y: scale_coord(seg.1.y, y_origin, size as i64, upem as i64),
                };
                raster.add_line(a, b);
                j = j + 1;
            }
            start = end + 1;
            ci = ci + 1;
        }
        true
    }
}

} // verus!

