use vstd::prelude::*;
use vstd::slice::slice_subrange;
use core::cmp::Ordering;
use crate::parse::primitives::{be16, be32, i16_at, signed16, u16_at, u32_at};
use crate::parse::{split_buf_for_len, BufView, DynArr, Parse};
use crate::tables::{PrimaryTable, RecordIterator, TableTag};

verus! {

/// The character-map table: a version, and encoding records that point at
/// format subtables inside the same table.
#[derive(Debug)]
pub struct CMap<'a> {
    pub table: BufView<'a, u8>,
    pub version: u16,
    pub num_records: u16,
    pub records: DynArr<'a, CMapEncodingRecord>,
}

impl<'a> PrimaryTable for CMap<'a> {
    open spec fn spec_tag() -> TableTag {
        TableTag::CharacterCodeMapping
    }

    fn tag() -> (r: TableTag) {
        TableTag::CharacterCodeMapping
    }
}

/// One encoding record: a platform pair and the byte offset of its format
/// subtable from the start of the character-map table.
#[derive(Debug, PartialEq, Clone, Copy)]
pub struct CMapEncodingRecord {
    pub platform_id: u16,
    pub platform_specific_id: u16,
    pub offset: u32,
}

impl Parse for CMapEncodingRecord {
    open spec fn spec_size() -> nat {
        8
    }

    open spec fn parsed(data: Seq<u8>, v: Self) -> bool {
        &&& v.platform_id == be16(data[0], data[1])
        &&& v.platform_specific_id == be16(data[2], data[3])
        &&& v.offset == be32(data[4], data[5], data[6], data[7])
    }

    proof fn parsed_prefix_only(d1: Seq<u8>, d2: Seq<u8>, v: Self) {
        crate::parse::lemma_prefix_bytes_equal(d1, d2, 8);
    }

    proof fn parsed_unique(data: Seq<u8>, v1: Self, v2: Self) {
    }

    proof fn size_positive() {
    }

    fn approx_file_size() -> (r: usize) {
        8
    }

    fn parse<'a>(buf: &'a [u8]) -> (r: (&'a [u8], Self)) {
        let (b, platform_id) = u16::parse(buf);
        let (b, platform_specific_id) = u16::parse(b);
        let (b, offset) = u32::parse(b);
        (b, CMapEncodingRecord { platform_id, platform_specific_id, offset })
    }
}

/// A format subtable that can be found through the encoding records by its
/// leading 16-bit format number.
pub trait CMapFormatTable<'a>: Sized {
    /// The format number that announces this subtable kind.
    spec fn spec_format_id() -> int;

    /// What decoding this subtable kind from `data` yields.
    spec fn table_from(data: Seq<u8>, r: Option<Self>) -> bool;

    fn format_identifier() -> (r: u16)
        ensures
            r == Self::spec_format_id(),
    ;

    /// Decode the subtable from its bytes, which run to the end of the
    /// character-map table.
    fn parse_format(data: &'a [u8]) -> (r: Option<Self>)
        ensures
            Self::table_from(data@, r),
    ;
}

/// The encoding record count that a character-map table declares.
pub open spec fn cmap_num_records(data: Seq<u8>) -> int {
    u16_at(data, 1)
}

/// The byte offset of the first subtable of format `fmt`, scanning the
/// encoding records from record `i` on.  A record whose offset has no room
/// for a format number does not match.
pub open spec fn cmap_format_offset_from(data: Seq<u8>, fmt: int, i: int) -> Option<int>
    decreases cmap_num_records(data) - i,
{
    if i < 0 || i >= cmap_num_records(data) {
        None
    } else {
        let off = be32(data[4 + 8 * i + 4], data[4 + 8 * i + 5], data[4 + 8 * i + 6], data[4 + 8 * i
            + 7]);
        if off + 2 <= data.len() && be16(data[off], data[off + 1]) == fmt {
            Some(off)
        } else {
            cmap_format_offset_from(data, fmt, i + 1)
        }
    }
}

/// The byte offset of the first subtable of format `fmt`.
pub open spec fn cmap_format_offset(data: Seq<u8>, fmt: int) -> Option<int> {
    cmap_format_offset_from(data, fmt, 0)
}

impl<'a> CMap<'a> {
    /// The whole table's bytes.
    pub open spec fn bytes(self) -> Seq<u8> {
        self.table.bytes()
    }

    /// The parsed head matches the bytes and the records fit in them.
    pub open spec fn wf(self) -> bool {
        &&& self.bytes().len() >= 4 + 8 * (self.num_records as int)
        &&& self.version == u16_at(self.bytes(), 0)
        &&& self.num_records == cmap_num_records(self.bytes())
        &&& self.records.bytes() == self.bytes().subrange(4, 4 + 8 * (self.num_records as int))
    }

    /// Decode the table head.  The encoding records stay lazy views.
    pub fn parse_table(buf: &'a [u8]) -> (r: Option<CMap<'a>>)
        ensures
            r is Some <==> buf@.len() >= 4 && buf@.len() >= 4 + 8 * cmap_num_records(buf@),
            r is Some ==> {
                &&& r.unwrap().wf()
                &&& r.unwrap().bytes() == buf@
            },
    {
        if buf.len() < 4 {
            return None;
        }
        let (b, version) = u16::parse(buf);
        let (b, num_records) = u16::parse(b);
        if (buf.len() - 4) / 8 < num_records as usize {
            return None;
        }
        let (records_buf, _rest) = split_buf_for_len::<CMapEncodingRecord>(
            b,
            num_records as usize,
        );
        proof {
            assert(records_buf@ =~= buf@.subrange(4, 4 + 8 * (num_records as int)));
        }
        Some(
            CMap {
                table: BufView(buf, core::marker::PhantomData),
                version,
                num_records,
                records: DynArr(records_buf, core::marker::PhantomData),
            },
        )
    }

    /// Walk the encoding records from the front.
    pub fn encoding_records(&self) -> (r: RecordIterator<'a, CMapEncodingRecord>)
        ensures
            r.next_record == self.records.0,
            r.num_left == self.num_records,
    {
        RecordIterator {
            next_record: self.records.0,
            num_left: self.num_records,
            _marker: core::marker::PhantomData,
        }
    }

    /// Decode the first subtable whose format number is `T`'s, scanning the
    /// encoding records in order.
    pub fn get_format<T: CMapFormatTable<'a>>(&self) -> (r: Option<T>)
        requires
            self.wf(),
        ensures
            match cmap_format_offset(self.bytes(), T::spec_format_id()) {
                None => r is None,
                Some(off) => T::table_from(self.bytes().skip(off), r),
            },
    {
        let fmt = T::format_identifier();
        let n = self.num_records as usize;
        let table_len = self.table.0.len();
        let mut i: usize = 0;
        while i < n
            invariant
                self.wf(),
                n == self.num_records,
                table_len == self.bytes().len(),
                fmt == T::spec_format_id(),
                0 <= i <= n,
                cmap_format_offset(self.bytes(), T::spec_format_id()) == cmap_format_offset_from(
                    self.bytes(),
                    T::spec_format_id(),
                    i as int,
                ),
            decreases n - i,
        {
            let record = self.records.at(i);
            proof {
                self.records.lemma_elem_tail_index(i as int, 4);
                self.records.lemma_elem_tail_index(i as int, 5);
                self.records.lemma_elem_tail_index(i as int, 6);
                self.records.lemma_elem_tail_index(i as int, 7);
            }
            let off = record.offset as usize;
            if off <= table_len && table_len - off >= 2 {
                let sub = slice_subrange(self.table.0, off, table_len);
                let (_rest, table_format) = u16::parse(sub);
                if table_format == fmt {
                    let result = T::parse_format(sub);
                    proof {
                        assert(sub@ =~= self.bytes().skip(off as int));
                    }
                    return result;
                }
            }
            i = i + 1;
        }
        None
    }

    /// The segmented mapping of the basic plane, if the table offers one.
    pub fn format4(&self) -> (r: Option<Format4<'a>>)
        requires
            self.wf(),
        ensures
            match cmap_format_offset(self.bytes(), 4) {
                None => r is None,
                Some(off) => Format4::table_from(self.bytes().skip(off), r),
            },
    {
        self.get_format::<Format4<'a>>()
    }
}

// The layout of a format-4 subtable, by 16-bit element index: format 0,
// length 1, language 2, doubled segment count 3, search hints 4..7, then
// the four parallel arrays of `seg` entries each -- end codes from 7,
// a reserved word, start codes, deltas, range offsets -- and the glyph id
// array from element `8 + 4 * seg` to the end of the table.

/// The segment count (the file stores it doubled).
pub open spec fn f4_seg_count(data: Seq<u8>) -> int {
    u16_at(data, 3) / 2
}

/// The subtable is large enough for its segment arrays.
pub open spec fn f4_wf(data: Seq<u8>) -> bool {
    data.len() >= 16 + 8 * f4_seg_count(data)
}

/// Last code point of segment `i`.
pub open spec fn f4_end_count(data: Seq<u8>, i: int) -> int {
    u16_at(data, 7 + i)
}

/// First code point of segment `i`.
pub open spec fn f4_start_count(data: Seq<u8>, i: int) -> int {
    u16_at(data, 8 + f4_seg_count(data) + i)
}

/// Glyph-id delta of segment `i`.
pub open spec fn f4_id_delta(data: Seq<u8>, i: int) -> int {
    i16_at(data, 8 + 2 * f4_seg_count(data) + i)
}

/// Glyph-array range offset of segment `i`.
pub open spec fn f4_id_range_offset(data: Seq<u8>, i: int) -> int {
    u16_at(data, 8 + 3 * f4_seg_count(data) + i)
}

/// Entry `j` of the glyph-id array.
pub open spec fn f4_glyph_id(data: Seq<u8>, j: int) -> int {
    u16_at(data, 8 + 4 * f4_seg_count(data) + j)
}

/// The first segment at or after `i` whose end code reaches `cp`.
pub open spec fn f4_first_match_from(data: Seq<u8>, cp: int, i: int) -> Option<int>
    decreases f4_seg_count(data) - i,
{
    if i < 0 || i >= f4_seg_count(data) {
        None
    } else if f4_end_count(data, i) >= cp {
        Some(i)
    } else {
        f4_first_match_from(data, cp, i + 1)
    }
}

/// The first segment whose end code reaches `cp`.
pub open spec fn f4_first_match(data: Seq<u8>, cp: int) -> Option<int> {
    f4_first_match_from(data, cp, 0)
}

/// The glyph id that segment `i` assigns to `cp`: directly delta-shifted
/// modulo 2^16, or read from the glyph-id array, where a zero entry and an
/// index outside the subtable both mean an explicit hole.
pub open spec fn f4_resolve(data: Seq<u8>, cp: int, i: int) -> Option<u16> {
    let seg = f4_seg_count(data);
    if f4_id_range_offset(data, i) == 0 {
        Some(((cp + f4_id_delta(data, i)) % 0x10000) as u16)
    } else {
        let j = f4_id_range_offset(data, i) / 2 + (cp - f4_start_count(data, i)) - (seg - i);
        if j < 0 || 2 * (8 + 4 * seg + j) + 2 > data.len() {
            None
        } else if f4_glyph_id(data, j) == 0 {
            None
        } else {
            Some(((f4_glyph_id(data, j) + f4_id_delta(data, i)) % 0x10000) as u16)
        }
    }
}

/// The glyph id a format-4 subtable maps `cp` to: `None` when no segment
/// reaches `cp`, when `cp` lies before its segment's start, or when the
/// segment declares a hole.
pub open spec fn f4_lookup(data: Seq<u8>, cp: int) -> Option<u16> {
    match f4_first_match(data, cp) {
        None => None,
        Some(i) => if f4_start_count(data, i) > cp {
            None
        } else {
            f4_resolve(data, cp, i)
        },
    }
}

/// The segment end codes never decrease.
pub open spec fn f4_end_counts_nondecreasing(data: Seq<u8>) -> bool {
    forall|i: int, j: int|
        0 <= i <= j < f4_seg_count(data) ==> #[trigger] f4_end_count(data, i) <= #[trigger]
            f4_end_count(data, j)
}

/// The segmented basic-plane character mapping.
pub struct Format4<'a> {
    pub format: u16,
    pub length: u16,
    pub language: u16,
    pub seg_count: u16,
    pub search_range: u16,
    pub entry_selector: u16,
    pub range_shift: u16,
    pub end_counts: DynArr<'a, u16>,
    pub reserved_padding: u16,
    pub start_counts: DynArr<'a, u16>,
    pub id_deltas: DynArr<'a, i16>,
    pub id_range_offsets: DynArr<'a, u16>,
    pub glyph_ids: BufView<'a, u16>,
    pub src: Ghost<Seq<u8>>,
}

impl<'a> Format4<'a> {
    /// The views cover the advertised pieces of the subtable's bytes.
    pub open spec fn wf(self) -> bool {
        let data = self.src@;
        let seg = f4_seg_count(data);
        &&& f4_wf(data)
        &&& self.format == u16_at(data, 0)
        &&& self.length == u16_at(data, 1)
        &&& self.language == u16_at(data, 2)
        &&& self.seg_count == seg
        &&& self.search_range == u16_at(data, 4)
        &&& self.entry_selector == u16_at(data, 5)
        &&& self.range_shift == u16_at(data, 6)
        &&& self.end_counts.bytes() == data.subrange(14, 14 + 2 * seg)
        &&& self.start_counts.bytes() == data.subrange(16 + 2 * seg, 16 + 4 * seg)
        &&& self.id_deltas.bytes() == data.subrange(16 + 4 * seg, 16 + 6 * seg)
        &&& self.id_range_offsets.bytes() == data.subrange(16 + 6 * seg, 16 + 8 * seg)
        &&& self.glyph_ids.bytes() == data.skip(16 + 8 * seg)
    }

    /// The glyph id this subtable maps `code_point` to.
    pub fn lookup_glyph_id(&self, code_point: u16) -> (r: Option<u16>)
        requires
            self.wf(),
        ensures
            r == f4_lookup(self.src@, code_point as int),
    {
        let ghost data = self.src@;
        let ghost cp = code_point as int;
        let seg = self.seg_count as usize;
        let mut idx: usize = 0;
        while idx < seg
            invariant
                self.wf(),
                data == self.src@,
                cp == code_point as int,
                seg == self.seg_count,
                0 <= idx <= seg,
                f4_first_match(data, cp) == f4_first_match_from(data, cp, idx as int),
            decreases seg - idx,
        {
            proof {
                self.lemma_end_count(idx as int);
            }
            let end_code = self.end_counts.at(idx);
            if end_code >= code_point {
                proof {
                    self.lemma_start_count(idx as int);
                }
                let start_code = self.start_counts.at(idx);
                if start_code <= code_point {
                    return self.get_glyph_id(code_point, idx, start_code);
                } else {
                    return None;
                }
            }
            idx = idx + 1;
        }
        None
    }

    /// Resolve `code_point` inside segment `start_idx`, whose start code is
    /// `start_code`.
    fn get_glyph_id(&self, code_point: u16, start_idx: usize, start_code: u16) -> (r: Option<u16>)
        requires
            self.wf(),
            start_idx < f4_seg_count(self.src@),
            start_code == f4_start_count(self.src@, start_idx as int),
            start_code <= code_point,
        ensures
            r == f4_resolve(self.src@, code_point as int, start_idx as int),
    {
        let ghost data = self.src@;
        proof {
            self.lemma_id_delta(start_idx as int);
            self.lemma_id_range_offset(start_idx as int);
        }
        let id_delta = self.id_deltas.at(start_idx);
        let id_range_offset = self.id_range_offsets.at(start_idx);
        let seg = self.seg_count as usize;
        if id_range_offset != 0 {
            // Rather than the specified pointer arithmetic, shift the index
            // into the glyph-id array down by the distance from this
            // segment's range-offset slot to the start of that array.
            let glyph_idx: i64 = (id_range_offset as i64) / 2 + (code_point as i64 - start_code
                as i64) - (seg as i64 - start_idx as i64);
            if glyph_idx < 0 {
                return None;
            }
            let j = glyph_idx as usize;
            let avail = self.glyph_ids.0.len();
            if j >= avail / 2 {
                proof {
                    assert(2 * (8 + 4 * f4_seg_count(data) + glyph_idx) + 2 > data.len())
                        by (nonlinear_arith)
                        requires
                            avail == data.len() - (16 + 8 * f4_seg_count(data)),
                            glyph_idx >= avail as int / 2,
                            glyph_idx >= 0,
                    ;
                }
                return None;
            }
            proof {
                assert(j * 2 + 2 <= avail) by (nonlinear_arith)
                    requires
                        j < avail as int / 2,
                ;
                self.glyph_ids.lemma_elem_tail_index(j as int, 0);
                self.glyph_ids.lemma_elem_tail_index(j as int, 1);
                assert(2 * (8 + 4 * f4_seg_count(data) + j) + 2 <= data.len()) by (nonlinear_arith)
                    requires
                        avail == data.len() - (16 + 8 * f4_seg_count(data)),
                        j * 2 + 2 <= avail as int,
                ;
            }
            let glyph_val = self.glyph_ids.at(j);
            if glyph_val != 0 {
                Some(wrap_delta(glyph_val, id_delta))
            } else {
                None
            }
        } else {
            Some(wrap_delta(code_point, id_delta))
        }
    }

    /// What the end-code array stores for segment `i`.
    proof fn lemma_end_count(self, i: int)
        requires
            self.wf(),
            0 <= i < f4_seg_count(self.src@),
        ensures
            forall|v: u16|
                #[trigger] u16::parsed(self.end_counts.elem_tail(i), v) <==> v == f4_end_count(
                    self.src@,
                    i,
                ),
    {
        self.end_counts.lemma_elem_tail_index(i, 0);
        self.end_counts.lemma_elem_tail_index(i, 1);
    }

    /// What the start-code array stores for segment `i`.
    proof fn lemma_start_count(self, i: int)
        requires
            self.wf(),
            0 <= i < f4_seg_count(self.src@),
        ensures
            forall|v: u16|
                #[trigger] u16::parsed(self.start_counts.elem_tail(i), v) <==> v == f4_start_count(
                    self.src@,
                    i,
                ),
    {
        self.start_counts.lemma_elem_tail_index(i, 0);
        self.start_counts.lemma_elem_tail_index(i, 1);
    }

    /// What the delta array stores for segment `i`.
    proof fn lemma_id_delta(self, i: int)
        requires
            self.wf(),
            0 <= i < f4_seg_count(self.src@),
        ensures
            forall|v: i16|
                #[trigger] i16::parsed(self.id_deltas.elem_tail(i), v) <==> v == f4_id_delta(
                    self.src@,
                    i,
                ),
    {
        self.id_deltas.lemma_elem_tail_index(i, 0);
        self.id_deltas.lemma_elem_tail_index(i, 1);
    }

    /// What the range-offset array stores for segment `i`.
    proof fn lemma_id_range_offset(self, i: int)
        requires
            self.wf(),
            0 <= i < f4_seg_count(self.src@),
        ensures
            forall|v: u16|
                #[trigger] u16::parsed(self.id_range_offsets.elem_tail(i), v) <==> v
                    == f4_id_range_offset(self.src@, i),
    {
        self.id_range_offsets.lemma_elem_tail_index(i, 0);
        self.id_range_offsets.lemma_elem_tail_index(i, 1);
    }
}

/// Add a signed delta to a glyph value modulo 2^16.
fn wrap_delta(val: u16, delta: i16) -> (r: u16)
    ensures
        r == (val + delta) % 0x10000,
{
    let sum: i32 = val as i32 + delta as i32;
    if sum < 0 {
        proof {
            vstd::arithmetic::div_mod::lemma_mod_add_multiples_vanish(sum as int, 0x10000);
            assert((sum + 0x10000) % 0x10000 == sum + 0x10000) by (nonlinear_arith)
                requires
                    0 <= sum + 0x10000 < 0x10000,
            ;
        }
        (sum + 0x10000) as u16
    } else if sum >= 0x10000 {
        proof {
            vstd::arithmetic::div_mod::lemma_mod_add_multiples_vanish((sum - 0x10000) as int, 0x10000);
            assert((sum - 0x10000) % 0x10000 == sum - 0x10000) by (nonlinear_arith)
                requires
                    0 <= sum - 0x10000 < 0x10000,
            ;
        }
        (sum - 0x10000) as u16
    } else {
        proof {
            assert(sum % 0x10000 == sum) by (nonlinear_arith)
                requires
                    0 <= sum < 0x10000,
            ;
        }
        sum as u16
    }
}

impl<'a> CMapFormatTable<'a> for Format4<'a> {
    open spec fn spec_format_id() -> int {
        4
    }

    open spec fn table_from(data: Seq<u8>, r: Option<Self>) -> bool {
        &&& r is Some <==> data.len() >= 14 && f4_wf(data)
        &&& r is Some ==> r.unwrap().wf() && r.unwrap().src@ == data
    }

    fn format_identifier() -> (r: u16) {
        4
    }

    fn parse_format(data: &'a [u8]) -> (r: Option<Self>) {
        if data.len() < 14 {
            return None;
        }
        let (b, format) = u16::parse(data);
        let (b, length) = u16::parse(b);
        let (b, language) = u16::parse(b);
        let (b, seg_count_x2) = u16::parse(b);
        let (b, search_range) = u16::parse(b);
        let (b, entry_selector) = u16::parse(b);
        let (b, range_shift) = u16::parse(b);
        let seg_count = seg_count_x2 / 2;
        let seg = seg_count as usize;
        if (data.len() - 14) / 8 < seg || data.len() < 16 + 8 * seg {
            proof {
                assert(!f4_wf(data@));
            }
            return None;
        }
        let (end_counts_buf, b) = split_buf_for_len::<u16>(b, seg);
        let (b, reserved_padding) = u16::parse(b);
        let (start_counts_buf, b) = split_buf_for_len::<u16>(b, seg);
        let (id_deltas_buf, b) = split_buf_for_len::<i16>(b, seg);
        let (id_range_offsets_buf, b) = split_buf_for_len::<u16>(b, seg);
        proof {
            let d = data@;
            let sg = seg as int;
            assert(end_counts_buf@ =~= d.subrange(14, 14 + 2 * sg));
            assert(start_counts_buf@ =~= d.subrange(16 + 2 * sg, 16 + 4 * sg));
            assert(id_deltas_buf@ =~= d.subrange(16 + 4 * sg, 16 + 6 * sg));
            assert(id_range_offsets_buf@ =~= d.subrange(16 + 6 * sg, 16 + 8 * sg));
            assert(b@ =~= d.skip(16 + 8 * sg));
        }
        Some(
            Format4 {
                format,
                length,
                language,
                seg_count,
                search_range,
                entry_selector,
                range_shift,
                end_counts: DynArr(end_counts_buf, core::marker::PhantomData),
                reserved_padding,
                start_counts: DynArr(start_counts_buf, core::marker::PhantomData),
                id_deltas: DynArr(id_deltas_buf, core::marker::PhantomData),
                id_range_offsets: DynArr(id_range_offsets_buf, core::marker::PhantomData),
                glyph_ids: BufView(b, core::marker::PhantomData),
                src: Ghost(data@),
            },
        )
    }
}


// The layout of a format-12 subtable, by 32-bit element index: format and
// a reserved word share element 0, then length 1, language 2, group count
// 3, and the groups themselves: three words each from element 4 on.

/// The group count a sequential-group subtable declares.
pub open spec fn f12_num_groups(data: Seq<u8>) -> int {
    u32_at(data, 3)
}

/// The subtable is large enough for its groups.
pub open spec fn f12_wf(data: Seq<u8>) -> bool {
    data.len() >= 16 + 12 * f12_num_groups(data)
}

/// Group `i` of the subtable.
pub open spec fn f12_group_at(data: Seq<u8>, i: int) -> SequentialMapGroup {
    SequentialMapGroup {
        start_char_code: u32_at(data, 4 + 3 * i) as u32,
        end_char_code: u32_at(data, 5 + 3 * i) as u32,
        start_glyph_id: u32_at(data, 6 + 3 * i) as u32,
    }
}

/// The groups hold ascending, pairwise disjoint code ranges: what the
/// format requires of a font, and what the binary search leans on.
pub open spec fn f12_sorted(data: Seq<u8>) -> bool {
    &&& forall|i: int|
        0 <= i < f12_num_groups(data) ==> (#[trigger] f12_group_at(data, i)).start_char_code
            <= f12_group_at(data, i).end_char_code
    &&& forall|i: int, j: int|
        0 <= i < j < f12_num_groups(data) ==> (#[trigger] f12_group_at(data, i)).end_char_code < (
        #[trigger] f12_group_at(data, j)).start_char_code
}

/// The first group at or after `i` whose range holds `cp`.
pub open spec fn f12_first_containing_from(data: Seq<u8>, cp: int, i: int) -> Option<int>
    decreases f12_num_groups(data) - i,
{
    if i < 0 || i >= f12_num_groups(data) {
        None
    } else if f12_group_at(data, i).spec_contains(cp) {
        Some(i)
    } else {
        f12_first_containing_from(data, cp, i + 1)
    }
}

/// The first group whose range holds `cp`.
pub open spec fn f12_first_containing(data: Seq<u8>, cp: int) -> Option<int> {
    f12_first_containing_from(data, cp, 0)
}

/// The glyph id a format-12 subtable maps `cp` to.
pub open spec fn f12_lookup(data: Seq<u8>, cp: int) -> Option<u32> {
    match f12_first_containing(data, cp) {
        None => None,
        Some(i) => f12_group_at(data, i).spec_lookup(cp),
    }
}

/// The scan for a containing group finds the least one, and finds one
/// exactly when one exists at or after `lo`.
proof fn lemma_f12_scan(data: Seq<u8>, cp: int, lo: int)
    requires
        0 <= lo,
    ensures
        match f12_first_containing_from(data, cp, lo) {
            None => forall|i: int|
                lo <= i < f12_num_groups(data) ==> !(#[trigger] f12_group_at(
                    data,
                    i,
                )).spec_contains(cp),
            Some(k) => lo <= k < f12_num_groups(data) && f12_group_at(data, k).spec_contains(cp)
                && forall|i: int|
                lo <= i < k ==> !(#[trigger] f12_group_at(data, i)).spec_contains(cp),
        },
    decreases f12_num_groups(data) - lo,
{
    if lo < f12_num_groups(data) && !f12_group_at(data, lo).spec_contains(cp) {
        lemma_f12_scan(data, cp, lo + 1);
    }
}

/// The full-plane sequential-group character mapping.
pub struct Format12<'a> {
    pub format: u16,
    pub reserved: u16,
    pub length: u32,
    pub language: u32,
    pub num_groups: u32,
    pub groups: DynArr<'a, SequentialMapGroup>,
    pub src: Ghost<Seq<u8>>,
}

impl<'a> Format12<'a> {
    /// The parsed head matches the bytes and the group view covers them.
    pub open spec fn wf(self) -> bool {
        let data = self.src@;
        &&& f12_wf(data)
        &&& self.format == u16_at(data, 0)
        &&& self.reserved == u16_at(data, 1)
        &&& self.length == u32_at(data, 1)
        &&& self.language == u32_at(data, 2)
        &&& self.num_groups == f12_num_groups(data)
        &&& self.groups.bytes() == data.subrange(16, 16 + 12 * f12_num_groups(data))
    }

    /// What the group view stores at index `i`.
    proof fn lemma_group_parsed(self, i: int)
        requires
            self.wf(),
            0 <= i < f12_num_groups(self.src@),
        ensures
            forall|g: SequentialMapGroup|
                #[trigger] SequentialMapGroup::parsed(self.groups.elem_tail(i), g) <==> g
                    == f12_group_at(self.src@, i),
            self.groups.spec_len() == f12_num_groups(self.src@),
    {
        self.lemma_groups_len();
        self.groups.lemma_elem_tail_index(i, 0);
        self.groups.lemma_elem_tail_index(i, 1);
        self.groups.lemma_elem_tail_index(i, 2);
        self.groups.lemma_elem_tail_index(i, 3);
        self.groups.lemma_elem_tail_index(i, 4);
        self.groups.lemma_elem_tail_index(i, 5);
        self.groups.lemma_elem_tail_index(i, 6);
        self.groups.lemma_elem_tail_index(i, 7);
        self.groups.lemma_elem_tail_index(i, 8);
        self.groups.lemma_elem_tail_index(i, 9);
        self.groups.lemma_elem_tail_index(i, 10);
        self.groups.lemma_elem_tail_index(i, 11);
    }

    /// The group view holds whole groups: one per declared group.
    proof fn lemma_groups_len(self)
        requires
            self.wf(),
        ensures
            self.groups.wf(),
            self.groups.spec_len() == f12_num_groups(self.src@),
    {
        let n = f12_num_groups(self.src@);
        assert(self.groups.bytes().len() == 12 * n);
        assert(12 * n % 12 == 0 && 12 * n / 12 == n) by (nonlinear_arith)
            requires
                n >= 0,
        ;
    }

    /// The glyph id this subtable maps `code_point` to, found by binary
    /// search over the groups.  Whatever the font holds, a returned id
    /// comes from a group whose range holds the code point; when the
    /// groups are ascending and disjoint, as the format requires, the
    /// result is exactly the subtable's mapping.
    pub fn lookup_glyph_id(&self, code_point: u32) -> (r: Option<u32>)
        requires
            self.wf(),
        ensures
            r is Some ==> exists|i: int|
                0 <= i < f12_num_groups(self.src@) && (#[trigger] f12_group_at(
                    self.src@,
                    i,
                )).spec_contains(code_point as int) && r == f12_group_at(self.src@, i).spec_lookup(
                    code_point as int,
                ),
            f12_sorted(self.src@) ==> r == f12_lookup(self.src@, code_point as int),
    {
        let ghost data = self.src@;
        let ghost cp = code_point as int;
        let ghost n = f12_num_groups(data);
        let ghost cmpf: spec_fn(SequentialMapGroup) -> Ordering = |g: SequentialMapGroup|
            if cp < g.start_char_code {
                Ordering::Greater
            } else if g.end_char_code < cp {
                Ordering::Less
            } else {
                Ordering::Equal
            };
        proof {
            self.lemma_groups_len();
            assert forall|i: int| 0 <= i < n implies #[trigger] SequentialMapGroup::parsed(
                self.groups.elem_tail(i),
                f12_group_at(data, i),
            ) by {
                self.lemma_group_parsed(i);
            }
            if f12_sorted(data) {
                assert forall|i: int, j: int, u: SequentialMapGroup, v: SequentialMapGroup|
                    0 <= i <= j < self.groups.spec_len() && #[trigger] SequentialMapGroup::parsed(
                        self.groups.elem_tail(i),
                        u,
                    ) && #[trigger] SequentialMapGroup::parsed(
                        self.groups.elem_tail(j),
                        v,
                    ) implies ((cmpf(u) == Ordering::Greater ==> cmpf(v) == Ordering::Greater) && (
                cmpf(v) == Ordering::Less ==> cmpf(u) == Ordering::Less)) by {
                    self.lemma_group_parsed(i);
                    self.lemma_group_parsed(j);
                    assert(u == f12_group_at(data, i));
                    assert(v == f12_group_at(data, j));
                }
            }
        }
        let f = |g: &SequentialMapGroup| -> (o: Ordering)
            ensures
                o == cmpf(*g),
            {
                if code_point < g.start_char_code {
                    Ordering::Greater
                } else if g.end_char_code < code_point {
                    Ordering::Less
                } else {
                    Ordering::Equal
                }
            };
        let found = self.groups.binary_search_by(f, Ghost(cmpf));
        proof {
            lemma_f12_scan(data, cp, 0);
        }
        match found {
            None => {
                proof {
                    if f12_sorted(data) {
                        assert forall|i: int| 0 <= i < n implies !(#[trigger] f12_group_at(
                            data,
                            i,
                        )).spec_contains(cp) by {
                            self.lemma_group_parsed(i);
                            assert(SequentialMapGroup::parsed(
                                self.groups.elem_tail(i),
                                f12_group_at(data, i),
                            ));
                            assert(cmpf(f12_group_at(data, i)) != Ordering::Equal);
                        }
                        assert(f12_first_containing(data, cp) is None);
                    }
                }
                None
            },
            Some(group) => {
                proof {
                    let i0 = choose|i0: int|
                        0 <= i0 < self.groups.spec_len() && #[trigger] SequentialMapGroup::parsed(
                            self.groups.elem_tail(i0),
                            group,
                        ) && cmpf(group) == Ordering::Equal;
                    self.lemma_group_parsed(i0);
                    assert(group == f12_group_at(data, i0));
                    assert(group.spec_contains(cp));
                    if f12_sorted(data) {
                        let k = f12_first_containing(data, cp).unwrap();
                        if i0 != k {
                            assert(f12_group_at(data, k).spec_contains(cp));
                            if k < i0 {
                                assert(f12_group_at(data, k).end_char_code < f12_group_at(
                                    data,
                                    i0,
                                ).start_char_code);
                            } else {
                                assert(f12_group_at(data, i0).end_char_code < f12_group_at(
                                    data,
                                    k,
                                ).start_char_code);
                            }
                        }
                        assert(i0 == k);
                    }
                }
                group.lookup_glyph_id(code_point)
            },
        }
    }
}

impl<'a> CMapFormatTable<'a> for Format12<'a> {
    open spec fn spec_format_id() -> int {
        12
    }

    open spec fn table_from(data: Seq<u8>, r: Option<Self>) -> bool {
        &&& r is Some <==> data.len() >= 16 && f12_wf(data)
        &&& r is Some ==> r.unwrap().wf() && r.unwrap().src@ == data
    }

    fn format_identifier() -> (r: u16) {
        12
    }

    fn parse_format(data: &'a [u8]) -> (r: Option<Self>) {
        if data.len() < 16 {
            return None;
        }
        let (b, format) = u16::parse(data);
        let (b, reserved) = u16::parse(b);
        let (b, length) = u32::parse(b);
        let (b, language) = u32::parse(b);
        let (b, num_groups) = u32::parse(b);
        let avail = data.len() - 16;
        if avail / 12 < num_groups as usize {
            proof {
                assert(12 * (num_groups as int) > avail) by (nonlinear_arith)
                    requires
                        avail as int / 12 < num_groups as int,
                        avail as int >= 0,
                ;
            }
            return None;
        }
        proof {
            assert(12 * (num_groups as int) <= avail) by (nonlinear_arith)
                requires
                    avail as int / 12 >= num_groups as int,
                    num_groups as int >= 0,
            ;
        }
        let (groups_buf, _rest) = split_buf_for_len::<SequentialMapGroup>(b, num_groups as usize);
        proof {
            assert(groups_buf@ =~= data@.subrange(16, 16 + 12 * (num_groups as int)));
        }
        Some(
            Format12 {
                format,
                reserved,
                length,
                language,
                num_groups,
                groups: DynArr(groups_buf, core::marker::PhantomData),
                src: Ghost(data@),
            },
        )
    }
}

/// One sequential group: an inclusive code range whose members map to
/// consecutive glyph ids from `start_glyph_id` on.
#[derive(Debug, PartialEq, Clone, Copy)]
pub struct SequentialMapGroup {
    pub start_char_code: u32,
    pub end_char_code: u32,
    pub start_glyph_id: u32,
}

impl SequentialMapGroup {
    /// Whether `cp` lies in this group's range.
    pub open spec fn spec_contains(self, cp: int) -> bool {
        self.start_char_code <= cp <= self.end_char_code
    }

    /// The glyph id this group assigns to `cp`: the distance from the
    /// range's start, shifted to start at the group's first glyph id.
    pub open spec fn spec_lookup(self, cp: int) -> Option<u32> {
        if cp < self.start_char_code || self.end_char_code < cp {
            None
        } else if self.start_glyph_id + (cp - self.start_char_code) > u32::MAX {
            None
        } else {
            Some((self.start_glyph_id + (cp - self.start_char_code)) as u32)
        }
    }

    /// Map `code_point` through this group: for a code point inside the
    /// range, the glyph id is `start_glyph_id` plus its distance from the
    /// range's start, as long as that id fits in 32 bits.
    pub fn lookup_glyph_id(&self, code_point: u32) -> (r: Option<u32>)
        ensures
            r == self.spec_lookup(code_point as int),
    {
        if code_point < self.start_char_code || self.end_char_code < code_point {
            return None;
        }
        let delta_cp = code_point - self.start_char_code;
        if self.start_glyph_id > u32::MAX - delta_cp {
            return None;
        }
        let glyph_id = self.start_glyph_id + delta_cp;
        Some(glyph_id)
    }
}

impl Parse for SequentialMapGroup {
    open spec fn spec_size() -> nat {
        12
    }

    open spec fn parsed(data: Seq<u8>, v: Self) -> bool {
        &&& v.start_char_code == be32(data[0], data[1], data[2], data[3])
        &&& v.end_char_code == be32(data[4], data[5], data[6], data[7])
        &&& v.start_glyph_id == be32(data[8], data[9], data[10], data[11])
    }

    proof fn parsed_prefix_only(d1: Seq<u8>, d2: Seq<u8>, v: Self) {
        crate::parse::lemma_prefix_bytes_equal(d1, d2, 12);
    }

    proof fn parsed_unique(data: Seq<u8>, v1: Self, v2: Self) {
    }

    proof fn size_positive() {
    }

    fn approx_file_size() -> (r: usize) {
        12
    }

    fn parse<'a>(buf: &'a [u8]) -> (r: (&'a [u8], Self)) {
        let (b, start_char_code) = u32::parse(buf);
        let (b, end_char_code) = u32::parse(b);
        let (b, start_glyph_id) = u32::parse(b);
        (b, SequentialMapGroup { start_char_code, end_char_code, start_glyph_id })
    }
}


/// Scanning for the first segment whose end code reaches `cp` finds the
/// least such segment at or after `lo`, or shows that none exists there.
proof fn lemma_f4_scan(data: Seq<u8>, cp: int, lo: int)
    requires
        0 <= lo,
    ensures
        match f4_first_match_from(data, cp, lo) {
            None => forall|i: int|
                lo <= i < f4_seg_count(data) ==> #[trigger] f4_end_count(data, i) < cp,
            Some(m) => lo <= m < f4_seg_count(data) && f4_end_count(data, m) >= cp && forall|j: int|
                lo <= j < m ==> #[trigger] f4_end_count(data, j) < cp,
        },
    decreases f4_seg_count(data) - lo,
{
    if lo < f4_seg_count(data) && f4_end_count(data, lo) < cp {
        lemma_f4_scan(data, cp, lo + 1);
    }
}

/// With nondecreasing end codes, the matched segment of a code point is
/// the least segment whose end code reaches it, every segment after the
/// match also reaches it, and a code point below its matched segment's
/// start code maps to nothing.
pub proof fn lemma_f4_segment_rule(data: Seq<u8>, cp: int)
    requires
        f4_end_counts_nondecreasing(data),
    ensures
        match f4_first_match(data, cp) {
            None => forall|i: int|
                0 <= i < f4_seg_count(data) ==> #[trigger] f4_end_count(data, i) < cp,
            Some(m) => {
                &&& 0 <= m < f4_seg_count(data)
                &&& f4_end_count(data, m) >= cp
                &&& forall|j: int| 0 <= j < m ==> #[trigger] f4_end_count(data, j) < cp
                &&& forall|j: int|
                    m <= j < f4_seg_count(data) ==> #[trigger] f4_end_count(data, j) >= cp
                &&& cp < f4_start_count(data, m) ==> f4_lookup(data, cp) is None
            },
        },
{
    lemma_f4_scan(data, cp, 0);
    if f4_first_match(data, cp) is Some {
        let m = f4_first_match(data, cp).unwrap();
        assert forall|j: int| m <= j < f4_seg_count(data) implies #[trigger] f4_end_count(
            data,
            j,
        ) >= cp by {
            assert(f4_end_count(data, m) <= f4_end_count(data, j));
        }
    }
}

} // verus!
