use vstd::prelude::*;
use vstd::slice::slice_subrange;
use crate::parse::Parse;
use crate::parse::primitives::{be16, be32};
use crate::tables::font_directory::{FontDirectory, OffsetSubtable, ScalerType, spec_scaler_type};

verus! {

/// The offset subtable encoded at the front of `data`: scaler magic, table
/// count and binary-search hints.  `None` when the bytes run out or the
/// magic is unknown.
pub open spec fn spec_offset_subtable(data: Seq<u8>) -> Option<OffsetSubtable> {
    if data.len() < 12 {
        None
    } else {
        match spec_scaler_type(be32(data[0], data[1], data[2], data[3])) {
            None => None,
            Some(scaler_type) => Some(
                OffsetSubtable {
                    scaler_type,
                    num_tables: be16(data[4], data[5]) as u16,
                    search_range: be16(data[6], data[7]) as u16,
                    entry_selector: be16(data[8], data[9]) as u16,
                    range_shift: be16(data[10], data[11]) as u16,
                },
            ),
        }
    }
}

/// Decode the four-byte scaler magic at the front of `buf`.
pub fn parse_font_scaler_type<'a>(buf: &'a [u8]) -> (r: Option<(&'a [u8], ScalerType)>)
    ensures
        r is Some <==> buf@.len() >= 4 && spec_scaler_type(
            be32(buf@[0], buf@[1], buf@[2], buf@[3]),
        ) is Some,
        r is Some ==> {
            &&& r.unwrap().1 == spec_scaler_type(be32(buf@[0], buf@[1], buf@[2], buf@[3])).unwrap()
            &&& r.unwrap().0@ == buf@.skip(4)
        },
{
    if buf.len() < 4 {
        return None;
    }
    let (rest, magic) = u32::parse(buf);
    let scaler = if magic == 0x74727565 || magic == 0x00010000 {
        Some(ScalerType::TTF)
    } else if magic == 0x74797031 {
        Some(ScalerType::PostScript)
    } else if magic == 0x4F54544F {
        Some(ScalerType::OpenType)
    } else {
        None
    };
    match scaler {
        Some(s) => Some((rest, s)),
        None => None,
    }
}

/// Decode the twelve-byte offset subtable at the front of `buf`.
pub fn parse_offset_subtable<'a>(buf: &'a [u8]) -> (r: Option<(&'a [u8], OffsetSubtable)>)
    ensures
        r is Some <==> spec_offset_subtable(buf@) is Some,
        r is Some ==> {
            &&& r.unwrap().1 == spec_offset_subtable(buf@).unwrap()
            &&& r.unwrap().0@ == buf@.skip(12)
        },
{
    if buf.len() < 12 {
        return None;
    }
    match parse_font_scaler_type(buf) {
        None => None,
        Some((rest, scaler_type)) => {
            let (rest, num_tables) = u16::parse(rest);
            let (rest, search_range) = u16::parse(rest);
            let (rest, entry_selector) = u16::parse(rest);
            let (rest, range_shift) = u16::parse(rest);
            proof {
                assert(rest@ =~= buf@.skip(12));
            }
            Some(
                (
                    rest,
                    OffsetSubtable {
                        scaler_type,
                        num_tables,
                        search_range,
                        entry_selector,
                        range_shift,
                    },
                ),
            )
        },
    }
}

/// Parse the offset subtable and hand back the directory, whose records
/// start right after it.  `None` when the file does not begin like a font.
pub fn parse_font_directory<'a>(i: &'a [u8]) -> (r: Option<(&'a [u8], FontDirectory<'a>)>)
    ensures
        r is Some <==> spec_offset_subtable(i@) is Some,
        r is Some ==> {
            &&& r.unwrap().1.offsets == spec_offset_subtable(i@).unwrap()
            &&& r.unwrap().1.table_dir_start@ == i@.skip(12)
            &&& r.unwrap().0@ == i@.skip(12)
        },
{
    match parse_offset_subtable(i) {
        None => None,
        Some((table_dir_start, offsets)) => {
            let font_dir = FontDirectory { offsets, table_dir_start };
            Some((table_dir_start, font_dir))
        },
    }
}

} // verus!
