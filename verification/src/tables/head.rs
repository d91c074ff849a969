use vstd::prelude::*;
use crate::parse::Parse;
use crate::parse::primitives::{be16, be64, signed16, signed64, Fixed, LongDateTime};
use crate::tables::{PrimaryTable, TableTag};

verus! {

/// The font header: global metrics and the flag that picks the width of
/// the glyph-location entries.
#[allow(non_snake_case)]
#[derive(Debug, PartialEq)]
pub struct Head {
    pub major_version: u16,
    pub minor_version: u16,
    pub font_revision: Fixed,
    pub check_sum_adjustment: u32,
    pub magic_number: u32,
    pub flags: u16,
    pub units_per_em: u16,
    pub created: LongDateTime,
    pub modified: LongDateTime,
    pub x_min: i16,
    pub y_min: i16,
    pub x_max: i16,
    pub y_max: i16,
    pub mac_style: u16,
    pub lowest_recPPEM: u16,
    pub font_direction_hint: i16,
    pub index_to_loc_format: IndexToLocFormat,
    pub glyph_data_format: i16,
}

impl PrimaryTable for Head {
    open spec fn spec_tag() -> TableTag {
        TableTag::FontHeader
    }

    fn tag() -> (r: TableTag) {
        TableTag::FontHeader
    }
}

/// Width of each glyph-location entry, as the header announces it.
#[derive(Debug, Clone, Copy, PartialEq, Eq, Structural)]
pub enum IndexToLocFormat {
    /// 16-bit entries holding half the byte offset.
    Short,
    /// 32-bit entries holding the byte offset itself.
    Long,
}

/// The header encoded at the front of `data`.  `None` when the bytes run
/// out or the location-format field holds neither zero nor one.
pub open spec fn spec_head(data: Seq<u8>) -> Option<Head> {
    if data.len() < 54 {
        None
    } else if signed16(be16(data[50], data[51])) != 0 && signed16(be16(data[50], data[51])) != 1 {
        None
    } else {
        Some(
            Head {
                major_version: be16(data[0], data[1]) as u16,
                minor_version: be16(data[2], data[3]) as u16,
                font_revision: Fixed(
                    signed16(be16(data[4], data[5])) as i16,
                    signed16(be16(data[6], data[7])) as i16,
                ),
                check_sum_adjustment: crate::parse::primitives::be32(
                    data[8],
                    data[9],
                    data[10],
                    data[11],
                ) as u32,
                magic_number: crate::parse::primitives::be32(
                    data[12],
                    data[13],
                    data[14],
                    data[15],
                ) as u32,
                flags: be16(data[16], data[17]) as u16,
                units_per_em: be16(data[18], data[19]) as u16,
                created: signed64(be64(data.skip(20))) as i64,
                modified: signed64(be64(data.skip(28))) as i64,
                x_min: signed16(be16(data[36], data[37])) as i16,
                y_min: signed16(be16(data[38], data[39])) as i16,
                x_max: signed16(be16(data[40], data[41])) as i16,
                y_max: signed16(be16(data[42], data[43])) as i16,
                mac_style: be16(data[44], data[45]) as u16,
                lowest_recPPEM: be16(data[46], data[47]) as u16,
                font_direction_hint: signed16(be16(data[48], data[49])) as i16,
                index_to_loc_format: if signed16(be16(data[50], data[51])) == 0 {
                    IndexToLocFormat::Short
                } else {
                    IndexToLocFormat::Long
                },
                glyph_data_format: signed16(be16(data[52], data[53])) as i16,
            },
        )
    }
}

impl Head {
    /// Decode the header from the front of its table's bytes.
    pub fn parse_table(buf: &[u8]) -> (r: Option<Head>)
        ensures
            r == spec_head(buf@),
    {
        if buf.len() < 54 {
            return None;
        }
        let (b, major_version) = u16::parse(buf);
        let (b, minor_version) = u16::parse(b);
        let (b, font_revision) = Fixed::parse(b);
        let (b, check_sum_adjustment) = u32::parse(b);
        let (b, magic_number) = u32::parse(b);
        let (b, flags) = u16::parse(b);
        let (b, units_per_em) = u16::parse(b);
        let (b, created) = i64::parse(b);
        let (b, modified) = i64::parse(b);
        let (b, x_min) = i16::parse(b);
        let (b, y_min) = i16::parse(b);
        let (b, x_max) = i16::parse(b);
        let (b, y_max) = i16::parse(b);
        let (b, mac_style) = u16::parse(b);
        let (b, lowest_rec_ppem) = u16::parse(b);
        let (b, font_direction_hint) = i16::parse(b);
        let (b, loc_format_raw) = i16::parse(b);
        let (_b, glyph_data_format) = i16::parse(b);
        let index_to_loc_format = if loc_format_raw == 0 {
            IndexToLocFormat::Short
        } else if loc_format_raw == 1 {
            IndexToLocFormat::Long
        } else {
            return None;
        };
        Some(
            Head {
                major_version,
                minor_version,
                font_revision,
                check_sum_adjustment,
                magic_number,
                flags,
                units_per_em,
                created,
                modified,
                x_min,
                y_min,
                x_max,
                y_max,
                mac_style,
                lowest_recPPEM: lowest_rec_ppem,
                font_direction_hint,
                index_to_loc_format,
                glyph_data_format,
            },
        )
    }
}

} // verus!
