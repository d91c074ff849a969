use vstd::prelude::*;
use crate::parse::Parse;
use crate::parse::primitives::{be16, signed16, Fixed};
use crate::tables::{PrimaryTable, TableTag};

verus! {

/// The vertical header: line metrics and the count of full entries in the
/// vertical metrics table.
#[derive(Debug, PartialEq)]
pub struct VHEA {
    /// 0x00011000 for the current version
    pub version: Fixed,
    /// Distance from the vertical center baseline to the right of the design space
    pub vert_typo_ascender: i16,
    /// Distance from the vertical center baseline to the left of the design space
    pub vert_typo_descender: i16,
    /// Typographic line gap
    pub vert_typo_line_gap: i16,
    /// Maximum advance height found in the font
    pub advance_height_max: i16,
    /// Minimum top side bearing found in the font
    pub min_top_side_bearing: i16,
    /// Minimum bottom side bearing found in the font
    pub min_bottom_side_bearing: i16,
    /// minTopSideBearing + (yMax - yMin)
    pub y_max_extent: i16,
    /// Together with the run, the slope of the caret
    pub caret_slope_rise: i16,
    /// 0 for non-slanted fonts
    pub caret_slope_run: i16,
    /// 0 for non-slanted fonts
    pub caret_offset: i16,
    pub reserved1: i16,
    pub reserved2: i16,
    pub reserved3: i16,
    pub reserved4: i16,
    /// Set to 0
    pub metric_data_format: i16,
    /// Number of advance heights in the vertical metrics table
    pub num_vert_metrics: u16,
}

impl PrimaryTable for VHEA {
    open spec fn spec_tag() -> TableTag {
        TableTag::VerticalHeader
    }

    fn tag() -> (r: TableTag) {
        TableTag::VerticalHeader
    }
}

/// The vertical header encoded at the front of `data`.
pub open spec fn spec_vhea(data: Seq<u8>) -> Option<VHEA> {
    if data.len() < 36 {
        None
    } else {
        Some(
            VHEA {
                version: Fixed(
                    signed16(be16(data[0], data[1])) as i16,
                    signed16(be16(data[2], data[3])) as i16,
                ),
                vert_typo_ascender: signed16(be16(data[4], data[5])) as i16,
                vert_typo_descender: signed16(be16(data[6], data[7])) as i16,
                vert_typo_line_gap: signed16(be16(data[8], data[9])) as i16,
                advance_height_max: signed16(be16(data[10], data[11])) as i16,
                min_top_side_bearing: signed16(be16(data[12], data[13])) as i16,
                min_bottom_side_bearing: signed16(be16(data[14], data[15])) as i16,
                y_max_extent: signed16(be16(data[16], data[17])) as i16,
                caret_slope_rise: signed16(be16(data[18], data[19])) as i16,
                caret_slope_run: signed16(be16(data[20], data[21])) as i16,
                caret_offset: signed16(be16(data[22], data[23])) as i16,
                reserved1: signed16(be16(data[24], data[25])) as i16,
                reserved2: signed16(be16(data[26], data[27])) as i16,
                reserved3: signed16(be16(data[28], data[29])) as i16,
                reserved4: signed16(be16(data[30], data[31])) as i16,
                metric_data_format: signed16(be16(data[32], data[33])) as i16,
                num_vert_metrics: be16(data[34], data[35]) as u16,
            },
        )
    }
}

impl VHEA {
    /// Decode the vertical header from the front of its table's bytes.
    pub fn parse_table(buf: &[u8]) -> (r: Option<VHEA>)
        ensures
            r == spec_vhea(buf@),
    {
        if buf.len() < 36 {
            return None;
        }
        let (b, version) = Fixed::parse(buf);
        let (b, vert_typo_ascender) = i16::parse(b);
        let (b, vert_typo_descender) = i16::parse(b);
        let (b, vert_typo_line_gap) = i16::parse(b);
        let (b, advance_height_max) = i16::parse(b);
        let (b, min_top_side_bearing) = i16::parse(b);
        let (b, min_bottom_side_bearing) = i16::parse(b);
        let (b, y_max_extent) = i16::parse(b);
        let (b, caret_slope_rise) = i16::parse(b);
        let (b, caret_slope_run) = i16::parse(b);
        let (b, caret_offset) = i16::parse(b);
        let (b, reserved1) = i16::parse(b);
        let (b, reserved2) = i16::parse(b);
        let (b, reserved3) = i16::parse(b);
        let (b, reserved4) = i16::parse(b);
        let (b, metric_data_format) = i16::parse(b);
        let (_b, num_vert_metrics) = u16::parse(b);
        Some(
            VHEA {
                version,
                vert_typo_ascender,
                vert_typo_descender,
                vert_typo_line_gap,
                advance_height_max,
                min_top_side_bearing,
                min_bottom_side_bearing,
                y_max_extent,
                caret_slope_rise,
                caret_slope_run,
                caret_offset,
                reserved1,
                reserved2,
                reserved3,
                reserved4,
                metric_data_format,
                num_vert_metrics,
            },
        )
    }
}

} // verus!
