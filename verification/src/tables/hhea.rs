use vstd::prelude::*;
use crate::parse::Parse;
use crate::parse::primitives::{be16, signed16, Fixed, FontUnit, FWord, UFWord};
use crate::tables::{PrimaryTable, TableTag};

verus! {

/// The horizontal header: line metrics and the count of full entries in
/// the horizontal metrics table.
#[derive(Debug, PartialEq)]
pub struct HHEA {
    /// 0x00010000 (1.0)
    pub version: Fixed,
    /// Distance from baseline of highest ascender
    pub ascent: FWord,
    /// Distance from baseline of lowest descender
    pub descent: FWord,
    /// Typographic line gap
    pub line_gap: FWord,
    /// Must be consistent with horizontal metrics
    pub advance_width_max: UFWord,
    /// Must be consistent with horizontal metrics
    pub min_left_side_bearing: FWord,
    /// Must be consistent with horizontal metrics
    pub min_right_side_bearing: FWord,
    /// max(lsb + (xMax-xMin))
    pub x_max_extent: FWord,
    /// Slope of the caret (rise/run); 1 for a vertical caret
    pub caret_slope_rise: i16,
    /// 0 for vertical
    pub caret_slope_run: i16,
    /// 0 for non-slanted fonts
    pub caret_offset: FWord,
    pub reserved1: i16,
    pub reserved2: i16,
    pub reserved3: i16,
    pub reserved4: i16,
    /// 0 for the current format
    pub metric_data_format: i16,
    /// Number of advance widths in the metrics table
    pub num_horiz_metrics: u16,
}

impl PrimaryTable for HHEA {
    open spec fn spec_tag() -> TableTag {
        TableTag::HorizontalHeader
    }

    fn tag() -> (r: TableTag) {
        TableTag::HorizontalHeader
    }
}

/// The horizontal header encoded at the front of `data`.
pub open spec fn spec_hhea(data: Seq<u8>) -> Option<HHEA> {
    if data.len() < 36 {
        None
    } else {
        Some(
            HHEA {
                version: Fixed(
                    signed16(be16(data[0], data[1])) as i16,
                    signed16(be16(data[2], data[3])) as i16,
                ),
                ascent: FontUnit(signed16(be16(data[4], data[5])) as i16),
                descent: FontUnit(signed16(be16(data[6], data[7])) as i16),
                line_gap: FontUnit(signed16(be16(data[8], data[9])) as i16),
                advance_width_max: FontUnit(be16(data[10], data[11]) as u16),
                min_left_side_bearing: FontUnit(signed16(be16(data[12], data[13])) as i16),
                min_right_side_bearing: FontUnit(signed16(be16(data[14], data[15])) as i16),
                x_max_extent: FontUnit(signed16(be16(data[16], data[17])) as i16),
                caret_slope_rise: signed16(be16(data[18], data[19])) as i16,
                caret_slope_run: signed16(be16(data[20], data[21])) as i16,
                caret_offset: FontUnit(signed16(be16(data[22], data[23])) as i16),
                reserved1: signed16(be16(data[24], data[25])) as i16,
                reserved2: signed16(be16(data[26], data[27])) as i16,
                reserved3: signed16(be16(data[28], data[29])) as i16,
                reserved4: signed16(be16(data[30], data[31])) as i16,
                metric_data_format: signed16(be16(data[32], data[33])) as i16,
                num_horiz_metrics: be16(data[34], data[35]) as u16,
            },
        )
    }
}

impl HHEA {
    /// Decode the horizontal header from the front of its table's bytes.
    pub fn parse_table(buf: &[u8]) -> (r: Option<HHEA>)
        ensures
            r == spec_hhea(buf@),
    {
        if buf.len() < 36 {
            return None;
        }
        let (b, version) = Fixed::parse(buf);
        let (b, ascent) = FWord::parse(b);
        let (b, descent) = FWord::parse(b);
        let (b, line_gap) = FWord::parse(b);
        let (b, advance_width_max) = UFWord::parse(b);
        let (b, min_left_side_bearing) = FWord::parse(b);
        let (b, min_right_side_bearing) = FWord::parse(b);
        let (b, x_max_extent) = FWord::parse(b);
        let (b, caret_slope_rise) = i16::parse(b);
        let (b, caret_slope_run) = i16::parse(b);
        let (b, caret_offset) = FWord::parse(b);
        let (b, reserved1) = i16::parse(b);
        let (b, reserved2) = i16::parse(b);
        let (b, reserved3) = i16::parse(b);
        let (b, reserved4) = i16::parse(b);
        let (b, metric_data_format) = i16::parse(b);
        let (_b, num_horiz_metrics) = u16::parse(b);
        Some(
            HHEA {
                version,
                ascent,
                descent,
                line_gap,
                advance_width_max,
                min_left_side_bearing,
                min_right_side_bearing,
                x_max_extent,
                caret_slope_rise,
                caret_slope_run,
                caret_offset,
                reserved1,
                reserved2,
                reserved3,
                reserved4,
                metric_data_format,
                num_horiz_metrics,
            },
        )
    }
}

} // verus!
