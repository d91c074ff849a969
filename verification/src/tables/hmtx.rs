use vstd::prelude::*;
use crate::parse::primitives::{be16, i16_at};
use crate::parse::{split_buf_for_len, DynArr, Parse};
use crate::tables::{PrimaryTable, TableTag};

verus! {

/// The horizontal metrics table: a run of full advance/bearing entries,
/// then bare left bearings for the glyphs past `num_horiz_metrics`.
#[derive(Debug)]
pub struct HMTX<'a> {
    pub horiz_metrics: DynArr<'a, LongHorizMetric>,
    pub left_bearings: DynArr<'a, crate::parse::primitives::FWord>,
}

impl<'a> PrimaryTable for HMTX<'a> {
    open spec fn spec_tag() -> TableTag {
        TableTag::HorizontalMetrics
    }

    fn tag() -> (r: TableTag) {
        TableTag::HorizontalMetrics
    }
}

impl<'a> HMTX<'a> {
    /// The full entry at index `i` of the first run.
    pub open spec fn spec_full_metric(self, i: int) -> LongHorizMetric {
        LongHorizMetric {
            advance_width: crate::parse::primitives::u16_at(self.horiz_metrics.bytes(), 2 * i)
                as u16,
            left_bearing: i16_at(self.horiz_metrics.bytes(), 2 * i + 1) as i16,
        }
    }

    /// The bare left bearing at index `i` of the second run.
    pub open spec fn spec_bare_bearing(self, i: int) -> int {
        i16_at(self.left_bearings.bytes(), i)
    }

    /// Split the table's bytes into the two runs.  The caller passes the
    /// entry count that the horizontal header declares; the table must be
    /// large enough for it.
    pub fn parse_metrics(buf: &'a [u8], num_horiz_metrics: u16) -> (r: HMTX<'a>)
        requires
            num_horiz_metrics * 4 <= buf@.len(),
        ensures
            r.horiz_metrics.bytes() == buf@.subrange(0, num_horiz_metrics * 4),
            r.left_bearings.bytes() == buf@.skip(num_horiz_metrics * 4),
            r.horiz_metrics.spec_len() == num_horiz_metrics,
    {
        let (horiz_metric_buf, left_bearings_buf) = split_buf_for_len::<LongHorizMetric>(
            buf,
            num_horiz_metrics as usize,
        );
        proof {
            assert((num_horiz_metrics * 4) as nat / 4 == num_horiz_metrics) by (nonlinear_arith);
        }
        HMTX {
            horiz_metrics: DynArr(horiz_metric_buf, core::marker::PhantomData),
            left_bearings: DynArr(left_bearings_buf, core::marker::PhantomData),
        }
    }

    /// The metrics of a glyph: a full entry for glyphs in the first run,
    /// and a bare bearing with no advance of its own for the rest.
    pub fn metrics_for_glyph(&self, glyph_id: u32) -> (r: HorizMetric)
        requires
            glyph_id >= self.horiz_metrics.spec_len() ==> glyph_id
                - self.horiz_metrics.spec_len() < self.left_bearings.spec_len(),
        ensures
            glyph_id < self.horiz_metrics.spec_len() ==> r == (HorizMetric {
                advance_width: Some(self.spec_full_metric(glyph_id as int).advance_width),
                left_bearing: self.spec_full_metric(glyph_id as int).left_bearing,
            }),
            glyph_id >= self.horiz_metrics.spec_len() ==> r == (HorizMetric {
                advance_width: None,
                left_bearing: self.spec_bare_bearing(
                    glyph_id - self.horiz_metrics.spec_len(),
                ) as i16,
            }),
    {
        let glyph_id = glyph_id as usize;
        if glyph_id < self.horiz_metrics.len() {
            let m = self.horiz_metrics.at(glyph_id);
            HorizMetric { advance_width: Some(m.advance_width), left_bearing: m.left_bearing }
        } else {
            let idx = glyph_id - self.horiz_metrics.len();
            let b = self.left_bearings.at(idx);
            proof {
                self.left_bearings.lemma_elem_tail_index(idx as int, 0);
                self.left_bearings.lemma_elem_tail_index(idx as int, 1);
            }
            HorizMetric { advance_width: None, left_bearing: b.0 }
        }
    }
}

/// A full horizontal metrics entry.
#[derive(Debug, PartialEq, Clone, Copy)]
pub struct LongHorizMetric {
    pub advance_width: u16,
    pub left_bearing: i16,
}

impl Parse for LongHorizMetric {
    open spec fn spec_size() -> nat {
        4
    }

    open spec fn parsed(data: Seq<u8>, v: Self) -> bool {
        &&& v.advance_width == be16(data[0], data[1])
        &&& v.left_bearing == crate::parse::primitives::signed16(be16(data[2], data[3]))
    }

    proof fn parsed_prefix_only(d1: Seq<u8>, d2: Seq<u8>, v: Self) {
        crate::parse::lemma_prefix_bytes_equal(d1, d2, 4);
    }

    proof fn parsed_unique(data: Seq<u8>, v1: Self, v2: Self) {
    }

    proof fn size_positive() {
    }

    fn approx_file_size() -> (r: usize) {
        4
    }

    fn parse<'a>(buf: &'a [u8]) -> (r: (&'a [u8], Self)) {
        let (b, advance_width) = u16::parse(buf);
        let (b, left_bearing) = i16::parse(b);
        (b, LongHorizMetric { advance_width, left_bearing })
    }
}

/// The horizontal metrics of one glyph; the advance is absent for glyphs
/// past the table's run of full entries.
#[derive(Debug, PartialEq, Clone, Copy)]
pub struct HorizMetric {
    pub advance_width: Option<u16>,
    pub left_bearing: i16,
}

} // verus!
