use vstd::prelude::*;
use crate::parse::primitives::{be16, i16_at, u16_at, signed16, FontUnit};
use crate::parse::{split_buf_for_len, DynArr, Parse};
use crate::tables::{PrimaryTable, TableTag};

verus! {

/// The vertical metrics table: a run of full advance/bearing entries,
/// then bare top bearings for the glyphs past `num_vert_metrics`.
#[derive(Debug)]
pub struct VMTX<'a> {
    pub vert_metrics: DynArr<'a, LongVertMetric>,
    pub top_bearings: DynArr<'a, FontUnit<i16>>,
}

impl<'a> PrimaryTable for VMTX<'a> {
    open spec fn spec_tag() -> TableTag {
        TableTag::VerticalMetrics
    }

    fn tag() -> (r: TableTag) {
        TableTag::VerticalMetrics
    }
}

impl<'a> VMTX<'a> {
    /// The full entry at index `i` of the first run.
    pub open spec fn spec_full_metric(self, i: int) -> LongVertMetric {
        LongVertMetric {
            advance_height: FontUnit(u16_at(self.vert_metrics.bytes(), 2 * i) as u16),
            top_bearing: FontUnit(i16_at(self.vert_metrics.bytes(), 2 * i + 1) as i16),
        }
    }

    /// The bare top bearing at index `i` of the second run.
    pub open spec fn spec_bare_bearing(self, i: int) -> int {
        i16_at(self.top_bearings.bytes(), i)
    }

    /// Split the table's bytes into the two runs.  The caller passes the
    /// entry count that the vertical header declares; the table must be
    /// large enough for it.
    pub fn parse_metrics(buf: &'a [u8], num_vert_metrics: u16) -> (r: VMTX<'a>)
        requires
            num_vert_metrics * 4 <= buf@.len(),
        ensures
            r.vert_metrics.bytes() == buf@.subrange(0, num_vert_metrics * 4),
            r.top_bearings.bytes() == buf@.skip(num_vert_metrics * 4),
            r.vert_metrics.spec_len() == num_vert_metrics,
    {
        let (vert_metric_buf, top_bearings_buf) = split_buf_for_len::<LongVertMetric>(
            buf,
            num_vert_metrics as usize,
        );
        proof {
            assert((num_vert_metrics * 4) as nat / 4 == num_vert_metrics) by (nonlinear_arith);
        }
        VMTX {
            vert_metrics: DynArr(vert_metric_buf, core::marker::PhantomData),
            top_bearings: DynArr(top_bearings_buf, core::marker::PhantomData),
        }
    }

    /// The metrics of a glyph: a full entry for glyphs in the first run,
    /// and a bare bearing with no advance of its own for the rest.
    pub fn metrics_for_glyph(&self, glyph_id: u32) -> (r: VertMetric)
        requires
            glyph_id >= self.vert_metrics.spec_len() ==> glyph_id - self.vert_metrics.spec_len()
                < self.top_bearings.spec_len(),
        ensures
            glyph_id < self.vert_metrics.spec_len() ==> r == (VertMetric {
                advance_height: Some(self.spec_full_metric(glyph_id as int).advance_height),
                top_bearing: self.spec_full_metric(glyph_id as int).top_bearing,
            }),
            glyph_id >= self.vert_metrics.spec_len() ==> r == (VertMetric {
                advance_height: None,
                top_bearing: FontUnit(
                    self.spec_bare_bearing(glyph_id - self.vert_metrics.spec_len()) as i16,
                ),
            }),
    {
        let glyph_id = glyph_id as usize;
        if glyph_id < self.vert_metrics.len() {
            let m = self.vert_metrics.at(glyph_id);
            VertMetric { advance_height: Some(m.advance_height), top_bearing: m.top_bearing }
        } else {
            let idx = glyph_id - self.vert_metrics.len();
            let b = self.top_bearings.at(idx);
            proof {
                self.top_bearings.lemma_elem_tail_index(idx as int, 0);
                self.top_bearings.lemma_elem_tail_index(idx as int, 1);
            }
            VertMetric { advance_height: None, top_bearing: b }
        }
    }
}

/// A full vertical metrics entry.
#[derive(Debug, PartialEq, Clone, Copy)]
pub struct LongVertMetric {
    pub advance_height: FontUnit<u16>,
    pub top_bearing: FontUnit<i16>,
}

impl Parse for LongVertMetric {
    open spec fn spec_size() -> nat {
        4
    }

    open spec fn parsed(data: Seq<u8>, v: Self) -> bool {
        &&& v.advance_height == FontUnit(be16(data[0], data[1]) as u16)
        &&& v.top_bearing == FontUnit(signed16(be16(data[2], data[3])) as i16)
    }

    proof fn parsed_prefix_only(d1: Seq<u8>, d2: Seq<u8>, v: Self) {
        crate::parse::lemma_prefix_bytes_equal(d1, d2, 4);
    }

    proof fn parsed_unique(data: Seq<u8>, v1: Self, v2: Self) {
    }

    proof fn size_positive() {
    }

    fn approx_file_size() -> (r: usize) {
        4
    }

    fn parse<'a>(buf: &'a [u8]) -> (r: (&'a [u8], Self)) {
        let (b, advance_height) = FontUnit::<u16>::parse(buf);
        let (b, top_bearing) = FontUnit::<i16>::parse(b);
        (b, LongVertMetric { advance_height, top_bearing })
    }
}

/// The vertical metrics of one glyph; the advance is absent for glyphs
/// past the table's run of full entries.
#[derive(Debug, PartialEq, Clone, Copy)]
pub struct VertMetric {
    pub advance_height: Option<FontUnit<u16>>,
    pub top_bearing: FontUnit<i16>,
}

} // verus!
