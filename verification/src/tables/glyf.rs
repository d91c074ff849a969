use vstd::prelude::*;
use vstd::slice::slice_subrange;
use crate::parse::primitives::{be16, i16_at, signed16, signed8, u16_at};
use crate::parse::{split_buf_for_len, BufView, DynArr, Parse};
use crate::tables::{PrimaryTable, TableTag};

verus! {

// Flag bits of a simple glyph's point stream.
/// The point lies on the outline.
pub const ON_CURVE_POINT: u8 = 0x01;

/// The x delta is one unsigned byte, signed by `POSITIVE_X_SHORT_VECTOR`.
pub const X_SHORT_VEC: u8 = 0x02;

/// The y delta is one unsigned byte, signed by `POSITIVE_Y_SHORT_VECTOR`.
pub const Y_SHORT_VEC: u8 = 0x04;

/// The flag byte is followed by a count of further points that reuse it.
pub const REPEAT_FLAG: u8 = 0x08;

/// Without `X_SHORT_VEC`: the x delta is zero, no bytes.
pub const X_IS_SAME: u8 = 0x10;

/// With `X_SHORT_VEC`: the one-byte x delta is positive.
pub const POSITIVE_X_SHORT_VECTOR: u8 = 0x10;

/// Without `Y_SHORT_VEC`: the y delta is zero, no bytes.
pub const Y_IS_SAME: u8 = 0x20;

/// With `Y_SHORT_VEC`: the one-byte y delta is positive.
pub const POSITIVE_Y_SHORT_VECTOR: u8 = 0x20;

/// The glyph outline table: concatenated glyph records, addressed by the
/// byte offsets the location table holds.
#[derive(Debug, Clone)]
pub struct Glyf<'a>(pub BufView<'a, u8>);

impl<'a> PrimaryTable for Glyf<'a> {
    open spec fn spec_tag() -> TableTag {
        TableTag::GlyphOutline
    }

    fn tag() -> (r: TableTag) {
        TableTag::GlyphOutline
    }
}

/// A glyph record's header: contour count and bounding box.
#[derive(Debug, PartialEq, Clone, Copy)]
pub struct Header {
    pub number_of_contours: i16,
    pub x_min: i16,
    pub y_min: i16,
    pub x_max: i16,
    pub y_max: i16,
}

impl Parse for Header {
    open spec fn spec_size() -> nat {
        10
    }

    open spec fn parsed(data: Seq<u8>, v: Self) -> bool {
        &&& v.number_of_contours == signed16(be16(data[0], data[1]))
        &&& v.x_min == signed16(be16(data[2], data[3]))
        &&& v.y_min == signed16(be16(data[4], data[5]))
        &&& v.x_max == signed16(be16(data[6], data[7]))
        &&& v.y_max == signed16(be16(data[8], data[9]))
    }

    proof fn parsed_prefix_only(d1: Seq<u8>, d2: Seq<u8>, v: Self) {
        crate::parse::lemma_prefix_bytes_equal(d1, d2, 10);
    }

    proof fn parsed_unique(data: Seq<u8>, v1: Self, v2: Self) {
    }

    proof fn size_positive() {
    }

    fn approx_file_size() -> (r: usize) {
        10
    }

    fn parse<'a>(buf: &'a [u8]) -> (r: (&'a [u8], Self)) {
        let (b, number_of_contours) = i16::parse(buf);
        let (b, x_min) = i16::parse(b);
        let (b, y_min) = i16::parse(b);
        let (b, x_max) = i16::parse(b);
        let (b, y_max) = i16::parse(b);
        (b, Header { number_of_contours, x_min, y_min, x_max, y_max })
    }
}

/// The header encoded at the front of a glyph record.
pub open spec fn glyph_header_at(data: Seq<u8>) -> Header {
    Header {
        number_of_contours: i16_at(data, 0) as i16,
        x_min: i16_at(data, 1) as i16,
        y_min: i16_at(data, 2) as i16,
        x_max: i16_at(data, 3) as i16,
        y_max: i16_at(data, 4) as i16,
    }
}

/// The declared instruction length of a simple glyph record with `n`
/// contours.
pub open spec fn glyph_instr_len(data: Seq<u8>, n: int) -> int {
    u16_at(data, 5 + n)
}

/// A glyph record decodes: the header fits, its box is nondegenerate, and
/// a simple record reaches past its contour-end and instruction arrays.
pub open spec fn glyph_at_ok(data: Seq<u8>) -> bool {
    let h = glyph_header_at(data);
    &&& data.len() >= 10
    &&& h.x_min < h.x_max
    &&& h.y_min < h.y_max
    &&& h.number_of_contours > 0 ==> data.len() >= 12 + 2 * h.number_of_contours + glyph_instr_len(
        data,
        h.number_of_contours as int,
    )
}

/// One glyph: its header and either a simple or a composite description.
pub struct Glyph<'a> {
    pub header: Header,
    pub desc: Description<'a>,
}

/// How a glyph's shape is described.
pub enum Description<'a> {
    Simple(SimpleGlyph<'a>),
    Composite(CompositeGlyph<'a>),
}

/// A simple glyph: contour ends, instructions, and the combined
/// flag/coordinate byte region, left unsplit until the points are walked.
pub struct SimpleGlyph<'a> {
    pub end_points_of_contours: DynArr<'a, u16>,
    pub instruction_length: u16,
    pub instructions: DynArr<'a, u8>,
    pub coords: BufView<'a, u8>,
}

/// A composite glyph: the outline table it lives in, for resolving its
/// components, and the component records' bytes.
pub struct CompositeGlyph<'a> {
    pub glyf: Glyf<'a>,
    pub components: &'a [u8],
}

impl<'a> Glyf<'a> {
    /// The table's bytes.
    pub open spec fn bytes(self) -> Seq<u8> {
        self.0.bytes()
    }

    /// Decode the glyph record at byte `offset`: `None` when the record
    /// leaves the table, its box is degenerate, or its arrays leave the
    /// table.  A positive contour count makes a simple description; any
    /// other makes a composite one.
    pub fn at_offset(&self, offset: usize) -> (r: Option<Glyph<'a>>)
        ensures
            r is Some <==> offset <= self.bytes().len() && glyph_at_ok(self.bytes().skip(
                offset as int,
            )),
            r is Some ==> {
                let d = self.bytes().skip(offset as int);
                let h = glyph_header_at(d);
                let n = h.number_of_contours as int;
                &&& r.unwrap().header == h
                &&& h.number_of_contours > 0 ==> (r.unwrap().desc matches Description::Simple(s) && {
                    &&& s.end_points_of_contours.bytes() == d.subrange(10, 10 + 2 * n)
                    &&& s.instruction_length == glyph_instr_len(d, n)
                    &&& s.instructions.bytes() == d.subrange(
                        12 + 2 * n,
                        12 + 2 * n + glyph_instr_len(d, n),
                    )
                    &&& s.coords.bytes() == d.skip(12 + 2 * n + glyph_instr_len(d, n))
                })
                &&& h.number_of_contours <= 0 ==> (r.unwrap().desc matches Description::Composite(
                    c,
                ) && {
                    &&& c.glyf.bytes() == self.bytes()
                    &&& c.components@ == d.skip(10)
                })
            },
    {
        let table_len = self.0.0.len();
        if offset > table_len || table_len - offset < 10 {
            return None;
        }
        let start = slice_subrange(self.0.0, offset, table_len);
        let (contents, header) = Header::parse(start);
        if !(header.x_min < header.x_max && header.y_min < header.y_max) {
            return None;
        }
        let desc = if header.number_of_contours > 0 {
            let n = header.number_of_contours as usize;
            if contents.len() < 2 || (contents.len() - 2) / 2 < n {
                proof {
                    assert(2 * (n as int) + 2 > contents@.len()) by (nonlinear_arith)
                        requires
                            (contents@.len() - 2) as int / 2 < n as int,
                            contents@.len() >= 0,
                    ;
                }
                return None;
            }
            proof {
                assert(2 * (n as int) + 2 <= contents@.len()) by (nonlinear_arith)
                    requires
                        (contents@.len() - 2) as int / 2 >= n as int,
                        n >= 0,
                        contents@.len() >= 2,
                ;
            }
            let (end_points_buf, buf) = split_buf_for_len::<u16>(contents, n);
            let (buf, instruction_length) = u16::parse(buf);
            let il = instruction_length as usize;
            if buf.len() < il {
                return None;
            }
            let instructions_buf = slice_subrange(buf, 0, il);
            let coords_buf = slice_subrange(buf, il, buf.len());
            proof {
                let d = self.bytes().skip(offset as int);
                let nn = n as int;
                let ilen = il as int;
                assert(end_points_buf@ =~= d.subrange(10, 10 + 2 * nn));
                assert(instruction_length == glyph_instr_len(d, nn));
                assert(instructions_buf@ =~= d.subrange(12 + 2 * nn, 12 + 2 * nn + ilen));
                assert(coords_buf@ =~= d.skip(12 + 2 * nn + ilen));
            }
            Description::Simple(
                SimpleGlyph {
                    end_points_of_contours: DynArr(end_points_buf, core::marker::PhantomData),
                    instruction_length,
                    instructions: DynArr(instructions_buf, core::marker::PhantomData),
                    coords: BufView(coords_buf, core::marker::PhantomData),
                },
            )
        } else {
            // The recommended count for a composite record is exactly -1.
            Description::Composite(
                CompositeGlyph { glyf: Glyf(self.0), components: contents },
            )
        };
        Some(Glyph { header, desc })
    }
}


/// Whether `mask` is set in the flag byte `f`.
pub open spec fn has_bit(f: u8, mask: u8) -> bool {
    f & mask != 0
}

/// How many bytes the x delta of a point with flag `f` occupies.
pub open spec fn x_size(f: u8) -> nat {
    if has_bit(f, X_SHORT_VEC) {
        1
    } else if has_bit(f, X_IS_SAME) {
        0
    } else {
        2
    }
}

/// How many bytes the y delta of a point with flag `f` occupies.
pub open spec fn y_size(f: u8) -> nat {
    if has_bit(f, Y_SHORT_VEC) {
        1
    } else if has_bit(f, Y_IS_SAME) {
        0
    } else {
        2
    }
}

/// Every repeat flag in the stream is followed by its count byte.
pub open spec fn flags_wf(flags: Seq<u8>) -> bool
    decreases flags.len(),
{
    if flags.len() == 0 {
        true
    } else if has_bit(flags[0], REPEAT_FLAG) {
        flags.len() >= 2 && flags_wf(flags.skip(2))
    } else {
        flags_wf(flags.skip(1))
    }
}

/// The flag stream with repeat runs written out: a flag with the repeat
/// bit, followed by a count byte, stands for `count + 1` points.
pub open spec fn expand_flags(flags: Seq<u8>) -> Seq<u8>
    decreases flags.len(),
{
    if flags.len() == 0 {
        Seq::empty()
    } else if has_bit(flags[0], REPEAT_FLAG) {
        if flags.len() < 2 {
            seq![flags[0]]
        } else {
            Seq::new((flags[1] + 1) as nat, |k: int| flags[0]) + expand_flags(flags.skip(2))
        }
    } else {
        seq![flags[0]] + expand_flags(flags.skip(1))
    }
}

/// Bytes the x deltas of the points with these (expanded) flags occupy.
pub open spec fn xs_total(eflags: Seq<u8>) -> nat
    decreases eflags.len(),
{
    if eflags.len() == 0 {
        0
    } else {
        x_size(eflags[0]) + xs_total(eflags.skip(1))
    }
}

/// Bytes the y deltas of the points with these (expanded) flags occupy.
pub open spec fn ys_total(eflags: Seq<u8>) -> nat
    decreases eflags.len(),
{
    if eflags.len() == 0 {
        0
    } else {
        y_size(eflags[0]) + ys_total(eflags.skip(1))
    }
}

/// The x delta of a point with flag `f` whose delta bytes start `xs`:
/// one unsigned byte with an explicit sign bit, nothing, or a signed word.
pub open spec fn dx_of(f: u8, xs: Seq<u8>) -> int {
    if has_bit(f, X_SHORT_VEC) {
        if has_bit(f, POSITIVE_X_SHORT_VECTOR) {
            xs[0] as int
        } else {
            -(xs[0] as int)
        }
    } else if !has_bit(f, X_IS_SAME) {
        signed16(be16(xs[0], xs[1]))
    } else {
        0
    }
}

/// The y delta of a point with flag `f` whose delta bytes start `ys`.
pub open spec fn dy_of(f: u8, ys: Seq<u8>) -> int {
    if has_bit(f, Y_SHORT_VEC) {
        if has_bit(f, POSITIVE_Y_SHORT_VECTOR) {
            ys[0] as int
        } else {
            -(ys[0] as int)
        }
    } else if !has_bit(f, Y_IS_SAME) {
        signed16(be16(ys[0], ys[1]))
    } else {
        0
    }
}

/// The points the streams decode to, as (on-curve, x, y) triples: each
/// point's deltas are added to the running position, starting from (x, y).
pub open spec fn coords_from(eflags: Seq<u8>, xs: Seq<u8>, ys: Seq<u8>, x: int, y: int) -> Seq<
    (bool, int, int),
>
    decreases eflags.len(),
{
    if eflags.len() == 0 {
        Seq::empty()
    } else {
        let f = eflags[0];
        let nx = x + dx_of(f, xs);
        let ny = y + dy_of(f, ys);
        seq![(has_bit(f, ON_CURVE_POINT), nx, ny)] + coords_from(
            eflags.skip(1),
            xs.skip(x_size(f) as int),
            ys.skip(y_size(f) as int),
            nx,
            ny,
        )
    }
}

/// Every running position along the streams stays inside the signed
/// 16-bit coordinate space.
pub open spec fn coords_in_range(eflags: Seq<u8>, xs: Seq<u8>, ys: Seq<u8>, x: int, y: int) -> bool
    decreases eflags.len(),
{
    if eflags.len() == 0 {
        true
    } else {
        let f = eflags[0];
        let nx = x + dx_of(f, xs);
        let ny = y + dy_of(f, ys);
        &&& i16::MIN <= nx <= i16::MAX
        &&& i16::MIN <= ny <= i16::MAX
        &&& coords_in_range(
            eflags.skip(1),
            xs.skip(x_size(f) as int),
            ys.skip(y_size(f) as int),
            nx,
            ny,
        )
    }
}

/// The streams decode one point per expanded flag.
pub proof fn lemma_coords_len(eflags: Seq<u8>, xs: Seq<u8>, ys: Seq<u8>, x: int, y: int)
    ensures
        coords_from(eflags, xs, ys, x, y).len() == eflags.len(),
    decreases eflags.len(),
{
    if eflags.len() > 0 {
        let f = eflags[0];
        lemma_coords_len(
            eflags.skip(1),
            xs.skip(x_size(f) as int),
            ys.skip(y_size(f) as int),
            x + dx_of(f, xs),
            y + dy_of(f, ys),
        );
    }
}

/// One absolute point of an outline.
#[derive(Debug, PartialEq, Clone, Copy)]
pub struct Coordinate {
    pub on_curve: bool,
    pub x: i16,
    pub y: i16,
}

/// Walks a simple glyph's points: flags on one side, delta bytes on the
/// other, the absolute position accumulated as it goes.
pub struct SimpleCoordinates<'a> {
    pub flags: DynArr<'a, u8>,
    pub delta_xs: &'a [u8],
    pub delta_ys: &'a [u8],
    pub repeat_count: u16,
    pub x: i16,
    pub y: i16,
}

impl<'a> SimpleCoordinates<'a> {
    /// The expanded flags of the points not yet yielded.  A started repeat
    /// run contributes its remaining uses of the current flag byte.
    pub open spec fn remaining_flags(self) -> Seq<u8> {
        if self.repeat_count > 0 {
            Seq::new(self.repeat_count as nat, |k: int| self.flags.bytes()[0]) + expand_flags(
                self.flags.bytes().skip(2),
            )
        } else {
            expand_flags(self.flags.bytes())
        }
    }

    /// The points not yet yielded.
    pub open spec fn stream(self) -> Seq<(bool, int, int)> {
        coords_from(
            self.remaining_flags(),
            self.delta_xs@,
            self.delta_ys@,
            self.x as int,
            self.y as int,
        )
    }

    /// The streams are consistent: counts present, exactly enough delta
    /// bytes, and every position representable.
    pub open spec fn wf(self) -> bool {
        &&& if self.repeat_count > 0 {
            &&& self.flags.bytes().len() >= 2
            &&& has_bit(self.flags.bytes()[0], REPEAT_FLAG)
            &&& flags_wf(self.flags.bytes().skip(2))
        } else {
            flags_wf(self.flags.bytes())
        }
        &&& xs_total(self.remaining_flags()) == self.delta_xs@.len()
        &&& ys_total(self.remaining_flags()) == self.delta_ys@.len()
        &&& coords_in_range(
            self.remaining_flags(),
            self.delta_xs@,
            self.delta_ys@,
            self.x as int,
            self.y as int,
        )
    }

    /// Yield the next point: its deltas come off the delta streams and
    /// move the running position.  `None` once the flags are exhausted.
    pub fn next(&mut self) -> (r: Option<Coordinate>)
        requires
            old(self).wf(),
        ensures
            final(self).wf(),
            old(self).stream().len() == 0 ==> r is None && *final(self) == *old(self),
            old(self).stream().len() > 0 ==> {
                &&& r == Some(
                    Coordinate {
                        on_curve: old(self).stream()[0].0,
                        x: old(self).stream()[0].1 as i16,
                        y: old(self).stream()[0].2 as i16,
                    },
                )
                &&& final(self).stream() == old(self).stream().skip(1)
            },
    {
        proof {
            lemma_coords_len(
                old(self).remaining_flags(),
                old(self).delta_xs@,
                old(self).delta_ys@,
                old(self).x as int,
                old(self).y as int,
            );
        }
        if self.flags.len() == 0 {
            return None;
        }
        let ghost orem = old(self).remaining_flags();
        let flag = self.flags.at(0);
        proof {
            self.flags.lemma_elem_tail_index(0, 0);
            assert(flag == self.flags.bytes()[0]);
            assert(orem.len() > 0 && orem[0] == flag);
        }
        if self.repeat_count == 0 && flag & REPEAT_FLAG != 0 {
            let count_buf = self.flags.split_at(1).1;
            let cnt = count_buf.at(0);
            proof {
                count_buf.lemma_elem_tail_index(0, 0);
            }
            self.repeat_count = cnt as u16 + 1;
        }
        let on_curve = flag & ON_CURVE_POINT != 0;
        let ghost oxs = self.delta_xs@;
        let ghost oys = self.delta_ys@;
        proof {
            assert(xs_total(orem) == x_size(flag) + xs_total(orem.skip(1)));
            assert(ys_total(orem) == y_size(flag) + ys_total(orem.skip(1)));
        }
        let dx: i16 = if flag & X_SHORT_VEC != 0 {
            let (rest, d) = u8::parse(self.delta_xs);
            self.delta_xs = rest;
            if flag & POSITIVE_X_SHORT_VECTOR != 0 {
                d as i16
            } else {
                -(d as i16)
            }
        } else if flag & X_IS_SAME == 0 {
            let (rest, d) = i16::parse(self.delta_xs);
            self.delta_xs = rest;
            d
        } else {
            0
        };
        let dy: i16 = if flag & Y_SHORT_VEC != 0 {
            let (rest, d) = u8::parse(self.delta_ys);
            self.delta_ys = rest;
            if flag & POSITIVE_Y_SHORT_VECTOR != 0 {
                d as i16
            } else {
                -(d as i16)
            }
        } else if flag & Y_IS_SAME == 0 {
            let (rest, d) = i16::parse(self.delta_ys);
            self.delta_ys = rest;
            d
        } else {
            0
        };
        proof {
            assert(dx == dx_of(flag, oxs));
            assert(dy == dy_of(flag, oys));
            assert(self.delta_xs@ =~= oxs.skip(x_size(flag) as int));
            assert(self.delta_ys@ =~= oys.skip(y_size(flag) as int));
        }
        let nx = self.x as i32 + dx as i32;
        let ny = self.y as i32 + dy as i32;
        self.x = nx as i16;
        self.y = ny as i16;
        let ghost flags_before = self.flags.bytes();
        if self.repeat_count > 0 {
            self.repeat_count = self.repeat_count - 1;
            if self.repeat_count == 0 {
                self.flags = self.flags.split_at(1).1;
            }
        }
        if self.repeat_count == 0 {
            self.flags = self.flags.split_at(1).1;
        }
        proof {
            assert(self.remaining_flags() =~= orem.skip(1)) by {
                if old(self).repeat_count > 0 {
                    if old(self).repeat_count > 1 {
                        assert(self.remaining_flags() =~= orem.skip(1));
                    } else {
                        assert(self.flags.bytes() =~= flags_before.skip(2));
                        assert(self.remaining_flags() =~= orem.skip(1));
                    }
                } else {
                    if has_bit(flag, REPEAT_FLAG) {
                        let c = flags_before[1];
                        assert(expand_flags(flags_before) == Seq::new(
                            (c + 1) as nat,
                            |k: int| flag,
                        ) + expand_flags(flags_before.skip(2)));
                        if c == 0 {
                            assert(self.flags.bytes() =~= flags_before.skip(2));
                            assert(self.remaining_flags() =~= orem.skip(1));
                        } else {
                            assert(self.remaining_flags() =~= orem.skip(1));
                        }
                    } else {
                        assert(expand_flags(flags_before) == seq![flag] + expand_flags(
                            flags_before.skip(1),
                        ));
                        assert(self.flags.bytes() =~= flags_before.skip(1));
                        assert(self.remaining_flags() =~= orem.skip(1));
                    }
                }
            }
            assert(self.stream() =~= old(self).stream().skip(1));
            // The bookkeeping keeps the state well formed.
            if old(self).repeat_count > 0 {
                if old(self).repeat_count == 1 {
                    assert(self.flags.bytes() =~= flags_before.skip(2));
                }
            } else {
                if has_bit(flag, REPEAT_FLAG) {
                    assert(flags_before.len() >= 2 && flags_wf(flags_before.skip(2)));
                    if flags_before[1] == 0 {
                        assert(self.flags.bytes() =~= flags_before.skip(2));
                    }
                } else {
                    assert(flags_wf(flags_before.skip(1)));
                    assert(self.flags.bytes() =~= flags_before.skip(1));
                }
            }
            assert(coords_in_range(
                orem.skip(1),
                oxs.skip(x_size(flag) as int),
                oys.skip(y_size(flag) as int),
                old(self).x + dx_of(flag, oxs),
                old(self).y + dy_of(flag, oys),
            ));
        }
        Some(Coordinate { on_curve, x: self.x, y: self.y })
    }
}


/// Walk the flag stream for `points_left` points: how many flag bytes the
/// stream occupies and how many x and y delta bytes the points need.
/// `None` when the flag bytes run out, a count byte is missing, or a
/// repeat run overshoots the point count.
pub open spec fn first_pass(data: Seq<u8>, points_left: nat) -> Option<(nat, nat, nat)>
    decreases points_left,
{
    if points_left == 0 {
        Some((0nat, 0nat, 0nat))
    } else if data.len() == 0 {
        None
    } else {
        let f = data[0];
        if has_bit(f, REPEAT_FLAG) {
            if data.len() < 2 {
                None
            } else {
                let rep = (data[1] + 1) as nat;
                if rep > points_left {
                    None
                } else {
                    match first_pass(data.skip(2), (points_left - rep) as nat) {
                        None => None,
                        Some(t) => Some(
                            (
                                (t.0 + 2) as nat,
                                (t.1 + rep * x_size(f)) as nat,
                                (t.2 + rep * y_size(f)) as nat,
                            ),
                        ),
                    }
                }
            }
        } else {
            match first_pass(data.skip(1), (points_left - 1) as nat) {
                None => None,
                Some(t) => Some(
                    ((t.0 + 1) as nat, (t.1 + x_size(f)) as nat, (t.2 + y_size(f)) as nat),
                ),
            }
        }
    }
}

/// Delta totals over a run of one repeated flag followed by more flags.
proof fn lemma_totals_repeat(f: u8, rep: nat, e: Seq<u8>)
    ensures
        xs_total(Seq::new(rep, |k: int| f) + e) == rep * x_size(f) + xs_total(e),
        ys_total(Seq::new(rep, |k: int| f) + e) == rep * y_size(f) + ys_total(e),
        coords_from(Seq::new(rep, |k: int| f) + e, Seq::empty(), Seq::empty(), 0, 0).len() == rep
            + e.len(),
    decreases rep,
{
    lemma_coords_len(Seq::new(rep, |k: int| f) + e, Seq::empty(), Seq::empty(), 0, 0);
    if rep == 0 {
        assert(Seq::new(0, |k: int| f) + e =~= e);
    } else {
        lemma_totals_repeat(f, (rep - 1) as nat, e);
        assert((Seq::new(rep, |k: int| f) + e).skip(1) =~= Seq::new((rep - 1) as nat, |k: int| f)
            + e);
        assert((Seq::new(rep, |k: int| f) + e)[0] == f);
        assert(rep * x_size(f) == x_size(f) + (rep - 1) * x_size(f)) by (nonlinear_arith);
        assert(rep * y_size(f) == y_size(f) + (rep - 1) * y_size(f)) by (nonlinear_arith);
    }
}

/// A successful first pass delimits a well-formed flag prefix that expands
/// to exactly the walked number of points, needing exactly the computed
/// delta bytes.
pub proof fn lemma_first_pass_expand(data: Seq<u8>, n: nat)
    requires
        first_pass(data, n) is Some,
    ensures
        ({
            let t = first_pass(data, n).unwrap();
            &&& t.0 <= data.len()
            &&& flags_wf(data.subrange(0, t.0 as int))
            &&& expand_flags(data.subrange(0, t.0 as int)).len() == n
            &&& xs_total(expand_flags(data.subrange(0, t.0 as int))) == t.1
            &&& ys_total(expand_flags(data.subrange(0, t.0 as int))) == t.2
        }),
    decreases n,
{
    let t = first_pass(data, n).unwrap();
    let prefix = data.subrange(0, t.0 as int);
    if n == 0 {
        assert(prefix =~= Seq::<u8>::empty());
    } else {
        let f = data[0];
        if has_bit(f, REPEAT_FLAG) {
            let rep = (data[1] + 1) as nat;
            let t2 = first_pass(data.skip(2), (n - rep) as nat).unwrap();
            lemma_first_pass_expand(data.skip(2), (n - rep) as nat);
            let prefix2 = data.skip(2).subrange(0, t2.0 as int);
            assert(prefix.skip(2) =~= prefix2);
            assert(prefix[0] == f && prefix[1] == data[1] && prefix.len() >= 2);
            assert(expand_flags(prefix) == Seq::new(rep, |k: int| f) + expand_flags(prefix2));
            lemma_totals_repeat(f, rep, expand_flags(prefix2));
        } else {
            let t2 = first_pass(data.skip(1), (n - 1) as nat).unwrap();
            lemma_first_pass_expand(data.skip(1), (n - 1) as nat);
            let prefix2 = data.skip(1).subrange(0, t2.0 as int);
            assert(prefix.skip(1) =~= prefix2);
            assert(prefix[0] == f && prefix.len() >= 1);
            assert(expand_flags(prefix) == seq![f] + expand_flags(prefix2));
            assert((seq![f] + expand_flags(prefix2))[0] == f);
            assert((seq![f] + expand_flags(prefix2)).skip(1) =~= expand_flags(prefix2));
        }
    }
}

impl<'a> SimpleGlyph<'a> {
    /// Total point count: one past the last contour's end index.
    pub open spec fn spec_point_count(self) -> int {
        u16_at(self.end_points_of_contours.bytes(), self.end_points_of_contours.spec_len() - 1) + 1
    }

    /// The first pass over the flags, for this glyph's point count.
    pub open spec fn spec_first_pass(self) -> Option<(nat, nat, nat)> {
        first_pass(self.coords.bytes(), self.spec_point_count() as nat)
    }

    /// The point stream this glyph encodes: the flag prefix expanded and
    /// walked against the two delta streams behind it, from the origin.
    pub open spec fn spec_stream(self) -> Seq<(bool, int, int)> {
        let t = self.spec_first_pass().unwrap();
        coords_from(
            expand_flags(self.coords.bytes().subrange(0, t.0 as int)),
            self.coords.bytes().subrange(t.0 as int, (t.0 + t.1) as int),
            self.coords.bytes().subrange((t.0 + t.1) as int, (t.0 + t.1 + t.2) as int),
            0,
            0,
        )
    }

    /// The glyph's points, as machine coordinates.
    pub open spec fn spec_coords(self) -> Seq<Coordinate> {
        Seq::new(
            self.spec_stream().len(),
            |j: int|
                Coordinate {
                    on_curve: self.spec_stream()[j].0,
                    x: self.spec_stream()[j].1 as i16,
                    y: self.spec_stream()[j].2 as i16,
                },
        )
    }

    /// The points of contour `ci`: from one past the previous contour's
    /// declared end to this contour's declared end.
    pub open spec fn spec_contour(self, ci: int) -> Seq<Coordinate> {
        let e = u16_at(self.end_points_of_contours.bytes(), ci);
        let s = if ci == 0 {
            0int
        } else {
            u16_at(self.end_points_of_contours.bytes(), ci - 1) + 1
        };
        self.spec_coords().subrange(s, e + 1)
    }

    /// Contour `ci` is well delimited: its declared end lies inside the
    /// point list and at or past the previous contour's end plus one, and
    /// its first point lies on the outline.
    pub open spec fn contour_ok_at(self, ci: int) -> bool {
        let e = u16_at(self.end_points_of_contours.bytes(), ci);
        let s = if ci == 0 {
            0int
        } else {
            u16_at(self.end_points_of_contours.bytes(), ci - 1) + 1
        };
        &&& e < self.spec_coords().len()
        &&& s <= e
        &&& self.spec_coords()[s].on_curve
    }

    /// Every contour is well delimited.
    pub open spec fn contours_ok(self) -> bool {
        forall|ci: int|
            0 <= ci < self.end_points_of_contours.spec_len() ==> #[trigger] self.contour_ok_at(ci)
    }

    /// The streams describe exactly the declared points, lie inside the
    /// record, and keep every point inside the 16-bit coordinate space.
    pub open spec fn stream_ok(self) -> bool {
        &&& self.end_points_of_contours.spec_len() > 0
        &&& self.spec_first_pass() is Some
        &&& {
            let t = self.spec_first_pass().unwrap();
            &&& t.0 + t.1 + t.2 <= self.coords.bytes().len()
            &&& coords_in_range(
                expand_flags(self.coords.bytes().subrange(0, t.0 as int)),
                self.coords.bytes().subrange(t.0 as int, (t.0 + t.1) as int),
                self.coords.bytes().subrange((t.0 + t.1) as int, (t.0 + t.1 + t.2) as int),
                0,
                0,
            )
        }
    }
}


impl<'a> Glyph<'a> {
    /// A glyph whose point streams can be walked: simple descriptions must
    /// be internally consistent; composite ones defer to their components.
    pub open spec fn coords_ok(self) -> bool {
        match self.desc {
            Description::Simple(s) => s.stream_ok(),
            Description::Composite(c) => true,
        }
    }

    /// Walk this glyph's points.
    pub fn coordinates(&self) -> (r: Coordinates<'a>)
        requires
            self.coords_ok(),
        ensures
            match self.desc {
                Description::Simple(s) => r matches Coordinates::Simple(sc) && sc.wf()
                    && sc.stream() == s.spec_stream() && sc.stream().len() == s.spec_point_count(),
                Description::Composite(c) => r is Composite,
            },
    {
        match &self.desc {
            Description::Simple(simp) => Coordinates::Simple(self.simple_coordinates(simp)),
            Description::Composite(comp) => Coordinates::Composite(
                self.composite_coordinates(comp),
            ),
        }
    }

    /// Split a simple glyph's combined byte region into its flag and delta
    /// streams.  One pass over the flags, expanding repeat runs until it
    /// has seen every declared point, locates the two boundaries; the
    /// returned walker then re-reads the flags against the delta streams.
    #[verifier::rlimit(40)]
    pub fn simple_coordinates(&self, simp: &SimpleGlyph<'a>) -> (r: SimpleCoordinates<'a>)
        requires
            simp.stream_ok(),
        ensures
            r.wf(),
            r.stream() == simp.spec_stream(),
            r.stream().len() == simp.spec_point_count(),
    {
        let ghost data = simp.coords.bytes();
        let ghost n0 = simp.spec_point_count() as nat;
        let ghost tot = simp.spec_first_pass().unwrap();
        let last_point_index_offset = simp.end_points_of_contours.len() - 1;
        let last_ep = simp.end_points_of_contours.at(last_point_index_offset);
        proof {
            simp.end_points_of_contours.lemma_elem_tail_index(last_point_index_offset as int, 0);
            simp.end_points_of_contours.lemma_elem_tail_index(last_point_index_offset as int, 1);
        }
        let mut points_left: usize = 1 + last_ep as usize;
        let mut idx: usize = 0;
        let mut xs_len: usize = 0;
        let mut ys_len: usize = 0;
        let dlen = simp.coords.0.len();
        proof {
            assert(points_left == n0);
            assert(data.skip(0) =~= data);
        }
        while points_left > 0
            invariant
                data == simp.coords.bytes(),
                data.len() == dlen,
                first_pass(data, n0) == Some(tot),
                tot.0 + tot.1 + tot.2 <= data.len(),
                idx <= tot.0,
                xs_len <= tot.1,
                ys_len <= tot.2,
                first_pass(data.skip(idx as int), points_left as nat) == Some(
                    (((tot.0 - idx) as nat), ((tot.1 - xs_len) as nat), ((tot.2 - ys_len) as nat)),
                ),
            decreases points_left,
        {
            let ghost rest = data.skip(idx as int);
            let ghost trest = ((tot.0 - idx) as nat, (tot.1 - xs_len) as nat, (tot.2
                - ys_len) as nat);
            let flag = simp.coords.at(idx);
            proof {
                simp.coords.lemma_elem_tail_index(idx as int, 0);
                assert(flag == rest[0]);
            }
            let repeat_count: usize = if flag & REPEAT_FLAG != 0 {
                let cnt = simp.coords.at(idx + 1);
                proof {
                    simp.coords.lemma_elem_tail_index(idx as int + 1, 0);
                    assert(cnt == rest[1]);
                }
                idx = idx + 1;
                cnt as usize + 1
            } else {
                1
            };
            let x_sz: usize = if flag & X_SHORT_VEC != 0 {
                1
            } else if flag & X_IS_SAME != 0 {
                0
            } else {
                2
            };
            let y_sz: usize = if flag & Y_SHORT_VEC != 0 {
                1
            } else if flag & Y_IS_SAME != 0 {
                0
            } else {
                2
            };
            proof {
                assert(x_sz == x_size(flag) && y_sz == y_size(flag));
                if has_bit(flag, REPEAT_FLAG) {
                    assert(first_pass(rest.skip(2), (points_left - repeat_count) as nat) == Some(
                        (
                            ((trest.0 - 2) as nat),
                            ((trest.1 - repeat_count * x_size(flag)) as nat),
                            ((trest.2 - repeat_count * y_size(flag)) as nat),
                        ),
                    ));
                    assert(data.skip(idx as int + 1) =~= rest.skip(2));
                } else {
                    assert(first_pass(rest.skip(1), (points_left - 1) as nat) == Some(
                        (
                            ((trest.0 - 1) as nat),
                            ((trest.1 - x_size(flag)) as nat),
                            ((trest.2 - y_size(flag)) as nat),
                        ),
                    ));
                    assert(data.skip(idx as int + 1) =~= rest.skip(1));
                }
            }
            xs_len = xs_len + repeat_count * x_sz;
            ys_len = ys_len + repeat_count * y_sz;
            points_left = points_left - repeat_count;
            idx = idx + 1;
        }
        proof {
            assert(tot.0 == idx && tot.1 == xs_len && tot.2 == ys_len);
            lemma_first_pass_expand(data, n0);
        }
        let (flags_view, rest) = simp.coords.split_at(idx);
        let delta_xs = slice_subrange(rest.0, 0, xs_len);
        let delta_ys = slice_subrange(rest.0, xs_len, xs_len + ys_len);
        proof {
            assert(flags_view.bytes() =~= data.subrange(0, idx as int));
            assert(delta_xs@ =~= data.subrange(idx as int, idx + xs_len));
            assert(delta_ys@ =~= data.subrange(idx + xs_len, idx + xs_len + ys_len));
            lemma_coords_len(
                expand_flags(data.subrange(0, idx as int)),
                delta_xs@,
                delta_ys@,
                0,
                0,
            );
        }
        SimpleCoordinates {
            flags: DynArr(flags_view.0, core::marker::PhantomData),
            delta_xs,
            delta_ys,
            repeat_count: 0,
            x: 0,
            y: 0,
        }
    }

    /// Begin walking a composite glyph's component records.
    pub fn composite_coordinates(&self, comp: &CompositeGlyph<'a>) -> (r: CompositeCoordinates<'a>)
        ensures
            r.glyf.bytes() == comp.glyf.bytes(),
            r.components@ == comp.components@,
            r.component_idx == 0,
    {
        CompositeCoordinates {
            glyf: Glyf(comp.glyf.0),
            components: comp.components,
            component_idx: 0,
            current_glyph: None,
        }
    }
}

/// Walks a glyph's points, whichever way the glyph is described.
pub enum Coordinates<'a> {
    Simple(SimpleCoordinates<'a>),
    Composite(CompositeCoordinates<'a>),
}

impl<'a> Coordinates<'a> {
    /// The walker's streams are consistent.
    pub open spec fn wf(self) -> bool {
        match self {
            Coordinates::Simple(sc) => sc.wf(),
            Coordinates::Composite(cc) => true,
        }
    }

    /// The points not yet yielded.  A composite description yields none
    /// here: its points live in the glyphs its components name, which
    /// only the font can resolve, walking the records through
    /// `next_component` and rendering each referenced glyph under its
    /// transform.
    pub open spec fn stream(self) -> Seq<(bool, int, int)> {
        match self {
            Coordinates::Simple(sc) => sc.stream(),
            Coordinates::Composite(cc) => Seq::empty(),
        }
    }

    /// Yield the next point.
    pub fn next(&mut self) -> (r: Option<Coordinate>)
        requires
            old(self).wf(),
        ensures
            final(self).wf(),
            old(self).stream().len() == 0 ==> r is None && final(self).stream().len() == 0,
            old(self).stream().len() > 0 ==> {
                &&& r == Some(
                    Coordinate {
                        on_curve: old(self).stream()[0].0,
                        x: old(self).stream()[0].1 as i16,
                        y: old(self).stream()[0].2 as i16,
                    },
                )
                &&& final(self).stream() == old(self).stream().skip(1)
            },
    {
        match self {
            Coordinates::Simple(sc) => sc.next(),
            Coordinates::Composite(cc) => None,
        }
    }
}

// Flag bits of a composite glyph's component records.
/// Both component arguments are 16-bit words rather than bytes.
pub const ARG_1_AND_2_ARE_WORDS: u16 = 0x0001;

/// The arguments are x and y offsets rather than point numbers.
pub const ARGS_ARE_XY_VALUES: u16 = 0x0002;

/// Round the offsets to the pixel grid.
pub const ROUND_XY_TO_GRID: u16 = 0x0004;

/// One uniform scale follows the arguments.
pub const WE_HAVE_A_SCALE: u16 = 0x0008;

/// Another component record follows this one.
pub const MORE_COMPONENTS: u16 = 0x0020;

/// Separate x and y scales follow the arguments.
pub const WE_HAVE_AN_X_AND_Y_SCALE: u16 = 0x0040;

/// A full two-by-two transform follows the arguments.
pub const WE_HAVE_A_TWO_BY_TWO: u16 = 0x0080;

/// Instructions follow the last component.
pub const WE_HAVE_INSTRUCTIONS: u16 = 0x0100;

/// Use this component's metrics for the whole composite.
pub const USE_MY_METRICS: u16 = 0x0200;

/// The components overlap.
pub const OVERLAP_COMPOUND: u16 = 0x0400;

/// Walks a composite glyph's component records.  Resolving a component's
/// own points needs the location table, so this walker only decodes the
/// records themselves.
pub struct CompositeCoordinates<'a> {
    pub glyf: Glyf<'a>,
    pub components: &'a [u8],
    pub component_idx: usize,
    pub current_glyph: Option<SimpleCoordinates<'a>>,
}

impl<'a> CompositeCoordinates<'a> {
    /// Read a component's two arguments: x and y offsets, as bytes or
    /// words per `flags`.  Point-number arguments are not decoded; real
    /// fonts have not needed them.
    pub fn args(&self, flags: u16, args_buf: &'a [u8]) -> (r: Option<(&'a [u8], i32, i32)>)
        ensures
            r is Some <==> flags & ARGS_ARE_XY_VALUES != 0 && (if flags & ARG_1_AND_2_ARE_WORDS
                != 0 {
                args_buf@.len() >= 4
            } else {
                args_buf@.len() >= 2
            }),
            r is Some ==> {
                let (rest, a1, a2) = r.unwrap();
                if flags & ARG_1_AND_2_ARE_WORDS != 0 {
                    &&& a1 == i16_at(args_buf@, 0)
                    &&& a2 == i16_at(args_buf@, 1)
                    &&& rest@ == args_buf@.skip(4)
                } else {
                    &&& a1 == crate::parse::primitives::signed8(args_buf@[0] as int)
                    &&& a2 == crate::parse::primitives::signed8(args_buf@[1] as int)
                    &&& rest@ == args_buf@.skip(2)
                }
            },
    {
        if flags & ARGS_ARE_XY_VALUES != 0 {
            if flags & ARG_1_AND_2_ARE_WORDS != 0 {
                self.parse_args(args_buf, true)
            } else {
                self.parse_args(args_buf, false)
            }
        } else {
            None
        }
    }

    /// Read two signed arguments of one size.
    pub fn parse_args(&self, args_buf: &'a [u8], words: bool) -> (r: Option<(&'a [u8], i32, i32)>)
        ensures
            r is Some <==> args_buf@.len() >= (if words {
                4int
            } else {
                2int
            }),
            r is Some ==> {
                let (rest, a1, a2) = r.unwrap();
                if words {
                    &&& a1 == i16_at(args_buf@, 0)
                    &&& a2 == i16_at(args_buf@, 1)
                    &&& rest@ == args_buf@.skip(4)
                } else {
                    &&& a1 == crate::parse::primitives::signed8(args_buf@[0] as int)
                    &&& a2 == crate::parse::primitives::signed8(args_buf@[1] as int)
                    &&& rest@ == args_buf@.skip(2)
                }
            },
    {
        if words {
            if args_buf.len() < 4 {
                return None;
            }
            let (b, a1) = i16::parse(args_buf);
            let (b, a2) = i16::parse(b);
            Some((b, a1 as i32, a2 as i32))
        } else {
            if args_buf.len() < 2 {
                return None;
            }
            let (b, a1) = i8::parse(args_buf);
            let (b, a2) = i8::parse(b);
            Some((b, a1 as i32, a2 as i32))
        }
    }

    /// Read a component's transform, as raw 2.14 fixed-point quarters in
    /// row order: a uniform scale, separate axis scales, a full
    /// two-by-two, or the identity, by `flags`.  One unit is 1 << 14.
    pub fn affine_square(&self, flags: u16, buf: &'a [u8]) -> (r: Option<(&'a [u8], [i16; 4])>)
        ensures
            ({
                let n: int = if flags & WE_HAVE_A_SCALE != 0 {
                    2
                } else if flags & WE_HAVE_AN_X_AND_Y_SCALE != 0 {
                    4
                } else if flags & WE_HAVE_A_TWO_BY_TWO != 0 {
                    8
                } else {
                    0
                };
                &&& r is Some <==> buf@.len() >= n
                &&& r is Some ==> {
                    let (rest, m) = r.unwrap();
                    &&& rest@ == buf@.skip(n)
                    &&& if flags & WE_HAVE_A_SCALE != 0 {
                        m@ =~= seq![
                            i16_at(buf@, 0) as i16,
                            0i16,
                            0i16,
                            i16_at(buf@, 0) as i16,
                        ]
                    } else if flags & WE_HAVE_AN_X_AND_Y_SCALE != 0 {
                        m@ =~= seq![
                            i16_at(buf@, 0) as i16,
                            0i16,
                            0i16,
                            i16_at(buf@, 1) as i16,
                        ]
                    } else if flags & WE_HAVE_A_TWO_BY_TWO != 0 {
                        m@ =~= seq![
                            i16_at(buf@, 0) as i16,
                            i16_at(buf@, 1) as i16,
                            i16_at(buf@, 2) as i16,
                            i16_at(buf@, 3) as i16,
                        ]
                    } else {
                        m@ =~= seq![0x4000i16, 0i16, 0i16, 0x4000i16]
                    }
                }
            }),
    {
        if flags & WE_HAVE_A_SCALE != 0 {
            if buf.len() < 2 {
                return None;
            }
            let (b, scale) = i16::parse(buf);
            Some((b, [scale, 0, 0, scale]))
        } else if flags & WE_HAVE_AN_X_AND_Y_SCALE != 0 {
            if buf.len() < 4 {
                return None;
            }
            let (b, x_scale) = i16::parse(buf);
            let (b, y_scale) = i16::parse(b);
            Some((b, [x_scale, 0, 0, y_scale]))
        } else if flags & WE_HAVE_A_TWO_BY_TWO != 0 {
            if buf.len() < 8 {
                return None;
            }
            let (b, x_scale) = i16::parse(buf);
            let (b, s01) = i16::parse(b);
            let (b, s10) = i16::parse(b);
            let (b, y_scale) = i16::parse(b);
            Some((b, [x_scale, s01, s10, y_scale]))
        } else {
            Some((buf, [0x4000, 0, 0, 0x4000]))
        }
    }

    /// Decode the next component record and step past it.  After the last
    /// record, and after any record that does not decode, the walk is
    /// exhausted.
    pub fn next_component(&mut self) -> (r: Option<CompositeComponent>)
        ensures
            final(self).glyf == old(self).glyf,
            match spec_component(old(self).components@) {
                None => r is None && final(self).components@.len() == 0,
                Some((c, rl)) => {
                    &&& r == Some(c)
                    &&& final(self).components@ == if c.more {
                        old(self).components@.skip(rl)
                    } else {
                        Seq::<u8>::empty()
                    }
                },
            },
    {
        let clen = self.components.len();
        if clen < 4 {
            self.components = vstd::slice::slice_subrange(self.components, clen, clen);
            return None;
        }
        let (b, flags) = u16::parse(self.components);
        let (b, glyph_index) = u16::parse(b);
        proof {
            assert(b@ =~= self.components@.skip(4));
        }
        let (b, dx, dy) = match self.args(flags, b) {
            None => {
                self.components = vstd::slice::slice_subrange(self.components, clen, clen);
                return None;
            },
            Some(t) => t,
        };
        proof {
            assert(b@ =~= self.components@.skip(4 + component_args_len(flags)));
        }
        let (b, m) = match self.affine_square(flags, b) {
            None => {
                self.components = vstd::slice::slice_subrange(self.components, clen, clen);
                return None;
            },
            Some(t) => t,
        };
        proof {
            assert(b@ =~= self.components@.skip(
                4 + component_args_len(flags) + component_scale_len(flags),
            ));
        }
        let more = flags & MORE_COMPONENTS != 0;
        let record = CompositeComponent {
            flags,
            glyph_index,
            dx,
            dy,
            xx: m[0],
            xy: m[1],
            yx: m[2],
            yy: m[3],
            more,
        };
        if more {
            self.components = b;
        } else {
            self.components = vstd::slice::slice_subrange(self.components, clen, clen);
        }
        if self.component_idx < usize::MAX {
            self.component_idx = self.component_idx + 1;
        }
        Some(record)
    }

}


/// The first pass over a flag stream, every read checked: the runtime
/// computation of `first_pass`, for callers that cannot assume a
/// well-formed font.
fn check_first_pass(data: &[u8], points: usize) -> (r: Option<(usize, usize, usize)>)
    requires
        points <= 0x10000,
    ensures
        match first_pass(data@, points as nat) {
            None => r is None,
            Some(t) => r == Some((t.0 as usize, t.1 as usize, t.2 as usize)) && t.0 <= data@.len()
                && t.1 <= 2 * points && t.2 <= 2 * points,
        },
{
    let dlen = data.len();
    let mut points_left: usize = points;
    let mut idx: usize = 0;
    let mut xs_len: usize = 0;
    let mut ys_len: usize = 0;
    proof {
        assert(data@.skip(0) =~= data@);
    }
    while points_left > 0
        invariant
            data@.len() == dlen,
            points_left <= points <= 0x10000,
            idx <= dlen,
            xs_len <= 2 * (points - points_left),
            ys_len <= 2 * (points - points_left),
            match first_pass(data@.skip(idx as int), points_left as nat) {
                None => first_pass(data@, points as nat) is None,
                Some(t) => first_pass(data@, points as nat) == Some(
                    (
                        ((t.0 + idx) as nat),
                        ((t.1 + xs_len) as nat),
                        ((t.2 + ys_len) as nat),
                    ),
                ),
            },
        decreases points_left,
    {
        let ghost rest = data@.skip(idx as int);
        if idx >= dlen {
            return None;
        }
        let flag = *vstd::slice::slice_index_get(data, idx);
        proof {
            assert(flag == rest[0]);
        }
        let repeat_count: usize = if flag & REPEAT_FLAG != 0 {
            if idx + 1 >= dlen {
                return None;
            }
            let cnt = *vstd::slice::slice_index_get(data, idx + 1);
            proof {
                assert(cnt == rest[1]);
            }
            idx = idx + 1;
            cnt as usize + 1
        } else {
            1
        };
        if repeat_count > points_left {
            return None;
        }
        let x_sz: usize = if flag & X_SHORT_VEC != 0 {
            1
        } else if flag & X_IS_SAME != 0 {
            0
        } else {
            2
        };
        let y_sz: usize = if flag & Y_SHORT_VEC != 0 {
            1
        } else if flag & Y_IS_SAME != 0 {
            0
        } else {
            2
        };
        proof {
            assert(x_sz == x_size(flag) && y_sz == y_size(flag));
            if has_bit(flag, REPEAT_FLAG) {
                assert(data@.skip(idx as int + 1) =~= rest.skip(2));
            } else {
                assert(data@.skip(idx as int + 1) =~= rest.skip(1));
            }
        }
        proof {
            assert(repeat_count * x_sz <= 2 * repeat_count && repeat_count * y_sz <= 2
                * repeat_count) by (nonlinear_arith)
                requires
                    x_sz <= 2,
                    y_sz <= 2,
                    0 <= repeat_count,
            ;
        }
        xs_len = xs_len + repeat_count * x_sz;
        ys_len = ys_len + repeat_count * y_sz;
        points_left = points_left - repeat_count;
        idx = idx + 1;
    }
    Some((idx, xs_len, ys_len))
}


/// The expanded flags still owed by a walk whose current flag byte has
/// `repeat` uses left.
pub open spec fn remaining_expand(flags: Seq<u8>, repeat: int) -> Seq<u8> {
    if repeat > 0 {
        Seq::new(repeat as nat, |k: int| flags[0]) + expand_flags(flags.skip(2))
    } else {
        expand_flags(flags)
    }
}

/// Walk the delta streams and check that every accumulated position
/// stays inside the signed 16-bit range: the runtime test of
/// `coords_in_range`, for callers that cannot assume a well-formed font.
fn ranges_ok(flags0: &[u8], xs0: &[u8], ys0: &[u8]) -> (r: bool)
    requires
        flags_wf(flags0@),
        xs_total(expand_flags(flags0@)) == xs0@.len(),
        ys_total(expand_flags(flags0@)) == ys0@.len(),
    ensures
        r == coords_in_range(expand_flags(flags0@), xs0@, ys0@, 0, 0),
{
    let mut flags = flags0;
    let mut xs = xs0;
    let mut ys = ys0;
    let mut repeat: u16 = 0;
    let mut x: i32 = 0;
    let mut y: i32 = 0;
    while flags.len() > 0
        invariant
            if repeat > 0 {
                flags@.len() >= 2 && has_bit(flags@[0], REPEAT_FLAG) && flags_wf(flags@.skip(2))
            } else {
                flags_wf(flags@)
            },
            xs_total(remaining_expand(flags@, repeat as int)) == xs@.len(),
            ys_total(remaining_expand(flags@, repeat as int)) == ys@.len(),
            -0x8000 <= x <= 0x7FFF,
            -0x8000 <= y <= 0x7FFF,
            coords_in_range(expand_flags(flags0@), xs0@, ys0@, 0, 0) == coords_in_range(
                remaining_expand(flags@, repeat as int),
                xs@,
                ys@,
                x as int,
                y as int,
            ),
        decreases remaining_expand(flags@, repeat as int).len(),
    {
        let ghost orem = remaining_expand(flags@, repeat as int);
        let ghost oxs = xs@;
        let ghost oys = ys@;
        let ghost flags_before = flags@;
        let ghost repeat_before = repeat;
        let flag = *vstd::slice::slice_index_get(flags, 0);
        proof {
            assert(orem.len() > 0 && orem[0] == flag);
            assert(xs_total(orem) == x_size(flag) + xs_total(orem.skip(1)));
            assert(ys_total(orem) == y_size(flag) + ys_total(orem.skip(1)));
        }
        if repeat == 0 && flag & REPEAT_FLAG != 0 {
            let cnt = *vstd::slice::slice_index_get(flags, 1);
            repeat = cnt as u16 + 1;
        }
        let dx: i32 = if flag & X_SHORT_VEC != 0 {
            let (rest, d) = u8::parse(xs);
            xs = rest;
            if flag & POSITIVE_X_SHORT_VECTOR != 0 {
                d as i32
            } else {
                -(d as i32)
            }
        } else if flag & X_IS_SAME == 0 {
            let (rest, d) = i16::parse(xs);
            xs = rest;
            d as i32
        } else {
            0
        };
        let dy: i32 = if flag & Y_SHORT_VEC != 0 {
            let (rest, d) = u8::parse(ys);
            ys = rest;
            if flag & POSITIVE_Y_SHORT_VECTOR != 0 {
                d as i32
            } else {
                -(d as i32)
            }
        } else if flag & Y_IS_SAME == 0 {
            let (rest, d) = i16::parse(ys);
            ys = rest;
            d as i32
        } else {
            0
        };
        proof {
            assert(dx == dx_of(flag, oxs));
            assert(dy == dy_of(flag, oys));
            assert(xs@ =~= oxs.skip(x_size(flag) as int));
            assert(ys@ =~= oys.skip(y_size(flag) as int));
        }
        let nx = x + dx;
        let ny = y + dy;
        if nx < -0x8000 || nx > 0x7FFF || ny < -0x8000 || ny > 0x7FFF {
            return false;
        }
        x = nx;
        y = ny;
        if repeat > 0 {
            repeat = repeat - 1;
            if repeat == 0 {
                flags = vstd::slice::slice_subrange(flags, 1, flags.len());
            }
        }
        if repeat == 0 {
            flags = vstd::slice::slice_subrange(flags, 1, flags.len());
        }
        proof {
            assert(remaining_expand(flags@, repeat as int) =~= orem.skip(1)) by {
                if repeat_before > 0 {
                    if repeat_before > 1 {
                        assert(remaining_expand(flags@, repeat as int) =~= orem.skip(1));
                    } else {
                        assert(flags@ =~= flags_before.skip(2));
                        assert(remaining_expand(flags@, repeat as int) =~= orem.skip(1));
                    }
                } else {
                    if has_bit(flag, REPEAT_FLAG) {
                        let c = flags_before[1];
                        assert(expand_flags(flags_before) == Seq::new(
                            (c + 1) as nat,
                            |k: int| flag,
                        ) + expand_flags(flags_before.skip(2)));
                        if c == 0 {
                            assert(flags@ =~= flags_before.skip(2));
                            assert(remaining_expand(flags@, repeat as int) =~= orem.skip(1));
                        } else {
                            assert(remaining_expand(flags@, repeat as int) =~= orem.skip(1));
                        }
                    } else {
                        assert(expand_flags(flags_before) == seq![flag] + expand_flags(
                            flags_before.skip(1),
                        ));
                        assert(flags@ =~= flags_before.skip(1));
                        assert(remaining_expand(flags@, repeat as int) =~= orem.skip(1));
                    }
                }
            }
            // The bookkeeping keeps the walk well formed.
            if repeat_before > 0 {
                if repeat_before == 1 {
                    assert(flags@ =~= flags_before.skip(2));
                }
            } else {
                if has_bit(flag, REPEAT_FLAG) {
                    assert(flags_before.len() >= 2 && flags_wf(flags_before.skip(2)));
                    if flags_before[1] == 0 {
                        assert(flags@ =~= flags_before.skip(2));
                    }
                } else {
                    assert(flags_wf(flags_before.skip(1)));
                    assert(flags@ =~= flags_before.skip(1));
                }
            }
        }
    }
    true
}


impl<'a> SimpleGlyph<'a> {
    /// Check the point streams: the runtime test of `stream_ok`, for
    /// callers that cannot assume a well-formed font.
    pub fn validate(&self) -> (r: bool)
        ensures
            r == self.stream_ok(),
    {
        let n_eps = self.end_points_of_contours.len();
        if n_eps == 0 {
            return false;
        }
        let last = self.end_points_of_contours.at(n_eps - 1);
        proof {
            self.end_points_of_contours.lemma_elem_tail_index(n_eps as int - 1, 0);
            self.end_points_of_contours.lemma_elem_tail_index(n_eps as int - 1, 1);
        }
        let points: usize = last as usize + 1;
        proof {
            assert(points == self.spec_point_count());
        }
        match check_first_pass(self.coords.0, points) {
            None => false,
            Some((u, xl, yl)) => {
                let clen = self.coords.0.len();
                if u > clen || xl > clen - u || yl > clen - u - xl {
                    return false;
                }
                proof {
                    lemma_first_pass_expand(self.coords.bytes(), points as nat);
                }
                let flags_buf = vstd::slice::slice_subrange(self.coords.0, 0, u);
                let xs_buf = vstd::slice::slice_subrange(self.coords.0, u, u + xl);
                let ys_buf = vstd::slice::slice_subrange(self.coords.0, u + xl, u + xl + yl);
                proof {
                    assert(flags_buf@ =~= self.coords.bytes().subrange(0, u as int));
                    assert(xs_buf@ =~= self.coords.bytes().subrange(u as int, u as int + xl));
                    assert(ys_buf@ =~= self.coords.bytes().subrange(
                        u as int + xl,
                        u as int + xl + yl,
                    ));
                }
                ranges_ok(flags_buf, xs_buf, ys_buf)
            },
        }
    }
}

impl<'a> Glyph<'a> {
    /// Check that this glyph's points can be walked: the runtime test of
    /// `coords_ok`.  A composite description defers to its components.
    pub fn validate(&self) -> (r: bool)
        ensures
            r == self.coords_ok(),
    {
        match &self.desc {
            Description::Simple(simp) => simp.validate(),
            Description::Composite(_) => true,
        }
    }
}


/// One decoded component record of a composite glyph: the glyph it
/// places, its x and y offsets in design units, its transform as raw
/// 2.14 fixed-point quarters in row order, and whether another record
/// follows.
#[derive(Debug, PartialEq, Clone, Copy)]
pub struct CompositeComponent {
    pub flags: u16,
    pub glyph_index: u16,
    pub dx: i32,
    pub dy: i32,
    pub xx: i16,
    pub xy: i16,
    pub yx: i16,
    pub yy: i16,
    pub more: bool,
}

/// Bytes the two arguments of a component with flag word `f` occupy.
pub open spec fn component_args_len(f: u16) -> int {
    if f & ARG_1_AND_2_ARE_WORDS != 0 {
        4
    } else {
        2
    }
}

/// Bytes the transform of a component with flag word `f` occupies.
pub open spec fn component_scale_len(f: u16) -> int {
    if f & WE_HAVE_A_SCALE != 0 {
        2
    } else if f & WE_HAVE_AN_X_AND_Y_SCALE != 0 {
        4
    } else if f & WE_HAVE_A_TWO_BY_TWO != 0 {
        8
    } else {
        0
    }
}

/// The component record at the front of `data`, with its byte length.
/// `None` when the bytes run out or the arguments are point numbers,
/// which are not decoded.
pub open spec fn spec_component(data: Seq<u8>) -> Option<(CompositeComponent, int)> {
    if data.len() < 4 {
        None
    } else {
        let f = u16_at(data, 0) as u16;
        if f & ARGS_ARE_XY_VALUES == 0 {
            None
        } else {
            let alen = component_args_len(f);
            let slen = component_scale_len(f);
            if data.len() < 4 + alen + slen {
                None
            } else {
                let args = data.skip(4);
                let tr = data.skip(4 + alen);
                Some(
                    (
                        CompositeComponent {
                            flags: f,
                            glyph_index: u16_at(data, 1) as u16,
                            dx: (if alen == 4 {
                                i16_at(args, 0)
                            } else {
                                signed8(args[0] as int)
                            }) as i32,
                            dy: (if alen == 4 {
                                i16_at(args, 1)
                            } else {
                                signed8(args[1] as int)
                            }) as i32,
                            xx: (if slen == 0 {
                                0x4000
                            } else {
                                i16_at(tr, 0)
                            }) as i16,
                            xy: (if f & WE_HAVE_A_SCALE == 0 && f & WE_HAVE_AN_X_AND_Y_SCALE == 0
                                && f & WE_HAVE_A_TWO_BY_TWO != 0 {
                                i16_at(tr, 1)
                            } else {
                                0
                            }) as i16,
                            yx: (if f & WE_HAVE_A_SCALE == 0 && f & WE_HAVE_AN_X_AND_Y_SCALE == 0
                                && f & WE_HAVE_A_TWO_BY_TWO != 0 {
                                i16_at(tr, 2)
                            } else {
                                0
                            }) as i16,
                            yy: (if f & WE_HAVE_A_SCALE != 0 {
                                i16_at(tr, 0)
                            } else if f & WE_HAVE_AN_X_AND_Y_SCALE != 0 {
                                i16_at(tr, 1)
                            } else if f & WE_HAVE_A_TWO_BY_TWO != 0 {
                                i16_at(tr, 3)
                            } else {
                                0x4000
                            }) as i16,
                            more: f & MORE_COMPONENTS != 0,
                        },
                        4 + alen + slen,
                    ),
                )
            }
        }
    }
}

} // verus!
