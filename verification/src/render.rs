use vstd::prelude::*;
use crate::math::{lemma_rdiv_bound, lemma_rdiv_shift, rdiv, LineSegment, Matrix, Point};
use crate::parse::primitives::FontUnit;
use crate::tables::glyf::Coordinate;

verus! {

/// Line metrics for laying glyph bitmaps on a baseline.
#[derive(Debug, PartialEq, Clone, Copy)]
pub struct TextRenderMetrics {
    /// Distance from baseline to highest grid coordinate to place an outline point.
    pub ascent: FontUnit<i16>,
    /// Distance from baseline to lowest grid coordinate to place an outline point.
    pub descent: FontUnit<i16>,
    /// Distance that must be placed between two lines of text.
    pub line_gap: FontUnit<i16>,
}

/// Which way a run of text advances.
#[derive(Debug, PartialEq, Clone, Copy)]
pub enum TextDirection {
    Left,
    Right,
    Up,
    Down,
}

/// Where one rendered glyph sits relative to the pen and how far the pen
/// moves past it.
#[derive(Debug, PartialEq, Clone, Copy)]
pub struct GlyphPlacementMetrics {
    /// How much the bitmap is shifted away from the outline's origin.
    pub shift: [FontUnit<i16>; 2],
    /// Horizontal distance from the origin to the bitmap's left edge.
    pub left_bearing: FontUnit<i16>,
    /// Vertical distance from the origin to the bitmap's top edge.
    pub top_bearing: FontUnit<i16>,
    /// How far right the pen moves after this glyph.
    pub horiz_advance: Option<FontUnit<u16>>,
    /// How far down the pen moves after this glyph.
    pub vert_advance: Option<FontUnit<u16>>,
}

/// One outline drawing step, with positions in half units: a straight
/// line, or a quadratic curve through one off-curve control point.
#[derive(Debug, PartialEq, Clone, Copy)]
pub enum DrawCommand {
    Line(Point, Point),
    Curve(Point, Point, Point),
}

/// An outline point in half units: twice its design-space position.
pub open spec fn spec_doubled(c: Coordinate) -> Point {
    Point { x: (2 * c.x) as i32, y: (2 * c.y) as i32 }
}

/// The midpoint of two points whose coordinate sums are even.
pub open spec fn spec_midpoint(a: Point, b: Point) -> Point {
    Point { x: ((a.x + b.x) / 2) as i32, y: ((a.y + b.y) / 2) as i32 }
}

/// The drawing steps for a run of points, walked with the last on-curve
/// position and a pending off-curve control point.  Two off-curve points
/// in a row imply an on-curve point at their midpoint.  After the run one
/// final step leads back to the contour's first point.
pub open spec fn spec_draw_cmds(
    pts: Seq<Coordinate>,
    first: Option<Coordinate>,
    latest_on: Point,
    prev_off: Option<Point>,
) -> Seq<DrawCommand>
    decreases pts.len() + (if first is Some {
        1int
    } else {
        0int
    }),
{
    if pts.len() == 0 && first is None {
        Seq::empty()
    } else {
        let next = if pts.len() > 0 {
            pts[0]
        } else {
            first.unwrap()
        };
        let rest = if pts.len() > 0 {
            pts.skip(1)
        } else {
            pts
        };
        let nfirst = if pts.len() > 0 {
            first
        } else {
            None
        };
        let np = spec_doubled(next);
        match prev_off {
            Some(po) => if next.on_curve {
                seq![DrawCommand::Curve(latest_on, po, np)] + spec_draw_cmds(
                    rest,
                    nfirst,
                    np,
                    None,
                )
            } else {
                let mid = spec_midpoint(po, np);
                seq![DrawCommand::Curve(latest_on, po, mid)] + spec_draw_cmds(
                    rest,
                    nfirst,
                    mid,
                    Some(np),
                )
            },
            None => if next.on_curve {
                seq![DrawCommand::Line(latest_on, np)] + spec_draw_cmds(rest, nfirst, np, None)
            } else {
                spec_draw_cmds(rest, nfirst, latest_on, Some(np))
            },
        }
    }
}

/// The drawing steps of one closed contour.
pub open spec fn spec_commands(pts: Seq<Coordinate>) -> Seq<DrawCommand> {
    if pts.len() == 0 {
        Seq::empty()
    } else {
        spec_draw_cmds(pts.skip(1), Some(pts[0]), spec_doubled(pts[0]), None)
    }
}

/// The drawing steps derived from one contour's points.
pub struct DrawCommands {
    pub commands: Vec<DrawCommand>,
}

impl DrawCommands {
    /// Derive the drawing steps of the closed contour through `coords`.
    /// A contour starts on the outline.
    pub fn from_coordinates(coords: &[Coordinate]) -> (r: DrawCommands)
        requires
            coords@.len() > 0 ==> coords@[0].on_curve,
        ensures
            r.commands@ == spec_commands(coords@),
    {
        let n = coords.len();
        let mut commands: Vec<DrawCommand> = Vec::new();
        if n == 0 {
            return DrawCommands { commands };
        }
        let first = *vstd::slice::slice_index_get(coords, 0);
        let first_pt = Point { x: first.x as i32 * 2, y: first.y as i32 * 2 };
        let mut latest_on = first_pt;
        let mut prev_off: Option<Point> = None;
        let mut i: usize = 1;
        proof {
            assert(coords@.skip(n as int) =~= coords@.skip(n as int));
        }
        while i < n
            invariant
                1 <= i <= n,
                n == coords@.len(),
                n > 0,
                prev_off matches Some(p) ==> -0x10000 <= p.x <= 0x10000 && -0x10000 <= p.y
                    <= 0x10000 && p.x % 2 == 0 && p.y % 2 == 0,
                spec_commands(coords@) == commands@ + spec_draw_cmds(
                    coords@.skip(i as int),
                    Some(coords@[0]),
                    latest_on,
                    prev_off,
                ),
            decreases n - i,
        {
            let c = *vstd::slice::slice_index_get(coords, i);
            let np = Point { x: c.x as i32 * 2, y: c.y as i32 * 2 };
            proof {
                assert(coords@.skip(i as int).skip(1) =~= coords@.skip(i as int + 1));
                assert(coords@.skip(i as int)[0] == coords@[i as int]);
            }
            match prev_off {
                Some(po) => {
                    if c.on_curve {
                        commands.push(DrawCommand::Curve(latest_on, po, np));
                        latest_on = np;
                        prev_off = None;
                    } else {
                        let mid = po.midpoint_to(np);
                        commands.push(DrawCommand::Curve(latest_on, po, mid));
                        latest_on = mid;
                        prev_off = Some(np);
                    }
                },
                None => {
                    if c.on_curve {
                        commands.push(DrawCommand::Line(latest_on, np));
                        latest_on = np;
                    } else {
                        prev_off = Some(np);
                    }
                },
            }
            i = i + 1;
        }
        proof {
            assert(coords@.skip(n as int) =~= Seq::<Coordinate>::empty());
            assert(first_pt == spec_doubled(coords@[0]));
            assert(spec_draw_cmds(coords@.skip(n as int), None, first_pt, None)
                =~= Seq::<DrawCommand>::empty());
        }
        match prev_off {
            Some(po) => {
                proof {
                    assert(spec_draw_cmds(coords@.skip(n as int), Some(coords@[0]), latest_on,
                        Some(po)) =~= seq![DrawCommand::Curve(latest_on, po, first_pt)]);
                }
                commands.push(DrawCommand::Curve(latest_on, po, first_pt));
            },
            None => {
                proof {
                    assert(spec_draw_cmds(coords@.skip(n as int), Some(coords@[0]), latest_on,
                        None) =~= seq![DrawCommand::Line(latest_on, first_pt)]);
                }
                commands.push(DrawCommand::Line(latest_on, first_pt));
            },
        }
        proof {
            assert(commands@ =~= spec_commands(coords@));
        }
        DrawCommands { commands }
    }
}

/// The floor of the square root of `n`.
pub open spec fn spec_isqrt(n: int) -> int {
    choose|r: int| 0 <= r && #[trigger] (r * r) <= n && n < (r + 1) * (r + 1)
}

/// Every nonnegative number has a floor square root.
pub proof fn lemma_isqrt(n: int)
    requires
        0 <= n,
    ensures
        0 <= spec_isqrt(n),
        spec_isqrt(n) * spec_isqrt(n) <= n,
        n < (spec_isqrt(n) + 1) * (spec_isqrt(n) + 1),
{
    lemma_isqrt_exists(n);
}

/// A nonnegative number lies between consecutive squares somewhere.
proof fn lemma_isqrt_exists(n: int)
    requires
        0 <= n,
    ensures
        exists|r: int| 0 <= r && #[trigger] (r * r) <= n && n < (r + 1) * (r + 1),
    decreases n,
{
    if n == 0 {
        assert(0 * 0 <= n && n < (0 + 1) * (0 + 1)) by (nonlinear_arith)
            requires
                n == 0,
        ;
    } else {
        lemma_isqrt_exists(n - 1);
        let r0 = choose|r: int| 0 <= r && #[trigger] (r * r) <= n - 1 && n - 1 < (r + 1) * (r + 1);
        if n < (r0 + 1) * (r0 + 1) {
            assert(0 <= r0 && r0 * r0 <= n && n < (r0 + 1) * (r0 + 1));
        } else {
            assert(n == (r0 + 1) * (r0 + 1));
            assert(n < (r0 + 1 + 1) * (r0 + 1 + 1)) by (nonlinear_arith)
                requires
                    n == (r0 + 1) * (r0 + 1),
                    r0 >= 0,
            ;
            assert(0 <= r0 + 1 && (r0 + 1) * (r0 + 1) <= n && n < (r0 + 1 + 1) * (r0 + 1 + 1));
        }
    }
}

/// There is only one floor square root: any candidate between the right
/// squares is the one the specification names.
pub proof fn lemma_isqrt_unique(n: int, r: int)
    requires
        0 <= r,
        r * r <= n,
        n < (r + 1) * (r + 1),
    ensures
        r == spec_isqrt(n),
{
    lemma_isqrt(n);
    let q = spec_isqrt(n);
    if q < r {
        assert((q + 1) * (q + 1) <= r * r) by (nonlinear_arith)
            requires
                0 <= q,
                q + 1 <= r,
        ;
    }
    if r < q {
        assert((r + 1) * (r + 1) <= q * q) by (nonlinear_arith)
            requires
                0 <= r,
                r + 1 <= q,
        ;
    }
}

/// Whether `k` is at least the sum of the square roots of `a` and `b`:
/// the comparison `k >= sqrt(a) + sqrt(b)`, squared out twice so that it
/// stays in the integers.
pub open spec fn at_least_root_sum(k: int, a: int, b: int) -> bool {
    &&& 0 <= k
    &&& k * k >= a + b
    &&& (k * k - a - b) * (k * k - a - b) >= 4 * (a * b)
}

/// The number of line segments a curve is flattened into: the ceiling of
/// the summed Euclidean lengths of its two control legs in design units,
/// plus two.  Positions are half units, so the count is the least `m`
/// with `2 m >= sqrt(a) + sqrt(b)` over the squared half-unit leg
/// lengths `a` and `b`: half the summed floor roots, rounded up, then
/// corrected by one exact squared comparison.
pub open spec fn curve_steps(start: Point, off: Point, end: Point) -> int {
    let a = (off.x - start.x) * (off.x - start.x) + (off.y - start.y) * (off.y - start.y);
    let b = (end.x - off.x) * (end.x - off.x) + (end.y - off.y) * (end.y - off.y);
    let c0 = (spec_isqrt(a) + spec_isqrt(b) + 1) / 2;
    (if at_least_root_sum(2 * c0, a, b) {
        c0
    } else {
        c0 + 1
    }) + 2
}

/// The squared leg lengths of a bounded curve are nonnegative and small
/// enough for the machine arithmetic below, and its segment count stays
/// in range.
pub proof fn lemma_curve_steps_range(start: Point, off: Point, end: Point)
    requires
        pt_bounded(start),
        pt_bounded(off),
        pt_bounded(end),
    ensures
        2 <= curve_steps(start, off, end) <= 0x30003,
{
    let a = (off.x - start.x) * (off.x - start.x) + (off.y - start.y) * (off.y - start.y);
    let b = (end.x - off.x) * (end.x - off.x) + (end.y - off.y) * (end.y - off.y);
    assert(0 <= a <= 0x800000000 && 0 <= b <= 0x800000000) by (nonlinear_arith)
        requires
            -0x20000 <= off.x - start.x <= 0x20000,
            -0x20000 <= off.y - start.y <= 0x20000,
            -0x20000 <= end.x - off.x <= 0x20000,
            -0x20000 <= end.y - off.y <= 0x20000,
            a == (off.x - start.x) * (off.x - start.x) + (off.y - start.y) * (off.y - start.y),
            b == (end.x - off.x) * (end.x - off.x) + (end.y - off.y) * (end.y - off.y),
    ;
    lemma_isqrt(a);
    lemma_isqrt(b);
    assert(spec_isqrt(a) < 0x30000) by (nonlinear_arith)
        requires
            0 <= spec_isqrt(a),
            spec_isqrt(a) * spec_isqrt(a) <= a,
            a <= 0x800000000,
    ;
    assert(spec_isqrt(b) < 0x30000) by (nonlinear_arith)
        requires
            0 <= spec_isqrt(b),
            spec_isqrt(b) * spec_isqrt(b) <= b,
            b <= 0x800000000,
    ;
}

/// Point `i` of `n` along the curve, by the quadratic interpolation
/// formula at `t = i / n`, each coordinate rounded to the nearest half
/// unit.
pub open spec fn curve_point(start: Point, off: Point, end: Point, n: int, i: int) -> Point {
    Point {
        x: rdiv(
            (n - i) * (n - i) * start.x + 2 * i * (n - i) * off.x + i * i * end.x,
            n * n,
        ) as i32,
        y: rdiv(
            (n - i) * (n - i) * start.y + 2 * i * (n - i) * off.y + i * i * end.y,
            n * n,
        ) as i32,
    }
}

/// The chain of segments a curve is flattened into: consecutive
/// interpolated points, ending exactly at the curve's endpoint.
pub open spec fn spec_curve_segments(start: Point, off: Point, end: Point) -> Seq<(Point, Point)> {
    let n = curve_steps(start, off, end);
    Seq::new(
        n as nat,
        |i: int|
            (
                if i == 0 {
                    start
                } else {
                    curve_point(start, off, end, n, i)
                },
                if i == n - 1 {
                    end
                } else {
                    curve_point(start, off, end, n, i + 1)
                },
            ),
    )
}

/// A quadratic curve flattened into a chain of line segments.
pub struct CurveLines {
    pub start: Point,
    pub off_curve: Point,
    pub end: Point,
    pub segments: Vec<(Point, Point)>,
}

/// Whether a point's coordinates lie within the outline pipeline's range.
pub open spec fn pt_bounded(p: Point) -> bool {
    -0x10000 <= p.x <= 0x10000 && -0x10000 <= p.y <= 0x10000
}

impl CurveLines {
    /// Flatten the quadratic curve from `start` over `off_curve` to `end`.
    /// The flattening always terminates, its segments chain, and the last
    /// one ends exactly at `end`.
    pub fn new(start: Point, off_curve: Point, end: Point) -> (r: CurveLines)
        requires
            pt_bounded(start),
            pt_bounded(off_curve),
            pt_bounded(end),
        ensures
            r.start == start && r.off_curve == off_curve && r.end == end,
            r.segments@ == spec_curve_segments(start, off_curve, end),
            r.segments@.len() >= 2,
            r.segments@[0].0 == start,
            r.segments@[r.segments@.len() - 1].1 == end,
            forall|i: int| 0 <= i < r.segments@.len() - 1 ==> (#[trigger] r.segments@[i]).1
                == r.segments@[i + 1].0,
    {
        let d1x = off_curve.x as i64 - start.x as i64;
        let d1y = off_curve.y as i64 - start.y as i64;
        let d2x = end.x as i64 - off_curve.x as i64;
        let d2y = end.y as i64 - off_curve.y as i64;
        proof {
            assert(0 <= d1x * d1x <= 0x400000000 && 0 <= d1y * d1y <= 0x400000000 && 0 <= d2x
                * d2x <= 0x400000000 && 0 <= d2y * d2y <= 0x400000000) by (nonlinear_arith)
                requires
                    -0x20000 <= d1x <= 0x20000,
                    -0x20000 <= d1y <= 0x20000,
                    -0x20000 <= d2x <= 0x20000,
                    -0x20000 <= d2y <= 0x20000,
            ;
        }
        let a = d1x * d1x + d1y * d1y;
        let b = d2x * d2x + d2y * d2y;
        let s1 = isqrt64(a);
        let s2 = isqrt64(b);
        let c0 = (s1 + s2 + 1) / 2;
        let covers = covers_root_sum(2 * c0, a, b);
        let n: i64 = if covers {
            c0 + 2
        } else {
            c0 + 3
        };
        let ghost gn = curve_steps(start, off_curve, end);
        proof {
            lemma_isqrt_unique(a as int, s1 as int);
            lemma_isqrt_unique(b as int, s2 as int);
            lemma_curve_steps_range(start, off_curve, end);
            assert(n == gn);
            assert(2 <= n <= 0x40002);
        }
        let mut segments: Vec<(Point, Point)> = Vec::new();
        let mut prev = start;
        let mut i: i64 = 1;
        while i <= n
            invariant
                1 <= i <= n + 1,
                2 <= n <= 0x40002,
                n == gn,
                gn == curve_steps(start, off_curve, end),
                pt_bounded(start) && pt_bounded(off_curve) && pt_bounded(end),
                segments@.len() == i - 1,
                prev == if i == 1 {
                    start
                } else {
                    curve_point(start, off_curve, end, gn, i - 1)
                },
                forall|j: int| 0 <= j < i - 1 ==> segments@[j] == spec_curve_segments(
                    start,
                    off_curve,
                    end,
                )[j],
            decreases n + 1 - i,
        {
            let point = if i == n {
                end
            } else {
                let px = interp(start.x, off_curve.x, end.x, n, i);
                let py = interp(start.y, off_curve.y, end.y, n, i);
                Point { x: px, y: py }
            };
            proof {
                if i == n {
                    lemma_curve_point_ends(start, off_curve, end, gn);
                }
            }
            segments.push((prev, point));
            prev = point;
            i = i + 1;
        }
        proof {
            assert(segments@ =~= spec_curve_segments(start, off_curve, end));
            lemma_curve_point_ends(start, off_curve, end, gn);
        }
        CurveLines { start, off_curve, end, segments }
    }
}

/// The floor square root of a bounded machine integer, by bisection.
fn isqrt64(n: i64) -> (r: i64)
    requires
        0 <= n <= 0x800000000,
    ensures
        0 <= r < 0x30000,
        r * r <= n,
        n < (r + 1) * (r + 1),
{
    let mut lo: i64 = 0;
    let mut hi: i64 = 0x2FFFF;
    proof {
        assert((0x2FFFF + 1) * (0x2FFFF + 1) > 0x800000000) by (nonlinear_arith);
    }
    while lo < hi
        invariant
            0 <= lo <= hi <= 0x2FFFF,
            0 <= n <= 0x800000000,
            lo * lo <= n,
            n < (hi + 1) * (hi + 1),
        decreases hi - lo,
    {
        let mid = lo + (hi - lo + 1) / 2;
        proof {
            assert(0 <= mid * mid <= 0x2FFFF * 0x2FFFF) by (nonlinear_arith)
                requires
                    0 <= mid <= 0x2FFFF,
            ;
        }
        if mid * mid <= n {
            lo = mid;
        } else {
            hi = mid - 1;
        }
    }
    lo
}

/// Whether `k` is at least the summed square roots of `a` and `b`,
/// decided exactly with the squared-out comparison.
fn covers_root_sum(k: i64, a: i64, b: i64) -> (r: bool)
    requires
        0 <= k <= 0x70000,
        0 <= a <= 0x800000000,
        0 <= b <= 0x800000000,
    ensures
        r == at_least_root_sum(k as int, a as int, b as int),
{
    proof {
        assert(0 <= k * k <= 0x70000 * 0x70000) by (nonlinear_arith)
            requires
                0 <= k <= 0x70000,
        ;
    }
    let kk = k * k;
    if kk < a + b {
        return false;
    }
    let d = (kk - a - b) as i128;
    proof {
        assert(0 <= d * d <= (0x70000 * 0x70000) * (0x70000 * 0x70000)) by (nonlinear_arith)
            requires
                0 <= d <= 0x70000 * 0x70000,
        ;
        assert(0 <= 4 * ((a as i128) * (b as i128)) <= 4 * (0x800000000 * 0x800000000))
            by (nonlinear_arith)
            requires
                0 <= a <= 0x800000000,
                0 <= b <= 0x800000000,
        ;
    }
    d * d >= 4 * ((a as i128) * (b as i128))
}

/// At the last step the interpolation formula lands exactly on the
/// curve's endpoint, and at step zero on its start.
pub proof fn lemma_curve_point_ends(start: Point, off: Point, end: Point, n: int)
    requires
        n >= 1,
    ensures
        curve_point(start, off, end, n, n) == end,
        curve_point(start, off, end, n, 0) == start,
{
    assert(0 < n * n) by (nonlinear_arith)
        requires
            n >= 1,
    ;
    assert((n - n) * (n - n) * start.x + 2 * n * (n - n) * off.x + n * n * end.x == (n * n) * (
    end.x as int)) by (nonlinear_arith);
    assert((n - 0) * (n - 0) * start.x + 2 * 0 * (n - 0) * off.x + 0 * 0 * end.x == (n * n) * (
    start.x as int)) by (nonlinear_arith);
    assert((n - n) * (n - n) * start.y + 2 * n * (n - n) * off.y + n * n * end.y == (n * n) * (
    end.y as int)) by (nonlinear_arith);
    assert((n - 0) * (n - 0) * start.y + 2 * 0 * (n - 0) * off.y + 0 * 0 * end.y == (n * n) * (
    start.y as int)) by (nonlinear_arith);
    lemma_rdiv_exact(end.x as int, n * n);
    lemma_rdiv_exact(start.x as int, n * n);
    lemma_rdiv_exact(end.y as int, n * n);
    lemma_rdiv_exact(start.y as int, n * n);
}

/// A rounded division of an exact multiple recovers the factor.
proof fn lemma_rdiv_exact(k: int, b: int)
    requires
        0 < b,
    ensures
        rdiv(b * k, b) == k,
{
    lemma_rdiv_shift(0, b, k);
    assert(rdiv(0, b) == 0) by {
        vstd::arithmetic::div_mod::lemma_basic_div(b / 2, b);
    }
    assert(b * k == 0 + k * b) by (nonlinear_arith);
}

/// Evaluate one coordinate of the interpolation formula at `t = i / n`,
/// rounded to the nearest half unit.
fn interp(a: i32, c: i32, b: i32, n: i64, i: i64) -> (r: i32)
    requires
        -0x10000 <= a <= 0x10000,
        -0x10000 <= c <= 0x10000,
        -0x10000 <= b <= 0x10000,
        1 <= n <= 0x40002,
        0 <= i <= n,
    ensures
        r == rdiv((n - i) * (n - i) * a + 2 * i * (n - i) * c + i * i * b, n * n),
{
    let d = n - i;
    proof {
        assert(0 <= d * d <= 0x40002 * 0x40002 && 0 <= 2 * i * d <= 2 * (0x40002 * 0x40002) && 0
            <= i * i <= 0x40002 * 0x40002 && d * d + 2 * i * d + i * i == n * n && 0 < n * n <= 0x40002
            * 0x40002) by (nonlinear_arith)
            requires
                1 <= n <= 0x40002,
                0 <= i <= n,
                d == n - i,
        ;
    }
    let w0 = d * d;
    let w1 = 2 * i * d;
    let w2 = i * i;
    let nn = n * n;
    proof {
        assert(-0x10000 * w0 <= w0 * a <= 0x10000 * w0 && -0x10000 * w1 <= w1 * c <= 0x10000 * w1
            && -0x10000 * w2 <= w2 * b <= 0x10000 * w2) by (nonlinear_arith)
            requires
                -0x10000 <= a <= 0x10000,
                -0x10000 <= c <= 0x10000,
                -0x10000 <= b <= 0x10000,
                0 <= w0,
                0 <= w1,
                0 <= w2,
        ;
        assert(0x10000 * w0 + 0x10000 * w1 + 0x10000 * w2 == 0x10000 * nn) by (nonlinear_arith)
            requires
                w0 + w1 + w2 == nn,
        ;
    }
    let num = w0 * a as i64 + w1 * c as i64 + w2 * b as i64;
    let shift: i64 = 0x10001;
    proof {
        assert(-0x10000 * nn <= num <= 0x10000 * nn);
        assert(0x10000 * nn < shift * nn && shift * nn <= 0x10001 * (0x40002 * 0x40002))
            by (nonlinear_arith)
            requires
                0 < nn <= 0x40002 * 0x40002,
                shift == 0x10001,
        ;
        lemma_rdiv_shift(num as int, nn as int, shift as int);
    }
    let num_sh = (num + shift * nn) as u64;
    let q_u = (num_sh + (nn as u64) / 2) / (nn as u64);
    proof {
        assert(q_u == rdiv(num + shift * nn, nn as int));
        assert(-0x10001 <= rdiv(num as int, nn as int) <= 0x10001) by (nonlinear_arith)
            requires
                -0x10000 * (nn as int) <= num as int <= 0x10000 * (nn as int),
                0 < nn as int,
            ;
    }
    let q = q_u as i64 - shift;
    q as i32
}


/// The boundedness of a drawing step's points.
pub open spec fn cmd_bounded(cmd: DrawCommand) -> bool {
    match cmd {
        DrawCommand::Line(a, b) => pt_bounded(a) && pt_bounded(b),
        DrawCommand::Curve(a, c, b) => pt_bounded(a) && pt_bounded(c) && pt_bounded(b),
    }
}

/// Every drawing step derived from outline points stays within the
/// pipeline's coordinate range: doubled 16-bit positions and their
/// midpoints do.
pub proof fn lemma_draw_cmds_bounded(
    pts: Seq<Coordinate>,
    first: Option<Coordinate>,
    latest_on: Point,
    prev_off: Option<Point>,
)
    requires
        pt_bounded(latest_on),
        prev_off matches Some(p) ==> pt_bounded(p),
    ensures
        forall|k: int|
            0 <= k < spec_draw_cmds(pts, first, latest_on, prev_off).len() ==> cmd_bounded(
                #[trigger] spec_draw_cmds(pts, first, latest_on, prev_off)[k],
            ),
    decreases pts.len() + (if first is Some {
        1int
    } else {
        0int
    }),
{
    if pts.len() == 0 && first is None {
    } else {
        let next = if pts.len() > 0 {
            pts[0]
        } else {
            first.unwrap()
        };
        let rest = if pts.len() > 0 {
            pts.skip(1)
        } else {
            pts
        };
        let nfirst = if pts.len() > 0 {
            first
        } else {
            None
        };
        let np = spec_doubled(next);
        assert(pt_bounded(np));
        let whole = spec_draw_cmds(pts, first, latest_on, prev_off);
        match prev_off {
            Some(po) => if next.on_curve {
                lemma_draw_cmds_bounded(rest, nfirst, np, None);
                let tail = spec_draw_cmds(rest, nfirst, np, None);
                assert forall|k: int| 0 <= k < whole.len() implies cmd_bounded(whole[k]) by {
                    if k > 0 {
                        assert(whole[k] == tail[k - 1]);
                    }
                }
            } else {
                let mid = spec_midpoint(po, np);
                assert(pt_bounded(mid));
                lemma_draw_cmds_bounded(rest, nfirst, mid, Some(np));
                let tail = spec_draw_cmds(rest, nfirst, mid, Some(np));
                assert forall|k: int| 0 <= k < whole.len() implies cmd_bounded(whole[k]) by {
                    if k > 0 {
                        assert(whole[k] == tail[k - 1]);
                    }
                }
            },
            None => if next.on_curve {
                lemma_draw_cmds_bounded(rest, nfirst, np, None);
                let tail = spec_draw_cmds(rest, nfirst, np, None);
                assert forall|k: int| 0 <= k < whole.len() implies cmd_bounded(whole[k]) by {
                    if k > 0 {
                        assert(whole[k] == tail[k - 1]);
                    }
                }
            } else {
                lemma_draw_cmds_bounded(rest, nfirst, latest_on, Some(np));
                let tail = spec_draw_cmds(rest, nfirst, latest_on, Some(np));
                assert forall|k: int| 0 <= k < whole.len() implies cmd_bounded(whole[k]) by {
                    assert(whole[k] == tail[k]);
                }
            },
        }
    }
}

/// The line segments the drawing steps flatten into: lines pass through,
/// curves become their segment chains.
pub open spec fn spec_flatten(cmds: Seq<DrawCommand>) -> Seq<(Point, Point)>
    decreases cmds.len(),
{
    if cmds.len() == 0 {
        Seq::empty()
    } else {
        (match cmds[0] {
            DrawCommand::Line(a, b) => seq![(a, b)],
            DrawCommand::Curve(a, c, b) => spec_curve_segments(a, c, b),
        }) + spec_flatten(cmds.skip(1))
    }
}

/// A contour's drawing steps with every curve flattened to line segments.
pub struct FlattenedDrawCommands {
    pub segments: Vec<(Point, Point)>,
}

impl FlattenedDrawCommands {
    /// Derive and flatten the drawing steps of the closed contour through
    /// `coords`.  A contour starts on the outline.
    pub fn from_coordinates(coords: &[Coordinate]) -> (r: FlattenedDrawCommands)
        requires
            coords@.len() > 0 ==> coords@[0].on_curve,
        ensures
            r.segments@ == spec_flatten(spec_commands(coords@)),
    {
        let dcs = DrawCommands::from_coordinates(coords);
        proof {
            if coords@.len() > 0 {
                lemma_draw_cmds_bounded(
                    coords@.skip(1),
                    Some(coords@[0]),
                    spec_doubled(coords@[0]),
                    None,
                );
            }
        }
        let n = dcs.commands.len();
        let mut segments: Vec<(Point, Point)> = Vec::new();
        let mut i: usize = 0;
        proof {
            assert(dcs.commands@.skip(0) =~= dcs.commands@);
            assert(Seq::<(Point, Point)>::empty() + spec_flatten(dcs.commands@) =~= spec_flatten(
                dcs.commands@,
            ));
        }
        while i < n
            invariant
                0 <= i <= n,
                n == dcs.commands@.len(),
                forall|k: int| 0 <= k < n ==> cmd_bounded(#[trigger] dcs.commands@[k]),
                spec_flatten(dcs.commands@) == segments@ + spec_flatten(dcs.commands@.skip(i as int)),
            decreases n - i,
        {
            proof {
                assert(dcs.commands@.skip(i as int)[0] == dcs.commands@[i as int]);
                assert(dcs.commands@.skip(i as int).skip(1) =~= dcs.commands@.skip(i as int + 1));
            }
            match *vstd::slice::slice_index_get(dcs.commands.as_slice(), i) {
                DrawCommand::Line(a, b) => {
                    segments.push((a, b));
                },
                DrawCommand::Curve(a, c, b) => {
                    let cl = CurveLines::new(a, c, b);
                    let m = cl.segments.len();
                    let mut j: usize = 0;
                    let ghost base = segments@;
                    while j < m
                        invariant
                            0 <= j <= m,
                            m == cl.segments@.len(),
                            segments@ == base + cl.segments@.take(j as int),
                        decreases m - j,
                    {
                        let seg = *vstd::slice::slice_index_get(cl.segments.as_slice(), j);
                        segments.push(seg);
                        proof {
                            assert(base + cl.segments@.take(j as int + 1) =~= (base
                                + cl.segments@.take(j as int)).push(cl.segments@[j as int]));
                        }
                        j = j + 1;
                    }
                    proof {
                        assert(cl.segments@.take(m as int) =~= cl.segments@);
                    }
                },
            }
            i = i + 1;
        }
        proof {
            assert(spec_flatten(dcs.commands@.skip(n as int)) =~= Seq::<(Point, Point)>::empty());
            assert(segments@ =~= spec_flatten(spec_commands(coords@)));
        }
        FlattenedDrawCommands { segments }
    }
}

/// The signed crossing direction of a non-horizontal segment: one for
/// upward travel, minus one for downward.
pub open spec fn seg_contrib(l: LineSegment) -> int {
    if l.0.y > l.1.y {
        -1
    } else {
        1
    }
}

/// The pixel column of a segment's crossing with the scanline at height
/// `y`, in whole pixels: positions are half units, so the exact crossing
/// is halved and rounded once.
pub open spec fn spec_cross_col(l: LineSegment, y: int) -> int {
    let (s, e) = if l.0.y < l.1.y {
        (l.0, l.1)
    } else {
        (l.1, l.0)
    };
    rdiv(s.x * (e.y - s.y) + (y - s.y) * (e.x - s.x), 2 * (e.y - s.y))
}

/// What a segment adds to the winding count of the pixel at (`col`,
/// `row`): its direction, for every pixel from its crossing with the
/// row's center scanline rightward.
pub open spec fn pixel_contrib(l: LineSegment, row: int, col: int) -> int {
    let yc = 2 * row + 1;
    let start = if spec_cross_col(l, yc) < 0 {
        0
    } else {
        spec_cross_col(l, yc)
    };
    if l.spec_crosses(yc) && start <= col {
        seg_contrib(l)
    } else {
        0
    }
}

/// The winding count the first `k` segments accumulate at a pixel.
pub open spec fn winding_prefix(lines: Seq<LineSegment>, k: int, row: int, col: int) -> int
    decreases k,
{
    if k <= 0 {
        0
    } else {
        winding_prefix(lines, k - 1, row, col) + pixel_contrib(lines[k - 1], row, col)
    }
}

/// The winding count all segments accumulate at a pixel.
pub open spec fn spec_winding(lines: Seq<LineSegment>, row: int, col: int) -> int {
    winding_prefix(lines, lines.len() as int, row, col)
}

/// A winding count over `k` segments stays within `k` of zero.
proof fn lemma_winding_prefix_bound(lines: Seq<LineSegment>, k: int, row: int, col: int)
    requires
        k >= 0,
    ensures
        -k <= winding_prefix(lines, k, row, col) <= k,
    decreases k,
{
    if k > 0 {
        lemma_winding_prefix_bound(lines, k - 1, row, col);
    }
}

/// The pixel column of this segment's crossing with the horizontal line
/// at height `y`, rounded once from the exact rational crossing.  `None`
/// when the segment does not cross that height.
fn cross_column(l: &LineSegment, y: i32) -> (r: Option<i32>)
    requires
        pt_bounded(l.0),
        pt_bounded(l.1),
        -0x10000 <= y <= 0x10000,
    ensures
        r is Some <==> l.spec_crosses(y as int),
        r is Some ==> r.unwrap() == spec_cross_col(*l, y as int),
{
    if l.0.y == l.1.y {
        return None;
    }
    let (s, e) = if l.0.y < l.1.y {
        (l.0, l.1)
    } else {
        (l.1, l.0)
    };
    if y < s.y || y > e.y {
        return None;
    }
    let dy = e.y as i64 - s.y as i64;
    proof {
        assert(-0x10000 * 0x20000 <= s.x as int * (dy as int) <= 0x10000 * 0x20000 && -0x20000
            * 0x20000 <= (y as int - s.y as int) * (e.x as int - s.x as int) <= 0x20000 * 0x20000)
            by (nonlinear_arith)
            requires
                -0x10000 <= s.x <= 0x10000,
                0 < dy as int <= 0x20000,
                0 <= y as int - s.y as int <= 0x20000,
                -0x20000 <= e.x as int - s.x as int <= 0x20000,
        ;
    }
    let num = s.x as i64 * dy + (y as i64 - s.y as i64) * (e.x as i64 - s.x as i64);
    let den = 2 * dy;
    let shift: i64 = 0x18001;
    proof {
        assert(-0x30000 * dy <= num <= 0x30000 * dy && 0x30000 * dy <= 0x18000 * den && 0x18000
            * den < shift * den && shift * den <= 0x18001 * 0x40000) by (nonlinear_arith)
            requires
                -0x10000 <= s.x <= 0x10000,
                0 <= y as int - s.y as int <= dy as int,
                -0x20000 <= e.x as int - s.x as int <= 0x20000,
                0 < dy as int <= 0x20000,
                den == 2 * dy,
                num == s.x as int * (dy as int) + (y as int - s.y as int) * (e.x as int
                    - s.x as int),
                shift == 0x18001,
        ;
        lemma_rdiv_shift(num as int, den as int, shift as int);
    }
    let num_sh = (num + shift * den) as u64;
    let q_u = (num_sh + (den as u64) / 2) / (den as u64);
    proof {
        assert(q_u == rdiv(num + shift * den, den as int));
        assert(-0x18001 <= rdiv(num as int, den as int) <= 0x18001) by (nonlinear_arith)
            requires
                -0x18000 * (den as int) <= num as int <= 0x18000 * (den as int),
                0 < den as int,
        ;
    }
    let q = q_u as i64 - shift;
    Some(q as i32)
}

/// A scanline rasterizer: collects the outline's line segments, then
/// accumulates signed winding counts per pixel and fills where the count
/// is nonzero.
pub struct FillInRaster {
    pub windings: Matrix<i32>,
    pub lines: Vec<LineSegment>,
}

impl FillInRaster {
    /// The raster's grid is whole and empty so far, and its segments are
    /// non-horizontal and within range.
    pub open spec fn wf(self) -> bool {
        &&& self.windings.wf()
        &&& self.windings.width <= 0x4000
        &&& self.windings.height <= 0x4000
        &&& forall|k: int|
            0 <= k < self.lines@.len() ==> {
                let l = #[trigger] self.lines@[k];
                l.0.y != l.1.y && pt_bounded(l.0) && pt_bounded(l.1)
            }
        &&& forall|i: int| 0 <= i < self.windings.data@.len() ==> self.windings.data@[i] == 0int
    }

    /// An empty raster of the given pixel dimensions.
    pub fn new(width: u32, height: u32) -> (r: FillInRaster)
        requires
            width <= 0x4000,
            height <= 0x4000,
        ensures
            r.wf(),
            r.windings.width == width,
            r.windings.height == height,
            r.lines@.len() == 0,
    {
        proof {
            assert(width * height <= 0x4000 * 0x4000) by (nonlinear_arith)
                requires
                    width <= 0x4000,
                    height <= 0x4000,
            ;
        }
        FillInRaster { windings: Matrix::with_value(0i32, width, height), lines: Vec::new() }
    }

    /// Collect one segment.  Horizontal segments define no scanline
    /// crossing and are dropped here.
    pub fn add_line(&mut self, start: Point, end: Point)
        requires
            old(self).wf(),
            pt_bounded(start),
            pt_bounded(end),
        ensures
            final(self).wf(),
            final(self).windings == old(self).windings,
            start.y == end.y ==> final(self).lines@ == old(self).lines@,
            start.y != end.y ==> final(self).lines@ == old(self).lines@.push(
                LineSegment(start, end),
            ),
    {
        if start.y != end.y {
            self.lines.push(LineSegment(start, end));
        }
    }

    /// Fill the raster: for each row, every segment crossing the row's
    /// center scanline adds its direction to the winding count of each
    /// pixel from the crossing rightward; a pixel is inked (zero) exactly
    /// where its count is nonzero, and background (0xFF) elsewhere.
    pub fn into_bitmap(self) -> (r: Matrix<u8>)
        requires
            self.wf(),
            self.lines@.len() <= 0x7FFFFFF0,
        ensures
            r.wf(),
            r.width == self.windings.width,
            r.height == self.windings.height,
            forall|x: int, y: int|
                0 <= x < r.width && 0 <= y < r.height ==> r.spec_at(x, y) == (if spec_winding(
                    self.lines@,
                    y,
                    x,
                ) != 0 {
                    0u8
                } else {
                    0xFFu8
                }),
    {
        let width = self.windings.width;
        let height = self.windings.height;
        let lines = self.lines;
        let mut windings = self.windings;
        let nlines = lines.len();
        proof {
            assert forall|x: int, row: int|
                0 <= x < width && 0 <= row < height implies windings.spec_at(x, row) == 0int by {
                windings.lemma_index_in_range(x, row);
            }
        }
        let mut y: usize = 0;
        while y < height
            invariant
                0 <= y <= height,
                windings.wf(),
                windings.width == width,
                windings.height == height,
                width <= 0x4000,
                height <= 0x4000,
                nlines == lines@.len() <= 0x7FFFFFF0,
                forall|k: int|
                    0 <= k < lines@.len() ==> {
                        let l = #[trigger] lines@[k];
                        l.0.y != l.1.y && pt_bounded(l.0) && pt_bounded(l.1)
                    },
                forall|x: int, row: int|
                    0 <= x < width && 0 <= row < y ==> windings.spec_at(x, row) == spec_winding(
                        lines@,
                        row,
                        x,
                    ),
                forall|x: int, row: int|
                    0 <= x < width && y <= row < height ==> windings.spec_at(x, row) == 0int,
            decreases height - y,
        {
            let yc = 2 * (y as i32) + 1;
            let mut k: usize = 0;
            while k < nlines
                invariant
                    0 <= k <= nlines,
                    0 <= y < height,
                    yc == 2 * y + 1,
                    windings.wf(),
                    windings.width == width,
                    windings.height == height,
                    width <= 0x4000,
                    height <= 0x4000,
                    nlines == lines@.len() <= 0x7FFFFFF0,
                    forall|kk: int|
                        0 <= kk < lines@.len() ==> {
                            let l = #[trigger] lines@[kk];
                            l.0.y != l.1.y && pt_bounded(l.0) && pt_bounded(l.1)
                        },
                    forall|x: int, row: int|
                        0 <= x < width && 0 <= row < y ==> windings.spec_at(x, row)
                            == spec_winding(lines@, row, x),
                    forall|x: int, row: int|
                        0 <= x < width && y < row < height ==> windings.spec_at(x, row) == 0int,
                    forall|x: int|
                        0 <= x < width ==> windings.spec_at(x, y as int) == winding_prefix(
                            lines@,
                            k as int,
                            y as int,
                            x,
                        ),
                decreases nlines - k,
            {
                let l = *vstd::slice::slice_index_get(lines.as_slice(), k);
                match cross_column(&l, yc) {
                    None => {
                        proof {
                            assert forall|x: int| 0 <= x < width implies windings.spec_at(
                                x,
                                y as int,
                            ) == winding_prefix(lines@, k as int + 1, y as int, x) by {
                                assert(pixel_contrib(lines@[k as int], y as int, x) == 0);
                            }
                        }
                    },
                    Some(col) => {
                        let wind_val: i32 = if l.0.y > l.1.y {
                            -1
                        } else {
                            1
                        };
                        let startc: usize = if col < 0 {
                            0
                        } else if col as usize > width {
                            width
                        } else {
                            col as usize
                        };
                        let ghost cstart = if spec_cross_col(l, yc as int) < 0 {
                            0int
                        } else {
                            spec_cross_col(l, yc as int)
                        };
                        let mut c = startc;
                        while c < width
                            invariant
                                startc <= c <= width,
                                0 <= y < height,
                                startc == if cstart >= width as int {
                                    width as int
                                } else {
                                    cstart
                                },
                                0 <= cstart,
                                windings.wf(),
                                windings.width == width,
                                windings.height == height,
                                width <= 0x4000,
                                height <= 0x4000,
                                nlines == lines@.len() <= 0x7FFFFFF0,
                                k < nlines,
                                l == lines@[k as int],
                                wind_val == seg_contrib(l),
                                l.spec_crosses(yc as int),
                                yc == 2 * y + 1,
                                cstart == if spec_cross_col(l, yc as int) < 0 {
                                    0int
                                } else {
                                    spec_cross_col(l, yc as int)
                                },
                                forall|x: int, row: int|
                                    0 <= x < width && 0 <= row < y ==> windings.spec_at(x, row)
                                        == spec_winding(lines@, row, x),
                                forall|x: int, row: int|
                                    0 <= x < width && y < row < height ==> windings.spec_at(x, row)
                                        == 0int,
                                forall|x: int|
                                    0 <= x < startc ==> windings.spec_at(x, y as int)
                                        == winding_prefix(lines@, k as int, y as int, x),
                                forall|x: int|
                                    startc <= x < c ==> windings.spec_at(x, y as int)
                                        == winding_prefix(lines@, k as int, y as int, x)
                                        + seg_contrib(l),
                                forall|x: int|
                                    c <= x < width ==> windings.spec_at(x, y as int)
                                        == winding_prefix(lines@, k as int, y as int, x),
                            decreases width - c,
                        {
                            let v = windings.at(c, y);
                            proof {
                                lemma_winding_prefix_bound(lines@, k as int, y as int, c as int);
                            }
                            windings.set(c, y, v + wind_val);
                            c = c + 1;
                        }
                        proof {
                            assert forall|x: int| 0 <= x < width implies windings.spec_at(
                                x,
                                y as int,
                            ) == winding_prefix(lines@, k as int + 1, y as int, x) by {
                                if cstart <= x {
                                    assert(pixel_contrib(lines@[k as int], y as int, x)
                                        == seg_contrib(l));
                                } else {
                                    assert(pixel_contrib(lines@[k as int], y as int, x) == 0);
                                }
                            }
                        }
                    },
                }
                k = k + 1;
            }
            y = y + 1;
        }
        proof {
            assert(width * height <= 0x4000 * 0x4000) by (nonlinear_arith)
                requires
                    width <= 0x4000,
                    height <= 0x4000,
            ;
        }
        let mut out = Matrix::with_value(0xFFu8, width as u32, height as u32);
        proof {
            assert forall|x: int, row: int|
                0 <= x < width && 0 <= row < height implies out.spec_at(x, row) == 0xFFu8 by {
                out.lemma_index_in_range(x, row);
            }
        }
        let mut y2: usize = 0;
        while y2 < height
            invariant
                0 <= y2 <= height,
                out.wf(),
                out.width == width,
                out.height == height,
                windings.wf(),
                windings.width == width,
                windings.height == height,
                forall|x: int, row: int|
                    0 <= x < width && 0 <= row < height ==> windings.spec_at(x, row)
                        == spec_winding(lines@, row, x),
                forall|x: int, row: int|
                    0 <= x < width && 0 <= row < y2 ==> out.spec_at(x, row) == (if spec_winding(
                        lines@,
                        row,
                        x,
                    ) != 0 {
                        0u8
                    } else {
                        0xFFu8
                    }),
                forall|x: int, row: int|
                    0 <= x < width && y2 <= row < height ==> out.spec_at(x, row) == 0xFFu8,
            decreases height - y2,
        {
            let mut x2: usize = 0;
            while x2 < width
                invariant
                    0 <= x2 <= width,
                    0 <= y2 < height,
                    out.wf(),
                    out.width == width,
                    out.height == height,
                    windings.wf(),
                    windings.width == width,
                    windings.height == height,
                    forall|x: int, row: int|
                        0 <= x < width && 0 <= row < height ==> windings.spec_at(x, row)
                            == spec_winding(lines@, row, x),
                    forall|x: int, row: int|
                        0 <= x < width && 0 <= row < y2 ==> out.spec_at(x, row) == (if spec_winding(
                            lines@,
                            row,
                            x,
                        ) != 0 {
                            0u8
                        } else {
                            0xFFu8
                        }),
                    forall|x: int|
                        0 <= x < x2 ==> out.spec_at(x, y2 as int) == (if spec_winding(
                            lines@,
                            y2 as int,
                            x,
                        ) != 0 {
                            0u8
                        } else {
                            0xFFu8
                        }),
                    forall|x: int, row: int|
                        (0 <= x < width && y2 < row < height) || (x2 <= x < width && row == y2)
                            ==> out.spec_at(x, row) == 0xFFu8,
                decreases width - x2,
            {
                if windings.at(x2, y2) != 0 {
                    out.set(x2, y2, 0x00u8);
                }
                x2 = x2 + 1;
            }
            y2 = y2 + 1;
        }
        out
    }
}


/// Every interpolated point of a curve with bounded ends and control
/// stays within the pipeline's coordinate range.
pub proof fn lemma_curve_point_bounded(start: Point, off: Point, end: Point, n: int, i: int)
    requires
        pt_bounded(start),
        pt_bounded(off),
        pt_bounded(end),
        1 <= n,
        0 <= i <= n,
    ensures
        pt_bounded(curve_point(start, off, end, n, i)),
{
    let nn = n * n;
    assert(0 <= (n - i) * (n - i) && 0 <= 2 * i * (n - i) && 0 <= i * i && (n - i) * (n - i) + 2
        * i * (n - i) + i * i == n * n && 0 < n * n) by (nonlinear_arith)
        requires
            1 <= n,
            0 <= i <= n,
    ;
    assert(-0x10000 * nn <= (n - i) * (n - i) * start.x + 2 * i * (n - i) * off.x + i * i * end.x
        <= 0x10000 * nn) by (nonlinear_arith)
        requires
            -0x10000 <= start.x <= 0x10000,
            -0x10000 <= off.x <= 0x10000,
            -0x10000 <= end.x <= 0x10000,
            0 <= (n - i) * (n - i),
            0 <= 2 * i * (n - i),
            0 <= i * i,
            (n - i) * (n - i) + 2 * i * (n - i) + i * i == nn,
    ;
    assert(-0x10000 * nn <= (n - i) * (n - i) * start.y + 2 * i * (n - i) * off.y + i * i * end.y
        <= 0x10000 * nn) by (nonlinear_arith)
        requires
            -0x10000 <= start.y <= 0x10000,
            -0x10000 <= off.y <= 0x10000,
            -0x10000 <= end.y <= 0x10000,
            0 <= (n - i) * (n - i),
            0 <= 2 * i * (n - i),
            0 <= i * i,
            (n - i) * (n - i) + 2 * i * (n - i) + i * i == nn,
    ;
    lemma_rdiv_bound(
        (n - i) * (n - i) * start.x + 2 * i * (n - i) * off.x + i * i * end.x,
        nn,
        0x10000,
    );
    lemma_rdiv_bound(
        (n - i) * (n - i) * start.y + 2 * i * (n - i) * off.y + i * i * end.y,
        nn,
        0x10000,
    );
}

/// Flattening drawing steps with bounded points yields segments with
/// bounded endpoints.
pub proof fn lemma_flatten_bounded(cmds: Seq<DrawCommand>)
    requires
        forall|k: int| 0 <= k < cmds.len() ==> cmd_bounded(#[trigger] cmds[k]),
    ensures
        forall|j: int|
            0 <= j < spec_flatten(cmds).len() ==> pt_bounded(
                (#[trigger] spec_flatten(cmds)[j]).0,
            ) && pt_bounded(spec_flatten(cmds)[j].1),
    decreases cmds.len(),
{
    if cmds.len() > 0 {
        assert(cmd_bounded(cmds[0]));
        let head: Seq<(Point, Point)> = match cmds[0] {
            DrawCommand::Line(a, b) => seq![(a, b)],
            DrawCommand::Curve(a, c, b) => spec_curve_segments(a, c, b),
        };
        assert forall|j: int| 0 <= j < head.len() implies pt_bounded((#[trigger] head[j]).0)
            && pt_bounded(head[j].1) by {
            match cmds[0] {
                DrawCommand::Line(a, b) => {
                },
                DrawCommand::Curve(a, c, b) => {
                    let n = curve_steps(a, c, b);
                    lemma_curve_steps_range(a, c, b);
                    lemma_curve_point_bounded(a, c, b, n, j);
                    lemma_curve_point_bounded(a, c, b, n, j + 1);
                },
            }
        }
        assert(forall|k: int|
            0 <= k < cmds.skip(1).len() ==> cmd_bounded(#[trigger] cmds.skip(1)[k]));
        lemma_flatten_bounded(cmds.skip(1));
        let tail = spec_flatten(cmds.skip(1));
        assert forall|j: int| 0 <= j < spec_flatten(cmds).len() implies pt_bounded(
            (#[trigger] spec_flatten(cmds)[j]).0,
        ) && pt_bounded(spec_flatten(cmds)[j].1) by {
            if j < head.len() {
                assert(spec_flatten(cmds)[j] == head[j]);
            } else {
                assert(spec_flatten(cmds)[j] == tail[j - head.len()]);
            }
        }
    }
}

/// Scale a half-unit position from the design grid to half pixels:
/// shift it against the origin, then multiply by the size over the grid's
/// units per em, rounding once.
pub fn scale_coord(v: i32, origin: i32, size: i64, upem: i64) -> (r: i32)
    requires
        -0x10000 <= v <= 0x10000,
        -0x10000 <= origin <= 0x10000,
        1 <= size,
        1 <= upem <= 0xFFFF,
        0x20000 * size <= 0x10000 * upem,
    ensures
        r == rdiv((v - origin) * size, upem as int),
        -0x10000 <= r <= 0x10000,
{
    proof {
        assert(-0x10000 * upem <= (v as int - origin as int) * size <= 0x10000 * upem)
            by (nonlinear_arith)
            requires
                -0x20000 <= v as int - origin as int <= 0x20000,
                1 <= size,
                0x20000 * size <= 0x10000 * upem,
        ;
    }
    let num = (v as i64 - origin as i64) * size;
    let shift: i64 = 0x10001;
    proof {
        assert(0x10000 * upem < shift * upem && shift * upem <= 0x10001 * 0xFFFF)
            by (nonlinear_arith)
            requires
                1 <= upem <= 0xFFFF,
                shift == 0x10001,
        ;
        lemma_rdiv_shift(num as int, upem as int, shift as int);
        lemma_rdiv_bound(num as int, upem as int, 0x10000);
    }
    let num_sh = (num + shift * upem) as u64;
    let q_u = (num_sh + (upem as u64) / 2) / (upem as u64);
    proof {
        assert(q_u == rdiv(num + shift * upem, upem as int));
    }
    let q = q_u as i64 - shift;
    q as i32
}


/// A half-unit position scaled from the design grid to half pixels:
/// shifted against the origin, multiplied by the size over the units per
/// em, each coordinate rounded once.
pub open spec fn spec_scale_pt(p: Point, xo: int, yo: int, size: int, upem: int) -> Point {
    Point { x: rdiv((p.x - xo) * size, upem) as i32, y: rdiv((p.y - yo) * size, upem) as i32 }
}

/// The raster segments of a flattened chain: every segment scaled to half
/// pixels, those landing horizontal dropped, in order.
pub open spec fn scaled_lines(
    segs: Seq<(Point, Point)>,
    xo: int,
    yo: int,
    size: int,
    upem: int,
) -> Seq<LineSegment>
    decreases segs.len(),
{
    if segs.len() == 0 {
        Seq::empty()
    } else {
        let rest = scaled_lines(segs.drop_last(), xo, yo, size, upem);
        let a = spec_scale_pt(segs.last().0, xo, yo, size, upem);
        let b = spec_scale_pt(segs.last().1, xo, yo, size, upem);
        if a.y == b.y {
            rest
        } else {
            rest.push(LineSegment(a, b))
        }
    }
}

/// The raster segments of one contour of a simple glyph.
pub open spec fn contour_lines(
    simp: crate::tables::glyf::SimpleGlyph,
    ci: int,
    xo: int,
    yo: int,
    size: int,
    upem: int,
) -> Seq<LineSegment> {
    scaled_lines(spec_flatten(spec_commands(simp.spec_contour(ci))), xo, yo, size, upem)
}

/// The raster segments of a simple glyph's first `n` contours, in order.
pub open spec fn lines_through(
    simp: crate::tables::glyf::SimpleGlyph,
    n: int,
    xo: int,
    yo: int,
    size: int,
    upem: int,
) -> Seq<LineSegment>
    decreases n,
{
    if n <= 0 {
        Seq::empty()
    } else {
        lines_through(simp, n - 1, xo, yo, size, upem) + contour_lines(
            simp,
            n - 1,
            xo,
            yo,
            size,
            upem,
        )
    }
}

/// A prefix of a flattened chain yields no more raster segments than the
/// whole chain.
pub proof fn lemma_scaled_take_le(
    segs: Seq<(Point, Point)>,
    j: int,
    xo: int,
    yo: int,
    size: int,
    upem: int,
)
    requires
        0 <= j <= segs.len(),
    ensures
        scaled_lines(segs.take(j), xo, yo, size, upem).len() <= scaled_lines(
            segs,
            xo,
            yo,
            size,
            upem,
        ).len(),
    decreases segs.len(),
{
    if j == segs.len() {
        assert(segs.take(j) =~= segs);
    } else {
        assert(segs.drop_last().take(j) =~= segs.take(j));
        lemma_scaled_take_le(segs.drop_last(), j, xo, yo, size, upem);
    }
}

/// The first contours, with the current contour's whole chain, yield no
/// more raster segments than all contours together.
pub proof fn lemma_lines_through_le(
    simp: crate::tables::glyf::SimpleGlyph,
    ci: int,
    n: int,
    xo: int,
    yo: int,
    size: int,
    upem: int,
)
    requires
        0 <= ci < n,
    ensures
        lines_through(simp, ci, xo, yo, size, upem).len() + contour_lines(
            simp,
            ci,
            xo,
            yo,
            size,
            upem,
        ).len() <= lines_through(simp, n, xo, yo, size, upem).len(),
    decreases n,
{
    if ci < n - 1 {
        lemma_lines_through_le(simp, ci, n - 1, xo, yo, size, upem);
    }
}

/// Winding fill of one consistently wound axis-aligned box, drawn as an
/// upward left edge and a downward right edge (its horizontal edges
/// define no crossing and are dropped at insertion).  On every scanline
/// the box spans, exactly the pixels from the left edge's column up to,
/// but not including, the right edge's column carry a nonzero winding
/// count; every pixel on other scanlines carries zero.
pub proof fn lemma_box_winding(lx: i32, rx: i32, yb: i32, yt: i32, row: int, col: int)
    requires
        yb < yt,
        lx <= rx,
    ensures
        ({
            let l = LineSegment(Point { x: lx, y: yb }, Point { x: lx, y: yt });
            let r = LineSegment(Point { x: rx, y: yt }, Point { x: rx, y: yb });
            let lines = seq![l, r];
            let yc = 2 * row + 1;
            let cl = if spec_cross_col(l, yc) < 0 {
                0int
            } else {
                spec_cross_col(l, yc)
            };
            let cr = if spec_cross_col(r, yc) < 0 {
                0int
            } else {
                spec_cross_col(r, yc)
            };
            &&& cl <= cr
            &&& yb <= yc <= yt ==> (spec_winding(lines, row, col) != 0 <==> cl <= col < cr)
            &&& !(yb <= yc <= yt) ==> spec_winding(lines, row, col) == 0
        }),
{
    let l = LineSegment(Point { x: lx, y: yb }, Point { x: lx, y: yt });
    let r = LineSegment(Point { x: rx, y: yt }, Point { x: rx, y: yb });
    let lines = seq![l, r];
    let yc = 2 * row + 1;
    let dy = yt - yb;
    assert(lines[0] == l && lines[1] == r && lines.len() == 2);
    assert(winding_prefix(lines, 0, row, col) == 0);
    assert(winding_prefix(lines, 1, row, col) == pixel_contrib(l, row, col));
    assert(winding_prefix(lines, 2, row, col) == pixel_contrib(l, row, col) + pixel_contrib(
        r,
        row,
        col,
    ));
    assert(seg_contrib(l) == 1 && seg_contrib(r) == -1);
    assert(spec_cross_col(l, yc) == rdiv(lx * dy + (yc - yb) * 0, 2 * dy));
    assert(spec_cross_col(r, yc) == rdiv(rx * dy + (yc - yb) * 0, 2 * dy));
    assert(lx * dy <= rx * dy) by (nonlinear_arith)
        requires
            lx <= rx,
            dy > 0,
    ;
    vstd::arithmetic::div_mod::lemma_div_is_ordered(
        lx * dy + (2 * dy) / 2,
        rx * dy + (2 * dy) / 2,
        2 * dy,
    );
}

} // verus!
