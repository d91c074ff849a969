use vstd::prelude::*;
use vstd::arithmetic::div_mod::lemma_hoist_over_denominator;

verus! {

/// Division rounded to the nearest integer, halves rounding up; the
/// divisor must be positive.
pub open spec fn rdiv(a: int, b: int) -> int {
    (a + b / 2) / b
}

/// Shifting the dividend by a multiple of the divisor shifts a rounded
/// division's result by that multiple.
pub proof fn lemma_rdiv_shift(a: int, b: int, k: int)
    requires
        0 < b,
    ensures
        rdiv(a + k * b, b) == rdiv(a, b) + k,
{
    lemma_hoist_over_denominator(a + b / 2, k, b as nat);
    assert(a + k * b + b / 2 == (a + b / 2) + k * b);
}

/// A rounded division of a dividend within `m` multiples of the divisor
/// stays within `m` of zero.
pub proof fn lemma_rdiv_bound(a: int, b: int, m: int)
    requires
        0 < b,
        0 <= m,
        -m * b <= a <= m * b,
    ensures
        -m <= rdiv(a, b) <= m,
{
    assert(-m <= (a + b / 2) / b <= m) by (nonlinear_arith)
        requires
            0 < b,
            0 <= m,
            -m * b <= a <= m * b,
            0 <= b / 2 < b,
    ;
}

/// Divide rounding to the nearest integer, halves up: the runtime form
/// of `rdiv` for bounded arguments.
pub fn rdiv64(a: i64, b: i64) -> (r: i64)
    requires
        1 <= b <= 0x10000,
        -0x100000000 <= a <= 0x100000000,
    ensures
        r == rdiv(a as int, b as int),
        -0x100000000 <= r <= 0x100000000,
{
    let shift: i64 = 0x100000001;
    proof {
        assert(a + shift * b >= 0 && shift * b <= 0x100000001 * 0x10000) by (nonlinear_arith)
            requires
                1 <= b <= 0x10000,
                -0x100000000 <= a,
                shift == 0x100000001,
        ;
        lemma_rdiv_shift(a as int, b as int, shift as int);
        assert(-0x100000000 * b <= a <= 0x100000000 * b) by (nonlinear_arith)
            requires
                1 <= b,
                -0x100000000 <= a <= 0x100000000,
        ;
        lemma_rdiv_bound(a as int, b as int, 0x100000000);
    }
    let num_sh = (a + shift * b) as u64;
    let q_u = (num_sh + (b as u64) / 2) / (b as u64);
    proof {
        assert(q_u == rdiv(a + shift * b, b as int));
    }
    q_u as i64 - shift
}

/// A point on the integer grid.  The outline pipeline stores positions in
/// half units: a point at (x, y) design units or pixels is held as
/// (2x, 2y), so that implied midpoints and pixel centers stay exact.
#[derive(Debug, PartialEq, Clone, Copy)]
pub struct Point {
    pub x: i32,
    pub y: i32,
}

impl Point {
    /// The point halfway to `other`: exact, since positions are doubled.
    pub fn midpoint_to(&self, other: Point) -> (r: Point)
        requires
            i32::MIN <= self.x + other.x <= i32::MAX,
            i32::MIN <= self.y + other.y <= i32::MAX,
            (self.x + other.x) % 2 == 0,
            (self.y + other.y) % 2 == 0,
        ensures
            r.x == (self.x + other.x) / 2,
            r.y == (self.y + other.y) / 2,
    {
        Point { x: (self.x + other.x) / 2, y: (self.y + other.y) / 2 }
    }
}

/// A dense grid of values, row by row.
pub struct Matrix<T> {
    pub data: Vec<T>,
    pub width: usize,
    pub height: usize,
}

impl<T> Matrix<T> {
    /// The rows cover the whole grid.
    pub open spec fn wf(self) -> bool {
        self.data@.len() == self.width * self.height
    }

    /// The value at column `x` of row `y`.
    pub open spec fn spec_at(self, x: int, y: int) -> T {
        self.data@[x + y * self.width]
    }

    /// A grid position's flat index lies inside the grid's data.
    pub proof fn lemma_index_in_range(self, x: int, y: int)
        requires
            self.wf(),
            0 <= x < self.width,
            0 <= y < self.height,
        ensures
            0 <= x + y * self.width < self.data@.len(),
    {
        lemma_grid_index(self.width as int, self.height as int, x, y);
    }
}

impl<T: Copy> Matrix<T> {
    /// A grid holding `val` everywhere.
    pub fn with_value(val: T, width: u32, height: u32) -> (r: Matrix<T>)
        requires
            width * height <= usize::MAX,
        ensures
            r.wf(),
            r.width == width,
            r.height == height,
            forall|i: int| 0 <= i < r.data@.len() ==> r.data@[i] == val,
    {
        let width = width as usize;
        let height = height as usize;
        proof {
            assert(width * height <= usize::MAX) by (nonlinear_arith)
                requires
                    width * height <= usize::MAX as int,
            ;
        }
        let n = width * height;
        let mut data: Vec<T> = Vec::new();
        let mut i: usize = 0;
        while i < n
            invariant
                data@.len() == i,
                i <= n,
                forall|j: int| 0 <= j < i ==> data@[j] == val,
            decreases n - i,
        {
            data.push(val);
            i = i + 1;
        }
        Matrix { data, width, height }
    }

    /// Read the value at column `x` of row `y`.
    pub fn at(&self, x: usize, y: usize) -> (r: T)
        requires
            self.wf(),
            x < self.width,
            y < self.height,
        ensures
            r == self.spec_at(x as int, y as int),
    {
        // Materialize the data length as a machine word, so the flat
        // index is known to stay in range.
        let _len = self.data.len();
        proof {
            lemma_grid_index(self.width as int, self.height as int, x as int, y as int);
        }
        self.data[x + y * self.width]
    }

    /// Write the value at column `x` of row `y`.
    pub fn set(&mut self, x: usize, y: usize, val: T)
        requires
            old(self).wf(),
            x < old(self).width,
            y < old(self).height,
        ensures
            final(self).wf(),
            final(self).width == old(self).width,
            final(self).height == old(self).height,
            final(self).spec_at(x as int, y as int) == val,
            forall|i: int, j: int|
                0 <= i < final(self).width && 0 <= j < final(self).height && !(i == x && j == y)
                    ==> final(self).spec_at(i, j) == old(self).spec_at(i, j),
    {
        let _len = self.data.len();
        proof {
            lemma_grid_index(self.width as int, self.height as int, x as int, y as int);
        }
        let idx = x + y * self.width;
        self.data[idx] = val;
        proof {
            assert forall|i: int, j: int|
                0 <= i < self.width && 0 <= j < self.height && !(i == x && j
                    == y) implies self.spec_at(i, j) == old(self).spec_at(i, j) by {
                lemma_grid_index(self.width as int, self.height as int, i, j);
                lemma_grid_distinct(self.width as int, x as int, y as int, i, j);
            }
        }
    }
}

impl<T: Copy + Default> Matrix<T> {
    /// A grid holding the default value everywhere.
    pub fn new(width: u32, height: u32) -> (r: Matrix<T>)
        requires
            width * height <= usize::MAX,
        ensures
            r.wf(),
            r.width == width,
            r.height == height,
    {
        Self::with_value(Default::default(), width, height)
    }
}

/// A grid position's flat index lies inside the grid's data.
proof fn lemma_grid_index(width: int, height: int, x: int, y: int)
    requires
        0 <= x < width,
        0 <= y < height,
    ensures
        0 <= x + y * width < width * height,
{
    assert(x + y * width < width * height) by (nonlinear_arith)
        requires
            0 <= x < width,
            0 <= y < height,
    ;
    assert(0 <= y * width) by (nonlinear_arith)
        requires
            0 <= y,
            0 <= width,
    ;
}

/// Distinct grid positions have distinct flat indices.
proof fn lemma_grid_distinct(width: int, x1: int, y1: int, x2: int, y2: int)
    requires
        0 <= x1 < width,
        0 <= x2 < width,
        0 <= y1,
        0 <= y2,
        !(x1 == x2 && y1 == y2),
    ensures
        x1 + y1 * width != x2 + y2 * width,
{
    if y1 == y2 {
    } else {
        assert(x1 + y1 * width != x2 + y2 * width) by (nonlinear_arith)
            requires
                0 <= x1 < width,
                0 <= x2 < width,
                y1 != y2,
                0 <= y1,
                0 <= y2,
        ;
    }
}

/// A straight segment between two points, in the same half units as the
/// points it was built from.
#[derive(Debug, PartialEq, Clone, Copy)]
pub struct LineSegment(pub Point, pub Point);

impl LineSegment {
    /// Whether the horizontal line at height `y` crosses this segment's
    /// vertical extent.  Horizontal segments cross nothing.
    pub open spec fn spec_crosses(self, y: int) -> bool {
        let lo = if self.0.y < self.1.y {
            self.0.y as int
        } else {
            self.1.y as int
        };
        let hi = if self.0.y < self.1.y {
            self.1.y as int
        } else {
            self.0.y as int
        };
        self.0.y != self.1.y && lo <= y <= hi
    }

    /// The crossing's horizontal position, rounded to the nearest integer:
    /// the segment is reordered to travel upward and the line
    /// `x = x0 + (y - y0) * (x1 - x0) / (y1 - y0)` is solved at height `y`.
    pub open spec fn spec_cross_x(self, y: int) -> int {
        let (s, e) = if self.0.y < self.1.y {
            (self.0, self.1)
        } else {
            (self.1, self.0)
        };
        rdiv(s.x * (e.y - s.y) + (y - s.y) * (e.x - s.x), e.y - s.y)
    }

    /// Calculate the intersection with the horizontal line at height `y`,
    /// rounded to the nearest position.  `None` when the segment does not
    /// cross that height; a horizontal segment crosses nothing.
    pub fn horiz_line_intersects(&self, y: i32) -> (r: Option<i32>)
        requires
            -0x10000 <= self.0.x <= 0x10000,
            -0x10000 <= self.0.y <= 0x10000,
            -0x10000 <= self.1.x <= 0x10000,
            -0x10000 <= self.1.y <= 0x10000,
            -0x10000 <= y <= 0x10000,
        ensures
            r is Some <==> self.spec_crosses(y as int),
            r is Some ==> r.unwrap() == self.spec_cross_x(y as int),
    {
        if self.0.y == self.1.y {
            return None;
        }
        let (s, e) = if self.0.y < self.1.y {
            (self.0, self.1)
        } else {
            (self.1, self.0)
        };
        if y < s.y || y > e.y {
            return None;
        }
        let dy = e.y as i64 - s.y as i64;
        proof {
            assert(-0x10000 * 0x20000 <= s.x as int * (dy as int) <= 0x10000 * 0x20000
                && -0x20000 * 0x20000 <= (y as int - s.y as int) * (e.x as int - s.x as int)
                <= 0x20000 * 0x20000) by (nonlinear_arith)
                requires
                    -0x10000 <= s.x <= 0x10000,
                    0 < dy as int <= 0x20000,
                    0 <= y as int - s.y as int <= 0x20000,
                    -0x20000 <= e.x as int - s.x as int <= 0x20000,
            ;
        }
        let num = s.x as i64 * dy + (y as i64 - s.y as i64) * (e.x as i64 - s.x as i64);
        let shift: i64 = 0x30001;
        proof {
            assert(-0x30000 * dy <= num <= 0x30000 * dy && 0 < dy <= 0x20000) by (nonlinear_arith)
                requires
                    -0x10000 <= s.x <= 0x10000,
                    -0x10000 <= e.x <= 0x10000,
                    0 <= y - s.y <= dy,
                    -0x20000 <= e.x - s.x <= 0x20000,
                    0 < dy <= 0x20000,
                    num == s.x * dy + (y - s.y) * (e.x - s.x),
            ;
            assert(0x30000 * dy < shift * dy && shift * dy <= 0x30001 * 0x20000)
                by (nonlinear_arith)
                requires
                    0 < dy <= 0x20000,
                    shift == 0x30001,
            ;
            lemma_rdiv_shift(num as int, dy as int, shift as int);
        }
        let num_sh = (num + shift * dy) as u64;
        let q_u = (num_sh + (dy as u64) / 2) / (dy as u64);
        proof {
            assert(q_u == rdiv(num + shift * dy, dy as int));
            assert(-0x30001 <= rdiv(num as int, dy as int) <= 0x30001) by (nonlinear_arith)
                requires
                    -0x30000 * (dy as int) <= num as int <= 0x30000 * (dy as int),
                    0 < dy as int <= 0x20000,
            ;
        }
        let q = q_u as i64 - shift;
        Some(q as i32)
    }

    /// The signed crossing direction under the nonzero winding rule, for
    /// rays along the positive x axis: a segment travelling upward, or
    /// leftward when horizontal, counts one on-transition; the opposite
    /// directions count one off-transition.
    pub fn winding_value(&self) -> (r: i8)
        ensures
            self.0.y == self.1.y && self.0.x > self.1.x ==> r == 1,
            self.0.y == self.1.y && self.0.x <= self.1.x ==> r == -1,
            self.0.y > self.1.y ==> r == -1,
            self.0.y < self.1.y ==> r == 1,
    {
        if self.0.y == self.1.y {
            if self.0.x > self.1.x {
                1
            } else {
                -1
            }
        } else if self.0.y > self.1.y {
            -1
        } else {
            1
        }
    }
}

} // verus!
