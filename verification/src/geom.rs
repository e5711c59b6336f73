//! 2D geometry primitives: grid points and cubic Bezier segments.

use vstd::prelude::*;

verus! {

/// Largest coordinate magnitude the engine works with.  Keeping every
/// coordinate inside this range lets all of the geometric arithmetic
/// (reflections, Bezier sampling) stay comfortably inside `i64`.
pub const MAX_COORD: i64 = 1048576;

/// A point (or vector) on the 2D integer pixel grid.
#[derive(Clone, Copy, Debug, PartialEq, Eq, Structural, Hash)]
pub struct Point2D {
    pub x: i64,
    pub y: i64,
}

impl Point2D {
    /// Create a new point from its coordinates.
    pub fn new(x: i64, y: i64) -> (r: Point2D)
        ensures
            r.x == x,
            r.y == y,
    {
        Point2D { x, y }
    }

    /// True when both coordinates are small enough for safe arithmetic.
    pub open spec fn in_range(self) -> bool {
        -MAX_COORD <= self.x <= MAX_COORD && -MAX_COORD <= self.y <= MAX_COORD
    }

    /// Vector addition of two points.
    pub fn add(self, other: Point2D) -> (r: Point2D)
        requires
            self.in_range(),
            other.in_range(),
        ensures
            r.x == self.x + other.x,
            r.y == self.y + other.y,
    {
        Point2D { x: self.x + other.x, y: self.y + other.y }
    }
}

/// How many grid samples are taken along one cubic Bezier segment.
pub const BEZIER_SAMPLES: i64 = 1000;

/// The numerator of the cubic Bezier polynomial at sample `i` of `n` along
/// one axis, in units of `n^3`: the usual Bernstein weights applied to the
/// four control values.
pub open spec fn bezier_num(p0: int, p1: int, p2: int, p3: int, i: int, n: int) -> int {
    p0 * ((n - i) * (n - i) * (n - i)) + 3 * p1 * ((n - i) * (n - i) * i) + 3 * p2 * ((n - i) * i
        * i) + p3 * (i * i * i)
}

/// A cubic Bezier segment between two anchors with two inferred control
/// points, sampled on the integer pixel grid.
#[derive(Clone, Copy, Debug)]
pub struct CubicBezierSegment {
    pub from: Point2D,
    pub ctrl1: Point2D,
    pub ctrl2: Point2D,
    pub to: Point2D,
}

impl CubicBezierSegment {
    /// All control points are small enough for the sampling arithmetic.
    pub open spec fn wf(&self) -> bool {
        &&& -2 * MAX_COORD <= self.from.x <= 2 * MAX_COORD
        &&& -2 * MAX_COORD <= self.from.y <= 2 * MAX_COORD
        &&& -2 * MAX_COORD <= self.ctrl1.x <= 2 * MAX_COORD
        &&& -2 * MAX_COORD <= self.ctrl1.y <= 2 * MAX_COORD
        &&& -2 * MAX_COORD <= self.ctrl2.x <= 2 * MAX_COORD
        &&& -2 * MAX_COORD <= self.ctrl2.y <= 2 * MAX_COORD
        &&& -2 * MAX_COORD <= self.to.x <= 2 * MAX_COORD
        &&& -2 * MAX_COORD <= self.to.y <= 2 * MAX_COORD
    }

    /// The grid cell of sample `i`: the curve point at `t = i / n`,
    /// snapped down to the containing cell.
    pub open spec fn cell_at(&self, i: int) -> (int, int) {
        let n = BEZIER_SAMPLES as int;
        (
            bezier_num(self.from.x as int, self.ctrl1.x as int, self.ctrl2.x as int, self.to.x as int, i, n)
                / (n * n * n),
            bezier_num(self.from.y as int, self.ctrl1.y as int, self.ctrl2.y as int, self.to.y as int, i, n)
                / (n * n * n),
        )
    }

    /// Sample the curve at `t = i / 1000` and snap to the pixel grid.
    pub fn sample_cell(&self, i: i64) -> (c: Point2D)
        requires
            self.wf(),
            0 <= i <= BEZIER_SAMPLES,
        ensures
            (c.x as int, c.y as int) == self.cell_at(i as int),
    {
        let cx = bezier_axis_cell(self.from.x, self.ctrl1.x, self.ctrl2.x, self.to.x, i);
        let cy = bezier_axis_cell(self.from.y, self.ctrl1.y, self.ctrl2.y, self.to.y, i);
        Point2D { x: cx, y: cy }
    }
}

/// Evaluate one axis of the cubic polynomial at sample `i` and divide by
/// the sample cube, rounding towards negative infinity.
fn bezier_axis_cell(p0: i64, p1: i64, p2: i64, p3: i64, i: i64) -> (c: i64)
    requires
        -2 * MAX_COORD <= p0 <= 2 * MAX_COORD,
        -2 * MAX_COORD <= p1 <= 2 * MAX_COORD,
        -2 * MAX_COORD <= p2 <= 2 * MAX_COORD,
        -2 * MAX_COORD <= p3 <= 2 * MAX_COORD,
        0 <= i <= BEZIER_SAMPLES,
    ensures
        c as int == bezier_num(p0 as int, p1 as int, p2 as int, p3 as int, i as int, BEZIER_SAMPLES as int) / (
        (BEZIER_SAMPLES * BEZIER_SAMPLES * BEZIER_SAMPLES) as int),
{
    let n: i128 = BEZIER_SAMPLES as i128;
    let t1: i128 = n - i as i128;
    let t2: i128 = i as i128;
    let ghost nv: int = BEZIER_SAMPLES as int;
    proof {
        assert(0 <= t1 <= 1000 && 0 <= t2 <= 1000);
        assert(0 <= t1 * t1 <= 1000000 && 0 <= t1 * t2 <= 1000000 && 0 <= t2 * t2 <= 1000000 && 0
            <= t1 * t1 * t1 <= 1000000000 && 0 <= t1 * t1 * t2 <= 1000000000 && 0 <= t1 * t2 * t2
            <= 1000000000 && 0 <= t2 * t2 * t2 <= 1000000000) by (nonlinear_arith)
            requires
                0 <= t1 <= 1000,
                0 <= t2 <= 1000,
        ;
    }
    let w0: i128 = t1 * t1 * t1;
    let w1: i128 = 3 * (t1 * t1 * t2);
    let w2: i128 = 3 * (t1 * t2 * t2);
    let w3: i128 = t2 * t2 * t2;
    proof {
        let bound: int = 2 * MAX_COORD as int;
        assert(-bound * 3000000000 <= (p0 as i128) * w0 <= bound * 3000000000 && -bound
            * 3000000000 <= (p1 as i128) * w1 <= bound * 3000000000 && -bound * 3000000000 <= (
        p2 as i128) * w2 <= bound * 3000000000 && -bound * 3000000000 <= (p3 as i128) * w3 <= bound
            * 3000000000) by (nonlinear_arith)
            requires
                -bound <= (p0 as i128) <= bound,
                -bound <= (p1 as i128) <= bound,
                -bound <= (p2 as i128) <= bound,
                -bound <= (p3 as i128) <= bound,
                0 <= w0 <= 3000000000,
                0 <= w1 <= 3000000000,
                0 <= w2 <= 3000000000,
                0 <= w3 <= 3000000000,
        ;
    }
    let num: i128 = (p0 as i128) * w0 + (p1 as i128) * w1 + (p2 as i128) * w2 + (p3 as i128) * w3;
    let billion: i128 = 1000000000;
    let shift: i128 = 33554432;
    let shifted: i128 = num + shift * billion;
    assert(0 <= shifted);
    let q: i128 = (shifted as u128 / (billion as u128)) as i128;
    proof {
        assert((shifted as u128) / (billion as u128) == (shifted as int) / (billion as int));
        vstd::arithmetic::div_mod::lemma_hoist_over_denominator(
            num as int,
            shift as int,
            1000000000nat,
        );
        assert((num as int) / (billion as int) + (shift as int) == (shifted as int) / (
        billion as int));
        assert((nv * nv * nv) == 1000000000) by (nonlinear_arith)
            requires
                nv == 1000,
        ;
        assert(bezier_num(
            p0 as int,
            p1 as int,
            p2 as int,
            p3 as int,
            i as int,
            nv,
        ) == num as int) by (nonlinear_arith)
            requires
                nv == 1000,
                t1 == nv - i,
                t2 == i as i128,
                0 <= i <= 1000,
                w0 == t1 * t1 * t1,
                w1 == 3 * (t1 * t1 * t2),
                w2 == 3 * (t1 * t2 * t2),
                w3 == t2 * t2 * t2,
                num == (p0 as i128) * w0 + (p1 as i128) * w1 + (p2 as i128) * w2 + (p3 as i128)
                    * w3,
        ;
    }
    let r: i128 = q - shift;
    r as i64
}

/// An axis-aligned segment or rectangle given by two corner points; used
/// for mirror-axis guides and preview geometry.
#[derive(Clone, Copy, Debug, PartialEq, Eq, Structural)]
pub struct Rect {
    pub p0: Point2D,
    pub p1: Point2D,
}

/// True when `(x, y)` lies outside the `w` by `h` canvas.
pub open spec fn spec_oob(x: int, y: int, w: int, h: int) -> bool {
    x < 0 || y < 0 || x >= w || y >= h
}

/// Bounds check: is `(x, y)` outside a `w` by `h` canvas?
pub fn oob(x: i64, y: i64, w: i64, h: i64) -> (r: bool)
    ensures
        r == spec_oob(x as int, y as int, w as int, h as int),
{
    x < 0 || y < 0 || x >= w || y >= h
}

} // verus!
