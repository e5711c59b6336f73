//! Polylines: ordered anchor points recorded from pointer motion, with
//! straight-segment rasterization and Reumann-Witkam simplification.

use vstd::prelude::*;
use crate::algorithms::line::{line_points, pixel_perfect_line};
use crate::algorithms::pixel_perfect::{pixel_perfect, pixel_perfect_spec};
use crate::color::Color;
use crate::geom::{CubicBezierSegment, Point2D, BEZIER_SAMPLES, MAX_COORD};
use crate::pixels::{contains_pt, contains_xy, dedup_spec, extend_spec, Pixel, Pixels};

verus! {

/// A sixth of a delta, rounded towards zero: the control-point offset the
/// curve fitter infers from neighbouring anchors.
pub open spec fn sixth(v: int) -> int {
    if v >= 0 {
        v / 6
    } else {
        -((-v) / 6)
    }
}

/// The cubic segment the curve fitter lays between anchors `k` and
/// `k + 1`: the control points lean along the direction of the
/// neighbouring anchors, clamped at the two ends of the polyline.
pub open spec fn interp_seg(pos: Seq<Point2D>, k: int) -> CubicBezierSegment {
    let n = pos.len() as int;
    let prev = if k == 0 {
        pos[0]
    } else {
        pos[k - 1]
    };
    let next2 = if k + 2 >= n {
        pos[n - 1]
    } else {
        pos[k + 2]
    };
    CubicBezierSegment {
        from: pos[k],
        ctrl1: Point2D {
            x: (pos[k].x + sixth(pos[k + 1].x - prev.x)) as i64,
            y: (pos[k].y + sixth(pos[k + 1].y - prev.y)) as i64,
        },
        ctrl2: Point2D {
            x: (pos[k + 1].x - sixth(next2.x - pos[k].x)) as i64,
            y: (pos[k + 1].y - sixth(next2.y - pos[k].y)) as i64,
        },
        to: pos[k + 1],
    }
}

/// The whole fitted curve: one segment per consecutive anchor pair.
pub open spec fn interp_spec(pos: Seq<Point2D>) -> Seq<CubicBezierSegment> {
    Seq::new(
        if pos.len() < 2 {
            0
        } else {
            (pos.len() - 1) as nat
        },
        |k: int| interp_seg(pos, k),
    )
}

/// The grid cells sampled along one segment, as red pixels.
pub open spec fn bezier_cells(seg: CubicBezierSegment) -> Seq<Pixel> {
    Seq::new(
        BEZIER_SAMPLES as nat,
        |i: int|
            Pixel {
                point: Point2D { x: seg.cell_at(i).0 as i64, y: seg.cell_at(i).1 as i64 },
                color: Color::Rgba { r: 255u8, g: 0u8, b: 0u8, a: 255u8 },
            },
    )
}

/// The raw samples of a whole segment chain, in order.
pub open spec fn path_samples(segs: Seq<CubicBezierSegment>) -> Seq<Pixel>
    decreases segs.len(),
{
    if segs.len() == 0 {
        Seq::<Pixel>::empty()
    } else {
        path_samples(segs.drop_last()) + bezier_cells(segs.last())
    }
}

/// A chain of cubic Bezier segments fitted through polyline anchors.
pub struct Path {
    pub segments: Vec<CubicBezierSegment>,
}

impl Path {
    /// Every segment is small enough to sample safely.
    pub open spec fn wf(&self) -> bool {
        forall|k: int| 0 <= k < self.segments@.len() ==> (#[trigger] self.segments@[k]).wf()
    }

    /// Rasterize the curve: sample every segment on the grid, keep the
    /// first hit on each cell, and run the pixel-perfect corner filter
    /// over the sampled path.
    pub fn rasterize(&self) -> (r: Pixels)
        requires
            self.wf(),
        ensures
            r.wf(),
            r@ == dedup_spec(pixel_perfect_spec(dedup_spec(path_samples(self.segments@)))),
    {
        let mut acc = Pixels::new();
        let nseg = self.segments.len();
        let mut k: usize = 0;
        proof {
            assert(dedup_spec(path_samples(self.segments@.subrange(0, 0))) =~= acc@);
        }
        while k < nseg
            invariant
                nseg == self.segments@.len(),
                0 <= k <= nseg,
                self.wf(),
                acc.wf(),
                acc@ == dedup_spec(path_samples(self.segments@.subrange(0, k as int))),
            decreases nseg - k,
        {
            let seg = self.segments[k];
            let ghost base = path_samples(self.segments@.subrange(0, k as int));
            let mut i: i64 = 0;
            while i < BEZIER_SAMPLES
                invariant
                    nseg == self.segments@.len(),
                    0 <= k < nseg,
                    self.wf(),
                    seg == self.segments@[k as int],
                    base == path_samples(self.segments@.subrange(0, k as int)),
                    0 <= i <= BEZIER_SAMPLES,
                    acc.wf(),
                    acc@ == dedup_spec(base + bezier_cells(seg).subrange(0, i as int)),
                decreases BEZIER_SAMPLES - i,
            {
                let cell = seg.sample_cell(i);
                let px = Pixel { point: cell, color: Color::red() };
                proof {
                    assert(px == bezier_cells(seg)[i as int]);
                    let cur = base + bezier_cells(seg).subrange(0, i + 1);
                    assert(cur.drop_last() =~= base + bezier_cells(seg).subrange(0, i as int));
                    assert(cur.last() == px);
                }
                acc.push_first(px);
                i = i + 1;
            }
            proof {
                assert(base + bezier_cells(seg).subrange(0, BEZIER_SAMPLES as int) =~= path_samples(
                    self.segments@.subrange(0, k + 1),
                )) by {
                    assert(self.segments@.subrange(0, k + 1).drop_last() =~= self.segments@.subrange(
                        0,
                        k as int,
                    ));
                    assert(self.segments@.subrange(0, k + 1).last() == seg);
                    assert(bezier_cells(seg).subrange(0, BEZIER_SAMPLES as int) =~= bezier_cells(
                        seg,
                    ));
                }
            }
            k = k + 1;
        }
        assert(self.segments@.subrange(0, nseg as int) =~= self.segments@);
        let filtered = pixel_perfect(&acc.to_vec());
        Pixels::from_slice(&filtered)
    }
}

/// The line pixels of one polyline segment, as red pixels.
pub open spec fn segment_pixels(a: Point2D, b: Point2D) -> Seq<Pixel> {
    Seq::new(
        line_points(a, b).len(),
        |k: int|
            Pixel {
                point: Point2D { x: line_points(a, b)[k].0 as i64, y: line_points(a, b)[k].1 as i64 },
                color: Color::Rgba { r: 255u8, g: 0u8, b: 0u8, a: 255u8 },
            },
    )
}

/// The pixel set that connects consecutive anchors with straight rasterized
/// segments, merged left to right.
pub open spec fn connect_spec(pos: Seq<Point2D>) -> Seq<Pixel>
    decreases pos.len(),
{
    if pos.len() < 2 {
        Seq::<Pixel>::empty()
    } else {
        extend_spec(
            connect_spec(pos.drop_last()),
            segment_pixels(pos[pos.len() - 2], pos[pos.len() - 1]),
        )
    }
}

/// Is the point `c` outside the corridor of width `tol` around the line
/// through `a` and `b`?  Exact integer test: the squared cross product
/// against the squared corridor width.
pub open spec fn outside_corridor(a: Point2D, b: Point2D, c: Point2D, tol: int) -> bool {
    let cross = (b.x - a.x) * (c.y - a.y) - (b.y - a.y) * (c.x - a.x);
    let len2 = (b.x - a.x) * (b.x - a.x) + (b.y - a.y) * (b.y - a.y);
    cross * cross > tol * tol * len2
}

/// The interior anchors the Reumann-Witkam walk keeps: anchors inside the
/// corridor of the current key anchor and its successor are dropped; an
/// anchor outside it becomes the new key.
pub open spec fn rw_mid(pos: Seq<Point2D>, key: int, i: int, tol: int) -> Seq<Point2D>
    decreases pos.len() - i
    when 0 <= i <= pos.len()
{
    if i >= pos.len() - 1 {
        Seq::<Point2D>::empty()
    } else if outside_corridor(pos[key], pos[key + 1], pos[i], tol) {
        seq![pos[i]] + rw_mid(pos, i, i + 2, tol)
    } else {
        rw_mid(pos, key, i + 1, tol)
    }
}

/// The simplified polyline: the first and last anchors always stay; the
/// interior keeps exactly the anchors that leave the corridor.
pub open spec fn rw_spec(pos: Seq<Point2D>, tol: int) -> Seq<Point2D> {
    if pos.len() <= 2 {
        pos
    } else {
        seq![pos[0]] + rw_mid(pos, 0, 2, tol) + seq![pos[pos.len() - 1]]
    }
}

/// A sixth of a delta, rounded towards zero (executable face of `sixth`).
fn sixth_i64(v: i64) -> (r: i64)
    requires
        -4 * MAX_COORD <= v <= 4 * MAX_COORD,
    ensures
        r as int == sixth(v as int),
        -MAX_COORD <= r <= MAX_COORD,
{
    if v >= 0 {
        ((v as u64) / 6) as i64
    } else {
        -((((-v) as u64) / 6) as i64)
    }
}

/// An ordered sequence of anchor points (raw pointer samples).
pub struct Polyline {
    pub pos: Vec<Point2D>,
}

impl Polyline {
    /// All anchors lie on the canvas grid.
    pub open spec fn wf(&self) -> bool {
        forall|i: int| 0 <= i < self.pos@.len() ==> (#[trigger] self.pos@[i]).in_range()
    }

    /// An empty polyline.
    pub fn new() -> (r: Polyline)
        ensures
            r.pos@ == Seq::<Point2D>::empty(),
            r.wf(),
    {
        Polyline { pos: Vec::new() }
    }

    /// Record one more anchor.
    pub fn push(&mut self, p: Point2D)
        requires
            p.in_range(),
        ensures
            final(self).pos@ == old(self).pos@.push(p),
            old(self).wf() ==> final(self).wf(),
    {
        self.pos.push(p);
        proof {
            if old(self).wf() {
                assert forall|i: int|
                    0 <= i < self.pos@.len() implies (#[trigger] self.pos@[i]).in_range() by {
                    if i < old(self).pos@.len() {
                        assert(self.pos@[i] == old(self).pos@[i]);
                    }
                }
            }
        }
    }

    /// Forget every anchor.
    pub fn clear(&mut self)
        ensures
            final(self).pos@ == Seq::<Point2D>::empty(),
            final(self).wf(),
    {
        self.pos = Vec::new();
    }

    /// How many anchors are recorded.
    pub fn len(&self) -> (n: usize)
        ensures
            n == self.pos@.len(),
    {
        self.pos.len()
    }

    /// The anchor at position `i`.
    pub fn get(&self, i: usize) -> (p: Point2D)
        requires
            i < self.pos@.len(),
        ensures
            p == self.pos@[i as int],
    {
        self.pos[i]
    }

    /// Rasterize the polyline by connecting consecutive anchors with
    /// straight pixel segments, merged left to right.
    pub fn connect_with_line(&self) -> (r: Pixels)
        requires
            self.wf(),
        ensures
            r.wf(),
            r@ == connect_spec(self.pos@),
            forall|i: int|
                0 <= i < r@.len() ==> -(3 * MAX_COORD + 1) <= (#[trigger] r@[i]).point.x <= 3
                    * MAX_COORD + 1 && -(3 * MAX_COORD + 1) <= r@[i].point.y <= 3 * MAX_COORD + 1,
    {
        let n = self.pos.len();
        let mut r = Pixels::new();
        if n < 2 {
            return r;
        }
        let mut k: usize = 1;
        while k < n
            invariant
                n == self.pos@.len(),
                1 <= k <= n,
                self.wf(),
                r.wf(),
                r@ == connect_spec(self.pos@.subrange(0, k as int)),
                forall|i: int|
                    0 <= i < r@.len() ==> -(3 * MAX_COORD + 1) <= (#[trigger] r@[i]).point.x <= 3
                        * MAX_COORD + 1 && -(3 * MAX_COORD + 1) <= r@[i].point.y <= 3 * MAX_COORD
                        + 1,
            decreases n - k,
        {
            let a = self.pos[k - 1];
            let b = self.pos[k];
            let ghost pre = r@;
            let seg = pixel_perfect_line(a, b);
            proof {
                assert(seg@ =~= segment_pixels(a, b));
            }
            r.extend(&seg);
            proof {
                let cur = self.pos@.subrange(0, k + 1);
                assert(cur.drop_last() =~= self.pos@.subrange(0, k as int));
                assert(cur[cur.len() - 2] == a && cur[cur.len() - 1] == b);
                assert forall|i: int|
                    0 <= i < r@.len() implies -(3 * MAX_COORD + 1) <= (
                #[trigger] r@[i]).point.x <= 3 * MAX_COORD + 1 && -(3 * MAX_COORD + 1)
                    <= r@[i].point.y <= 3 * MAX_COORD + 1 by {
                    let pt = r@[i].point;
                    assert(contains_pt(r@, pt));
                    if contains_pt(pre, pt) {
                        let m = choose|m: int| 0 <= m < pre.len() && pre[m].point == pt;
                        assert(pre[m] == pre[m]);
                    } else {
                        assert(contains_pt(seg@, pt));
                        let m = choose|m: int| 0 <= m < seg@.len() && seg@[m].point == pt;
                        assert(seg@[m] == seg@[m]);
                    }
                }
            }
            k = k + 1;
        }
        assert(self.pos@.subrange(0, n as int) =~= self.pos@);
        r
    }

    /// Fit a chain of cubic Bezier segments through the anchors, one
    /// segment per consecutive pair, with two inferred control points.
    pub fn interp(&self) -> (r: Path)
        requires
            self.wf(),
        ensures
            r.segments@ == interp_spec(self.pos@),
            r.wf(),
    {
        let n = self.pos.len();
        let mut segments: Vec<CubicBezierSegment> = Vec::new();
        if n < 2 {
            assert(segments@ =~= interp_spec(self.pos@));
            return Path { segments };
        }
        let mut k: usize = 0;
        while k < n - 1
            invariant
                n == self.pos@.len(),
                n >= 2,
                0 <= k <= n - 1,
                self.wf(),
                segments@.len() == k,
                forall|m: int|
                    0 <= m < k ==> #[trigger] segments@[m] == interp_seg(self.pos@, m)
                        && segments@[m].wf(),
            decreases n - 1 - k,
        {
            let prev = if k == 0 {
                self.pos[0]
            } else {
                self.pos[k - 1]
            };
            let next2 = if k + 2 >= n {
                self.pos[n - 1]
            } else {
                self.pos[k + 2]
            };
            let a = self.pos[k];
            let b = self.pos[k + 1];
            let seg = CubicBezierSegment {
                from: a,
                ctrl1: Point2D {
                    x: a.x + sixth_i64(b.x - prev.x),
                    y: a.y + sixth_i64(b.y - prev.y),
                },
                ctrl2: Point2D {
                    x: b.x - sixth_i64(next2.x - a.x),
                    y: b.y - sixth_i64(next2.y - a.y),
                },
                to: b,
            };
            segments.push(seg);
            k = k + 1;
        }
        assert(segments@ =~= interp_spec(self.pos@));
        Path { segments }
    }

    /// Simplify the polyline with the Reumann-Witkam walk: anchors within
    /// `tol` of the corridor around the current key anchor and its
    /// successor are dropped.
    pub fn reumann_witkam(&self, tol: i64) -> (r: Polyline)
        requires
            self.wf(),
            0 <= tol <= MAX_COORD,
        ensures
            r.pos@ == rw_spec(self.pos@, tol as int),
            r.wf(),
    {
        let n = self.pos.len();
        let ghost s = self.pos@;
        if n <= 2 {
            let mut pos: Vec<Point2D> = Vec::new();
            let mut j: usize = 0;
            while j < n
                invariant
                    n == s.len(),
                    s == self.pos@,
                    0 <= j <= n,
                    pos@ == s.subrange(0, j as int),
                decreases n - j,
            {
                pos.push(self.pos[j]);
                assert(s.subrange(0, j + 1) =~= s.subrange(0, j as int).push(s[j as int]));
                j = j + 1;
            }
            assert(pos@ =~= s);
            return Polyline { pos };
        }
        let mut out: Vec<Point2D> = Vec::new();
        out.push(self.pos[0]);
        let mut key: usize = 0;
        let mut i: usize = 2;
        while i < n - 1
            invariant
                n == s.len(),
                s == self.pos@,
                self.wf(),
                0 <= tol <= MAX_COORD,
                n >= 3,
                0 <= key,
                key + 2 <= i <= n,
                out@.len() >= 1,
                forall|j: int| 0 <= j < out@.len() ==> (#[trigger] out@[j]).in_range(),
                rw_spec(s, tol as int) == out@ + rw_mid(s, key as int, i as int, tol as int)
                    + seq![s[s.len() - 1]],
            decreases n - i,
        {
            let a = self.pos[key];
            let b = self.pos[key + 1];
            let c = self.pos[i];
            let dx1: i64 = b.x - a.x;
            let dy1: i64 = b.y - a.y;
            let dx2: i64 = c.x - a.x;
            let dy2: i64 = c.y - a.y;
            proof {
                assert(-2097152 <= dx1 <= 2097152 && -2097152 <= dy1 <= 2097152 && -2097152 <= dx2
                    <= 2097152 && -2097152 <= dy2 <= 2097152);
                assert(-4398046511104 <= dx1 * dy2 <= 4398046511104 && -4398046511104 <= dy1 * dx2
                    <= 4398046511104 && 0 <= dx1 * dx1 <= 4398046511104 && 0 <= dy1 * dy1
                    <= 4398046511104) by (nonlinear_arith)
                    requires
                        -2097152 <= dx1 <= 2097152,
                        -2097152 <= dy1 <= 2097152,
                        -2097152 <= dx2 <= 2097152,
                        -2097152 <= dy2 <= 2097152,
                ;
            }
            let cross: i64 = dx1 * dy2 - dy1 * dx2;
            let len2: i64 = dx1 * dx1 + dy1 * dy1;
            proof {
                let big: int = 8796093022208;
                assert(-big <= cross <= big && 0 <= len2 <= big);
                assert((cross as i128) * (cross as i128) <= big * big && (cross as i128) * (
                cross as i128) >= 0) by (nonlinear_arith)
                    requires
                        -big <= (cross as i128) <= big,
                ;
                assert(0 <= (tol as i128) * (tol as i128) <= 1099511627776) by (nonlinear_arith)
                    requires
                        0 <= (tol as i128) <= 1048576,
                ;
                assert(0 <= ((tol as i128) * (tol as i128)) * (len2 as i128) <= 1099511627776
                    * big) by (nonlinear_arith)
                    requires
                        0 <= (tol as i128) * (tol as i128) <= 1099511627776,
                        0 <= (len2 as i128) <= big,
                ;
            }
            let lhs: i128 = (cross as i128) * (cross as i128);
            let rhs: i128 = (tol as i128) * (tol as i128) * (len2 as i128);
            let ghost outprev = out@;
            if lhs > rhs {
                proof {
                    assert(outside_corridor(s[key as int], s[key as int + 1], s[i as int], tol as int));
                    assert(rw_mid(s, key as int, i as int, tol as int) == seq![s[i as int]]
                        + rw_mid(s, i as int, i + 2, tol as int));
                }
                out.push(c);
                proof {
                    assert(outprev + rw_mid(s, key as int, i as int, tol as int) + seq![
                        s[s.len() - 1],
                    ] =~= out@ + rw_mid(s, i as int, i + 2, tol as int) + seq![s[s.len() - 1]]);
                }
                key = i;
                i = i + 2;
            } else {
                proof {
                    assert(!outside_corridor(
                        s[key as int],
                        s[key as int + 1],
                        s[i as int],
                        tol as int,
                    ));
                    assert(rw_mid(s, key as int, i as int, tol as int) == rw_mid(
                        s,
                        key as int,
                        i + 1,
                        tol as int,
                    ));
                }
                i = i + 1;
            }
        }
        let ghost outprev2 = out@;
        out.push(self.pos[n - 1]);
        proof {
            assert(rw_mid(s, key as int, i as int, tol as int) =~= Seq::<Point2D>::empty());
            assert(out@ =~= outprev2 + rw_mid(s, key as int, i as int, tol as int) + seq![
                s[s.len() - 1],
            ]);
        }
        let r = Polyline { pos: out };
        r
    }
}

} // verus!
