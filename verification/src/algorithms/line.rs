//! Line rasterization: the integer error-accumulator walk that turns a pair
//! of endpoints into a single-pixel-wide, gap-free pixel path.
//!
//! The walk is normalized to the major axis first (the axes are swapped when
//! the line is steeper than 45 degrees), then the major coordinate advances
//! one cell per step while an error term accumulates the minor-axis delta
//! and steps the minor coordinate whenever it reaches the major-axis delta.
//! This yields exactly `max(|dx|, |dy|) + 1` pixels for distinct endpoints
//! and the empty set for a zero-length segment.

use vstd::prelude::*;
use crate::color::Color;
use crate::geom::Point2D;
use crate::pixels::{contains_pt, Pixel, Pixels};

verus! {

/// The major-axis coordinate of a pixel: the one the walk advances on
/// every step (`y` when the line is steep, `x` otherwise).
pub open spec fn major_of(steep: bool, p: Pixel) -> int {
    if steep {
        p.point.y as int
    } else {
        p.point.x as int
    }
}

/// The sign of an integer: -1, 0 or 1.
pub open spec fn spec_sign(a: int) -> int {
    if a > 0 {
        1
    } else if a < 0 {
        -1
    } else {
        0
    }
}

/// The points visited by `n` steps of the error-accumulator walk, starting
/// at `(x, y)` with accumulated error `e`: each step emits the current
/// point, advances the major coordinate by `sx`, adds the minor delta `h`
/// to the error and, when the error reaches the major delta `w`, subtracts
/// `w` and advances the minor coordinate by `sy`.
pub open spec fn accum_path(
    n: nat,
    x: int,
    y: int,
    e: int,
    sx: int,
    sy: int,
    w: int,
    h: int,
) -> Seq<(int, int)>
    decreases n,
{
    if n == 0 {
        Seq::<(int, int)>::empty()
    } else {
        let rest = if e + h >= w {
            accum_path((n - 1) as nat, x + sx, y + sy, e + h - w, sx, sy, w, h)
        } else {
            accum_path((n - 1) as nat, x + sx, y, e + h, sx, sy, w, h)
        };
        seq![(x, y)] + rest
    }
}

/// The walk of `n` steps visits exactly `n` points.
pub proof fn lemma_accum_path_len(n: nat, x: int, y: int, e: int, sx: int, sy: int, w: int, h: int)
    ensures
        accum_path(n, x, y, e, sx, sy, w, h).len() == n,
    decreases n,
{
    if n > 0 {
        if e + h >= w {
            lemma_accum_path_len((n - 1) as nat, x + sx, y + sy, e + h - w, sx, sy, w, h);
        } else {
            lemma_accum_path_len((n - 1) as nat, x + sx, y, e + h, sx, sy, w, h);
        }
    }
}

/// The pixel path of the straight line from `start` to `stop`: the
/// error-accumulator walk along the major axis, swapped back into place
/// when the line is steep.  A zero-length line has no points.
pub open spec fn line_points(start: Point2D, stop: Point2D) -> Seq<(int, int)> {
    let steep = vstd::math::abs(stop.y - start.y) > vstd::math::abs(stop.x - start.x);
    let xs: int = if steep {
        start.y as int
    } else {
        start.x as int
    };
    let ys: int = if steep {
        start.x as int
    } else {
        start.y as int
    };
    let xe: int = if steep {
        stop.y as int
    } else {
        stop.x as int
    };
    let ye: int = if steep {
        stop.x as int
    } else {
        stop.y as int
    };
    let w: int = vstd::math::abs(xe - xs) as int + 1;
    let h: int = vstd::math::abs(ye - ys) as int + 1;
    let n: nat = if xs == xe && ys == ye {
        0
    } else {
        w as nat
    };
    let raw = accum_path(n, xs, ys, 0, spec_sign(xe - xs), spec_sign(ye - ys), w, h);
    if steep {
        raw.map_values(|p: (int, int)| (p.1, p.0))
    } else {
        raw
    }
}

/// Rasterize the straight line from `start` to `stop` by the integer
/// error-accumulator walk.  Every pixel comes out red; callers repaint the
/// path with the color of the stroke.
pub fn pixel_perfect_line(start: Point2D, stop: Point2D) -> (r: Pixels)
    requires
        start.in_range(),
        stop.in_range(),
    ensures
        r.wf(),
        r@.len() == line_points(start, stop).len(),
        forall|k: int|
            0 <= k < r@.len() ==> (#[trigger] r@[k]).point.x as int == line_points(start, stop)[k].0
                && r@[k].point.y as int == line_points(start, stop)[k].1 && r@[k].color == (
            Color::Rgba { r: 255u8, g: 0u8, b: 0u8, a: 255u8 }),
        r@.len() == (if start == stop {
            0int
        } else {
            vstd::math::max(
                vstd::math::abs(stop.x - start.x) as int,
                vstd::math::abs(stop.y - start.y) as int,
            ) + 1
        }),
        forall|k: int|
            0 <= k < r@.len() ==> -(3 * crate::geom::MAX_COORD + 1) <= (
            #[trigger] r@[k]).point.x <= 3 * crate::geom::MAX_COORD + 1 && -(3
                * crate::geom::MAX_COORD + 1) <= r@[k].point.y <= 3 * crate::geom::MAX_COORD + 1,
{
    let mut x1 = start.x;
    let mut y1 = start.y;
    let mut x2 = stop.x;
    let mut y2 = stop.y;
    let ady: i64 = if y2 >= y1 {
        y2 - y1
    } else {
        y1 - y2
    };
    let adx: i64 = if x2 >= x1 {
        x2 - x1
    } else {
        x1 - x2
    };
    let steep = ady > adx;
    if steep {
        let t = x1;
        x1 = y1;
        y1 = t;
        let t2 = x2;
        x2 = y2;
        y2 = t2;
    }
    let w: i64 = (if x2 >= x1 {
        x2 - x1
    } else {
        x1 - x2
    }) + 1;
    let h: i64 = (if y2 >= y1 {
        y2 - y1
    } else {
        y1 - y2
    }) + 1;
    let sx: i64 = if x2 > x1 {
        1
    } else if x2 < x1 {
        -1
    } else {
        0
    };
    let sy: i64 = if y2 > y1 {
        1
    } else if y2 < y1 {
        -1
    } else {
        0
    };
    let n: i64 = if x1 == x2 && y1 == y2 {
        0
    } else {
        w
    };
    assert(h <= w);
    assert(sx == 0 ==> n == 0);
    let ghost raw = accum_path(
        n as nat,
        x1 as int,
        y1 as int,
        0,
        sx as int,
        sy as int,
        w as int,
        h as int,
    );
    proof {
        lemma_accum_path_len(
            n as nat,
            x1 as int,
            y1 as int,
            0,
            sx as int,
            sy as int,
            w as int,
            h as int,
        );
    }
    let color = Color::red();
    let mut r = Pixels::new();
    let mut x = x1;
    let mut y = y1;
    let mut e: i64 = 0;
    let mut k: i64 = 0;
    while k < n
        invariant
            0 <= k <= n,
            n <= w,
            1 <= h <= w,
            w <= 2 * crate::geom::MAX_COORD + 1,
            -crate::geom::MAX_COORD <= x1 <= crate::geom::MAX_COORD,
            -crate::geom::MAX_COORD <= y1 <= crate::geom::MAX_COORD,
            -1 <= sx <= 1,
            -1 <= sy <= 1,
            raw.len() == n,
            r@.len() == k,
            r.wf(),
            color == (Color::Rgba { r: 255u8, g: 0u8, b: 0u8, a: 255u8 }),
            0 <= e < w,
            sx == 1 ==> x == x1 + k,
            sx == -1 ==> x == x1 - k,
            sx == 0 ==> n == 0,
            y1 - k <= y <= y1 + k,
            sy == 0 ==> y == y1,
            accum_path(
                (n - k) as nat,
                x as int,
                y as int,
                e as int,
                sx as int,
                sy as int,
                w as int,
                h as int,
            ) == raw.subrange(k as int, n as int),
            forall|m: int|
                0 <= m < k ==> (#[trigger] r@[m]).color == (Color::Rgba {
                    r: 255u8,
                    g: 0u8,
                    b: 0u8,
                    a: 255u8,
                }) && (if steep {
                    r@[m].point.y as int == raw[m].0 && r@[m].point.x as int == raw[m].1
                } else {
                    r@[m].point.x as int == raw[m].0 && r@[m].point.y as int == raw[m].1
                }),
            forall|m: int|
                0 <= m < k ==> (sx == 1 ==> (x1 as int) <= major_of(steep, #[trigger] r@[m])
                    && major_of(steep, r@[m]) < (x as int)) && (sx == -1 ==> (x as int)
                    < major_of(steep, r@[m]) && major_of(steep, r@[m]) <= (x1 as int)),
            forall|m: int|
                0 <= m < k ==> -(3 * crate::geom::MAX_COORD + 1) <= (#[trigger] r@[m]).point.x
                    <= 3 * crate::geom::MAX_COORD + 1 && -(3 * crate::geom::MAX_COORD + 1)
                    <= r@[m].point.y <= 3 * crate::geom::MAX_COORD + 1,
        decreases n - k,
    {
        let px = if steep {
            Pixel { point: Point2D { x: y, y: x }, color }
        } else {
            Pixel { point: Point2D { x, y }, color }
        };
        proof {
            assert(!contains_pt(r@, px.point)) by {
                if contains_pt(r@, px.point) {
                    let m = choose|m: int| 0 <= m < r@.len() && r@[m].point == px.point;
                    assert(major_of(steep, r@[m]) == x as int);
                    assert((sx == 1 ==> (x1 as int) <= major_of(steep, r@[m]) && major_of(
                        steep,
                        r@[m],
                    ) < (x as int)) && (sx == -1 ==> (x as int) < major_of(steep, r@[m])
                        && major_of(steep, r@[m]) <= (x1 as int)));
                }
            }
            let rem = accum_path(
                (n - k) as nat,
                x as int,
                y as int,
                e as int,
                sx as int,
                sy as int,
                w as int,
                h as int,
            );
            let e2: int = if e + h >= w {
                e + h - w
            } else {
                e as int + h
            };
            let y2a: int = if e + h >= w {
                y + sy
            } else {
                y as int
            };
            let rest = accum_path(
                (n - k - 1) as nat,
                x + sx,
                y2a,
                e2,
                sx as int,
                sy as int,
                w as int,
                h as int,
            );
            assert(rem == raw.subrange(k as int, n as int));
            assert(rem == seq![(x as int, y as int)] + rest);
            assert(rem.len() == n - k);
            assert(rest.len() == rem.len() - 1);
            assert(raw[k as int] == rem[0]);
            assert(rem[0] == (x as int, y as int));
            assert forall|i: int| 0 <= i < rest.len() implies rest[i] == raw[k + 1 + i] by {
                assert(rest[i] == rem[i + 1]);
                assert(rem[i + 1] == raw.subrange(k as int, n as int)[i + 1]);
            }
            assert(rest =~= raw.subrange(k + 1, n as int));
        }
        r.push(px);
        if e + h >= w {
            e = e + h - w;
            y = y + sy;
        } else {
            e = e + h;
        }
        x = x + sx;
        k = k + 1;
    }
    proof {
        assert(raw.subrange(n as int, n as int) =~= Seq::<(int, int)>::empty());
        let lp = line_points(start, stop);
        if steep {
            let f = |p: (int, int)| (p.1, p.0);
            assert(lp == raw.map_values(f));
            assert forall|m: int| 0 <= m < r@.len() implies r@[m].point.x as int == lp[m].0
                && r@[m].point.y as int == lp[m].1 by {
                assert(lp[m] == f(raw[m]));
            }
        } else {
            assert(lp == raw);
        }
    }
    r
}

/// Rasterize the straight line from `start` to `stop`; the continuous-line
/// entry point used by the drawing tools.
pub fn continuous_line(start: Point2D, stop: Point2D) -> (r: Pixels)
    requires
        start.in_range(),
        stop.in_range(),
    ensures
        r.wf(),
        r@.len() == line_points(start, stop).len(),
        forall|k: int|
            0 <= k < r@.len() ==> (#[trigger] r@[k]).point.x as int == line_points(start, stop)[k].0
                && r@[k].point.y as int == line_points(start, stop)[k].1 && r@[k].color == (
            Color::Rgba { r: 255u8, g: 0u8, b: 0u8, a: 255u8 }),
{
    pixel_perfect_line(start, stop)
}

/// Rasterize the straight line from `start` to `stop`.  Kept for callers of
/// the historical name; identical to `continuous_line`.
pub fn bresenham(start: Point2D, stop: Point2D) -> (r: Pixels)
    requires
        start.in_range(),
        stop.in_range(),
    ensures
        r.wf(),
        r@.len() == line_points(start, stop).len(),
        forall|k: int|
            0 <= k < r@.len() ==> (#[trigger] r@[k]).point.x as int == line_points(start, stop)[k].0
                && r@[k].point.y as int == line_points(start, stop)[k].1 && r@[k].color == (
            Color::Rgba { r: 255u8, g: 0u8, b: 0u8, a: 255u8 }),
{
    pixel_perfect_line(start, stop)
}

/// One coordinate offset of a snapped run: the step index `j`, halved for
/// the slow axis of a half-step staircase, with the direction `s` applied.
pub open spec fn snap_off(s: int, half: bool, j: int) -> int {
    let t: int = if half {
        j / 2
    } else {
        j
    };
    if s == 1 {
        t
    } else if s == -1 {
        -t
    } else {
        0
    }
}

/// A snapped run of `cnt` pixels out of `(x0, y0)`: each axis either rests,
/// advances every step, or advances every other step (a half-step
/// staircase), in the direction of its sign.
pub open spec fn snap_run(
    cnt: nat,
    x0: int,
    y0: int,
    sxa: int,
    xhalf: bool,
    sya: int,
    yhalf: bool,
) -> Seq<(int, int)> {
    Seq::new(cnt, |j: int| (x0 + snap_off(sxa, xhalf, j), y0 + snap_off(sya, yhalf, j)))
}

/// Numerator and denominator pairs quantizing a direction.  The ratios
/// 985/2378 and 2378/985 approximate the tangents of 22.5 and 67.5 degrees;
/// 209/780, 1/1 and 2911/780 approximate those of 15, 45 and 75 degrees.
/// The eight-sector boundaries are irrational, so integer deltas never fall
/// exactly on one; the 45-degree boundaries of the twelve-sector mode snap
/// ties away from the x axis, as rounding the raw angle does.
pub open spec fn snap_sector_45(dx: int, dy: int) -> int {
    let ax = vstd::math::abs(dx) as int;
    let ay = vstd::math::abs(dy) as int;
    if dx > 0 && dy >= 0 {
        if ay * 2378 < ax * 985 {
            0
        } else if ay * 985 < ax * 2378 {
            1
        } else {
            2
        }
    } else if dx <= 0 && dy > 0 {
        if ax * 2378 < ay * 985 {
            2
        } else if ax * 985 < ay * 2378 {
            3
        } else {
            4
        }
    } else if dx < 0 && dy <= 0 {
        if ay * 2378 < ax * 985 {
            4
        } else if ay * 985 < ax * 2378 {
            5
        } else {
            6
        }
    } else if dx >= 0 && dy < 0 {
        if ax * 2378 < ay * 985 {
            6
        } else if ax * 985 < ay * 2378 {
            7
        } else {
            0
        }
    } else {
        0
    }
}

/// The twelve-sector quantization of a direction; see `snap_sector_45`.
pub open spec fn snap_sector_12(dx: int, dy: int) -> int {
    let ax = vstd::math::abs(dx) as int;
    let ay = vstd::math::abs(dy) as int;
    if dx > 0 && dy >= 0 {
        if ay * 780 < ax * 209 {
            0
        } else if ay < ax {
            1
        } else if ay * 780 < ax * 2911 {
            2
        } else {
            3
        }
    } else if dx <= 0 && dy > 0 {
        if ax * 780 < ay * 209 {
            3
        } else if ax < ay {
            4
        } else if ax * 780 < ay * 2911 {
            5
        } else {
            6
        }
    } else if dx < 0 && dy <= 0 {
        if ay * 780 < ax * 209 {
            6
        } else if ay <= ax {
            7
        } else if ay * 780 < ax * 2911 {
            8
        } else {
            9
        }
    } else if dx >= 0 && dy < 0 {
        if ax * 780 < ay * 209 {
            9
        } else if ax <= ay {
            10
        } else if ax * 780 < ay * 2911 {
            11
        } else {
            0
        }
    } else {
        0
    }
}

/// The length of a half-step staircase: the major delta stretched by a
/// tenth and rounded up to a whole number of two-pixel steps.
pub open spec fn stretch_even(d: int) -> int {
    let s = (11 * d + 9) / 10;
    if s % 2 == 0 {
        s
    } else {
        s + 1
    }
}

/// The pixel path of the snapped line from `(x0, y0)` towards `(x1, y1)`:
/// the direction is quantized into 8 sectors (45-degree mode) or 12 sectors,
/// and the matching axis run, diagonal run or half-step staircase is laid
/// out from the start point.  A diagonal run steps `min(|dx|, |dy|)` cells;
/// an axis run steps the delta of its own axis.
pub open spec fn snapped_points(is_45: bool, x0: int, y0: int, x1: int, y1: int) -> Seq<
    (int, int),
> {
    let dx = x1 - x0;
    let dy = y1 - y0;
    let ax = vstd::math::abs(dx) as int;
    let ay = vstd::math::abs(dy) as int;
    let dg = vstd::math::min(ax, ay);
    if is_45 {
        let s = snap_sector_45(dx, dy);
        if s == 0 {
            snap_run(ax as nat, x0, y0, 1, false, 0, false)
        } else if s == 1 {
            snap_run(dg as nat, x0, y0, 1, false, 1, false)
        } else if s == 2 {
            snap_run(ay as nat, x0, y0, 0, false, 1, false)
        } else if s == 3 {
            snap_run(dg as nat, x0, y0, -1, false, 1, false)
        } else if s == 4 {
            snap_run(ax as nat, x0, y0, -1, false, 0, false)
        } else if s == 5 {
            snap_run(dg as nat, x0, y0, -1, false, -1, false)
        } else if s == 6 {
            snap_run(ay as nat, x0, y0, 0, false, -1, false)
        } else {
            snap_run(dg as nat, x0, y0, 1, false, -1, false)
        }
    } else {
        let s = snap_sector_12(dx, dy);
        let axs = stretch_even(ax);
        let ays = stretch_even(ay);
        if s == 0 {
            snap_run(ax as nat, x0, y0, 1, false, 0, false)
        } else if s == 1 {
            snap_run(axs as nat, x0, y0, 1, false, 1, true)
        } else if s == 2 {
            snap_run(ays as nat, x0, y0, 1, true, 1, false)
        } else if s == 3 {
            snap_run(ay as nat, x0, y0, 0, false, 1, false)
        } else if s == 4 {
            snap_run(ays as nat, x0, y0, -1, true, 1, false)
        } else if s == 5 {
            snap_run(axs as nat, x0, y0, -1, false, 1, true)
        } else if s == 6 {
            snap_run(ax as nat, x0, y0, -1, false, 0, false)
        } else if s == 7 {
            snap_run(axs as nat, x0, y0, -1, false, -1, true)
        } else if s == 8 {
            snap_run(ays as nat, x0, y0, -1, true, -1, false)
        } else if s == 9 {
            snap_run(ay as nat, x0, y0, 0, false, -1, false)
        } else if s == 10 {
            snap_run(ays as nat, x0, y0, 1, true, -1, false)
        } else {
            snap_run(axs as nat, x0, y0, 1, false, -1, true)
        }
    }
}

/// Lay out one snapped run as red pixels.  At least one axis must advance
/// every step (that axis keeps the pixels distinct), unless the run is
/// empty.
fn snap_run_px(cnt: i64, x0: i64, y0: i64, sxa: i64, xhalf: bool, sya: i64, yhalf: bool) -> (r:
    Pixels)
    requires
        -crate::geom::MAX_COORD <= x0 <= crate::geom::MAX_COORD,
        -crate::geom::MAX_COORD <= y0 <= crate::geom::MAX_COORD,
        0 <= cnt <= 4 * crate::geom::MAX_COORD,
        -1 <= sxa <= 1,
        -1 <= sya <= 1,
        (sxa != 0 && !xhalf) || (sya != 0 && !yhalf) || cnt == 0,
    ensures
        r.wf(),
        r@.len() == cnt,
        forall|j: int|
            0 <= j < cnt ==> (#[trigger] r@[j]).point.x as int == x0 + snap_off(
                sxa as int,
                xhalf,
                j,
            ) && r@[j].point.y as int == y0 + snap_off(sya as int, yhalf, j) && r@[j].color == (
            Color::Rgba { r: 255u8, g: 0u8, b: 0u8, a: 255u8 }),
{
    let color = Color::red();
    let ghost xdrives = sxa != 0 && !xhalf;
    let mut r = Pixels::new();
    let mut j: i64 = 0;
    while j < cnt
        invariant
            0 <= j <= cnt,
            cnt <= 4 * crate::geom::MAX_COORD,
            -crate::geom::MAX_COORD <= x0 <= crate::geom::MAX_COORD,
            -crate::geom::MAX_COORD <= y0 <= crate::geom::MAX_COORD,
            -1 <= sxa <= 1,
            -1 <= sya <= 1,
            xdrives == (sxa != 0 && !xhalf),
            xdrives || (sya != 0 && !yhalf) || cnt == 0,
            color == (Color::Rgba { r: 255u8, g: 0u8, b: 0u8, a: 255u8 }),
            r@.len() == j,
            r.wf(),
            forall|m: int|
                0 <= m < j ==> (#[trigger] r@[m]).point.x as int == x0 + snap_off(
                    sxa as int,
                    xhalf,
                    m,
                ) && r@[m].point.y as int == y0 + snap_off(sya as int, yhalf, m) && r@[m].color
                    == (Color::Rgba { r: 255u8, g: 0u8, b: 0u8, a: 255u8 }),
        decreases cnt - j,
    {
        let tx: i64 = if xhalf {
            j / 2
        } else {
            j
        };
        let ty: i64 = if yhalf {
            j / 2
        } else {
            j
        };
        let xv: i64 = if sxa == 1 {
            x0 + tx
        } else if sxa == -1 {
            x0 - tx
        } else {
            x0
        };
        let yv: i64 = if sya == 1 {
            y0 + ty
        } else if sya == -1 {
            y0 - ty
        } else {
            y0
        };
        let px = Pixel { point: Point2D { x: xv, y: yv }, color };
        proof {
            assert(xv as int == x0 + snap_off(sxa as int, xhalf, j as int));
            assert(yv as int == y0 + snap_off(sya as int, yhalf, j as int));
            assert(!contains_pt(r@, px.point)) by {
                if contains_pt(r@, px.point) {
                    let m = choose|m: int| 0 <= m < r@.len() && r@[m].point == px.point;
                    if xdrives {
                        assert(r@[m].point.x as int == x0 + snap_off(sxa as int, xhalf, m));
                    } else {
                        assert(r@[m].point.y as int == y0 + snap_off(sya as int, yhalf, m));
                    }
                }
            }
        }
        r.push(px);
        j = j + 1;
    }
    r
}

/// Rasterize the snapped ("constrained") line from `start` towards `stop`:
/// the stroke direction is quantized to 8 angular sectors when `is_45`
/// holds and to 12 sectors otherwise, and a stair-stepped pixel path
/// approximating the chosen sector's slope is emitted from the start point.
pub fn snapped_line(is_45: bool, start: &Pixel, stop: &Pixel) -> (r: Pixels)
    requires
        start.point.in_range(),
        stop.point.in_range(),
    ensures
        r.wf(),
        r@.len() == snapped_points(
            is_45,
            start.point.x as int,
            start.point.y as int,
            stop.point.x as int,
            stop.point.y as int,
        ).len(),
        forall|k: int|
            0 <= k < r@.len() ==> {
                let pts = snapped_points(
                    is_45,
                    start.point.x as int,
                    start.point.y as int,
                    stop.point.x as int,
                    stop.point.y as int,
                );
                (#[trigger] r@[k]).point.x as int == pts[k].0 && r@[k].point.y as int == pts[k].1
                    && r@[k].color == (Color::Rgba { r: 255u8, g: 0u8, b: 0u8, a: 255u8 })
            },
{
    let x0 = start.point.x;
    let y0 = start.point.y;
    let dx = stop.point.x - x0;
    let dy = stop.point.y - y0;
    let ax: i64 = if dx >= 0 {
        dx
    } else {
        -dx
    };
    let ay: i64 = if dy >= 0 {
        dy
    } else {
        -dy
    };
    let dg: i64 = if ax <= ay {
        ax
    } else {
        ay
    };
    if is_45 {
        if dx > 0 && dy >= 0 {
            if ay * 2378 < ax * 985 {
                snap_run_px(ax, x0, y0, 1, false, 0, false)
            } else if ay * 985 < ax * 2378 {
                snap_run_px(dg, x0, y0, 1, false, 1, false)
            } else {
                snap_run_px(ay, x0, y0, 0, false, 1, false)
            }
        } else if dx <= 0 && dy > 0 {
            if ax * 2378 < ay * 985 {
                snap_run_px(ay, x0, y0, 0, false, 1, false)
            } else if ax * 985 < ay * 2378 {
                snap_run_px(dg, x0, y0, -1, false, 1, false)
            } else {
                snap_run_px(ax, x0, y0, -1, false, 0, false)
            }
        } else if dx < 0 && dy <= 0 {
            if ay * 2378 < ax * 985 {
                snap_run_px(ax, x0, y0, -1, false, 0, false)
            } else if ay * 985 < ax * 2378 {
                snap_run_px(dg, x0, y0, -1, false, -1, false)
            } else {
                snap_run_px(ay, x0, y0, 0, false, -1, false)
            }
        } else if dx >= 0 && dy < 0 {
            if ax * 2378 < ay * 985 {
                snap_run_px(ay, x0, y0, 0, false, -1, false)
            } else if ax * 985 < ay * 2378 {
                snap_run_px(dg, x0, y0, 1, false, -1, false)
            } else {
                snap_run_px(ax, x0, y0, 1, false, 0, false)
            }
        } else {
            snap_run_px(ax, x0, y0, 1, false, 0, false)
        }
    } else {
        let axs: i64 = {
            let s = (11 * ax + 9) / 10;
            if s % 2 == 0 {
                s
            } else {
                s + 1
            }
        };
        let ays: i64 = {
            let s = (11 * ay + 9) / 10;
            if s % 2 == 0 {
                s
            } else {
                s + 1
            }
        };
        if dx > 0 && dy >= 0 {
            if ay * 780 < ax * 209 {
                snap_run_px(ax, x0, y0, 1, false, 0, false)
            } else if ay < ax {
                snap_run_px(axs, x0, y0, 1, false, 1, true)
            } else if ay * 780 < ax * 2911 {
                snap_run_px(ays, x0, y0, 1, true, 1, false)
            } else {
                snap_run_px(ay, x0, y0, 0, false, 1, false)
            }
        } else if dx <= 0 && dy > 0 {
            if ax * 780 < ay * 209 {
                snap_run_px(ay, x0, y0, 0, false, 1, false)
            } else if ax < ay {
                snap_run_px(ays, x0, y0, -1, true, 1, false)
            } else if ax * 780 < ay * 2911 {
                snap_run_px(axs, x0, y0, -1, false, 1, true)
            } else {
                snap_run_px(ax, x0, y0, -1, false, 0, false)
            }
        } else if dx < 0 && dy <= 0 {
            if ay * 780 < ax * 209 {
                snap_run_px(ax, x0, y0, -1, false, 0, false)
            } else if ay <= ax {
                snap_run_px(axs, x0, y0, -1, false, -1, true)
            } else if ay * 780 < ax * 2911 {
                snap_run_px(ays, x0, y0, -1, true, -1, false)
            } else {
                snap_run_px(ay, x0, y0, 0, false, -1, false)
            }
        } else if dx >= 0 && dy < 0 {
            if ax * 780 < ay * 209 {
                snap_run_px(ay, x0, y0, 0, false, -1, false)
            } else if ax <= ay {
                snap_run_px(ays, x0, y0, 1, true, -1, false)
            } else if ax * 780 < ay * 2911 {
                snap_run_px(axs, x0, y0, 1, false, -1, true)
            } else {
                snap_run_px(ax, x0, y0, 1, false, 0, false)
            }
        } else {
            snap_run_px(ax, x0, y0, 1, false, 0, false)
        }
    }
}

} // verus!
