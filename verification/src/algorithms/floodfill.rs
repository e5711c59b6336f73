//! The flood-fill engine: region growth over the implicit bitmap of a
//! pixel set, under 4- or 8-connectivity, with a worklist instead of
//! recursion.
//!
//! The result is characterized exactly: a cell is filled if and only if a
//! path of matching, in-bounds cells connects it to the seed.  From that,
//! `lemma_flood_fill_closure` proves that a fill never leaks across a
//! boundary of non-matching cells that separates the seed from a cell.

use vstd::prelude::*;
use vstd::seq_lib::*;
use vstd::set_lib::{lemma_int_range, lemma_len_subset, set_int_range};
use crate::color::Color;
use crate::geom::{oob, spec_oob, Point2D, MAX_COORD};
use crate::pixels::{contains_pt, contains_xy, pt_unique, Pixel, Pixels};

verus! {

/// The connectivity of the region growth.
#[derive(Clone, Copy, Debug, PartialEq, Eq, Structural)]
pub enum FloodFillDegrees {
    Four,
    Eight,
}

impl FloodFillDegrees {
    /// The display name of the connectivity.
    pub fn as_str(&self) -> (r: &'static str)
        ensures
            r@ == (match *self {
                FloodFillDegrees::Four => "4"@,
                FloodFillDegrees::Eight => "8"@,
            }),
    {
        match self {
            FloodFillDegrees::Four => "4",
            FloodFillDegrees::Eight => "8",
        }
    }
}

/// Is `(dx, dy)` one step of the chosen connectivity?
pub open spec fn step_ok(deg: FloodFillDegrees, dx: int, dy: int) -> bool {
    match deg {
        FloodFillDegrees::Four => (dx == 1 && dy == 0) || (dx == -1 && dy == 0) || (dx == 0 && dy
            == 1) || (dx == 0 && dy == -1),
        FloodFillDegrees::Eight => -1 <= dx <= 1 && -1 <= dy <= 1 && !(dx == 0 && dy == 0),
    }
}

/// Are two cells adjacent under the chosen connectivity?
pub open spec fn adjacent(ax: int, ay: int, bx: int, by: int, deg: FloodFillDegrees) -> bool {
    step_ok(deg, bx - ax, by - ay)
}

/// Does the cell `(x, y)` belong to the region being grown?  In the
/// match-background mode (`until == false`) a cell matches when its color
/// is exactly `bg` (`None` for an empty cell), and nothing matches when
/// `bg` is already the fill color, which keeps a repeated fill from
/// stacking.  In the fill-until-target mode (`until == true`) a cell
/// matches as long as it does not already carry the fill color.
pub open spec fn cell_matches(
    content: Seq<Pixel>,
    x: int,
    y: int,
    bg: Option<Color>,
    fill: Color,
    until: bool,
) -> bool {
    if until {
        !(exists|i: int|
            0 <= i < content.len() && (#[trigger] content[i]).point.x == x && content[i].point.y
                == y && content[i].color == fill)
    } else {
        bg != Some(fill) && (match bg {
            Some(b) => exists|i: int|
                0 <= i < content.len() && (#[trigger] content[i]).point.x == x
                    && content[i].point.y == y && content[i].color == b,
            None => !contains_xy(content, x, y),
        })
    }
}

/// Is `path` a chain of in-bounds, matching cells, each adjacent to the
/// next under the chosen connectivity?
pub open spec fn is_fill_path(
    path: Seq<(int, int)>,
    content: Seq<Pixel>,
    w: int,
    h: int,
    bg: Option<Color>,
    fill: Color,
    until: bool,
    deg: FloodFillDegrees,
) -> bool {
    &&& path.len() >= 1
    &&& forall|k: int|
        0 <= k < path.len() ==> !spec_oob((#[trigger] path[k]).0, path[k].1, w, h) && cell_matches(
            content,
            path[k].0,
            path[k].1,
            bg,
            fill,
            until,
        )
    &&& forall|k: int|
        0 <= k < path.len() - 1 ==> adjacent(
            (#[trigger] path[k]).0,
            path[k].1,
            path[k + 1].0,
            path[k + 1].1,
            deg,
        )
}

/// Does a chain of matching cells connect the seed `(sx, sy)` to `(cx, cy)`?
pub open spec fn fill_reachable(
    content: Seq<Pixel>,
    w: int,
    h: int,
    bg: Option<Color>,
    fill: Color,
    until: bool,
    deg: FloodFillDegrees,
    sx: int,
    sy: int,
    cx: int,
    cy: int,
) -> bool {
    exists|path: Seq<(int, int)>|
        #[trigger] is_fill_path(path, content, w, h, bg, fill, until, deg) && path[0] == (sx, sy)
            && path[path.len() - 1] == (cx, cy)
}

/// A reachable cell's matching, in-bounds neighbour is reachable too.
proof fn lemma_reachable_step(
    content: Seq<Pixel>,
    w: int,
    h: int,
    bg: Option<Color>,
    fill: Color,
    until: bool,
    deg: FloodFillDegrees,
    sx: int,
    sy: int,
    ux: int,
    uy: int,
    vx: int,
    vy: int,
)
    requires
        fill_reachable(content, w, h, bg, fill, until, deg, sx, sy, ux, uy),
        adjacent(ux, uy, vx, vy, deg),
        !spec_oob(vx, vy, w, h),
        cell_matches(content, vx, vy, bg, fill, until),
    ensures
        fill_reachable(content, w, h, bg, fill, until, deg, sx, sy, vx, vy),
{
    let path = choose|path: Seq<(int, int)>|
        #[trigger] is_fill_path(path, content, w, h, bg, fill, until, deg) && path[0] == (sx, sy)
            && path[path.len() - 1] == (ux, uy);
    let path2 = path.push((vx, vy));
    assert forall|k: int|
        0 <= k < path2.len() - 1 implies adjacent(
        (#[trigger] path2[k]).0,
        path2[k].1,
        path2[k + 1].0,
        path2[k + 1].1,
        deg,
    ) by {
        if k < path.len() - 1 {
            assert(path2[k] == path[k] && path2[k + 1] == path[k + 1]);
        } else {
            assert(path2[k] == (ux, uy) && path2[k + 1] == (vx, vy));
        }
    }
    assert(is_fill_path(path2, content, w, h, bg, fill, until, deg));
    assert(path2[0] == (sx, sy) && path2[path2.len() - 1] == (vx, vy));
}

/// A matching, in-bounds seed reaches itself.
proof fn lemma_reachable_seed(
    content: Seq<Pixel>,
    w: int,
    h: int,
    bg: Option<Color>,
    fill: Color,
    until: bool,
    deg: FloodFillDegrees,
    sx: int,
    sy: int,
)
    requires
        !spec_oob(sx, sy, w, h),
        cell_matches(content, sx, sy, bg, fill, until),
    ensures
        fill_reachable(content, w, h, bg, fill, until, deg, sx, sy, sx, sy),
{
    let path = seq![(sx, sy)];
    assert(is_fill_path(path, content, w, h, bg, fill, until, deg));
    assert(path[0] == (sx, sy) && path[path.len() - 1] == (sx, sy));
}

/// Every cell of a path out of a visited seed is visited, provided the
/// visited set is closed under matching, in-bounds adjacency.
proof fn lemma_path_visited(
    path: Seq<(int, int)>,
    content: Seq<Pixel>,
    w: int,
    h: int,
    bg: Option<Color>,
    fill: Color,
    until: bool,
    deg: FloodFillDegrees,
    vis: Seq<Pixel>,
)
    requires
        is_fill_path(path, content, w, h, bg, fill, until, deg),
        contains_xy(vis, path[0].0, path[0].1),
        forall|ax: int, ay: int, bx: int, by: int|
            contains_xy(vis, ax, ay) && #[trigger] adjacent(ax, ay, bx, by, deg) && !spec_oob(
                bx,
                by,
                w,
                h,
            ) && cell_matches(content, bx, by, bg, fill, until) ==> contains_xy(vis, bx, by),
    ensures
        contains_xy(vis, path[path.len() - 1].0, path[path.len() - 1].1),
    decreases path.len(),
{
    if path.len() > 1 {
        let prefix = path.drop_last();
        assert(is_fill_path(prefix, content, w, h, bg, fill, until, deg)) by {
            assert(forall|k: int|
                0 <= k < prefix.len() ==> prefix[k] == path[k]);
        }
        assert(prefix[0] == path[0]);
        lemma_path_visited(prefix, content, w, h, bg, fill, until, deg, vis);
        let n = path.len();
        assert(adjacent(path[n - 2].0, path[n - 2].1, path[n - 1].0, path[n - 1].1, deg));
        assert(prefix[prefix.len() - 1] == path[n - 2]);
    }
}

/// A point-unique pixel sequence confined to a `w` by `h` grid has at most
/// `w * h` elements.
proof fn lemma_grid_capacity(s: Seq<Pixel>, w: int, h: int)
    requires
        pt_unique(s),
        0 <= w,
        0 <= h,
        forall|i: int|
            0 <= i < s.len() ==> !spec_oob(
                (#[trigger] s[i]).point.x as int,
                s[i].point.y as int,
                w,
                h,
            ),
    ensures
        s.len() <= w * h,
{
    let codes = s.map_values(|p: Pixel| p.point.x * h + p.point.y);
    assert forall|i: int, j: int| 0 <= i < j < codes.len() implies codes[i] != codes[j] by {
        assert(s[i].point != s[j].point);
        let x1 = s[i].point.x as int;
        let y1 = s[i].point.y as int;
        let x2 = s[j].point.x as int;
        let y2 = s[j].point.y as int;
        assert(0 <= y1 < h && 0 <= y2 < h && 0 <= x1 < w && 0 <= x2 < w);
        assert((x1 != x2 || y1 != y2) ==> x1 * h + y1 != x2 * h + y2) by (nonlinear_arith)
            requires
                0 <= y1 < h,
                0 <= y2 < h,
        ;
    }
    assert(codes.no_duplicates());
    codes.unique_seq_to_set();
    assert forall|c: int| codes.to_set().contains(c) implies set_int_range(0, w * h).contains(
        c,
    ) by {
        let i = choose|i: int| 0 <= i < codes.len() && codes[i] == c;
        let x1 = s[i].point.x as int;
        let y1 = s[i].point.y as int;
        assert(0 <= x1 * h + y1 < w * h) by (nonlinear_arith)
            requires
                0 <= x1 < w,
                0 <= y1 < h,
        ;
    }
    lemma_int_range(0, w * h);
    lemma_len_subset(codes.to_set(), set_int_range(0, w * h));
}

/// Flood-filling never leaks across an enclosing boundary: when no cell of
/// `boundary` matches the region, and every matching path out of the seed
/// towards `(cx, cy)` would have to pass through `boundary`, then
/// `(cx, cy)` is not reached, so no fill that returns exactly the
/// reachable cells ever paints it.
pub proof fn lemma_flood_fill_closure(
    content: Seq<Pixel>,
    w: int,
    h: int,
    bg: Option<Color>,
    fill: Color,
    until: bool,
    deg: FloodFillDegrees,
    sx: int,
    sy: int,
    cx: int,
    cy: int,
    boundary: Set<(int, int)>,
)
    requires
        forall|c: (int, int)|
            boundary.contains(c) ==> !cell_matches(content, c.0, c.1, bg, fill, until),
        forall|path: Seq<(int, int)>|
            #[trigger] is_fill_path(path, content, w, h, bg, fill, until, deg) && path[0] == (
            sx,
            sy,
            ) && path[path.len() - 1] == (cx, cy) ==> exists|k: int|
                0 <= k < path.len() && boundary.contains(#[trigger] path[k]),
    ensures
        !fill_reachable(content, w, h, bg, fill, until, deg, sx, sy, cx, cy),
{
    if fill_reachable(content, w, h, bg, fill, until, deg, sx, sy, cx, cy) {
        let path = choose|path: Seq<(int, int)>|
            #[trigger] is_fill_path(path, content, w, h, bg, fill, until, deg) && path[0] == (
            sx,
            sy,
            ) && path[path.len() - 1] == (cx, cy);
        let k = choose|k: int| 0 <= k < path.len() && boundary.contains(#[trigger] path[k]);
        assert(cell_matches(content, path[k].0, path[k].1, bg, fill, until));
    }
}

/// Does the cell at `(x, y)` match the region?  (Executable face of
/// `cell_matches`.)
fn matches_cell(
    content: &Pixels,
    x: i64,
    y: i64,
    bg: &Option<Color>,
    fill: &Color,
    until: bool,
) -> (r: bool)
    requires
        content.wf(),
    ensures
        r == cell_matches(content@, x as int, y as int, *bg, *fill, until),
{
    let here = content.color_at(Point2D { x, y });
    proof {
        if contains_pt(content@, Point2D { x, y }) {
            let i = crate::pixels::index_of_pt(content@, Point2D { x, y });
            assert(0 <= i < content@.len() && content@[i].point == (Point2D { x, y }));
            assert forall|j: int|
                0 <= j < content@.len() && (#[trigger] content@[j]).point.x == x
                    && content@[j].point.y == y implies j == i by {
                assert(content@[j].point == (Point2D { x, y }));
                if j < i {
                    assert(content@[j].point != content@[i].point);
                } else if i < j {
                    assert(content@[i].point != content@[j].point);
                }
            }
        } else {
            assert forall|j: int|
                0 <= j < content@.len() implies !((#[trigger] content@[j]).point.x == x
                && content@[j].point.y == y) by {
                if content@[j].point.x == x && content@[j].point.y == y {
                    assert(content@[j].point == (Point2D { x, y }));
                    assert(contains_pt(content@, Point2D { x, y }));
                }
            }
        }
    }
    if until {
        match here {
            Some(c) => !(c == *fill),
            None => true,
        }
    } else {
        match bg {
            Some(b) => {
                if *b == *fill {
                    false
                } else {
                    match here {
                        Some(c) => c == *b,
                        None => false,
                    }
                }
            },
            None => match here {
                Some(_) => false,
                None => true,
            },
        }
    }
}

/// Grow the region of matching cells out of `seed` and return it painted
/// in `fill_color`: a cell is in the result exactly when a chain of
/// matching cells connects it to the seed.  A seed outside the canvas, on
/// a non-matching cell, or a background equal to the fill color yields the
/// empty set.
pub fn floodfill(
    w: i64,
    h: i64,
    content: &Pixels,
    seed: Point2D,
    bg_color: Option<Color>,
    fill_color: Color,
    degrees: FloodFillDegrees,
) -> (r: Pixels)
    requires
        content.wf(),
        0 <= w <= MAX_COORD,
        0 <= h <= MAX_COORD,
    ensures
        r.wf(),
        forall|i: int| 0 <= i < r@.len() ==> (#[trigger] r@[i]).color == fill_color,
        forall|x: int, y: int|
            contains_xy(r@, x, y) <==> fill_reachable(
                content@,
                w as int,
                h as int,
                bg_color,
                fill_color,
                false,
                degrees,
                seed.x as int,
                seed.y as int,
                x,
                y,
            ),
{
    flood_core(w, h, content, seed, bg_color, fill_color, false, degrees)
}

/// Grow the region of every cell that does not already carry `fill_color`
/// out of `seed` and return it painted in `fill_color` ("fill until the
/// same color forms the boundary").
pub fn floodfill_until(
    w: i64,
    h: i64,
    content: &Pixels,
    seed: Point2D,
    fill_color: Color,
    degrees: FloodFillDegrees,
) -> (r: Pixels)
    requires
        content.wf(),
        0 <= w <= MAX_COORD,
        0 <= h <= MAX_COORD,
    ensures
        r.wf(),
        forall|i: int| 0 <= i < r@.len() ==> (#[trigger] r@[i]).color == fill_color,
        forall|x: int, y: int|
            contains_xy(r@, x, y) <==> fill_reachable(
                content@,
                w as int,
                h as int,
                None,
                fill_color,
                true,
                degrees,
                seed.x as int,
                seed.y as int,
                x,
                y,
            ),
{
    flood_core(w, h, content, seed, None, fill_color, true, degrees)
}
/// Scan the neighbours of `u`: every matching, in-bounds neighbour that is
/// not yet in the region is painted, recorded and enqueued.
#[verifier::rlimit(100)]
fn expand_cell(
    w: i64,
    h: i64,
    content: &Pixels,
    seed: Point2D,
    bg: Option<Color>,
    fill: Color,
    until: bool,
    deg: FloodFillDegrees,
    offsets: &Vec<Point2D>,
    u: Point2D,
    r: &mut Pixels,
    work: &mut Vec<Point2D>,
)
    requires
        content.wf(),
        0 <= w <= MAX_COORD,
        0 <= h <= MAX_COORD,
        forall|k: int|
            0 <= k < offsets@.len() ==> step_ok(
                deg,
                (#[trigger] offsets@[k]).x as int,
                offsets@[k].y as int,
            ),
        forall|dx: int, dy: int| #[trigger]
            step_ok(deg, dx, dy) ==> exists|k: int|
                0 <= k < offsets@.len() && (#[trigger] offsets@[k]).x == dx && offsets@[k].y
                    == dy,
        old(r).wf(),
        contains_xy(old(r)@, u.x as int, u.y as int),
        !spec_oob(u.x as int, u.y as int, w as int, h as int),
        forall|i: int| 0 <= i < old(r)@.len() ==> (#[trigger] old(r)@[i]).color == fill,
        forall|i: int|
            0 <= i < old(r)@.len() ==> !spec_oob(
                (#[trigger] old(r)@[i]).point.x as int,
                old(r)@[i].point.y as int,
                w as int,
                h as int,
            ),
        forall|x: int, y: int|
            contains_xy(old(r)@, x, y) ==> cell_matches(content@, x, y, bg, fill, until)
                && fill_reachable(
                content@,
                w as int,
                h as int,
                bg,
                fill,
                until,
                deg,
                seed.x as int,
                seed.y as int,
                x,
                y,
            ),
        forall|k: int|
            0 <= k < old(work)@.len() ==> contains_xy(
                old(r)@,
                (#[trigger] old(work)@[k]).x as int,
                old(work)@[k].y as int,
            ),
    ensures
        final(r).wf(),
        forall|i: int| 0 <= i < final(r)@.len() ==> (#[trigger] final(r)@[i]).color == fill,
        forall|i: int|
            0 <= i < final(r)@.len() ==> !spec_oob(
                (#[trigger] final(r)@[i]).point.x as int,
                final(r)@[i].point.y as int,
                w as int,
                h as int,
            ),
        forall|x: int, y: int|
            contains_xy(final(r)@, x, y) ==> cell_matches(content@, x, y, bg, fill, until)
                && fill_reachable(
                content@,
                w as int,
                h as int,
                bg,
                fill,
                until,
                deg,
                seed.x as int,
                seed.y as int,
                x,
                y,
            ),
        forall|x: int, y: int| contains_xy(old(r)@, x, y) ==> contains_xy(final(r)@, x, y),
        forall|x: int, y: int|
            contains_xy(final(r)@, x, y) && !contains_xy(old(r)@, x, y) ==> (exists|k: int|
                0 <= k < final(work)@.len() && (#[trigger] final(work)@[k]).x == x
                    && final(work)@[k].y == y),
        final(work)@.len() >= old(work)@.len(),
        forall|k: int| 0 <= k < old(work)@.len() ==> final(work)@[k] == old(work)@[k],
        forall|bx: int, by: int| #[trigger]
            adjacent(u.x as int, u.y as int, bx, by, deg) && !spec_oob(bx, by, w as int, h as int)
                && cell_matches(content@, bx, by, bg, fill, until) ==> contains_xy(
                final(r)@,
                bx,
                by,
            ),
        forall|k: int|
            0 <= k < final(work)@.len() ==> contains_xy(
                final(r)@,
                (#[trigger] final(work)@[k]).x as int,
                final(work)@[k].y as int,
            ),
        final(work)@.len() - old(work)@.len() == final(r)@.len() - old(r)@.len(),
{
    let n_off = offsets.len();
    let mut j: usize = 0;
    while j < n_off
        invariant
            content.wf(),
            0 <= w <= MAX_COORD,
            0 <= h <= MAX_COORD,
            n_off == offsets@.len(),
            0 <= j <= n_off,
            forall|k: int|
                0 <= k < offsets@.len() ==> step_ok(
                    deg,
                    (#[trigger] offsets@[k]).x as int,
                    offsets@[k].y as int,
                ),
            r.wf(),
            contains_xy(r@, u.x as int, u.y as int),
            !spec_oob(u.x as int, u.y as int, w as int, h as int),
            forall|i: int| 0 <= i < r@.len() ==> (#[trigger] r@[i]).color == fill,
            forall|i: int|
                0 <= i < r@.len() ==> !spec_oob(
                    (#[trigger] r@[i]).point.x as int,
                    r@[i].point.y as int,
                    w as int,
                    h as int,
                ),
            forall|x: int, y: int|
                contains_xy(r@, x, y) ==> cell_matches(content@, x, y, bg, fill, until)
                    && fill_reachable(
                    content@,
                    w as int,
                    h as int,
                    bg,
                    fill,
                    until,
                    deg,
                    seed.x as int,
                    seed.y as int,
                    x,
                    y,
                ),
            forall|x: int, y: int| contains_xy(old(r)@, x, y) ==> contains_xy(r@, x, y),
            forall|x: int, y: int|
                contains_xy(r@, x, y) && !contains_xy(old(r)@, x, y) ==> (exists|k: int|
                    0 <= k < work@.len() && (#[trigger] work@[k]).x == x && work@[k].y == y),
            work@.len() >= old(work)@.len(),
            forall|k: int| 0 <= k < old(work)@.len() ==> work@[k] == old(work)@[k],
            forall|m: int|
                0 <= m < j && !spec_oob(
                    u.x as int + (#[trigger] offsets@[m]).x as int,
                    u.y as int + offsets@[m].y as int,
                    w as int,
                    h as int,
                ) && cell_matches(
                    content@,
                    u.x as int + offsets@[m].x as int,
                    u.y as int + offsets@[m].y as int,
                    bg,
                    fill,
                    until,
                ) ==> contains_xy(
                    r@,
                    u.x as int + offsets@[m].x as int,
                    u.y as int + offsets@[m].y as int,
                ),
            forall|k: int|
                0 <= k < work@.len() ==> contains_xy(
                    r@,
                    (#[trigger] work@[k]).x as int,
                    work@[k].y as int,
                ),
            work@.len() - old(work)@.len() == r@.len() - old(r)@.len(),
        decreases n_off - j,
    {
        let d = offsets[j];
        let vx = u.x + d.x;
        let vy = u.y + d.y;
        if !oob(vx, vy, w, h) && matches_cell(content, vx, vy, &bg, &fill, until) {
            if !r.contains_point(Point2D { x: vx, y: vy }) {
                proof {
                    assert(step_ok(deg, d.x as int, d.y as int));
                    assert(adjacent(u.x as int, u.y as int, vx as int, vy as int, deg));
                    lemma_reachable_step(
                        content@,
                        w as int,
                        h as int,
                        bg,
                        fill,
                        until,
                        deg,
                        seed.x as int,
                        seed.y as int,
                        u.x as int,
                        u.y as int,
                        vx as int,
                        vy as int,
                    );
                }
                let ghost rpre = r@;
                let ghost workpre = work@;
                r.push(Pixel { point: Point2D { x: vx, y: vy }, color: fill });
                work.push(Point2D { x: vx, y: vy });
                proof {
                    assert forall|x: int, y: int|
                        contains_xy(r@, x, y) && !contains_xy(old(r)@, x, y) implies (exists|
                        k: int,
                    |
                        0 <= k < work@.len() && (#[trigger] work@[k]).x == x && work@[k].y
                            == y) by {
                        if contains_xy(rpre, x, y) {
                            let k = choose|k: int|
                                0 <= k < workpre.len() && (#[trigger] workpre[k]).x == x
                                    && workpre[k].y == y;
                            assert(work@[k] == workpre[k]);
                        } else {
                            assert(x == vx as int && y == vy as int);
                            assert(work@[work@.len() - 1].x == x && work@[work@.len() - 1].y
                                == y);
                        }
                    }
                }
            }
        }
        j = j + 1;
    }
    proof {
        assert forall|bx: int, by: int| #[trigger]
            adjacent(u.x as int, u.y as int, bx, by, deg) && !spec_oob(
                bx,
                by,
                w as int,
                h as int,
            ) && cell_matches(content@, bx, by, bg, fill, until) implies contains_xy(
            r@,
            bx,
            by,
        ) by {
            let dx = bx - u.x as int;
            let dy = by - u.y as int;
            assert(step_ok(deg, dx, dy));
            let k = choose|k: int|
                0 <= k < offsets@.len() && (#[trigger] offsets@[k]).x == dx && offsets@[k].y
                    == dy;
            assert(u.x as int + offsets@[k].x as int == bx);
            assert(u.y as int + offsets@[k].y as int == by);
        }
    }
}

/// The worklist region growth shared by the two fill modes.
#[verifier::rlimit(100)]
fn flood_core(
    w: i64,
    h: i64,
    content: &Pixels,
    seed: Point2D,
    bg: Option<Color>,
    fill: Color,
    until: bool,
    deg: FloodFillDegrees,
) -> (r: Pixels)
    requires
        content.wf(),
        0 <= w <= MAX_COORD,
        0 <= h <= MAX_COORD,
    ensures
        r.wf(),
        forall|i: int| 0 <= i < r@.len() ==> (#[trigger] r@[i]).color == fill,
        forall|x: int, y: int|
            contains_xy(r@, x, y) <==> fill_reachable(
                content@,
                w as int,
                h as int,
                bg,
                fill,
                until,
                deg,
                seed.x as int,
                seed.y as int,
                x,
                y,
            ),
{
    let ghost cw = w as int;
    let ghost ch = h as int;
    let ghost ssx = seed.x as int;
    let ghost ssy = seed.y as int;
    let mut r = Pixels::new();
    if oob(seed.x, seed.y, w, h) || !matches_cell(content, seed.x, seed.y, &bg, &fill, until) {
        proof {
            assert forall|x: int, y: int|
                !fill_reachable(content@, cw, ch, bg, fill, until, deg, ssx, ssy, x, y) by {
                if fill_reachable(content@, cw, ch, bg, fill, until, deg, ssx, ssy, x, y) {
                    let path = choose|path: Seq<(int, int)>|
                        #[trigger] is_fill_path(path, content@, cw, ch, bg, fill, until, deg)
                            && path[0] == (ssx, ssy) && path[path.len() - 1] == (x, y);
                    assert(!spec_oob(path[0].0, path[0].1, cw, ch));
                    assert(cell_matches(content@, path[0].0, path[0].1, bg, fill, until));
                }
            }
        }
        return r;
    }
    proof {
        lemma_reachable_seed(content@, cw, ch, bg, fill, until, deg, ssx, ssy);
    }
    let mut offsets: Vec<Point2D> = Vec::new();
    offsets.push(Point2D { x: 1, y: 0 });
    offsets.push(Point2D { x: -1, y: 0 });
    offsets.push(Point2D { x: 0, y: 1 });
    offsets.push(Point2D { x: 0, y: -1 });
    match deg {
        FloodFillDegrees::Four => {},
        FloodFillDegrees::Eight => {
            offsets.push(Point2D { x: 1, y: 1 });
            offsets.push(Point2D { x: 1, y: -1 });
            offsets.push(Point2D { x: -1, y: 1 });
            offsets.push(Point2D { x: -1, y: -1 });
        },
    }
    proof {
        assert(forall|k: int|
            0 <= k < offsets@.len() ==> step_ok(
                deg,
                (#[trigger] offsets@[k]).x as int,
                offsets@[k].y as int,
            ));
        assert forall|dx: int, dy: int| #[trigger]
            step_ok(deg, dx, dy) implies exists|k: int|
            0 <= k < offsets@.len() && (#[trigger] offsets@[k]).x == dx && offsets@[k].y == dy by {
            match deg {
                FloodFillDegrees::Four => {
                    if dx == 1 && dy == 0 {
                        assert(offsets@[0].x == dx && offsets@[0].y == dy);
                    } else if dx == -1 && dy == 0 {
                        assert(offsets@[1].x == dx && offsets@[1].y == dy);
                    } else if dx == 0 && dy == 1 {
                        assert(offsets@[2].x == dx && offsets@[2].y == dy);
                    } else {
                        assert(offsets@[3].x == dx && offsets@[3].y == dy);
                    }
                },
                FloodFillDegrees::Eight => {
                    if dx == 1 && dy == 0 {
                        assert(offsets@[0].x == dx && offsets@[0].y == dy);
                    } else if dx == -1 && dy == 0 {
                        assert(offsets@[1].x == dx && offsets@[1].y == dy);
                    } else if dx == 0 && dy == 1 {
                        assert(offsets@[2].x == dx && offsets@[2].y == dy);
                    } else if dx == 0 && dy == -1 {
                        assert(offsets@[3].x == dx && offsets@[3].y == dy);
                    } else if dx == 1 && dy == 1 {
                        assert(offsets@[4].x == dx && offsets@[4].y == dy);
                    } else if dx == 1 && dy == -1 {
                        assert(offsets@[5].x == dx && offsets@[5].y == dy);
                    } else if dx == -1 && dy == 1 {
                        assert(offsets@[6].x == dx && offsets@[6].y == dy);
                    } else {
                        assert(offsets@[7].x == dx && offsets@[7].y == dy);
                    }
                },
            }
        }
    }
    let mut work: Vec<Point2D> = Vec::new();
    r.push(Pixel { point: seed, color: fill });
    work.push(seed);
    proof {
        assert forall|ax: int, ay: int| contains_xy(r@, ax, ay) implies (exists|k: int|
            0 <= k < work@.len() && (#[trigger] work@[k]).x == ax && work@[k].y == ay) by {
            let i = choose|i: int| 0 <= i < r@.len() && r@[i].point.x == ax && r@[i].point.y == ay;
            assert(work@[0].x == ax && work@[0].y == ay);
        }
    }
    while work.len() > 0
        invariant
            content.wf(),
            0 <= w <= MAX_COORD,
            0 <= h <= MAX_COORD,
            cw == w as int,
            ch == h as int,
            ssx == seed.x as int,
            ssy == seed.y as int,
            r.wf(),
            forall|i: int| 0 <= i < r@.len() ==> (#[trigger] r@[i]).color == fill,
            forall|i: int|
                0 <= i < r@.len() ==> !spec_oob(
                    (#[trigger] r@[i]).point.x as int,
                    r@[i].point.y as int,
                    cw,
                    ch,
                ),
            forall|x: int, y: int|
                contains_xy(r@, x, y) ==> cell_matches(content@, x, y, bg, fill, until)
                    && fill_reachable(content@, cw, ch, bg, fill, until, deg, ssx, ssy, x, y),
            contains_xy(r@, ssx, ssy),
            forall|k: int|
                0 <= k < work@.len() ==> contains_xy(
                    r@,
                    (#[trigger] work@[k]).x as int,
                    work@[k].y as int,
                ),
            forall|ax: int, ay: int, bx: int, by: int|
                contains_xy(r@, ax, ay) && !(exists|k: int|
                    0 <= k < work@.len() && (#[trigger] work@[k]).x == ax && work@[k].y == ay)
                    && #[trigger] adjacent(ax, ay, bx, by, deg) && !spec_oob(bx, by, cw, ch)
                    && cell_matches(content@, bx, by, bg, fill, until) ==> contains_xy(
                    r@,
                    bx,
                    by,
                ),
            forall|k: int|
                0 <= k < offsets@.len() ==> step_ok(
                    deg,
                    (#[trigger] offsets@[k]).x as int,
                    offsets@[k].y as int,
                ),
            forall|dx: int, dy: int| #[trigger]
                step_ok(deg, dx, dy) ==> exists|k: int|
                    0 <= k < offsets@.len() && (#[trigger] offsets@[k]).x == dx && offsets@[k].y
                        == dy,
        decreases 2 * (cw * ch - r@.len()) + work@.len(),
    {
        proof {
            lemma_grid_capacity(r@, cw, ch);
        }
        let ghost work0 = work@;
        let ghost r0 = r@;
        let u = work.pop().unwrap();
        let ghost popped = work@;
        proof {
            assert(contains_xy(r@, u.x as int, u.y as int));
            assert(!spec_oob(u.x as int, u.y as int, cw, ch));
        }
        expand_cell(w, h, content, seed, bg, fill, until, deg, &offsets, u, &mut r, &mut work);
        proof {
            lemma_grid_capacity(r@, cw, ch);
            assert forall|ax: int, ay: int, bx: int, by: int|
                contains_xy(r@, ax, ay) && !(exists|k: int|
                    0 <= k < work@.len() && (#[trigger] work@[k]).x == ax && work@[k].y == ay)
                    && #[trigger] adjacent(ax, ay, bx, by, deg) && !spec_oob(bx, by, cw, ch)
                    && cell_matches(content@, bx, by, bg, fill, until) implies contains_xy(
                r@,
                bx,
                by,
            ) by {
                if ax == u.x as int && ay == u.y as int {
                    assert(contains_xy(r@, bx, by));
                } else {
                    if contains_xy(r0, ax, ay) {
                        if exists|k: int|
                            0 <= k < work0.len() && (#[trigger] work0[k]).x == ax && work0[k].y
                                == ay {
                            let k = choose|k: int|
                                0 <= k < work0.len() && (#[trigger] work0[k]).x == ax
                                    && work0[k].y == ay;
                            if k < popped.len() {
                                assert(popped[k] == work0[k]);
                                assert(work@[k] == popped[k]);
                            } else {
                                assert(work0[k] == u);
                            }
                        } else {
                            assert(contains_xy(r0, bx, by));
                            assert(contains_xy(r@, bx, by));
                        }
                    } else {
                        assert(exists|k: int|
                            0 <= k < work@.len() && (#[trigger] work@[k]).x == ax && work@[k].y
                                == ay);
                    }
                }
            }
        }
    }
    proof {
        assert forall|x: int, y: int|
            fill_reachable(content@, cw, ch, bg, fill, until, deg, ssx, ssy, x, y)
                implies contains_xy(r@, x, y) by {
            let path = choose|path: Seq<(int, int)>|
                #[trigger] is_fill_path(path, content@, cw, ch, bg, fill, until, deg) && path[0]
                    == (ssx, ssy) && path[path.len() - 1] == (x, y);
            lemma_path_visited(path, content@, cw, ch, bg, fill, until, deg, r@);
        }
    }
    r
}

} // verus!
