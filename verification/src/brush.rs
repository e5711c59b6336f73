//! Brushes: fixed pixel footprints applied at a cursor position.

use vstd::prelude::*;
use crate::color::Color;
use crate::geom::{Point2D, MAX_COORD};
use crate::pixels::{contains_xy, Pixel, Pixels};

verus! {

/// A fixed shape — an offset pixel set plus bounding size — applied at a
/// cursor position to expand a single point into a multi-pixel footprint.
pub struct Brush {
    pub shape: Pixels,
    pub size: (u32, u32),
}

/// The brush footprint at `p`: every shape offset shifted by the cursor
/// cell and painted `color`.
pub open spec fn canvas_px_spec(shape: Seq<Pixel>, pos: Point2D, color: Color) -> Seq<Pixel> {
    Seq::new(
        shape.len(),
        |j: int|
            Pixel {
                point: Point2D {
                    x: (pos.x + shape[j].point.x) as i64,
                    y: (pos.y + shape[j].point.y) as i64,
                },
                color,
            },
    )
}

/// The union of the brush footprint over a stroke, merged left to right.
pub open spec fn follow_spec(shape: Seq<Pixel>, stroke: Seq<Pixel>) -> Seq<Pixel>
    decreases stroke.len(),
{
    if stroke.len() == 0 {
        Seq::<Pixel>::empty()
    } else {
        crate::pixels::extend_spec(
            follow_spec(shape, stroke.drop_last()),
            canvas_px_spec(shape, stroke.last().point, stroke.last().color),
        )
    }
}

/// Are all coordinates of `s` within `0 ..= b`?
pub open spec fn shape_within(s: Seq<Pixel>, b: int) -> bool {
    forall|i: int|
        0 <= i < s.len() ==> 0 <= (#[trigger] s[i]).point.x <= b && 0 <= s[i].point.y <= b
}

impl Brush {
    /// A brush is well formed when its shape is a proper pixel set of
    /// small nonnegative offsets.
    pub open spec fn wf(&self) -> bool {
        &&& self.shape.wf()
        &&& shape_within(self.shape@, 16)
    }

    /// The single-cell brush.
    pub fn pixel() -> (r: Brush)
        ensures
            r.wf(),
            r.size == (1u32, 1u32),
            forall|x: int, y: int| contains_xy(r.shape@, x, y) <==> (x == 0 && y == 0),
    {
        let mut pxs = Pixels::new();
        pxs.push(Pixel::new(0, 0, Color::red()));
        Brush { shape: pxs, size: (1, 1) }
    }

    /// The five-cell plus-shaped brush.
    pub fn cross() -> (r: Brush)
        ensures
            r.wf(),
            r.size == (3u32, 3u32),
            forall|x: int, y: int|
                contains_xy(r.shape@, x, y) <==> ((x == 0 && y == 1) || (x == 1 && y == 0) || (x
                    == 1 && y == 1) || (x == 1 && y == 2) || (x == 2 && y == 1)),
    {
        let mut pxs = Pixels::new();
        pxs.push(Pixel::new(0, 1, Color::red()));
        pxs.push(Pixel::new(1, 0, Color::red()));
        pxs.push(Pixel::new(1, 1, Color::red()));
        pxs.push(Pixel::new(1, 2, Color::red()));
        pxs.push(Pixel::new(2, 1, Color::red()));
        Brush { shape: pxs, size: (3, 3) }
    }

    /// The brush footprint centered at a cursor cell: every shape offset
    /// shifted by `pos` and painted `color`.
    pub fn to_canvas_pixels(&self, pos: Point2D, color: Color) -> (r: Pixels)
        requires
            self.wf(),
            -4 * MAX_COORD <= pos.x <= 4 * MAX_COORD,
            -4 * MAX_COORD <= pos.y <= 4 * MAX_COORD,
        ensures
            r.wf(),
            r@ == canvas_px_spec(self.shape@, pos, color),
            forall|i: int| 0 <= i < r@.len() ==> (#[trigger] r@[i]).color == color,
            forall|x: int, y: int|
                contains_xy(r@, x, y) <==> contains_xy(
                    self.shape@,
                    x - pos.x as int,
                    y - pos.y as int,
                ),
    {
        let n = self.shape.len();
        let mut r = Pixels::new();
        let mut i: usize = 0;
        while i < n
            invariant
                n == self.shape@.len(),
                0 <= i <= n,
                self.wf(),
                -4 * MAX_COORD <= pos.x <= 4 * MAX_COORD,
                -4 * MAX_COORD <= pos.y <= 4 * MAX_COORD,
                r.wf(),
                r@.len() == i,
                forall|m: int|
                    0 <= m < i ==> #[trigger] r@[m] == canvas_px_spec(self.shape@, pos, color)[m],
                forall|k: int| 0 <= k < r@.len() ==> (#[trigger] r@[k]).color == color,
                forall|x: int, y: int|
                    contains_xy(r@, x, y) <==> (exists|j: int|
                        0 <= j < i && (#[trigger] self.shape@[j]).point.x == x - pos.x
                            && self.shape@[j].point.y == y - pos.y),
            decreases n - i,
        {
            let p = self.shape.get(i);
            let ghost pre = r@;
            proof {
                assert(!contains_xy(pre, pos.x + p.point.x, pos.y + p.point.y)) by {
                    if contains_xy(pre, pos.x + p.point.x, pos.y + p.point.y) {
                        let j = choose|j: int|
                            0 <= j < i && (#[trigger] self.shape@[j]).point.x == pos.x + p.point.x
                                - pos.x && self.shape@[j].point.y == pos.y + p.point.y - pos.y;
                        assert(self.shape@[j].point == self.shape@[i as int].point);
                    }
                }
            }
            r.push(Pixel { point: Point2D { x: pos.x + p.point.x, y: pos.y + p.point.y }, color });
            proof {
                assert forall|x: int, y: int|
                    contains_xy(r@, x, y) <==> (exists|j: int|
                        0 <= j < i + 1 && (#[trigger] self.shape@[j]).point.x == x - pos.x
                            && self.shape@[j].point.y == y - pos.y) by {
                    if contains_xy(r@, x, y) {
                        if contains_xy(pre, x, y) {
                            let j = choose|j: int|
                                0 <= j < i && (#[trigger] self.shape@[j]).point.x == x - pos.x
                                    && self.shape@[j].point.y == y - pos.y;
                            assert(0 <= j < i + 1 && self.shape@[j].point.x == x - pos.x
                                && self.shape@[j].point.y == y - pos.y);
                        } else {
                            assert(self.shape@[i as int].point.x == x - pos.x
                                && self.shape@[i as int].point.y == y - pos.y);
                        }
                    }
                    if exists|j: int|
                        0 <= j < i + 1 && (#[trigger] self.shape@[j]).point.x == x - pos.x
                            && self.shape@[j].point.y == y - pos.y {
                        let j = choose|j: int|
                            0 <= j < i + 1 && (#[trigger] self.shape@[j]).point.x == x - pos.x
                                && self.shape@[j].point.y == y - pos.y;
                        if j < i {
                            assert(contains_xy(pre, x, y));
                            assert(contains_xy(r@, x, y));
                        } else {
                            assert(contains_xy(r@, x, y));
                        }
                    }
                }
            }
            i = i + 1;
        }
        assert(r@ =~= canvas_px_spec(self.shape@, pos, color));
        r
    }

    /// The union of the brush footprint over every pixel of a stroke: what
    /// the stroke paints when drawn with this brush.
    pub fn follow_stroke(&self, stroke: &Pixels) -> (r: Pixels)
        requires
            self.wf(),
            forall|i: int|
                0 <= i < stroke@.len() ==> -4 * MAX_COORD <= (#[trigger] stroke@[i]).point.x <= 4
                    * MAX_COORD && -4 * MAX_COORD <= stroke@[i].point.y <= 4 * MAX_COORD,
        ensures
            r.wf(),
            r@ == follow_spec(self.shape@, stroke@),
            forall|x: int, y: int|
                contains_xy(r@, x, y) <==> (exists|k: int, j: int|
                    0 <= k < stroke@.len() && 0 <= j < self.shape@.len() && x == (
                    #[trigger] stroke@[k]).point.x + (#[trigger] self.shape@[j]).point.x && y
                        == stroke@[k].point.y + self.shape@[j].point.y),
    {
        let n = stroke.len();
        let mut r = Pixels::new();
        let mut k: usize = 0;
        while k < n
            invariant
                n == stroke@.len(),
                0 <= k <= n,
                self.wf(),
                forall|i: int|
                    0 <= i < stroke@.len() ==> -4 * MAX_COORD <= (#[trigger] stroke@[i]).point.x
                        <= 4 * MAX_COORD && -4 * MAX_COORD <= stroke@[i].point.y <= 4 * MAX_COORD,
                r.wf(),
                r@ == follow_spec(self.shape@, stroke@.subrange(0, k as int)),
                forall|x: int, y: int|
                    #![trigger contains_xy(r@, x, y)]
                    contains_xy(r@, x, y) <==> (exists|m: int, j: int|
                        0 <= m < k && 0 <= j < self.shape@.len() && x == (
                        #[trigger] stroke@[m]).point.x + (#[trigger] self.shape@[j]).point.x && y
                            == stroke@[m].point.y + self.shape@[j].point.y),
            decreases n - k,
        {
            let sp = stroke.get(k);
            let foot = self.to_canvas_pixels(sp.point, sp.color);
            let ghost pre = r@;
            r.extend(&foot);
            proof {
                let cur = stroke@.subrange(0, k + 1);
                assert(cur.drop_last() =~= stroke@.subrange(0, k as int));
                assert(cur.last() == sp);
                assert forall|x: int, y: int|
                    #![trigger contains_xy(r@, x, y)]
                    contains_xy(r@, x, y) <==> (exists|m: int, j: int|
                        0 <= m < k + 1 && 0 <= j < self.shape@.len() && x == (
                        #[trigger] stroke@[m]).point.x + (#[trigger] self.shape@[j]).point.x && y
                            == stroke@[m].point.y + self.shape@[j].point.y) by {
                    if contains_xy(r@, x, y) {
                        if contains_xy(pre, x, y) {
                            let (m, j) = choose|m: int, j: int|
                                0 <= m < k && 0 <= j < self.shape@.len() && x == (
                                #[trigger] stroke@[m]).point.x + (
                                #[trigger] self.shape@[j]).point.x && y == stroke@[m].point.y
                                    + self.shape@[j].point.y;
                            assert(0 <= m < k + 1 && 0 <= j < self.shape@.len() && x
                                == stroke@[m].point.x + self.shape@[j].point.x && y
                                == stroke@[m].point.y + self.shape@[j].point.y);
                        } else {
                            assert(contains_xy(foot@, x, y));
                            assert(contains_xy(
                                self.shape@,
                                x - sp.point.x as int,
                                y - sp.point.y as int,
                            ));
                            let j = choose|j: int|
                                0 <= j < self.shape@.len() && (#[trigger] self.shape@[j]).point.x
                                    == x - sp.point.x && self.shape@[j].point.y == y - sp.point.y;
                            assert(0 <= k < k + 1 && 0 <= j < self.shape@.len() && x
                                == stroke@[k as int].point.x + self.shape@[j].point.x && y
                                == stroke@[k as int].point.y + self.shape@[j].point.y);
                        }
                    }
                    if exists|m: int, j: int|
                        0 <= m < k + 1 && 0 <= j < self.shape@.len() && x == (
                        #[trigger] stroke@[m]).point.x + (#[trigger] self.shape@[j]).point.x && y
                            == stroke@[m].point.y + self.shape@[j].point.y {
                        let (m, j) = choose|m: int, j: int|
                            0 <= m < k + 1 && 0 <= j < self.shape@.len() && x == (
                            #[trigger] stroke@[m]).point.x + (#[trigger] self.shape@[j]).point.x
                                && y == stroke@[m].point.y + self.shape@[j].point.y;
                        if m < k {
                            assert(contains_xy(pre, x, y));
                            assert(contains_xy(r@, x, y));
                        } else {
                            assert(self.shape@[j].point.x == x - sp.point.x
                                && self.shape@[j].point.y == y - sp.point.y);
                            assert(contains_xy(
                                self.shape@,
                                x - sp.point.x as int,
                                y - sp.point.y as int,
                            ));
                            assert(contains_xy(foot@, x, y));
                            assert(contains_xy(r@, x, y));
                        }
                    }
                }
            }
            k = k + 1;
        }
        assert(stroke@.subrange(0, n as int) =~= stroke@);
        r
    }
}

/// The two brush shapes the pencil offers.
#[derive(Clone, Copy, Debug, PartialEq, Eq, Structural)]
pub enum BrushType {
    Pixel,
    Cross,
}

} // verus!
