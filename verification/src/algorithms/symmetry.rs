//! The symmetry engine: reflects a pixel set across configurable axes and
//! unions the mirror images into a destination buffer.
//!
//! Reflections work on the pixel grid, so a reflection about the line at
//! `m` maps a coordinate `c` to `2 * m - 1 - c`: the mirror sits between
//! the cells `m - 1` and `m`.  The diagonal modes reflect across the two
//! grid diagonals derived from `m`, and `Quad` lays out the horizontal,
//! vertical and double reflection of the source at once.

use vstd::prelude::*;
use crate::color::Color;
use crate::geom::{Point2D, Rect, MAX_COORD};
use crate::pixels::{contains_pixel, contains_pt, contains_xy, pt_unique, Pixel, Pixels};

verus! {

/// A mirror-axis configuration.
#[derive(Clone, Copy, Debug, PartialEq, Eq, Structural)]
pub enum SymmetryMode {
    /// Reflect across the horizontal line at `y = m`.
    Horizontal(i64),
    /// Reflect across the vertical line at `x = m`.
    Vertical(i64),
    /// Reflect across the rising diagonal with intercept `m`.
    AntiDiagonal(i64),
    /// Reflect across the falling diagonal with intercept `m`.
    Diagonal(i64),
    /// Reflect horizontally at `m`, vertically at `n`, and both ways.
    Quad(i64, i64),
}

/// The set of points that one mode mirrors a point set onto.  Each
/// constituent reflection is written through its inverse: a point `q` lies
/// in the image exactly when the point it came from lies in the source
/// (for the horizontal, vertical and anti-diagonal mirrors the map is its
/// own inverse; the diagonal mirror's inverse shifts the other way).
pub open spec fn mode_image(mode: SymmetryMode, ps: Set<(int, int)>) -> Set<(int, int)> {
    match mode {
        SymmetryMode::Horizontal(m) => Set::new(|q: (int, int)| ps.contains((q.0, 2 * m - 1 - q.1))),
        SymmetryMode::Vertical(m) => Set::new(|q: (int, int)| ps.contains((2 * m - 1 - q.0, q.1))),
        SymmetryMode::AntiDiagonal(m) => Set::new(
            |q: (int, int)| ps.contains((m - 1 - q.1, m - 1 - q.0)),
        ),
        SymmetryMode::Diagonal(m) => Set::new(|q: (int, int)| ps.contains((q.1 + m, q.0 + m))),
        SymmetryMode::Quad(m, n) => Set::new(
            |q: (int, int)|
                ps.contains((q.0, 2 * m - 1 - q.1)) || ps.contains(
                    (2 * n - 1 - q.0, 2 * m - 1 - q.1),
                ) || ps.contains((2 * n - 1 - q.0, q.1)),
        ),
    }
}

/// Where one source pixel lands under a single-mirror mode (for `Quad`,
/// under its horizontal constituent).
pub open spec fn single_image(mode: SymmetryMode, p: Pixel) -> (int, int) {
    match mode {
        SymmetryMode::Horizontal(m) => (p.point.x as int, 2 * m - 1 - p.point.y),
        SymmetryMode::Vertical(m) => (2 * m - 1 - p.point.x, p.point.y as int),
        SymmetryMode::AntiDiagonal(m) => (m - 1 - p.point.y, m - 1 - p.point.x),
        SymmetryMode::Diagonal(m) => (p.point.y - m, p.point.x - m),
        SymmetryMode::Quad(m, _n) => (p.point.x as int, 2 * m - 1 - p.point.y),
    }
}

/// The points covered by a pixel sequence.
pub open spec fn pts_of(s: Seq<Pixel>) -> Set<(int, int)> {
    Set::new(|q: (int, int)| contains_xy(s, q.0, q.1))
}

/// Are the mode's intercepts small enough for safe reflection arithmetic?
pub open spec fn mode_in_range(mode: SymmetryMode) -> bool {
    match mode {
        SymmetryMode::Horizontal(m) => -MAX_COORD <= m <= MAX_COORD,
        SymmetryMode::Vertical(m) => -MAX_COORD <= m <= MAX_COORD,
        SymmetryMode::AntiDiagonal(m) => -MAX_COORD <= m <= MAX_COORD,
        SymmetryMode::Diagonal(m) => -MAX_COORD <= m <= MAX_COORD,
        SymmetryMode::Quad(m, n) => -MAX_COORD <= m <= MAX_COORD && -MAX_COORD <= n <= MAX_COORD,
    }
}

/// Do all coordinates of `s` stay within `b` in magnitude?
pub open spec fn coords_within(s: Seq<Pixel>, b: int) -> bool {
    forall|i: int|
        0 <= i < s.len() ==> -b <= (#[trigger] s[i]).point.x <= b && -b <= s[i].point.y <= b
}

/// Largest coordinate magnitude accepted by a reflection source: wide
/// enough that chains of reflections stay far away from `i64` overflow.
pub const REFLECT_MAX: i64 = 1099511627776;

/// A coordinate bound may always be relaxed.
pub proof fn lemma_coords_within_mono(s: Seq<Pixel>, b1: int, b2: int)
    requires
        coords_within(s, b1),
        b1 <= b2,
    ensures
        coords_within(s, b2),
{
    assert forall|i: int|
        0 <= i < s.len() implies -b2 <= (#[trigger] s[i]).point.x <= b2 && -b2 <= s[i].point.y
        <= b2 by {
        assert(-b1 <= s[i].point.x <= b1 && -b1 <= s[i].point.y <= b1);
    }
}

/// The guide segments that render one mode's mirror axes on a canvas of
/// width `w` and height `h`.
pub open spec fn mode_guides(mode: SymmetryMode, w: i64, h: i64) -> Seq<Rect> {
    match mode {
        SymmetryMode::Horizontal(m) => seq![
            Rect { p0: Point2D { x: m, y: 0 }, p1: Point2D { x: m, y: w } },
        ],
        SymmetryMode::Vertical(m) => seq![
            Rect { p0: Point2D { x: 0, y: m }, p1: Point2D { x: h, y: m } },
        ],
        SymmetryMode::Quad(m, n) => seq![
            Rect { p0: Point2D { x: m, y: 0 }, p1: Point2D { x: m, y: w } },
            Rect { p0: Point2D { x: 0, y: n }, p1: Point2D { x: h, y: n } },
        ],
        SymmetryMode::Diagonal(m) => seq![
            Rect {
                p0: Point2D { x: m, y: 0 },
                p1: (if h <= w {
                    Point2D { x: (m + w) as i64, y: w }
                } else {
                    Point2D { x: h, y: (h - m) as i64 }
                }),
            },
        ],
        SymmetryMode::AntiDiagonal(m) => seq![
            Rect {
                p0: Point2D { x: m, y: 0 },
                p1: (if w <= h {
                    Point2D { x: (m - w) as i64, y: w }
                } else {
                    Point2D { x: 0, y: m }
                }),
            },
        ],
    }
}

impl SymmetryMode {
    /// The display name of the mode.
    pub fn as_str(&self) -> (r: &'static str)
        ensures
            r@ == (match *self {
                SymmetryMode::Horizontal(_) => "Horizontal"@,
                SymmetryMode::Vertical(_) => "Vertical"@,
                SymmetryMode::Diagonal(_) => "Diagonal"@,
                SymmetryMode::AntiDiagonal(_) => "AntiDiagonal"@,
                SymmetryMode::Quad(_, _) => "Quad"@,
            }),
    {
        match self {
            SymmetryMode::Horizontal(_) => "Horizontal",
            SymmetryMode::Vertical(_) => "Vertical",
            SymmetryMode::Diagonal(_) => "Diagonal",
            SymmetryMode::AntiDiagonal(_) => "AntiDiagonal",
            SymmetryMode::Quad(_, _) => "Quad",
        }
    }

    /// Mirror every pixel of `pixs` across this mode's axes and push the
    /// images into `ret` (an already occupied point keeps its first color).
    /// The points gained are exactly the mode's image of the source points,
    /// every gained pixel carries the color of a source pixel that maps
    /// onto it, and under a single mirror each source pixel lands on a
    /// fresh point with its own color.
    pub fn process(&self, pixs: &Pixels, ret: &mut Pixels)
        requires
            old(ret).wf(),
            pixs.wf(),
            mode_in_range(*self),
            coords_within(pixs@, REFLECT_MAX as int),
        ensures
            final(ret).wf(),
            forall|a: int, b: int|
                contains_xy(final(ret)@, a, b) <==> (contains_xy(old(ret)@, a, b) || mode_image(
                    *self,
                    pts_of(pixs@),
                ).contains((a, b))),
            forall|bd: int|
                coords_within(old(ret)@, bd + 2 * MAX_COORD + 1) && coords_within(pixs@, bd) && 0
                    <= bd ==> coords_within(final(ret)@, bd + 2 * MAX_COORD + 1),
            forall|j: int|
                0 <= j < final(ret)@.len() ==> contains_pixel(old(ret)@, #[trigger] final(ret)@[j])
                    || (exists|k: int|
                    0 <= k < pixs@.len() && hits(
                        *self,
                        #[trigger] pixs@[k],
                        final(ret)@[j].point.x as int,
                        final(ret)@[j].point.y as int,
                    ) && final(ret)@[j].color == pixs@[k].color),
            !(*self is Quad) ==> forall|k: int|
                0 <= k < pixs@.len() && !contains_xy(
                    old(ret)@,
                    single_image(*self, #[trigger] pixs@[k]).0,
                    single_image(*self, pixs@[k]).1,
                ) ==> (exists|j: int|
                    0 <= j < final(ret)@.len() && (#[trigger] final(ret)@[j]).point.x as int
                        == single_image(*self, pixs@[k]).0 && final(ret)@[j].point.y as int
                        == single_image(*self, pixs@[k]).1 && final(ret)@[j].color
                        == pixs@[k].color),
    {
        let n = pixs.len();
        let ghost src = pixs@;
        let ghost base = old(ret)@;
        let mut i: usize = 0;
        while i < n
            invariant
                n == pixs@.len(),
                0 <= i <= n,
                src == pixs@,
                ret.wf(),
                pt_unique(src),
                mode_in_range(*self),
                coords_within(pixs@, REFLECT_MAX as int),
                reflect_inv(*self, src, base, ret@, i as int),
            decreases n - i,
        {
            let p = pixs.get(i);
            reflect_step(*self, p, ret, Ghost(base), Ghost(src), Ghost(i as int));
            i = i + 1;
        }
        proof {
            lemma_process_summary(*self, src, base, ret@, n as int);
        }
    }


    /// The guide segments that render this mode's mirror axes on a canvas
    /// of width `w` and height `h`.
    pub fn get_line(&self, w: i64, h: i64) -> (r: Vec<Rect>)
        requires
            0 <= w <= MAX_COORD,
            0 <= h <= MAX_COORD,
            mode_in_range(*self),
        ensures
            r@ == mode_guides(*self, w, h),
    {
        let mut r: Vec<Rect> = Vec::new();
        match *self {
            SymmetryMode::Horizontal(m) => {
                r.push(Rect { p0: Point2D { x: m, y: 0 }, p1: Point2D { x: m, y: w } });
            },
            SymmetryMode::Vertical(m) => {
                r.push(Rect { p0: Point2D { x: 0, y: m }, p1: Point2D { x: h, y: m } });
            },
            SymmetryMode::Quad(m, n) => {
                r.push(Rect { p0: Point2D { x: m, y: 0 }, p1: Point2D { x: m, y: w } });
                r.push(Rect { p0: Point2D { x: 0, y: n }, p1: Point2D { x: h, y: n } });
            },
            SymmetryMode::Diagonal(m) => {
                let p1 = if h <= w {
                    Point2D { x: m + w, y: w }
                } else {
                    Point2D { x: h, y: h - m }
                };
                r.push(Rect { p0: Point2D { x: m, y: 0 }, p1 });
            },
            SymmetryMode::AntiDiagonal(m) => {
                let p1 = if w <= h {
                    Point2D { x: m - w, y: w }
                } else {
                    Point2D { x: 0, y: m }
                };
                r.push(Rect { p0: Point2D { x: m, y: 0 }, p1 });
            },
        }
        assert(r@ =~= mode_guides(*self, w, h));
        r
    }
}

/// Does the mode map one of the first `k` source pixels onto `(a, b)`?
pub open spec fn image_hit_upto(mode: SymmetryMode, src: Seq<Pixel>, k: int, a: int, b: int) -> bool {
    exists|j: int| 0 <= j < k && hits(mode, src[j], a, b)
}

/// Does the mode map the source pixel `p` onto the point `(a, b)`?
pub open spec fn hits(mode: SymmetryMode, p: Pixel, a: int, b: int) -> bool {
    match mode {
        SymmetryMode::Horizontal(m) => a == p.point.x && b == 2 * m - 1 - p.point.y,
        SymmetryMode::Vertical(m) => a == 2 * m - 1 - p.point.x && b == p.point.y,
        SymmetryMode::AntiDiagonal(m) => a == m - 1 - p.point.y && b == m - 1 - p.point.x,
        SymmetryMode::Diagonal(m) => a == p.point.y - m && b == p.point.x - m,
        SymmetryMode::Quad(m, n) => (a == p.point.x && b == 2 * m - 1 - p.point.y) || (a == 2 * n
            - 1 - p.point.x && b == 2 * m - 1 - p.point.y) || (a == 2 * n - 1 - p.point.x && b
            == p.point.y),
    }
}

impl Default for SymmetryMode {
    /// The default mirror: a vertical axis at the origin.
    fn default() -> (r: SymmetryMode)
        ensures
            r == SymmetryMode::Vertical(0i64),
    {
        SymmetryMode::Vertical(0)
    }
}

/// The walking state of `process` after the first `i` source pixels have
/// been mirrored into `cur` on top of `base`: the covered points are the
/// base points plus the images of the sources seen so far, the coordinate
/// budget holds, every pixel is an old one or a mirrored source pixel with
/// its source color, and under a single mirror each source pixel aimed at
/// a fresh point has landed there with its own color.
pub open spec fn reflect_inv(
    mode: SymmetryMode,
    src: Seq<Pixel>,
    base: Seq<Pixel>,
    cur: Seq<Pixel>,
    i: int,
) -> bool {
    &&& forall|a: int, b: int|
        contains_xy(cur, a, b) ==> contains_xy(base, a, b) || image_hit_upto(mode, src, i, a, b)
    &&& forall|a: int, b: int| contains_xy(base, a, b) ==> contains_xy(cur, a, b)
    &&& forall|a: int, b: int| image_hit_upto(mode, src, i, a, b) ==> contains_xy(cur, a, b)
    &&& forall|bd: int|
        coords_within(base, bd + 2 * MAX_COORD + 1) && coords_within(src, bd) && 0 <= bd
            ==> coords_within(cur, bd + 2 * MAX_COORD + 1)
    &&& forall|j: int|
        0 <= j < cur.len() ==> contains_pixel(base, #[trigger] cur[j]) || (exists|k: int|
            0 <= k < i && hits(mode, #[trigger] src[k], cur[j].point.x as int, cur[j].point.y as int)
                && cur[j].color == src[k].color)
    &&& (!(mode is Quad) ==> forall|k: int|
        0 <= k < i && !contains_xy(
            base,
            single_image(mode, #[trigger] src[k]).0,
            single_image(mode, src[k]).1,
        ) ==> (exists|j: int|
            0 <= j < cur.len() && (#[trigger] cur[j]).point.x as int == single_image(
                mode,
                src[k],
            ).0 && cur[j].point.y as int == single_image(mode, src[k]).1 && cur[j].color
                == src[k].color))
}

/// Mirror one source pixel into the buffer, keeping the walking state.
#[verifier::rlimit(100)]
fn reflect_step(
    mode: SymmetryMode,
    p: Pixel,
    ret: &mut Pixels,
    Ghost(base): Ghost<Seq<Pixel>>,
    Ghost(src): Ghost<Seq<Pixel>>,
    Ghost(i): Ghost<int>,
)
    requires
        old(ret).wf(),
        mode_in_range(mode),
        pt_unique(src),
        0 <= i < src.len(),
        p == src[i],
        coords_within(src, REFLECT_MAX as int),
        reflect_inv(mode, src, base, old(ret)@, i),
    ensures
        final(ret).wf(),
        reflect_inv(mode, src, base, final(ret)@, i + 1),
{
    let ghost pre = ret@;
    let x = p.point.x;
    let y = p.point.y;
    proof {
        assert(-REFLECT_MAX <= p.point.x <= REFLECT_MAX && -REFLECT_MAX <= p.point.y
            <= REFLECT_MAX);
    }
    let img = match mode {
        SymmetryMode::Horizontal(m) => Pixel { point: Point2D { x, y: 2 * m - 1 - y }, color: p.color },
        SymmetryMode::Vertical(m) => Pixel { point: Point2D { x: 2 * m - 1 - x, y }, color: p.color },
        SymmetryMode::AntiDiagonal(m) => Pixel {
            point: Point2D { x: m - 1 - y, y: m - 1 - x },
            color: p.color,
        },
        SymmetryMode::Diagonal(m) => Pixel { point: Point2D { x: y - m, y: x - m }, color: p.color },
        SymmetryMode::Quad(m, _) => Pixel { point: Point2D { x, y: 2 * m - 1 - y }, color: p.color },
    };
    ret.push_first(img);
    if let SymmetryMode::Quad(m, n2) = mode {
        ret.push_first(
            Pixel { point: Point2D { x: 2 * n2 - 1 - x, y: 2 * m - 1 - y }, color: p.color },
        );
        ret.push_first(Pixel { point: Point2D { x: 2 * n2 - 1 - x, y }, color: p.color });
    }
    proof {
        assert forall|a: int, b: int|
            contains_xy(ret@, a, b) implies contains_xy(base, a, b) || image_hit_upto(
            mode,
            src,
            i + 1,
            a,
            b,
        ) by {
            if contains_xy(pre, a, b) {
                if !contains_xy(base, a, b) {
                    let j = choose|j: int| 0 <= j < i && hits(mode, src[j], a, b);
                    assert(hits(mode, src[j], a, b));
                    assert(image_hit_upto(mode, src, i + 1, a, b));
                }
            } else {
                assert(hits(mode, src[i], a, b));
                assert(image_hit_upto(mode, src, i + 1, a, b));
            }
        }
        assert forall|a: int, b: int|
            image_hit_upto(mode, src, i + 1, a, b) implies contains_xy(ret@, a, b) by {
            let j = choose|j: int| 0 <= j < i + 1 && hits(mode, src[j], a, b);
            if j < i {
                assert(image_hit_upto(mode, src, i, a, b));
                assert(contains_xy(pre, a, b));
                assert(contains_xy(ret@, a, b));
            } else {
                assert(hits(mode, src[i], a, b));
                assert(contains_xy(ret@, a, b));
            }
        }
        assert forall|bd: int|
            coords_within(base, bd + 2 * MAX_COORD + 1) && coords_within(src, bd) && 0
                <= bd implies coords_within(ret@, bd + 2 * MAX_COORD + 1) by {
            assert(coords_within(pre, bd + 2 * MAX_COORD + 1));
            assert(-bd <= src[i].point.x <= bd && -bd <= src[i].point.y <= bd);
            assert forall|t: int|
                0 <= t < ret@.len() implies -(bd + 2 * MAX_COORD + 1) <= (
            #[trigger] ret@[t]).point.x <= bd + 2 * MAX_COORD + 1 && -(bd + 2 * MAX_COORD + 1)
                <= ret@[t].point.y <= bd + 2 * MAX_COORD + 1 by {
                if t < pre.len() {
                    assert(ret@[t] == pre[t]);
                }
            }
        }
        assert forall|j: int|
            0 <= j < ret@.len() implies contains_pixel(base, #[trigger] ret@[j]) || (exists|k: int|
            0 <= k < i + 1 && hits(
                mode,
                #[trigger] src[k],
                ret@[j].point.x as int,
                ret@[j].point.y as int,
            ) && ret@[j].color == src[k].color) by {
            if j < pre.len() {
                assert(ret@[j] == pre[j]);
                if !contains_pixel(base, pre[j]) {
                    let k = choose|k: int|
                        0 <= k < i && hits(
                            mode,
                            src[k],
                            pre[j].point.x as int,
                            pre[j].point.y as int,
                        ) && pre[j].color == src[k].color;
                    assert(0 <= k < i + 1 && hits(
                        mode,
                        src[k],
                        ret@[j].point.x as int,
                        ret@[j].point.y as int,
                    ) && ret@[j].color == src[k].color);
                }
            } else {
                assert(hits(mode, src[i], ret@[j].point.x as int, ret@[j].point.y as int)
                    && ret@[j].color == src[i].color);
            }
        }
        if !(mode is Quad) {
            assert forall|k: int|
                0 <= k < i + 1 && !contains_xy(
                    base,
                    single_image(mode, #[trigger] src[k]).0,
                    single_image(mode, src[k]).1,
                ) implies (exists|j: int|
                0 <= j < ret@.len() && (#[trigger] ret@[j]).point.x as int == single_image(
                    mode,
                    src[k],
                ).0 && ret@[j].point.y as int == single_image(mode, src[k]).1 && ret@[j].color
                    == src[k].color) by {
                let si = single_image(mode, src[k]);
                if k < i {
                    let j = choose|j: int|
                        0 <= j < pre.len() && (#[trigger] pre[j]).point.x as int == si.0
                            && pre[j].point.y as int == si.1 && pre[j].color == src[k].color;
                    assert(ret@[j] == pre[j]);
                    assert(ret@[j].point.x as int == si.0 && ret@[j].point.y as int == si.1
                        && ret@[j].color == src[k].color);
                } else {
                    assert(img.point.x as int == si.0 && img.point.y as int == si.1 && img.color
                        == src[k].color);
                    if contains_pt(pre, img.point) {
                        let t = choose|t: int| 0 <= t < pre.len() && pre[t].point == img.point;
                        assert(pre[t].point.x as int == si.0 && pre[t].point.y as int == si.1);
                        assert(contains_xy(pre, si.0, si.1));
                        assert(image_hit_upto(mode, src, i, si.0, si.1));
                        let k2 = choose|k2: int| 0 <= k2 < i && hits(mode, src[k2], si.0, si.1);
                        assert(src[k2].point.x == src[i].point.x && src[k2].point.y
                            == src[i].point.y);
                        assert(src[k2].point == src[i].point);
                        assert(false);
                    }
                    assert(ret@[pre.len() as int] == img);
                }
            }
        }
        assert(reflect_inv(mode, src, base, ret@, i + 1));
    }
}

/// At the end of the walk the covered points are exactly the base points
/// united with the mode's image of all source points.
proof fn lemma_process_summary(
    mode: SymmetryMode,
    src: Seq<Pixel>,
    base: Seq<Pixel>,
    cur: Seq<Pixel>,
    n: int,
)
    requires
        n == src.len(),
        reflect_inv(mode, src, base, cur, n),
    ensures
        forall|a: int, b: int|
            contains_xy(cur, a, b) <==> (contains_xy(base, a, b) || mode_image(
                mode,
                pts_of(src),
            ).contains((a, b))),
{
    assert forall|a: int, b: int|
        contains_xy(cur, a, b) <==> (contains_xy(base, a, b) || mode_image(
            mode,
            pts_of(src),
        ).contains((a, b))) by {
        if contains_xy(cur, a, b) && !contains_xy(base, a, b) {
            assert(image_hit_upto(mode, src, n, a, b));
            let j = choose|j: int| 0 <= j < n && hits(mode, src[j], a, b);
            assert(contains_xy(src, src[j].point.x as int, src[j].point.y as int));
            assert(pts_of(src).contains((src[j].point.x as int, src[j].point.y as int)));
            assert(mode_image(mode, pts_of(src)).contains((a, b)));
        }
        if mode_image(mode, pts_of(src)).contains((a, b)) {
            match mode {
                SymmetryMode::Horizontal(m) => {
                    let j = choose|j: int|
                        0 <= j < src.len() && src[j].point.x == a && src[j].point.y == 2 * m - 1
                            - b;
                    assert(hits(mode, src[j], a, b));
                },
                SymmetryMode::Vertical(m) => {
                    let j = choose|j: int|
                        0 <= j < src.len() && src[j].point.x == 2 * m - 1 - a && src[j].point.y
                            == b;
                    assert(hits(mode, src[j], a, b));
                },
                SymmetryMode::AntiDiagonal(m) => {
                    let j = choose|j: int|
                        0 <= j < src.len() && src[j].point.x == m - 1 - b && src[j].point.y == m
                            - 1 - a;
                    assert(hits(mode, src[j], a, b));
                },
                SymmetryMode::Diagonal(m) => {
                    let j = choose|j: int|
                        0 <= j < src.len() && src[j].point.x == b + m && src[j].point.y == a + m;
                    assert(hits(mode, src[j], a, b));
                },
                SymmetryMode::Quad(m, n2) => {
                    if pts_of(src).contains((a, 2 * m - 1 - b)) {
                        let j = choose|j: int|
                            0 <= j < src.len() && src[j].point.x == a && src[j].point.y == 2 * m
                                - 1 - b;
                        assert(hits(mode, src[j], a, b));
                    } else if pts_of(src).contains((2 * n2 - 1 - a, 2 * m - 1 - b)) {
                        let j = choose|j: int|
                            0 <= j < src.len() && src[j].point.x == 2 * n2 - 1 - a
                                && src[j].point.y == 2 * m - 1 - b;
                        assert(hits(mode, src[j], a, b));
                    } else {
                        let j = choose|j: int|
                            0 <= j < src.len() && src[j].point.x == 2 * n2 - 1 - a
                                && src[j].point.y == b;
                        assert(hits(mode, src[j], a, b));
                    }
                },
            }
            assert(image_hit_upto(mode, src, n, a, b));
            assert(contains_xy(cur, a, b));
        }
    }
}

} // verus!
