//! The pixel set: an insertion-ordered, coordinate-unique collection of
//! colored grid cells, the unit of all raster data in the engine.
//!
//! Two pixels are "the same" exactly when they sit on the same grid point;
//! the color is payload.  Every operation preserves the invariant that no
//! two elements of a set share a point.

use vstd::prelude::*;
use crate::color::Color;
use crate::geom::Point2D;

verus! {

/// One colored cell of the grid.
#[derive(Clone, Copy, Debug)]
pub struct Pixel {
    pub point: Point2D,
    pub color: Color,
}

impl Pixel {
    /// Build a pixel from coordinates and a color.
    pub fn new(x: i64, y: i64, color: Color) -> (p: Pixel)
        ensures
            p.point.x == x,
            p.point.y == y,
            p.color == color,
    {
        Pixel { point: Point2D { x, y }, color }
    }

    /// The same cell, painted with another color.
    pub fn with_color(&self, col: Color) -> (p: Pixel)
        ensures
            p.point == self.point,
            p.color == col,
    {
        Pixel { point: self.point, color: col }
    }
}

/// Does some element of `s` sit on the point `pt`?
pub open spec fn contains_pt(s: Seq<Pixel>, pt: Point2D) -> bool {
    exists|i: int| 0 <= i < s.len() && s[i].point == pt
}

/// Does some element of `s` sit on the coordinates `(x, y)`?
pub open spec fn contains_xy(s: Seq<Pixel>, x: int, y: int) -> bool {
    exists|i: int| 0 <= i < s.len() && s[i].point.x == x && s[i].point.y == y
}

/// Does `s` hold this very pixel, point and color both?
pub open spec fn contains_pixel(s: Seq<Pixel>, px: Pixel) -> bool {
    exists|i: int| 0 <= i < s.len() && s[i] == px
}

/// No two elements of `s` share a point.
pub open spec fn pt_unique(s: Seq<Pixel>) -> bool {
    forall|i: int, j: int| 0 <= i < j < s.len() ==> s[i].point != s[j].point
}

/// The index of the element sitting on `pt` (meaningful when `pt` is present).
pub open spec fn index_of_pt(s: Seq<Pixel>, pt: Point2D) -> int {
    choose|i: int| 0 <= i < s.len() && s[i].point == pt
}

/// What inserting one pixel does: overwrite in place when the point is
/// already present, append otherwise.
pub open spec fn upsert_spec(s: Seq<Pixel>, px: Pixel) -> Seq<Pixel> {
    if contains_pt(s, px.point) {
        s.update(index_of_pt(s, px.point), px)
    } else {
        s.push(px)
    }
}

/// What extending by a whole sequence does: insert its elements in order,
/// so a later color overwrites an earlier one at the same point.
pub open spec fn extend_spec(s: Seq<Pixel>, o: Seq<Pixel>) -> Seq<Pixel>
    decreases o.len(),
{
    if o.len() == 0 {
        s
    } else {
        extend_spec(upsert_spec(s, o[0]), o.subrange(1, o.len() as int))
    }
}

/// First-hit deduplication of a raw pixel sequence: a pixel is kept only
/// when no earlier pixel sits on the same point.
pub open spec fn dedup_spec(s: Seq<Pixel>) -> Seq<Pixel>
    decreases s.len(),
{
    if s.len() == 0 {
        Seq::<Pixel>::empty()
    } else {
        let prefix = dedup_spec(s.drop_last());
        if contains_pt(prefix, s.last().point) {
            prefix
        } else {
            prefix.push(s.last())
        }
    }
}

/// Do two sequences cover exactly the same set of points?
pub open spec fn same_points(a: Seq<Pixel>, b: Seq<Pixel>) -> bool {
    forall|pt: Point2D| contains_pt(a, pt) <==> contains_pt(b, pt)
}

/// In a point-unique sequence the index of a present point is the index of
/// any element known to sit on it.
pub proof fn lemma_index_of_pt(s: Seq<Pixel>, i: int)
    requires
        pt_unique(s),
        0 <= i < s.len(),
    ensures
        contains_pt(s, s[i].point),
        index_of_pt(s, s[i].point) == i,
{
    assert(contains_pt(s, s[i].point));
    let j = index_of_pt(s, s[i].point);
    if i < j {
        assert(s[i].point != s[j].point);
    } else if j < i {
        assert(s[j].point != s[i].point);
    }
}

/// Inserting preserves point-uniqueness; the set of covered points gains
/// exactly the new pixel's point, and the length grows only on new points.
pub proof fn lemma_upsert(s: Seq<Pixel>, px: Pixel)
    requires
        pt_unique(s),
    ensures
        pt_unique(upsert_spec(s, px)),
        forall|pt: Point2D|
            contains_pt(upsert_spec(s, px), pt) <==> (contains_pt(s, pt) || pt == px.point),
        contains_pt(s, px.point) ==> upsert_spec(s, px).len() == s.len(),
        !contains_pt(s, px.point) ==> upsert_spec(s, px).len() == s.len() + 1,
{
    let r = upsert_spec(s, px);
    if contains_pt(s, px.point) {
        let i = index_of_pt(s, px.point);
        assert(0 <= i < s.len() && s[i].point == px.point);
        assert forall|pt: Point2D|
            contains_pt(r, pt) <==> (contains_pt(s, pt) || pt == px.point) by {
            if contains_pt(r, pt) {
                let k = choose|k: int| 0 <= k < r.len() && r[k].point == pt;
                if k == i {
                    assert(pt == px.point);
                } else {
                    assert(s[k].point == pt);
                }
            }
            if contains_pt(s, pt) {
                let k = choose|k: int| 0 <= k < s.len() && s[k].point == pt;
                if k == i {
                    assert(r[i].point == pt);
                } else {
                    assert(r[k].point == pt);
                }
            }
            if pt == px.point {
                assert(r[i].point == pt);
            }
        }
        assert forall|a: int, b: int| 0 <= a < b < r.len() implies r[a].point != r[b].point by {
            if a != i && b != i {
                assert(r[a] == s[a] && r[b] == s[b]);
            } else if a == i {
                assert(r[a].point == s[i].point && r[b] == s[b]);
            } else {
                assert(r[b].point == s[i].point && r[a] == s[a]);
            }
        }
    } else {
        assert forall|a: int, b: int| 0 <= a < b < r.len() implies r[a].point != r[b].point by {
            if b < s.len() {
            } else {
                assert(r[b] == px && r[a] == s[a]);
                assert(!contains_pt(s, px.point));
            }
        }
        assert forall|pt: Point2D|
            contains_pt(r, pt) <==> (contains_pt(s, pt) || pt == px.point) by {
            if contains_pt(r, pt) {
                let k = choose|k: int| 0 <= k < r.len() && r[k].point == pt;
                if k < s.len() {
                    assert(s[k].point == pt);
                }
            }
            if contains_pt(s, pt) {
                let k = choose|k: int| 0 <= k < s.len() && s[k].point == pt;
                assert(r[k].point == pt);
            }
            if pt == px.point {
                assert(r[s.len() as int].point == pt);
            }
        }
    }
}

/// Extending preserves point-uniqueness and covers exactly the union of the
/// two point sets.
pub proof fn lemma_extend(s: Seq<Pixel>, o: Seq<Pixel>)
    requires
        pt_unique(s),
    ensures
        pt_unique(extend_spec(s, o)),
        forall|pt: Point2D|
            contains_pt(extend_spec(s, o), pt) <==> (contains_pt(s, pt) || contains_pt(o, pt)),
    decreases o.len(),
{
    if o.len() == 0 {
        assert forall|pt: Point2D| !contains_pt(o, pt) by {}
    } else {
        let s1 = upsert_spec(s, o[0]);
        let o1 = o.subrange(1, o.len() as int);
        lemma_upsert(s, o[0]);
        lemma_extend(s1, o1);
        assert forall|pt: Point2D|
            contains_pt(extend_spec(s, o), pt) <==> (contains_pt(s, pt) || contains_pt(o, pt)) by {
            assert(contains_pt(extend_spec(s, o), pt) <==> (contains_pt(s1, pt) || contains_pt(
                o1,
                pt,
            )));
            if contains_pt(o, pt) {
                let k = choose|k: int| 0 <= k < o.len() && o[k].point == pt;
                if k == 0 {
                    assert(contains_pt(s1, pt));
                } else {
                    assert(o1[k - 1].point == pt);
                    assert(contains_pt(o1, pt));
                }
            }
            if contains_pt(o1, pt) {
                let k = choose|k: int| 0 <= k < o1.len() && o1[k].point == pt;
                assert(o[k + 1].point == pt);
                assert(contains_pt(o, pt));
            }
            if pt == o[0].point {
                assert(contains_pt(o, pt));
            }
        }
    }
}

/// Extending a sequence by pixels on entirely fresh points just appends
/// them.
pub proof fn lemma_extend_unique(s: Seq<Pixel>, o: Seq<Pixel>)
    requires
        pt_unique(s + o),
    ensures
        extend_spec(s, o) == s + o,
    decreases o.len(),
{
    if o.len() == 0 {
        assert(s + o =~= s);
    } else {
        let px = o[0];
        assert(!contains_pt(s, px.point)) by {
            if contains_pt(s, px.point) {
                let k = choose|k: int| 0 <= k < s.len() && s[k].point == px.point;
                assert((s + o)[k].point == (s + o)[s.len() as int].point);
            }
        }
        let s1 = s.push(px);
        let o1 = o.subrange(1, o.len() as int);
        assert(s1 + o1 =~= s + o);
        lemma_extend_unique(s1, o1);
        assert(upsert_spec(s, px) == s1);
        assert(o.subrange(1, o.len() as int) == o1);
    }
}

/// Deduplication yields a point-unique sequence covering the same points.
pub proof fn lemma_dedup(s: Seq<Pixel>)
    ensures
        pt_unique(dedup_spec(s)),
        same_points(dedup_spec(s), s),
    decreases s.len(),
{
    if s.len() == 0 {
    } else {
        let prefix = dedup_spec(s.drop_last());
        lemma_dedup(s.drop_last());
        let r = dedup_spec(s);
        assert forall|pt: Point2D| contains_pt(r, pt) <==> contains_pt(s, pt) by {
            if contains_pt(r, pt) {
                if contains_pt(prefix, pt) {
                    assert(contains_pt(s.drop_last(), pt));
                    let k = choose|k: int|
                        0 <= k < s.drop_last().len() && s.drop_last()[k].point == pt;
                    assert(s[k].point == pt);
                } else {
                    let k = choose|k: int| 0 <= k < r.len() && r[k].point == pt;
                    assert(r[k] == s.last());
                    assert(s[s.len() - 1].point == pt);
                }
            }
            if contains_pt(s, pt) {
                let k = choose|k: int| 0 <= k < s.len() && s[k].point == pt;
                if k < s.len() - 1 {
                    assert(s.drop_last()[k].point == pt);
                    assert(contains_pt(prefix, pt));
                    if contains_pt(prefix, s.last().point) {
                    } else {
                        let m = index_of_pt(prefix, pt);
                        assert(r[m].point == pt);
                    }
                } else {
                    if contains_pt(prefix, s.last().point) {
                        assert(contains_pt(r, pt));
                    } else {
                        assert(r[r.len() - 1].point == pt);
                    }
                }
            }
        }
        if !contains_pt(prefix, s.last().point) {
            assert forall|a: int, b: int| 0 <= a < b < r.len() implies r[a].point != r[b].point by {
                if b == r.len() - 1 {
                    assert(r[a] == prefix[a]);
                    assert(!contains_pt(prefix, r[b].point));
                }
            }
        }
    }
}

/// Every element of a filtered sequence is an element of the original.
pub proof fn lemma_filter_elem_of(s: Seq<Pixel>, pred: spec_fn(Pixel) -> bool)
    ensures
        forall|j: int|
            0 <= j < s.filter(pred).len() ==> s.contains(#[trigger] s.filter(pred)[j]),
    decreases s.len(),
{
    reveal(Seq::filter);
    if s.len() > 0 {
        lemma_filter_elem_of(s.drop_last(), pred);
        let r = s.filter(pred);
        let rp = s.drop_last().filter(pred);
        assert forall|j: int| 0 <= j < r.len() implies s.contains(#[trigger] r[j]) by {
            if j < rp.len() {
                assert(rp[j] == r[j]);
                assert(s.drop_last().contains(rp[j]));
                let k = choose|k: int|
                    0 <= k < s.drop_last().len() && s.drop_last()[k] == rp[j];
                assert(s[k] == r[j]);
            } else {
                assert(r[j] == s.last());
                assert(s[s.len() - 1] == r[j]);
            }
        }
    }
}

/// Filtering a point-unique sequence keeps it point-unique.
pub proof fn lemma_filter_unique(s: Seq<Pixel>, pred: spec_fn(Pixel) -> bool)
    requires
        pt_unique(s),
    ensures
        pt_unique(s.filter(pred)),
    decreases s.len(),
{
    reveal(Seq::filter);
    if s.len() > 0 {
        assert(pt_unique(s.drop_last()));
        lemma_filter_unique(s.drop_last(), pred);
        lemma_filter_elem_of(s.drop_last(), pred);
        let r = s.filter(pred);
        let rp = s.drop_last().filter(pred);
        if pred(s.last()) {
            assert forall|a: int, b: int|
                0 <= a < b < r.len() implies r[a].point != r[b].point by {
                if b < rp.len() {
                    assert(r[a] == rp[a] && r[b] == rp[b]);
                } else {
                    assert(r[b] == s.last());
                    assert(r[a] == rp[a]);
                    assert(s.drop_last().contains(rp[a]));
                    let k = choose|k: int|
                        0 <= k < s.drop_last().len() && s.drop_last()[k] == rp[a];
                    assert(s[k].point != s[s.len() - 1].point);
                }
            }
        }
    }
}

/// An insertion-ordered, coordinate-unique set of colored pixels.
#[derive(Clone, Debug)]
pub struct Pixels {
    items: Vec<Pixel>,
}

impl View for Pixels {
    type V = Seq<Pixel>;

    closed spec fn view(&self) -> Seq<Pixel> {
        self.items@
    }
}

impl Pixels {
    /// The uniqueness invariant: no two elements share a point.
    pub open spec fn wf(&self) -> bool {
        pt_unique(self@)
    }

    /// The empty pixel set.
    pub fn new() -> (r: Pixels)
        ensures
            r@ == Seq::<Pixel>::empty(),
            r.wf(),
    {
        Pixels { items: Vec::new() }
    }

    /// Number of pixels in the set.
    pub fn len(&self) -> (n: usize)
        ensures
            n == self@.len(),
    {
        self.items.len()
    }

    /// Is the set empty?
    pub fn is_empty(&self) -> (r: bool)
        ensures
            r == (self@.len() == 0),
    {
        self.items.len() == 0
    }

    /// The pixel at insertion position `i`.
    pub fn get(&self, i: usize) -> (p: Pixel)
        requires
            i < self@.len(),
        ensures
            p == self@[i as int],
    {
        self.items[i]
    }

    /// An independent copy with the same contents.
    pub fn duplicate(&self) -> (r: Pixels)
        ensures
            r@ == self@,
    {
        let mut items: Vec<Pixel> = Vec::new();
        let mut i: usize = 0;
        while i < self.items.len()
            invariant
                i <= self.items.len(),
                items@ == self.items@.subrange(0, i as int),
            decreases self.items.len() - i,
        {
            items.push(self.items[i]);
            assert(self.items@.subrange(0, i + 1) =~= self.items@.subrange(0, i as int).push(
                self.items@[i as int],
            ));
            i = i + 1;
        }
        assert(items@ =~= self.items@);
        Pixels { items }
    }

    /// The pixels in insertion order, as a plain vector.
    pub fn to_vec(&self) -> (r: Vec<Pixel>)
        ensures
            r@ == self@,
    {
        let mut r: Vec<Pixel> = Vec::new();
        let mut i: usize = 0;
        while i < self.items.len()
            invariant
                i <= self.items.len(),
                r@ == self.items@.subrange(0, i as int),
            decreases self.items.len() - i,
        {
            r.push(self.items[i]);
            assert(self.items@.subrange(0, i + 1) =~= self.items@.subrange(0, i as int).push(
                self.items@[i as int],
            ));
            i = i + 1;
        }
        assert(r@ =~= self.items@);
        r
    }

    /// Is some pixel of the set at the same point as `px`?
    pub fn contains(&self, px: &Pixel) -> (r: bool)
        ensures
            r == contains_pt(self@, px.point),
    {
        self.contains_point(px.point)
    }

    /// Is some pixel of the set at the point `pt`?
    pub fn contains_point(&self, pt: Point2D) -> (r: bool)
        ensures
            r == contains_pt(self@, pt),
    {
        let mut i: usize = 0;
        while i < self.items.len()
            invariant
                i <= self.items.len(),
                forall|j: int| 0 <= j < i ==> self.items@[j].point != pt,
            decreases self.items.len() - i,
        {
            if self.items[i].point.x == pt.x && self.items[i].point.y == pt.y {
                assert(self.items@[i as int].point == pt);
                return true;
            }
            i = i + 1;
        }
        assert(!contains_pt(self@, pt));
        false
    }

    /// The color of the pixel at `pt`, when one is there.
    pub fn color_at(&self, pt: Point2D) -> (r: Option<Color>)
        requires
            self.wf(),
        ensures
            r is Some <==> contains_pt(self@, pt),
            r is Some ==> r->0 == self@[index_of_pt(self@, pt)].color,
    {
        let mut i: usize = 0;
        while i < self.items.len()
            invariant
                i <= self.items.len(),
                self.wf(),
                forall|j: int| 0 <= j < i ==> self.items@[j].point != pt,
            decreases self.items.len() - i,
        {
            if self.items[i].point.x == pt.x && self.items[i].point.y == pt.y {
                proof {
                    lemma_index_of_pt(self@, i as int);
                }
                return Some(self.items[i].color);
            }
            i = i + 1;
        }
        assert(!contains_pt(self@, pt));
        None
    }

    /// Add a pixel to the set: at an occupied point the stored color is
    /// replaced in place (the last write wins) and the size is unchanged;
    /// at a fresh point the pixel is appended.
    pub fn push(&mut self, px: Pixel)
        requires
            old(self).wf(),
        ensures
            final(self)@ == upsert_spec(old(self)@, px),
            final(self).wf(),
            contains_pt(old(self)@, px.point) ==> final(self)@.len() == old(self)@.len(),
            !contains_pt(old(self)@, px.point) ==> final(self)@ == old(self)@.push(px),
            forall|pt: Point2D|
                contains_pt(final(self)@, pt) <==> (contains_pt(old(self)@, pt) || pt
                    == px.point),
            forall|a: int, b: int|
                #![trigger contains_xy(final(self)@, a, b)]
                #![trigger contains_xy(old(self)@, a, b)]
                contains_xy(final(self)@, a, b) <==> (contains_xy(old(self)@, a, b) || (a
                    == px.point.x && b == px.point.y)),
    {
        proof {
            lemma_upsert(old(self)@, px);
        }
        self.insert(px);
        proof {
            assert forall|a: int, b: int|
                contains_xy(self@, a, b) <==> (contains_xy(old(self)@, a, b) || (a == px.point.x
                    && b == px.point.y)) by {
                if contains_xy(self@, a, b) {
                    let k = choose|k: int|
                        0 <= k < self@.len() && self@[k].point.x == a && self@[k].point.y == b;
                    let pt = self@[k].point;
                    assert(contains_pt(self@, pt));
                    if contains_pt(old(self)@, pt) {
                        let m = choose|m: int|
                            0 <= m < old(self)@.len() && old(self)@[m].point == pt;
                        assert(old(self)@[m].point.x == a && old(self)@[m].point.y == b);
                        assert(contains_xy(old(self)@, a, b));
                    }
                }
                if contains_xy(old(self)@, a, b) {
                    let k = choose|k: int|
                        0 <= k < old(self)@.len() && old(self)@[k].point.x == a
                            && old(self)@[k].point.y == b;
                    let pt = old(self)@[k].point;
                    assert(contains_pt(old(self)@, pt));
                    assert(contains_pt(self@, pt));
                    let m = choose|m: int| 0 <= m < self@.len() && self@[m].point == pt;
                    assert(self@[m].point.x == a && self@[m].point.y == b);
                    assert(contains_xy(self@, a, b));
                }
                if a == px.point.x && b == px.point.y {
                    assert(contains_pt(self@, px.point));
                    let m = choose|m: int| 0 <= m < self@.len() && self@[m].point == px.point;
                    assert(self@[m].point.x == a && self@[m].point.y == b);
                    assert(contains_xy(self@, a, b));
                }
            }
        }
    }

    /// Append a pixel unless its point is already occupied (the first
    /// write wins); this is the entry point for curve sampling, where
    /// duplicate grid cells are suppressed first-hit.
    pub fn push_first(&mut self, px: Pixel)
        ensures
            contains_pt(old(self)@, px.point) ==> final(self)@ == old(self)@,
            !contains_pt(old(self)@, px.point) ==> final(self)@ == old(self)@.push(px),
            old(self).wf() ==> final(self).wf(),
            forall|pt: Point2D|
                contains_pt(final(self)@, pt) <==> (contains_pt(old(self)@, pt) || pt
                    == px.point),
            forall|a: int, b: int|
                #![trigger contains_xy(final(self)@, a, b)]
                #![trigger contains_xy(old(self)@, a, b)]
                contains_xy(final(self)@, a, b) <==> (contains_xy(old(self)@, a, b) || (a
                    == px.point.x && b == px.point.y)),
    {
        let found = self.contains_point(px.point);
        if !found {
            self.items.push(px);
            assert forall|a: int, b: int|
                contains_xy(self@, a, b) <==> (contains_xy(old(self)@, a, b) || (a == px.point.x
                    && b == px.point.y)) by {
                if contains_xy(self@, a, b) {
                    let k = choose|k: int|
                        0 <= k < self@.len() && self@[k].point.x == a && self@[k].point.y == b;
                    if k < old(self)@.len() {
                        assert(contains_xy(old(self)@, a, b));
                    }
                }
                if contains_xy(old(self)@, a, b) {
                    let k = choose|k: int|
                        0 <= k < old(self)@.len() && old(self)@[k].point.x == a
                            && old(self)@[k].point.y == b;
                    assert(self@[k].point.x == a && self@[k].point.y == b);
                }
                if a == px.point.x && b == px.point.y {
                    assert(self@[self@.len() - 1].point.x == a);
                }
            }
            assert forall|pt: Point2D|
                contains_pt(self@, pt) <==> (contains_pt(old(self)@, pt) || pt == px.point) by {
                if contains_pt(self@, pt) {
                    let k = choose|k: int| 0 <= k < self@.len() && self@[k].point == pt;
                    if k < old(self)@.len() {
                        assert(old(self)@[k].point == pt);
                    }
                }
                if contains_pt(old(self)@, pt) {
                    let k = choose|k: int| 0 <= k < old(self)@.len() && old(self)@[k].point == pt;
                    assert(self@[k].point == pt);
                }
                if pt == px.point {
                    assert(self@[self@.len() - 1].point == pt);
                }
            }
            proof {
                if pt_unique(old(self)@) {
                    assert forall|a: int, b: int|
                        0 <= a < b < self@.len() implies self@[a].point != self@[b].point by {
                        if b == self@.len() - 1 {
                            assert(self@[a] == old(self)@[a]);
                        }
                    }
                }
            }
        } else {
            proof {
                assert forall|a: int, b: int|
                    contains_xy(self@, a, b) <==> (contains_xy(old(self)@, a, b) || (a
                        == px.point.x && b == px.point.y)) by {
                    if a == px.point.x && b == px.point.y {
                        let k = choose|k: int|
                            0 <= k < old(self)@.len() && old(self)@[k].point == px.point;
                        assert(old(self)@[k].point.x == a && old(self)@[k].point.y == b);
                    }
                }
            }
        }
    }

    /// Insert a pixel, overwriting the color in place when the point is
    /// already occupied and appending otherwise.
    pub fn insert(&mut self, px: Pixel)
        requires
            old(self).wf(),
        ensures
            final(self)@ == upsert_spec(old(self)@, px),
            final(self).wf(),
    {
        let n = self.items.len();
        let mut i: usize = 0;
        while i < n
            invariant
                n == self.items.len(),
                i <= n,
                self@ == old(self)@,
                old(self).wf(),
                forall|j: int| 0 <= j < i ==> self.items@[j].point != px.point,
            decreases n - i,
        {
            if self.items[i].point.x == px.point.x && self.items[i].point.y == px.point.y {
                proof {
                    lemma_index_of_pt(self@, i as int);
                    lemma_upsert(old(self)@, px);
                }
                self.items.set(i, px);
                return;
            }
            i = i + 1;
        }
        assert(!contains_pt(self@, px.point));
        proof {
            lemma_upsert(old(self)@, px);
        }
        self.items.push(px);
    }

    /// Insert every pixel of `other` in order: at a shared point the color
    /// from `other` overwrites the one already present.
    pub fn extend(&mut self, other: &Pixels)
        requires
            old(self).wf(),
        ensures
            final(self)@ == extend_spec(old(self)@, other@),
            final(self).wf(),
            forall|pt: Point2D|
                contains_pt(final(self)@, pt) <==> (contains_pt(old(self)@, pt) || contains_pt(
                    other@,
                    pt,
                )),
            forall|a: int, b: int|
                #![trigger contains_xy(final(self)@, a, b)]
                #![trigger contains_xy(old(self)@, a, b)]
                #![trigger contains_xy(other@, a, b)]
                contains_xy(final(self)@, a, b) <==> (contains_xy(old(self)@, a, b)
                    || contains_xy(other@, a, b)),
    {
        proof {
            lemma_extend(old(self)@, other@);
        }
        let n = other.items.len();
        assert(other@.subrange(0, n as int) =~= other@);
        let mut k: usize = 0;
        while k < n
            invariant
                n == other.items.len(),
                k <= n,
                self.wf(),
                extend_spec(old(self)@, other@) == extend_spec(
                    self@,
                    other@.subrange(k as int, n as int),
                ),
            decreases n - k,
        {
            let px = other.items[k];
            let ghost pre = self@;
            self.insert(px);
            proof {
                let rest = other@.subrange(k as int, n as int);
                assert(rest[0] == px);
                assert(rest.subrange(1, rest.len() as int) =~= other@.subrange(
                    k + 1,
                    n as int,
                ));
                assert(extend_spec(pre, rest) == extend_spec(
                    upsert_spec(pre, px),
                    other@.subrange(k + 1, n as int),
                ));
            }
            k = k + 1;
        }
        assert(other@.subrange(n as int, n as int) =~= Seq::<Pixel>::empty());
        assert(extend_spec(self@, other@.subrange(n as int, n as int)) == self@);
        proof {
            assert forall|a: int, b: int|
                #![trigger contains_xy(self@, a, b)]
                #![trigger contains_xy(old(self)@, a, b)]
                #![trigger contains_xy(other@, a, b)]
                contains_xy(self@, a, b) <==> (contains_xy(old(self)@, a, b) || contains_xy(
                    other@,
                    a,
                    b,
                )) by {
                if contains_xy(self@, a, b) {
                    let i = choose|i: int|
                        0 <= i < self@.len() && self@[i].point.x == a && self@[i].point.y == b;
                    let pt = self@[i].point;
                    assert(contains_pt(self@, pt));
                    if contains_pt(old(self)@, pt) {
                        let j = choose|j: int|
                            0 <= j < old(self)@.len() && old(self)@[j].point == pt;
                        assert(old(self)@[j].point.x == a && old(self)@[j].point.y == b);
                        assert(contains_xy(old(self)@, a, b));
                    } else {
                        assert(contains_pt(other@, pt));
                        let j = choose|j: int| 0 <= j < other@.len() && other@[j].point == pt;
                        assert(other@[j].point.x == a && other@[j].point.y == b);
                        assert(contains_xy(other@, a, b));
                    }
                }
                if contains_xy(old(self)@, a, b) {
                    let i = choose|i: int|
                        0 <= i < old(self)@.len() && old(self)@[i].point.x == a
                            && old(self)@[i].point.y == b;
                    let pt = old(self)@[i].point;
                    assert(contains_pt(old(self)@, pt));
                    assert(contains_pt(self@, pt));
                    let j = choose|j: int| 0 <= j < self@.len() && self@[j].point == pt;
                    assert(self@[j].point.x == a && self@[j].point.y == b);
                    assert(contains_xy(self@, a, b));
                }
                if contains_xy(other@, a, b) {
                    let i = choose|i: int|
                        0 <= i < other@.len() && other@[i].point.x == a && other@[i].point.y == b;
                    let pt = other@[i].point;
                    assert(contains_pt(other@, pt));
                    assert(contains_pt(self@, pt));
                    let j = choose|j: int| 0 <= j < self@.len() && self@[j].point == pt;
                    assert(self@[j].point.x == a && self@[j].point.y == b);
                    assert(contains_xy(self@, a, b));
                }
            }
        }
    }

    /// Build a set from raw pixels, keeping the first pixel seen at each
    /// point and dropping later duplicates.
    pub fn from_slice(slice: &Vec<Pixel>) -> (r: Pixels)
        ensures
            r@ == dedup_spec(slice@),
            r.wf(),
            same_points(r@, slice@),
    {
        proof {
            lemma_dedup(slice@);
        }
        let mut r = Pixels::new();
        let mut i: usize = 0;
        while i < slice.len()
            invariant
                i <= slice.len(),
                r@ == dedup_spec(slice@.subrange(0, i as int)),
                r.wf(),
            decreases slice.len() - i,
        {
            let ghost pre = slice@.subrange(0, i as int);
            r.push_first(slice[i]);
            proof {
                let cur = slice@.subrange(0, i + 1);
                assert(cur.drop_last() =~= pre);
                assert(cur.last() == slice@[i as int]);
            }
            i = i + 1;
        }
        assert(slice@.subrange(0, slice@.len() as int) =~= slice@);
        r
    }

    /// Remove every pixel whose point is covered by `other`.
    pub fn sub(&mut self, other: &Pixels)
        ensures
            final(self)@ == old(self)@.filter(
                |p: Pixel| !contains_pt(other@, p.point),
            ),
            old(self).wf() ==> final(self).wf(),
    {
        let ghost pred = |p: Pixel| !contains_pt(other@, p.point);
        proof {
            if pt_unique(old(self)@) {
                lemma_filter_unique(old(self)@, pred);
            }
        }
        let mut kept: Vec<Pixel> = Vec::new();
        let n = self.items.len();
        let mut i: usize = 0;
        while i < n
            invariant
                n == self.items.len(),
                i <= n,
                self@ == old(self)@,
                kept@ == self@.subrange(0, i as int).filter(pred),
                forall|p: Pixel| #[trigger] pred(p) <==> !contains_pt(other@, p.point),
            decreases n - i,
        {
            let px = self.items[i];
            let keep = !other.contains_point(px.point);
            if keep {
                kept.push(px);
            }
            proof {
                reveal(Seq::filter);
                let cur = self@.subrange(0, i + 1);
                assert(cur.drop_last() =~= self@.subrange(0, i as int));
                assert(cur.last() == px);
                assert(kept@ == cur.filter(pred));
            }
            i = i + 1;
        }
        assert(self@.subrange(0, n as int) =~= self@);
        self.items = kept;
    }

    /// The pixels of this set whose points are also covered by `other`;
    /// colors come from this set.
    pub fn intersection(&self, other: &Pixels) -> (r: Pixels)
        ensures
            r@ == self@.filter(|p: Pixel| contains_pt(other@, p.point)),
            self.wf() ==> r.wf(),
    {
        let ghost pred = |p: Pixel| contains_pt(other@, p.point);
        proof {
            if pt_unique(self@) {
                lemma_filter_unique(self@, pred);
            }
        }
        let mut kept: Vec<Pixel> = Vec::new();
        let n = self.items.len();
        let mut i: usize = 0;
        while i < n
            invariant
                n == self.items.len(),
                i <= n,
                kept@ == self@.subrange(0, i as int).filter(pred),
                forall|p: Pixel| #[trigger] pred(p) <==> contains_pt(other@, p.point),
            decreases n - i,
        {
            let px = self.items[i];
            let keep = other.contains_point(px.point);
            if keep {
                kept.push(px);
            }
            proof {
                reveal(Seq::filter);
                let cur = self@.subrange(0, i + 1);
                assert(cur.drop_last() =~= self@.subrange(0, i as int));
                assert(cur.last() == px);
                assert(kept@ == cur.filter(pred));
            }
            i = i + 1;
        }
        assert(self@.subrange(0, n as int) =~= self@);
        Pixels { items: kept }
    }

    /// Drop every pixel.
    pub fn clear(&mut self)
        ensures
            final(self)@ == Seq::<Pixel>::empty(),
            final(self).wf(),
    {
        self.items = Vec::new();
    }

    /// Repaint every pixel with one color, keeping points and order.
    pub fn set_color(&mut self, color: &Color)
        ensures
            final(self)@.len() == old(self)@.len(),
            forall|i: int|
                0 <= i < old(self)@.len() ==> final(self)@[i].point == old(self)@[i].point
                    && final(self)@[i].color == *color,
            old(self).wf() ==> final(self).wf(),
    {
        let n = self.items.len();
        let mut i: usize = 0;
        while i < n
            invariant
                n == self.items.len(),
                i <= n,
                self@.len() == old(self)@.len(),
                forall|j: int|
                    0 <= j < i ==> self.items@[j].point == old(self)@[j].point
                        && self.items@[j].color == *color,
                forall|j: int| i <= j < n ==> self.items@[j] == old(self)@[j],
            decreases n - i,
        {
            let px = self.items[i];
            self.items.set(i, Pixel { point: px.point, color: *color });
            i = i + 1;
        }
        proof {
            if pt_unique(old(self)@) {
                assert forall|a: int, b: int|
                    0 <= a < b < self@.len() implies self@[a].point != self@[b].point by {
                    assert(self@[a].point == old(self)@[a].point);
                    assert(self@[b].point == old(self)@[b].point);
                }
            }
        }
    }

    /// The boolean occupancy matrix of the set: `h` rows of `w` cells, the
    /// cell at `[x][y]` true exactly when a pixel sits on `(x, y)`.
    /// Pixels outside the canvas are simply not represented.
    pub fn as_bool_mat(&self, w: usize, h: usize) -> (m: Vec<Vec<bool>>)
        requires
            w <= crate::geom::MAX_COORD,
            h <= crate::geom::MAX_COORD,
        ensures
            m@.len() == h,
            forall|x: int| 0 <= x < h ==> (#[trigger] m@[x])@.len() == w,
            forall|x: int, y: int|
                0 <= x < h && 0 <= y < w ==> (#[trigger] m@[x]@[y]) == contains_pt(
                    self@,
                    Point2D { x: x as i64, y: y as i64 },
                ),
    {
        let mut m: Vec<Vec<bool>> = Vec::new();
        let mut x: usize = 0;
        while x < h
            invariant
                x <= h,
                w <= crate::geom::MAX_COORD,
                h <= crate::geom::MAX_COORD,
                m@.len() == x,
                forall|r: int| 0 <= r < x ==> (#[trigger] m@[r])@.len() == w,
                forall|r: int, y: int|
                    0 <= r < x && 0 <= y < w ==> (#[trigger] m@[r]@[y]) == contains_pt(
                        self@,
                        Point2D { x: r as i64, y: y as i64 },
                    ),
            decreases h - x,
        {
            let mut row: Vec<bool> = Vec::new();
            let mut y: usize = 0;
            while y < w
                invariant
                    y <= w,
                    w <= crate::geom::MAX_COORD,
                    h <= crate::geom::MAX_COORD,
                    x < h,
                    row@.len() == y,
                    forall|c: int|
                        0 <= c < y ==> (#[trigger] row@[c]) == contains_pt(
                            self@,
                            Point2D { x: x as i64, y: c as i64 },
                        ),
                decreases w - y,
            {
                row.push(self.contains_point(Point2D { x: x as i64, y: y as i64 }));
                y = y + 1;
            }
            m.push(row);
            x = x + 1;
        }
        m
    }

    /// The pixel at `pt`, when one is there.
    pub fn find(&self, pt: Point2D) -> (r: Option<Pixel>)
        requires
            self.wf(),
        ensures
            r is Some <==> contains_pt(self@, pt),
            r is Some ==> r->0 == self@[index_of_pt(self@, pt)] && r->0.point == pt,
    {
        let mut i: usize = 0;
        while i < self.items.len()
            invariant
                i <= self.items.len(),
                self.wf(),
                forall|j: int| 0 <= j < i ==> self.items@[j].point != pt,
            decreases self.items.len() - i,
        {
            if self.items[i].point.x == pt.x && self.items[i].point.y == pt.y {
                proof {
                    lemma_index_of_pt(self@, i as int);
                }
                return Some(self.items[i]);
            }
            i = i + 1;
        }
        assert(!contains_pt(self@, pt));
        None
    }

    /// The bounded optional-pixel matrix of the set: `h` rows of `w`
    /// cells, the cell at `[x][y]` holding the pixel sitting on `(x, y)`.
    /// Pixels outside the canvas are simply not represented.
    pub fn as_mat(&self, w: usize, h: usize) -> (m: Vec<Vec<Option<Pixel>>>)
        requires
            self.wf(),
            w <= crate::geom::MAX_COORD,
            h <= crate::geom::MAX_COORD,
        ensures
            m@.len() == h,
            forall|x: int| 0 <= x < h ==> (#[trigger] m@[x])@.len() == w,
            forall|x: int, y: int|
                0 <= x < h && 0 <= y < w ==> (#[trigger] m@[x]@[y]) == (if contains_pt(
                    self@,
                    Point2D { x: x as i64, y: y as i64 },
                ) {
                    Some(self@[index_of_pt(self@, Point2D { x: x as i64, y: y as i64 })])
                } else {
                    None
                }),
    {
        let mut m: Vec<Vec<Option<Pixel>>> = Vec::new();
        let mut x: usize = 0;
        while x < h
            invariant
                x <= h,
                self.wf(),
                w <= crate::geom::MAX_COORD,
                h <= crate::geom::MAX_COORD,
                m@.len() == x,
                forall|r: int| 0 <= r < x ==> (#[trigger] m@[r])@.len() == w,
                forall|r: int, y: int|
                    0 <= r < x && 0 <= y < w ==> (#[trigger] m@[r]@[y]) == (if contains_pt(
                        self@,
                        Point2D { x: r as i64, y: y as i64 },
                    ) {
                        Some(self@[index_of_pt(self@, Point2D { x: r as i64, y: y as i64 })])
                    } else {
                        None
                    }),
            decreases h - x,
        {
            let mut row: Vec<Option<Pixel>> = Vec::new();
            let mut y: usize = 0;
            while y < w
                invariant
                    y <= w,
                    self.wf(),
                    w <= crate::geom::MAX_COORD,
                    h <= crate::geom::MAX_COORD,
                    x < h,
                    row@.len() == y,
                    forall|c: int|
                        0 <= c < y ==> (#[trigger] row@[c]) == (if contains_pt(
                            self@,
                            Point2D { x: x as i64, y: c as i64 },
                        ) {
                            Some(self@[index_of_pt(self@, Point2D { x: x as i64, y: c as i64 })])
                        } else {
                            None
                        }),
                decreases w - y,
            {
                row.push(self.find(Point2D { x: x as i64, y: y as i64 }));
                y = y + 1;
            }
            m.push(row);
            x = x + 1;
        }
        m
    }

    /// Read a pixel set back from a boolean occupancy matrix: every true
    /// cell `[x][y]` becomes the pixel `(x, y)` painted `color`.
    pub fn from_bool_mat(mat: &Vec<Vec<bool>>, color: Color) -> (r: Pixels)
        requires
            mat@.len() <= crate::geom::MAX_COORD,
            forall|x: int| 0 <= x < mat@.len() ==> (#[trigger] mat@[x])@.len()
                <= crate::geom::MAX_COORD,
        ensures
            r.wf(),
            forall|pt: Point2D|
                contains_pt(r@, pt) <==> (0 <= pt.x < mat@.len() && 0 <= pt.y
                    < mat@[pt.x as int]@.len() && mat@[pt.x as int]@[pt.y as int]),
            forall|i: int| 0 <= i < r@.len() ==> (#[trigger] r@[i]).color == color,
    {
        let mut r = Pixels::new();
        let n = mat.len();
        let mut x: usize = 0;
        while x < n
            invariant
                x <= n,
                n == mat@.len(),
                n <= crate::geom::MAX_COORD,
                forall|c: int| 0 <= c < n ==> (#[trigger] mat@[c])@.len()
                    <= crate::geom::MAX_COORD,
                r.wf(),
                forall|pt: Point2D|
                    contains_pt(r@, pt) <==> (0 <= pt.x < x && 0 <= pt.y
                        < mat@[pt.x as int]@.len() && mat@[pt.x as int]@[pt.y as int]),
                forall|i: int| 0 <= i < r@.len() ==> (#[trigger] r@[i]).color == color,
            decreases n - x,
        {
            let row_len = mat[x].len();
            let mut y: usize = 0;
            while y < row_len
                invariant
                    y <= row_len,
                    x < n,
                    n == mat@.len(),
                    n <= crate::geom::MAX_COORD,
                    row_len == mat@[x as int]@.len(),
                    forall|c: int| 0 <= c < n ==> (#[trigger] mat@[c])@.len()
                        <= crate::geom::MAX_COORD,
                    r.wf(),
                    forall|pt: Point2D|
                        contains_pt(r@, pt) <==> ((0 <= pt.x < x && 0 <= pt.y
                            < mat@[pt.x as int]@.len() && mat@[pt.x as int]@[pt.y as int]) || (
                        pt.x == x && 0 <= pt.y < y && mat@[pt.x as int]@[pt.y as int])),
                    forall|i: int| 0 <= i < r@.len() ==> (#[trigger] r@[i]).color == color,
                decreases row_len - y,
            {
                if mat[x][y] {
                    r.push(Pixel { point: Point2D { x: x as i64, y: y as i64 }, color });
                }
                y = y + 1;
            }
            x = x + 1;
        }
        r
    }

    /// Run the pixel-perfect corner filter over the set, read as a path in
    /// insertion order.
    pub fn pixel_perfect(&mut self)
        requires
            old(self).wf(),
        ensures
            final(self).wf(),
            final(self)@ == dedup_spec(
                crate::algorithms::pixel_perfect::pixel_perfect_spec(old(self)@),
            ),
    {
        let v = self.to_vec();
        let filtered = crate::algorithms::pixel_perfect::pixel_perfect(&v);
        let r = Pixels::from_slice(&filtered);
        *self = r;
    }

    /// Rearrange the set into monotonic-run order: maximal runs that move
    /// monotonically along both axes are kept together and oriented so
    /// that their changing axis increases; the covered points do not
    /// change.
    pub fn monotonic_sort(&mut self)
        requires
            old(self).wf(),
        ensures
            final(self).wf(),
            final(self)@ == dedup_spec(
                crate::algorithms::sorter::sorted_path_spec(old(self)@, 0),
            ),
            same_points(final(self)@, old(self)@),
    {
        broadcast use vstd::seq_lib::group_to_multiset_ensures;

        let v = self.to_vec();
        let sorted = crate::algorithms::sorter::sort_path(&v);
        let r = Pixels::from_slice(&sorted);
        proof {
            assert forall|pt: Point2D| contains_pt(sorted@, pt) <==> contains_pt(
                old(self)@,
                pt,
            ) by {
                if contains_pt(sorted@, pt) {
                    let i = choose|i: int| 0 <= i < sorted@.len() && sorted@[i].point == pt;
                    assert(sorted@.contains(sorted@[i]));
                    assert(sorted@.to_multiset().count(sorted@[i]) > 0);
                    assert(old(self)@.to_multiset().count(sorted@[i]) > 0);
                    assert(old(self)@.contains(sorted@[i]));
                    let j = choose|j: int| 0 <= j < old(self)@.len() && old(self)@[j] == sorted@[i];
                    assert(old(self)@[j].point == pt);
                }
                if contains_pt(old(self)@, pt) {
                    let i = choose|i: int|
                        0 <= i < old(self)@.len() && old(self)@[i].point == pt;
                    assert(old(self)@.contains(old(self)@[i]));
                    assert(old(self)@.to_multiset().count(old(self)@[i]) > 0);
                    assert(sorted@.to_multiset().count(old(self)@[i]) > 0);
                    assert(sorted@.contains(old(self)@[i]));
                    let j = choose|j: int| 0 <= j < sorted@.len() && sorted@[j] == old(self)@[i];
                    assert(sorted@[j].point == pt);
                }
            }
        }
        *self = r;
    }

    /// Repaint every pixel with one color and hand the set back.
    pub fn with_color(&mut self, color: &Color) -> (r: &Pixels)
        ensures
            final(self)@.len() == old(self)@.len(),
            forall|i: int|
                0 <= i < old(self)@.len() ==> final(self)@[i].point == old(self)@[i].point
                    && final(self)@[i].color == *color,
            old(self).wf() ==> final(self).wf(),
            r@ == final(self)@,
    {
        self.set_color(color);
        self
    }
}

/// Converting a pixel set to its boolean occupancy matrix and reading the
/// matrix back preserves the set of covered points exactly, for every set
/// whose points lie on the canvas.  `m` is the occupancy matrix of `ps` and
/// `rt` is the set read back from `m`, each as the conversions above
/// describe them.
pub proof fn lemma_occupancy_round_trip(
    ps: Seq<Pixel>,
    m: Seq<Vec<bool>>,
    rt: Seq<Pixel>,
    w: int,
    h: int,
)
    requires
        forall|i: int|
            0 <= i < ps.len() ==> 0 <= (#[trigger] ps[i]).point.x < h && 0 <= ps[i].point.y < w,
        m.len() == h,
        forall|x: int| 0 <= x < h ==> (#[trigger] m[x])@.len() == w,
        forall|x: int, y: int|
            0 <= x < h && 0 <= y < w ==> (#[trigger] m[x]@[y]) == contains_pt(
                ps,
                Point2D { x: x as i64, y: y as i64 },
            ),
        forall|pt: Point2D|
            contains_pt(rt, pt) <==> (0 <= pt.x < m.len() && 0 <= pt.y < m[pt.x as int]@.len()
                && m[pt.x as int]@[pt.y as int]),
    ensures
        same_points(rt, ps),
{
    assert forall|pt: Point2D| contains_pt(rt, pt) <==> contains_pt(ps, pt) by {
        if contains_pt(ps, pt) {
            let i = choose|i: int| 0 <= i < ps.len() && ps[i].point == pt;
            assert(0 <= pt.x < h && 0 <= pt.y < w);
            assert(m[pt.x as int]@[pt.y as int] == contains_pt(
                ps,
                Point2D { x: pt.x, y: pt.y },
            ));
            assert(Point2D { x: pt.x, y: pt.y } == pt);
        }
        if contains_pt(rt, pt) {
            assert(m[pt.x as int]@[pt.y as int]);
            assert(Point2D { x: pt.x, y: pt.y } == pt);
        }
    }
}

impl PartialEq for Pixels {
    /// Two pixel sets are equal when they cover exactly the same points,
    /// whatever the colors and the insertion order.
    fn eq(&self, other: &Pixels) -> (r: bool) {
        let n = self.items.len();
        let mut i: usize = 0;
        while i < n
            invariant
                n == self.items.len(),
                i <= n,
                forall|j: int| 0 <= j < i ==> contains_pt(other@, self@[j].point),
            decreases n - i,
        {
            if !other.contains_point(self.items[i].point) {
                assert(contains_pt(self@, self@[i as int].point));
                return false;
            }
            i = i + 1;
        }
        let m = other.items.len();
        let mut j: usize = 0;
        while j < m
            invariant
                m == other.items.len(),
                j <= m,
                forall|k: int| 0 <= k < j ==> contains_pt(self@, other@[k].point),
            decreases m - j,
        {
            if !self.contains_point(other.items[j].point) {
                assert(contains_pt(other@, other@[j as int].point));
                return false;
            }
            j = j + 1;
        }
        proof {
            assert forall|pt: Point2D| contains_pt(self@, pt) <==> contains_pt(other@, pt) by {
                if contains_pt(self@, pt) {
                    let k = choose|k: int| 0 <= k < self@.len() && self@[k].point == pt;
                    assert(contains_pt(other@, self@[k].point));
                }
                if contains_pt(other@, pt) {
                    let k = choose|k: int| 0 <= k < other@.len() && other@[k].point == pt;
                    assert(contains_pt(self@, other@[k].point));
                }
            }
        }
        true
    }
}

impl vstd::std_specs::cmp::PartialEqSpecImpl for Pixels {
    open spec fn obeys_eq_spec() -> bool {
        true
    }

    open spec fn eq_spec(&self, other: &Pixels) -> bool {
        same_points(self@, other@)
    }
}

} // verus!
