//! The symmetry tool: maintains a list of mirror configurations and runs a
//! stroke through all of them, each stage reflecting both what the earlier
//! stages produced and the original stroke.

use vstd::prelude::*;
use crate::algorithms::symmetry::{
    coords_within, lemma_coords_within_mono, mode_guides, mode_image, mode_in_range, pts_of,
    SymmetryMode, REFLECT_MAX,
};
use crate::geom::{Rect, MAX_COORD};
use crate::pixels::{contains_xy, Pixel, Pixels};
use crate::xprite::Xprite;

verus! {

/// The points produced by the later stages of a symmetry chain: each stage
/// adds the mirror images of everything accumulated so far and of the
/// original source.
pub open spec fn chain_fold(
    rest: Seq<SymmetryMode>,
    src: Set<(int, int)>,
    acc: Set<(int, int)>,
) -> Set<(int, int)>
    decreases rest.len(),
{
    if rest.len() == 0 {
        acc
    } else {
        chain_fold(
            rest.subrange(1, rest.len() as int),
            src,
            acc.union(mode_image(rest[0], acc)).union(mode_image(rest[0], src)),
        )
    }
}

/// The points a whole symmetry chain produces from a source point set.
pub open spec fn chain_pts(symms: Seq<SymmetryMode>, src: Set<(int, int)>) -> Set<(int, int)> {
    if symms.len() == 0 {
        Set::<(int, int)>::empty()
    } else {
        chain_fold(symms.subrange(1, symms.len() as int), src, mode_image(symms[0], src))
    }
}

/// The mirror-axis guides of a whole chain, in configuration order.
pub open spec fn chain_guides(symms: Seq<SymmetryMode>, w: i64, h: i64) -> Seq<Rect>
    decreases symms.len(),
{
    if symms.len() == 0 {
        Seq::<Rect>::empty()
    } else {
        chain_guides(symms.drop_last(), w, h) + mode_guides(symms.last(), w, h)
    }
}

/// The symmetry tool's configuration.
pub struct Symmetry {
    pub symms: Vec<SymmetryMode>,
    pub dirty: bool,
}

impl Symmetry {
    /// Every configured mirror has intercepts in range, and the chain is
    /// short enough for the reflection arithmetic to stay in bounds: each
    /// stage moves a coordinate by at most `2 * MAX_COORD + 1`, so 262144
    /// stages starting from canvas coordinates stay well inside the
    /// `REFLECT_MAX` budget that `SymmetryMode::process` accepts.
    pub open spec fn wf(&self) -> bool {
        &&& forall|i: int| 0 <= i < self.symms@.len() ==> mode_in_range(#[trigger] self.symms@[i])
        &&& self.symms@.len() <= 262144
    }

    /// A fresh symmetry tool with no mirrors.
    pub fn new() -> (r: Symmetry)
        ensures
            r.symms@ == Seq::<SymmetryMode>::empty(),
            !r.dirty,
            r.wf(),
    {
        Symmetry { symms: Vec::new(), dirty: false }
    }

    /// Add a mirror at the end of the chain.
    pub fn add_symmetry(&mut self, symm: SymmetryMode)
        requires
            mode_in_range(symm),
            old(self).symms@.len() < 262144,
        ensures
            final(self).symms@ == old(self).symms@.push(symm),
            final(self).dirty,
            old(self).wf() ==> final(self).wf(),
    {
        self.dirty = true;
        self.symms.push(symm);
    }

    /// Remove the mirror at position `i`, keeping the order of the rest.
    pub fn remove_symmetry(&mut self, i: usize)
        requires
            i < old(self).symms@.len(),
        ensures
            final(self).symms@ == old(self).symms@.remove(i as int),
            final(self).dirty,
            old(self).wf() ==> final(self).wf(),
    {
        self.dirty = true;
        self.symms.remove(i);
        proof {
            if old(self).wf() {
                assert forall|j: int|
                    0 <= j < self.symms@.len() implies mode_in_range(
                    #[trigger] self.symms@[j],
                ) by {
                    if j < i {
                        assert(self.symms@[j] == old(self).symms@[j]);
                    } else {
                        assert(self.symms@[j] == old(self).symms@[j + 1]);
                    }
                }
            }
        }
    }

    /// Reflect a stroke through the whole chain and return the union of
    /// every stage's mirror images.
    pub fn process(&self, pixs: &Pixels) -> (r: Pixels)
        requires
            self.wf(),
            pixs.wf(),
            coords_within(pixs@, MAX_COORD as int),
        ensures
            r.wf(),
            forall|a: int, b: int|
                contains_xy(r@, a, b) <==> chain_pts(self.symms@, pts_of(pixs@)).contains(
                    (a, b),
                ),
    {
        let mut ret = Pixels::new();
        if self.symms.len() == 0 {
            proof {
                assert(forall|a: int, b: int| !contains_xy(ret@, a, b));
            }
            return ret;
        }
        let ghost src = pts_of(pixs@);
        let n = self.symms.len();
        proof {
            assert(coords_within(pixs@, REFLECT_MAX as int));
        }
        self.symms[0].process(pixs, &mut ret);
        proof {
            assert(pts_of(ret@) =~= mode_image(self.symms@[0], src));
            assert(coords_within(ret@, MAX_COORD + 1 * 2097153)) by {
                assert(coords_within(Seq::<Pixel>::empty(), MAX_COORD + 2097153));
                assert(coords_within(pixs@, MAX_COORD as int + 2097153 - 2 * MAX_COORD - 1));
            }
        }
        let mut k: usize = 1;
        while k < n
            invariant
                n == self.symms@.len(),
                1 <= k <= n,
                self.wf(),
                pixs.wf(),
                src == pts_of(pixs@),
                coords_within(pixs@, MAX_COORD as int),
                ret.wf(),
                coords_within(ret@, MAX_COORD + k * 2097153),
                chain_fold(self.symms@.subrange(k as int, n as int), src, pts_of(ret@))
                    == chain_pts(self.symms@, src),
            decreases n - k,
        {
            let ghost acc = pts_of(ret@);
            let ghost preseq = ret@;
            let ghost bk = MAX_COORD + k * 2097153;
            let sk = self.symms[k];
            let snapshot = ret.duplicate();
            proof {
                lemma_coords_within_mono(ret@, bk, REFLECT_MAX as int);
                assert(coords_within(snapshot@, REFLECT_MAX as int));
                lemma_coords_within_mono(preseq, bk, bk + 2 * MAX_COORD + 1);
                lemma_coords_within_mono(pixs@, MAX_COORD as int, bk);
            }
            sk.process(&snapshot, &mut ret);
            let ghost mid = ret@;
            sk.process(pixs, &mut ret);
            proof {
                let next_acc = acc.union(mode_image(sk, acc)).union(mode_image(sk, src));
                assert(pts_of(snapshot@) =~= acc);
                assert(pts_of(ret@) =~= next_acc) by {
                    assert(pts_of(snapshot@) == acc);
                    assert forall|q: (int, int)|
                        pts_of(ret@).contains(q) <==> next_acc.contains(q) by {
                        assert(contains_xy(ret@, q.0, q.1) <==> (contains_xy(mid, q.0, q.1)
                            || mode_image(sk, pts_of(pixs@)).contains(q)));
                        assert(contains_xy(mid, q.0, q.1) <==> (contains_xy(preseq, q.0, q.1)
                            || mode_image(sk, pts_of(snapshot@)).contains(q)));
                        assert(acc.contains(q) <==> contains_xy(preseq, q.0, q.1));
                    }
                }
                let rem = self.symms@.subrange(k as int, n as int);
                assert(rem[0] == sk);
                assert(rem.subrange(1, rem.len() as int) =~= self.symms@.subrange(
                    k + 1,
                    n as int,
                ));
                assert(chain_fold(rem, src, acc) == chain_fold(
                    self.symms@.subrange(k + 1, n as int),
                    src,
                    acc.union(mode_image(rem[0], acc)).union(mode_image(rem[0], src)),
                ));
                assert(acc.union(mode_image(rem[0], acc)).union(mode_image(rem[0], src))
                    == pts_of(ret@));
                // the coordinate bound steps by one reflection
                assert(coords_within(mid, bk + 2 * MAX_COORD + 1));
                lemma_coords_within_mono(mid, bk + 2 * MAX_COORD + 1, bk + 2 * MAX_COORD + 1);
                assert(coords_within(ret@, bk + 2 * MAX_COORD + 1));
                assert(coords_within(ret@, MAX_COORD + (k + 1) * 2097153));
            }
            k = k + 1;
        }
        proof {
            assert(self.symms@.subrange(n as int, n as int) =~= Seq::<SymmetryMode>::empty());
            assert(chain_pts(self.symms@, src) == pts_of(ret@));
            assert forall|a: int, b: int|
                contains_xy(ret@, a, b) <==> chain_pts(self.symms@, pts_of(pixs@)).contains(
                (a, b),
            ) by {
                assert(pts_of(ret@).contains((a, b)) <==> contains_xy(ret@, a, b));
            }
        }
        ret
    }

    /// Refresh the document's mirror guides when the chain changed since
    /// the last update; returns whether anything was redrawn.  On a dirty
    /// chain the guide buffer is rebuilt as the concatenation of every
    /// configured mode's guides, in order; on a clean chain the document
    /// is untouched.
    pub fn update(&mut self, xpr: &mut Xprite) -> (changed: Result<bool, String>)
        requires
            old(self).wf(),
            old(xpr).wf(),
        ensures
            final(self).symms@ == old(self).symms@,
            final(self).wf(),
            !final(self).dirty,
            final(xpr).wf(),
            final(xpr).history == old(xpr).history,
            final(xpr).canvas_w == old(xpr).canvas_w,
            final(xpr).canvas_h == old(xpr).canvas_h,
            final(xpr).selected_color == old(xpr).selected_color,
            changed is Ok,
            changed->Ok_0 == old(self).dirty,
            old(self).dirty ==> final(xpr).line_buf@ == chain_guides(
                old(self).symms@,
                old(xpr).canvas_w,
                old(xpr).canvas_h,
            ) && final(xpr).preview@ == old(xpr).preview@ && final(xpr).cursor@ == old(
                xpr,
            ).cursor@,
            !old(self).dirty ==> *final(xpr) == *old(xpr),
    {
        if self.dirty {
            xpr.clear_guides();
            let n = self.symms.len();
            let mut i: usize = 0;
            proof {
                assert(chain_guides(
                    old(self).symms@.subrange(0, 0),
                    old(xpr).canvas_w,
                    old(xpr).canvas_h,
                ) =~= Seq::<Rect>::empty());
            }
            while i < n
                invariant
                    n == self.symms@.len(),
                    0 <= i <= n,
                    self.wf(),
                    xpr.wf(),
                    xpr.history == old(xpr).history,
                    xpr.selected_color == old(xpr).selected_color,
                    xpr.canvas_w == old(xpr).canvas_w,
                    xpr.canvas_h == old(xpr).canvas_h,
                    xpr.preview@ == old(xpr).preview@,
                    xpr.cursor@ == old(xpr).cursor@,
                    self.symms@ == old(self).symms@,
                    self.dirty == old(self).dirty,
                    xpr.line_buf@ == chain_guides(
                        self.symms@.subrange(0, i as int),
                        old(xpr).canvas_w,
                        old(xpr).canvas_h,
                    ),
                decreases n - i,
            {
                let guides = self.symms[i].get_line(xpr.canvas_w, xpr.canvas_h);
                xpr.add_guides(&guides);
                proof {
                    let cur = self.symms@.subrange(0, i + 1);
                    assert(cur.drop_last() =~= self.symms@.subrange(0, i as int));
                    assert(cur.last() == self.symms@[i as int]);
                }
                i = i + 1;
            }
            assert(self.symms@.subrange(0, n as int) =~= self.symms@);
            self.dirty = false;
            Ok(true)
        } else {
            Ok(false)
        }
    }
}

} // verus!
