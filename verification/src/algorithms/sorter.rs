//! The monotonic-segment sorter: splits a pixel path into maximal runs
//! whose coordinates move monotonically, orients each run so that its
//! changing axis increases, and concatenates the runs again.  The result is
//! a rearrangement of the input path: the very same pixels, run by run.

use vstd::prelude::*;
use vstd::seq_lib::lemma_multiset_commutative;
use crate::pixels::Pixel;

verus! {

/// The direction of one step along one axis: -1, 0 or 1.
pub open spec fn step_sign(a: int, b: int) -> int {
    if b > a {
        1
    } else if b < a {
        -1
    } else {
        0
    }
}

/// Is a step direction compatible with the direction a run has settled on?
/// A zero on either side leaves the run monotonic.
pub open spec fn dir_compat(d: int, nd: int) -> bool {
    d == 0 || nd == 0 || d == nd
}

/// The run's direction after taking one more step.
pub open spec fn dir_join(d: int, nd: int) -> int {
    if d == 0 {
        nd
    } else {
        d
    }
}

/// Where the maximal monotonic run ends (exclusive): starting at position
/// `e` with the directions `dx`, `dy` already settled, the run extends as
/// long as every further step stays compatible on both axes.
pub open spec fn run_end(s: Seq<Pixel>, e: int, dx: int, dy: int) -> int
    decreases s.len() - e
    when 1 <= e <= s.len()
{
    if e >= s.len() {
        e
    } else {
        let ndx = step_sign(s[e - 1].point.x as int, s[e].point.x as int);
        let ndy = step_sign(s[e - 1].point.y as int, s[e].point.y as int);
        if dir_compat(dx, ndx) && dir_compat(dy, ndy) {
            run_end(s, e + 1, dir_join(dx, ndx), dir_join(dy, ndy))
        } else {
            e
        }
    }
}

/// The end of a run never lies before its start nor past the path's end.
pub proof fn lemma_run_end_bounds(s: Seq<Pixel>, e: int, dx: int, dy: int)
    requires
        1 <= e <= s.len(),
    ensures
        e <= run_end(s, e, dx, dy) <= s.len(),
    decreases s.len() - e,
{
    if e < s.len() {
        let ndx = step_sign(s[e - 1].point.x as int, s[e].point.x as int);
        let ndy = step_sign(s[e - 1].point.y as int, s[e].point.y as int);
        if dir_compat(dx, ndx) && dir_compat(dy, ndy) {
            lemma_run_end_bounds(s, e + 1, dir_join(dx, ndx), dir_join(dy, ndy));
        }
    }
}

/// One run of the path, oriented so that its changing axis increases: the
/// run is reversed exactly when its first pixel lies after its last one
/// (by the x axis where they differ, by the y axis otherwise).
pub open spec fn oriented_run(s: Seq<Pixel>, st: int, en: int) -> Seq<Pixel> {
    let seg = s.subrange(st, en);
    let rev = if s[st].point.x != s[en - 1].point.x {
        s[st].point.x > s[en - 1].point.x
    } else {
        s[st].point.y > s[en - 1].point.y
    };
    if rev {
        seg.reverse()
    } else {
        seg
    }
}

/// The whole sorted path from position `st` on: the maximal monotonic run
/// at `st`, oriented, followed by the sorted rest.  (The inner bound keeps
/// the recursion well founded; `lemma_run_end_bounds` shows it never
/// changes the run end.)
pub open spec fn sorted_path_spec(s: Seq<Pixel>, st: int) -> Seq<Pixel>
    decreases s.len() - st
    when 0 <= st <= s.len()
{
    if st >= s.len() {
        Seq::<Pixel>::empty()
    } else {
        let raw_en = run_end(s, st + 1, 0, 0);
        let en = if st + 1 <= raw_en <= s.len() {
            raw_en
        } else {
            st + 1
        };
        oriented_run(s, st, en) + sorted_path_spec(s, en)
    }
}

/// Sort a pixel path into scanline-friendly order: each maximal run of the
/// path that moves monotonically along both axes is kept together, and a
/// run whose leading axis decreases is reversed so that every run advances
/// in increasing coordinate order.  The output is exactly that
/// rearrangement of the input path.
pub fn sort_path(path: &Vec<Pixel>) -> (r: Vec<Pixel>)
    ensures
        r@ == sorted_path_spec(path@, 0),
        r@.to_multiset() == path@.to_multiset(),
        r@.len() == path@.len(),
{
    broadcast use vstd::seq_lib::group_to_multiset_ensures;

    let n = path.len();
    let mut r: Vec<Pixel> = Vec::new();
    let mut s: usize = 0;
    while s < n
        invariant
            n == path@.len(),
            0 <= s <= n,
            r@.to_multiset() == path@.subrange(0, s as int).to_multiset(),
            r@.len() == s,
            sorted_path_spec(path@, 0) == r@ + sorted_path_spec(path@, s as int),
        decreases n - s,
    {
        let mut e: usize = s + 1;
        let mut dx: i64 = 0;
        let mut dy: i64 = 0;
        let mut done = false;
        while e < n && !done
            invariant
                n == path@.len(),
                s < e <= n,
                -1 <= dx <= 1,
                -1 <= dy <= 1,
                run_end(path@, s + 1, 0, 0) == run_end(path@, e as int, dx as int, dy as int),
                done ==> run_end(path@, e as int, dx as int, dy as int) == e as int,
            decreases n - e, (if done { 0int } else { 1int }),
        {
            let a = path[e - 1];
            let b = path[e];
            let ndx: i64 = if b.point.x > a.point.x {
                1
            } else if b.point.x < a.point.x {
                -1
            } else {
                0
            };
            let ndy: i64 = if b.point.y > a.point.y {
                1
            } else if b.point.y < a.point.y {
                -1
            } else {
                0
            };
            proof {
                assert(ndx as int == step_sign(
                    path@[e - 1].point.x as int,
                    path@[e as int].point.x as int,
                ));
                assert(ndy as int == step_sign(
                    path@[e - 1].point.y as int,
                    path@[e as int].point.y as int,
                ));
            }
            if (dx == 0 || ndx == 0 || dx == ndx) && (dy == 0 || ndy == 0 || dy == ndy) {
                proof {
                    assert(run_end(path@, e as int, dx as int, dy as int) == run_end(
                        path@,
                        e + 1,
                        dir_join(dx as int, ndx as int),
                        dir_join(dy as int, ndy as int),
                    ));
                }
                if dx == 0 {
                    dx = ndx;
                }
                if dy == 0 {
                    dy = ndy;
                }
                e = e + 1;
            } else {
                proof {
                    assert(run_end(path@, e as int, dx as int, dy as int) == e as int);
                }
                done = true;
            }
        }
        proof {
            assert(run_end(path@, s + 1, 0, 0) == e as int);
        }
        let first = path[s];
        let last = path[e - 1];
        let rev: bool = if first.point.x != last.point.x {
            first.point.x > last.point.x
        } else {
            first.point.y > last.point.y
        };
        let ghost r0 = r@;
        let ghost seg = path@.subrange(s as int, e as int);
        if rev {
            let mut t: usize = e;
            while t > s
                invariant
                    n == path@.len(),
                    s <= t <= e <= n,
                    seg == path@.subrange(s as int, e as int),
                    r@ == r0 + path@.subrange(t as int, e as int).reverse(),
                decreases t,
            {
                r.push(path[t - 1]);
                proof {
                    assert(path@.subrange(t - 1, e as int).reverse() =~= path@.subrange(
                        t as int,
                        e as int,
                    ).reverse().push(path@[t - 1]));
                    assert(r@ =~= r0 + path@.subrange(t - 1, e as int).reverse());
                }
                t = t - 1;
            }
            proof {
                seg.lemma_reverse_to_multiset();
                lemma_multiset_commutative(r0, seg.reverse());
            }
        } else {
            let mut t: usize = s;
            while t < e
                invariant
                    n == path@.len(),
                    s <= t <= e <= n,
                    seg == path@.subrange(s as int, e as int),
                    r@ == r0 + path@.subrange(s as int, t as int),
                decreases e - t,
            {
                r.push(path[t]);
                proof {
                    assert(path@.subrange(s as int, t + 1) =~= path@.subrange(
                        s as int,
                        t as int,
                    ).push(path@[t as int]));
                    assert(r@ =~= r0 + path@.subrange(s as int, t + 1));
                }
                t = t + 1;
            }
            proof {
                lemma_multiset_commutative(r0, seg);
            }
        }
        proof {
            lemma_multiset_commutative(
                path@.subrange(0, s as int),
                path@.subrange(s as int, e as int),
            );
            assert(path@.subrange(0, s as int) + path@.subrange(s as int, e as int)
                =~= path@.subrange(0, e as int));
            assert(r@ == r0 + oriented_run(path@, s as int, e as int));
            assert(sorted_path_spec(path@, s as int) == oriented_run(path@, s as int, e as int)
                + sorted_path_spec(path@, e as int));
            assert(r0 + (oriented_run(path@, s as int, e as int) + sorted_path_spec(
                path@,
                e as int,
            )) =~= r@ + sorted_path_spec(path@, e as int));
        }
        s = e;
    }
    assert(path@.subrange(0, n as int) =~= path@);
    assert(sorted_path_spec(path@, n as int) =~= Seq::<Pixel>::empty());
    assert(r@ =~= r@ + sorted_path_spec(path@, n as int));
    r
}

} // verus!
