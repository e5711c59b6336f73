//! The pixel-perfect filter: removes the staircase-corner artifact from a
//! rasterized path, so that each change of direction costs exactly one
//! pixel.  Wherever three consecutive pixels form an L-shaped turn, the
//! middle pixel is dropped; the filter is idempotent, which
//! `lemma_pixel_perfect_idempotent` proves for every input path.

use vstd::prelude::*;
use crate::pixels::Pixel;

verus! {

/// Do the three path pixels around position `c` form an L-shaped corner?
/// The middle pixel shares an axis with each neighbour while the two
/// neighbours agree on neither axis, so the middle pixel is superfluous.
pub open spec fn corner_at(s: Seq<Pixel>, c: int) -> bool {
    &&& 0 < c
    &&& c + 1 < s.len()
    &&& (s[c - 1].point.x == s[c].point.x || s[c - 1].point.y == s[c].point.y)
    &&& (s[c + 1].point.x == s[c].point.x || s[c + 1].point.y == s[c].point.y)
    &&& s[c - 1].point.x != s[c + 1].point.x
    &&& s[c - 1].point.y != s[c + 1].point.y
}

/// The filtered tail of the path from position `c` on: a corner pixel is
/// skipped together with the examination of the pixel that follows it.
pub open spec fn pp_from(s: Seq<Pixel>, c: int) -> Seq<Pixel>
    decreases s.len() - c
    when 0 <= c <= s.len()
{
    if c >= s.len() {
        Seq::<Pixel>::empty()
    } else if corner_at(s, c) {
        seq![s[c + 1]] + pp_from(s, c + 2)
    } else {
        seq![s[c]] + pp_from(s, c + 1)
    }
}

/// The whole path, filtered.
pub open spec fn pixel_perfect_spec(s: Seq<Pixel>) -> Seq<Pixel> {
    pp_from(s, 0)
}

/// The positions that the filter keeps, walking from position `c`.
pub open spec fn pp_idx(s: Seq<Pixel>, c: int) -> Seq<int>
    decreases s.len() - c
    when 0 <= c <= s.len()
{
    if c >= s.len() {
        Seq::<int>::empty()
    } else if corner_at(s, c) {
        seq![c + 1] + pp_idx(s, c + 2)
    } else {
        seq![c] + pp_idx(s, c + 1)
    }
}

/// The filtered path reads the kept positions back from the original.
proof fn lemma_pp_matches_idx(s: Seq<Pixel>, c: int)
    requires
        0 <= c <= s.len(),
    ensures
        pp_from(s, c) == pp_idx(s, c).map_values(|i: int| s[i]),
    decreases s.len() - c,
{
    let f = |i: int| s[i];
    if c >= s.len() {
        assert(pp_from(s, c) =~= pp_idx(s, c).map_values(f));
    } else {
        let e: int = if corner_at(s, c) {
            c + 1
        } else {
            c
        };
        lemma_pp_matches_idx(s, e + 1);
        assert(pp_from(s, c) =~= pp_idx(s, c).map_values(f));
    }
}

/// The kept positions lie in range, start at `c` or `c + 1`, and advance by
/// one step over a corner-free position or by two steps over a corner.
proof fn lemma_pp_idx_props(s: Seq<Pixel>, c: int)
    requires
        0 <= c <= s.len(),
    ensures
        forall|j: int| 0 <= j < pp_idx(s, c).len() ==> c <= #[trigger] pp_idx(s, c)[j] < s.len(),
        pp_idx(s, c).len() > 0 <==> c < s.len(),
        pp_idx(s, c).len() > 0 ==> pp_idx(s, c)[0] == (if corner_at(s, c) {
            c + 1
        } else {
            c
        }),
        forall|j: int|
            0 <= j < pp_idx(s, c).len() - 1 ==> ((#[trigger] pp_idx(s, c)[j]) + 1 == pp_idx(s, c)[j
                + 1] && !corner_at(s, pp_idx(s, c)[j] + 1)) || (pp_idx(s, c)[j + 1] == pp_idx(
                s,
                c,
            )[j] + 2 && corner_at(s, pp_idx(s, c)[j] + 1)),
    decreases s.len() - c,
{
    if c < s.len() {
        let e: int = if corner_at(s, c) {
            c + 1
        } else {
            c
        };
        let idx = pp_idx(s, c);
        let rest = pp_idx(s, e + 1);
        lemma_pp_idx_props(s, e + 1);
        assert(idx == seq![e] + rest);
        assert(idx[0] == e);
        assert forall|j: int|
            0 <= j < idx.len() - 1 implies ((#[trigger] idx[j]) + 1 == idx[j + 1] && !corner_at(
            s,
            idx[j] + 1,
        )) || (idx[j + 1] == idx[j] + 2 && corner_at(s, idx[j] + 1)) by {
            if j == 0 {
                assert(idx[1] == rest[0]);
                assert(rest[0] == (if corner_at(s, e + 1) {
                    e + 2
                } else {
                    e + 1
                }));
            } else {
                assert(idx[j] == rest[j - 1]);
                assert(idx[j + 1] == rest[j]);
            }
        }
    }
}

/// The filtered path is free of corners: no position of the output
/// satisfies the corner test any more.
pub proof fn lemma_pixel_perfect_corner_free(s: Seq<Pixel>)
    ensures
        forall|j: int| !corner_at(pixel_perfect_spec(s), j),
{
    lemma_pp_matches_idx(s, 0);
    lemma_pp_idx_props(s, 0);
    let idx = pp_idx(s, 0);
    let out = pixel_perfect_spec(s);
    assert forall|j: int| !corner_at(out, j) by {
        if corner_at(out, j) {
            let a = idx[j - 1];
            let b = idx[j];
            let d = idx[j + 1];
            assert(out[j - 1] == s[a] && out[j] == s[b] && out[j + 1] == s[d]);
            assert((a + 1 == b && !corner_at(s, a + 1)) || (b == a + 2 && corner_at(s, a + 1)));
            assert((b + 1 == d && !corner_at(s, b + 1)) || (d == b + 2 && corner_at(s, b + 1)));
            if b == a + 2 {
                assert(corner_at(s, a + 1));
                assert(s[a].point.x != s[a + 2].point.x && s[a].point.y != s[a + 2].point.y);
            } else if d == b + 2 {
                assert(corner_at(s, b + 1));
                assert(s[b].point.x != s[b + 2].point.x && s[b].point.y != s[b + 2].point.y);
            } else {
                assert(!corner_at(s, b));
                assert(0 < b && b + 1 < s.len());
            }
        }
    }
}

/// On a corner-free path the filter keeps everything.
proof fn lemma_pp_identity_from(t: Seq<Pixel>, c: int)
    requires
        0 <= c <= t.len(),
        forall|j: int| !corner_at(t, j),
    ensures
        pp_from(t, c) == t.subrange(c, t.len() as int),
    decreases t.len() - c,
{
    if c >= t.len() {
        assert(pp_from(t, c) =~= t.subrange(c, t.len() as int));
    } else {
        assert(!corner_at(t, c));
        lemma_pp_identity_from(t, c + 1);
        assert(pp_from(t, c) =~= t.subrange(c, t.len() as int));
    }
}

/// Every pixel of the filtered path is a pixel of the original path.
pub proof fn lemma_pixel_perfect_elements(s: Seq<Pixel>)
    ensures
        forall|j: int|
            0 <= j < pixel_perfect_spec(s).len() ==> s.contains(
                #[trigger] pixel_perfect_spec(s)[j],
            ),
{
    lemma_pp_matches_idx(s, 0);
    lemma_pp_idx_props(s, 0);
    let idx = pp_idx(s, 0);
    let out = pixel_perfect_spec(s);
    assert forall|j: int| 0 <= j < out.len() implies s.contains(#[trigger] out[j]) by {
        assert(out[j] == s[idx[j]]);
        assert(0 <= idx[j] < s.len());
    }
}

/// Applying the pixel-perfect filter twice yields the same path as applying
/// it once, for every input path.
pub proof fn lemma_pixel_perfect_idempotent(s: Seq<Pixel>)
    ensures
        pixel_perfect_spec(pixel_perfect_spec(s)) == pixel_perfect_spec(s),
{
    let out = pixel_perfect_spec(s);
    lemma_pixel_perfect_corner_free(s);
    lemma_pp_identity_from(out, 0);
    assert(out.subrange(0, out.len() as int) =~= out);
}

/// Drop the superfluous corner pixels from a rasterized path: a sliding
/// three-pixel window walks the path, and wherever the window shows an
/// L-shaped turn the middle pixel is left out of the result.
pub fn pixel_perfect(path: &Vec<Pixel>) -> (r: Vec<Pixel>)
    ensures
        r@ == pixel_perfect_spec(path@),
{
    let n = path.len();
    let mut r: Vec<Pixel> = Vec::new();
    let mut c: usize = 0;
    while c < n
        invariant
            n == path@.len(),
            0 <= c <= n,
            pixel_perfect_spec(path@) == r@ + pp_from(path@, c as int),
        decreases n - c,
    {
        let ghost c0 = c as int;
        if c > 0 && c + 1 < n {
            let prev = path[c - 1];
            let cur = path[c];
            let next = path[c + 1];
            if (prev.point.x == cur.point.x || prev.point.y == cur.point.y) && (next.point.x
                == cur.point.x || next.point.y == cur.point.y) && prev.point.x != next.point.x
                && prev.point.y != next.point.y {
                assert(corner_at(path@, c0));
                c = c + 1;
            } else {
                assert(!corner_at(path@, c0));
            }
        } else {
            assert(!corner_at(path@, c0));
        }
        proof {
            if corner_at(path@, c0) {
                assert(pp_from(path@, c0) == seq![path@[c0 + 1]] + pp_from(path@, c0 + 2));
            } else {
                assert(pp_from(path@, c0) == seq![path@[c0]] + pp_from(path@, c0 + 1));
            }
        }
        let px = path[c];
        r.push(px);
        proof {
            assert(r@ + pp_from(path@, c as int + 1) =~= (r@.drop_last() + (seq![px] + pp_from(
                path@,
                c as int + 1,
            ))));
        }
        c = c + 1;
    }
    assert(pp_from(path@, n as int) =~= Seq::<Pixel>::empty());
    assert(r@ =~= r@ + Seq::<Pixel>::empty());
    r
}

} // verus!
