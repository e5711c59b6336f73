//! The paint-bucket tool: flood-fill the region under the cursor with the
//! document's color and commit the result.

use vstd::prelude::*;
use crate::algorithms::floodfill::{fill_reachable, floodfill, FloodFillDegrees};
use crate::color::Color;
use crate::geom::{spec_oob, Point2D};
use crate::pixels::{contains_pt, contains_xy, extend_spec, index_of_pt, lemma_extend, pt_unique, Pixel, Pixels};
use crate::tools::{InputItem, ToolType};
use crate::xprite::{active_content, Xprite};

verus! {

/// Does the committed frame's selected layer hold exactly the old layer's
/// pixels plus the region the fill reached: the cells connected to the seed
/// `p` through the color found under `p` (or through emptiness)?
pub open spec fn committed_region_exact(
    content: Seq<Pixel>,
    merged: Seq<Pixel>,
    w: int,
    h: int,
    fill: Color,
    deg: FloodFillDegrees,
    p: Point2D,
) -> bool {
    forall|x: int, y: int|
        #[trigger] contains_xy(merged, x, y) <==> (contains_xy(content, x, y) || fill_reachable(
            content,
            w,
            h,
            if contains_pt(content, p) {
                Some(content[index_of_pt(content, p)].color)
            } else {
                None
            },
            fill,
            false,
            deg,
            p.x as int,
            p.y as int,
            x,
            y,
        ))
}

/// The paint-bucket tool: it carries only its connectivity setting.
pub struct PaintBucket {
    pub degrees: FloodFillDegrees,
}

impl PaintBucket {
    /// A fresh paint bucket with 4-connected growth.
    pub fn new() -> (r: PaintBucket)
        ensures
            r.degrees == FloodFillDegrees::Four,
    {
        PaintBucket { degrees: FloodFillDegrees::Four }
    }

    /// Which tool this is.
    pub fn tool_type(&self) -> (t: ToolType)
        ensures
            t == ToolType::PaintBucket,
    {
        ToolType::PaintBucket
    }

    /// Flood-fill the selected layer from `p`, taking the color already
    /// under `p` as the background: the returned buffer holds exactly the
    /// cells connected to `p` through that background, painted in the
    /// document's color.
    pub fn floodfill(&self, xpr: &Xprite, p: Point2D, bg_color: Option<Color>) -> (r: Result<
        Pixels,
        String,
    >)
        requires
            xpr.wf(),
        ensures
            r is Ok,
            (r->Ok_0).wf(),
            forall|x: int, y: int|
                contains_xy((r->Ok_0)@, x, y) <==> fill_reachable(
                    active_content(*xpr),
                    xpr.canvas_w as int,
                    xpr.canvas_h as int,
                    bg_color,
                    xpr.selected_color,
                    false,
                    self.degrees,
                    p.x as int,
                    p.y as int,
                    x,
                    y,
                ),
            forall|i: int|
                0 <= i < (r->Ok_0)@.len() ==> (#[trigger] (r->Ok_0)@[i]).color
                    == xpr.selected_color,
    {
        let color = xpr.color();
        let w = xpr.canvas_w;
        let h = xpr.canvas_h;
        let layer = xpr.current_layer();
        proof {
            assert(layer.model().1 == active_content(*xpr));
        }
        let buffer = floodfill(w, h, layer.pixels(), p, bg_color, color, self.degrees);
        Ok(buffer)
    }

    /// Track the pointer: mark the cell under it.
    pub fn mouse_move(&mut self, xpr: &mut Xprite, p: Point2D) -> (res: Result<(), String>)
        requires
            old(xpr).wf(),
        ensures
            res is Ok,
            *final(self) == *old(self),
            final(xpr).wf(),
            final(xpr).history == old(xpr).history,
            final(xpr).canvas_w == old(xpr).canvas_w,
            final(xpr).canvas_h == old(xpr).canvas_h,
            final(xpr).selected_color == old(xpr).selected_color,
            final(xpr).cursor@.len() == 1 && final(xpr).cursor@[0].point == p,
    {
        let color = xpr.color();
        let mut marker = Pixels::new();
        marker.push(Pixel { point: p, color });
        xpr.set_cursor(&marker);
        self.draw(xpr)
    }

    /// A press does nothing; the fill happens on release.
    pub fn mouse_down(&mut self, xpr: &mut Xprite, p: Point2D, _button: InputItem) -> (res: Result<
        (),
        String,
    >)
        ensures
            res is Ok,
            *final(self) == *old(self),
            *final(xpr) == *old(xpr),
    {
        Ok(())
    }

    /// Release: flood-fill from the cell under the pointer and commit the
    /// filled region through a fresh history frame.  Outside the canvas
    /// the release is a no-op.
    #[verifier::rlimit(100)]
    pub fn mouse_up(&mut self, xpr: &mut Xprite, p: Point2D) -> (res: Result<(), String>)
        requires
            old(xpr).wf(),
        ensures
            res is Ok,
            *final(self) == *old(self),
            final(xpr).wf(),
            final(xpr).canvas_w == old(xpr).canvas_w,
            final(xpr).canvas_h == old(xpr).canvas_h,
            final(xpr).selected_color == old(xpr).selected_color,
            spec_oob(p.x as int, p.y as int, old(xpr).canvas_w as int, old(xpr).canvas_h as int)
                ==> *final(xpr) == *old(xpr),
            !spec_oob(p.x as int, p.y as int, old(xpr).canvas_w as int, old(xpr).canvas_h as int)
                ==> final(xpr).history.cursor_spec() == old(xpr).history.cursor_spec() + 1
                && final(xpr).history.models().len() == old(xpr).history.cursor_spec() + 2,
            // the committed layer gains exactly the region connected to the
            // seed through its own color there
            !spec_oob(p.x as int, p.y as int, old(xpr).canvas_w as int, old(xpr).canvas_h as int)
                ==> committed_region_exact(
                active_content(*old(xpr)),
                active_content(*final(xpr)),
                old(xpr).canvas_w as int,
                old(xpr).canvas_h as int,
                old(xpr).selected_color,
                old(self).degrees,
                p,
            ),
    {
        if crate::geom::oob(p.x, p.y, xpr.canvas_w, xpr.canvas_h) {
            return Ok(());
        }
        let ghost content = active_content(*xpr);
        let bg_color = xpr.current_layer().get_color(p);
        proof {
            assert(bg_color == (if contains_pt(content, p) {
                Some(content[index_of_pt(content, p)].color)
            } else {
                None::<Color>
            }));
        }
        let filled = self.floodfill(xpr, p, bg_color);
        match filled {
            Ok(buffer) => {
                proof {
                    xpr.history.lemma_cursor_on_stack();
                    assert(pt_unique(content));
                }
                xpr.history.enter();
                xpr.history.extend_selected(&buffer);
                proof {
                    lemma_extend(content, buffer@);
                    let merged = active_content(*xpr);
                    assert(merged == extend_spec(content, buffer@));
                    assert forall|x: int, y: int|
                        #[trigger] contains_xy(merged, x, y) <==> (contains_xy(
                            content,
                            x,
                            y,
                        ) || contains_xy(buffer@, x, y)) by {
                        if contains_xy(merged, x, y) {
                            let i = choose|i: int|
                                0 <= i < merged.len() && merged[i].point.x == x
                                    && merged[i].point.y == y;
                            let pt = merged[i].point;
                            assert(contains_pt(merged, pt));
                            if contains_pt(content, pt) {
                                let j = choose|j: int|
                                    0 <= j < content.len() && content[j].point == pt;
                                assert(content[j].point.x == x && content[j].point.y == y);
                                assert(contains_xy(content, x, y));
                            } else {
                                assert(contains_pt(buffer@, pt));
                                let j = choose|j: int|
                                    0 <= j < buffer@.len() && buffer@[j].point == pt;
                                assert(buffer@[j].point.x == x && buffer@[j].point.y == y);
                                assert(contains_xy(buffer@, x, y));
                            }
                        }
                        if contains_xy(content, x, y) {
                            let i = choose|i: int|
                                0 <= i < content.len() && content[i].point.x == x
                                    && content[i].point.y == y;
                            let pt = content[i].point;
                            assert(contains_pt(content, pt));
                            assert(contains_pt(merged, pt));
                            let j = choose|j: int| 0 <= j < merged.len() && merged[j].point == pt;
                            assert(merged[j].point.x == x && merged[j].point.y == y);
                            assert(contains_xy(merged, x, y));
                        }
                        if contains_xy(buffer@, x, y) {
                            let i = choose|i: int|
                                0 <= i < buffer@.len() && buffer@[i].point.x == x
                                    && buffer@[i].point.y == y;
                            let pt = buffer@[i].point;
                            assert(contains_pt(buffer@, pt));
                            assert(contains_pt(merged, pt));
                            let j = choose|j: int| 0 <= j < merged.len() && merged[j].point == pt;
                            assert(merged[j].point.x == x && merged[j].point.y == y);
                            assert(contains_xy(merged, x, y));
                        }
                    }
                    assert forall|x: int, y: int|
                        #[trigger] contains_xy(merged, x, y) <==> (contains_xy(content, x, y)
                            || fill_reachable(
                            content,
                            old(xpr).canvas_w as int,
                            old(xpr).canvas_h as int,
                            if contains_pt(content, p) {
                                Some(content[index_of_pt(content, p)].color)
                            } else {
                                None
                            },
                            old(xpr).selected_color,
                            false,
                            old(self).degrees,
                            p.x as int,
                            p.y as int,
                            x,
                            y,
                        )) by {
                        assert(contains_xy(buffer@, x, y) <==> fill_reachable(
                            content,
                            old(xpr).canvas_w as int,
                            old(xpr).canvas_h as int,
                            bg_color,
                            old(xpr).selected_color,
                            false,
                            old(self).degrees,
                            p.x as int,
                            p.y as int,
                            x,
                            y,
                        ));
                    }
                    assert(committed_region_exact(
                        content,
                        merged,
                        old(xpr).canvas_w as int,
                        old(xpr).canvas_h as int,
                        old(xpr).selected_color,
                        old(self).degrees,
                        p,
                    ));
                }
                Ok(())
            },
            Err(e) => Err(e),
        }
    }

    /// Render this frame; the bucket has no preview of its own.
    pub fn draw(&mut self, xpr: &mut Xprite) -> (res: Result<(), String>)
        ensures
            res is Ok,
            *final(self) == *old(self),
            final(xpr).preview@ == Seq::<Pixel>::empty(),
            final(xpr).circle_buf@ == Seq::<Pixel>::empty(),
            final(xpr).cursor@ == old(xpr).cursor@,
            final(xpr).history == old(xpr).history,
            final(xpr).canvas_w == old(xpr).canvas_w,
            final(xpr).canvas_h == old(xpr).canvas_h,
            final(xpr).selected_color == old(xpr).selected_color,
            final(xpr).line_buf@ == old(xpr).line_buf@,
            old(xpr).wf() ==> final(xpr).wf(),
    {
        xpr.new_frame();
        Ok(())
    }

    /// The paint bucket has no string options; every call is a no-op.
    pub fn set(&mut self, _xpr: &mut Xprite, _option: &str, _value: &str) -> (res: Result<
        (),
        String,
    >)
        ensures
            res is Ok,
            *final(self) == *old(self),
    {
        Ok(())
    }
}

} // verus!
