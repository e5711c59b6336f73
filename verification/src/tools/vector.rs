//! The vector tool: records a freehand polyline, simplifies it on release,
//! fits a cubic Bezier curve through the surviving anchors and commits the
//! rasterized curve.

use vstd::prelude::*;
use crate::algorithms::pixel_perfect::{pixel_perfect, pixel_perfect_spec};
use crate::brush::Brush;
use crate::color::Color;
use crate::geom::Point2D;
use crate::pixels::{dedup_spec, Pixel, Pixels};
use crate::polyline::{connect_spec, interp_spec, path_samples, rw_spec, Polyline};
use crate::tools::pencil::{committed_models, repaint_spec};
use crate::tools::{str_eq, InputItem, ToolType};
use crate::xprite::Xprite;

verus! {

/// The pixels of the rasterized curve through a sequence of anchors.
pub open spec fn vector_stroke(pos: Seq<Point2D>) -> Seq<Pixel> {
    dedup_spec(pixel_perfect_spec(dedup_spec(path_samples(interp_spec(pos)))))
}

/// The vector tool's gesture state.
pub struct Vector {
    pub is_mouse_down: Option<InputItem>,
    pub current_polyline: Polyline,
    pub cursor: Option<Pixels>,
    pub cursor_pos: Option<Pixel>,
    pub brush: Brush,
    pub tolerance: i64,
    pub buffer: Pixels,
}

impl Vector {
    /// Anchors stay on the grid, the buffers are proper sets and the
    /// simplification tolerance is sane.
    pub open spec fn wf(&self) -> bool {
        &&& self.current_polyline.wf()
        &&& self.brush.wf()
        &&& self.buffer.wf()
        &&& (self.cursor is Some ==> self.cursor->0.wf())
        &&& 0 <= self.tolerance <= crate::geom::MAX_COORD
    }

    /// A fresh, idle vector tool with a small corridor tolerance.
    pub fn new() -> (r: Vector)
        ensures
            r.wf(),
            r.is_mouse_down is None,
            r.current_polyline.pos@ == Seq::<Point2D>::empty(),
            r.cursor is None,
            r.cursor_pos is None,
            r.tolerance == 2,
            r.buffer@ == Seq::<Pixel>::empty(),
    {
        Vector {
            is_mouse_down: None,
            current_polyline: Polyline::new(),
            cursor: None,
            cursor_pos: None,
            brush: Brush::pixel(),
            tolerance: 2,
            buffer: Pixels::new(),
        }
    }

    /// Which tool this is.
    pub fn tool_type(&self) -> (t: ToolType)
        ensures
            t == ToolType::Vector,
    {
        ToolType::Vector
    }

    /// Rasterize the curve through `polyline`, paint it orange for the
    /// preview, and push the anchors and inferred control points as circle
    /// markers for the renderer.
    pub fn draw_polyline(&mut self, xpr: &mut Xprite, polyline: &Polyline) -> (r: Pixels)
        requires
            old(xpr).wf(),
            polyline.wf(),
        ensures
            r.wf(),
            r@ == repaint_spec(
                vector_stroke(polyline.pos@),
                Color::Rgba { r: 255u8, g: 165u8, b: 0u8, a: 255u8 },
            ),
            *final(self) == *old(self),
            final(xpr).wf(),
            final(xpr).history == old(xpr).history,
            final(xpr).canvas_w == old(xpr).canvas_w,
            final(xpr).canvas_h == old(xpr).canvas_h,
            final(xpr).selected_color == old(xpr).selected_color,
            final(xpr).preview@ == old(xpr).preview@,
            final(xpr).cursor@ == old(xpr).cursor@,
            final(xpr).circle_buf@.len() == old(xpr).circle_buf@.len() + polyline.pos@.len() + 2
                * interp_spec(polyline.pos@).len(),
    {
        let path = polyline.interp();
        let mut rasterized = path.rasterize();
        let orange = Color::orange();
        rasterized.set_color(&orange);
        proof {
            assert(rasterized@ =~= repaint_spec(
                vector_stroke(polyline.pos@),
                Color::Rgba { r: 255u8, g: 165u8, b: 0u8, a: 255u8 },
            ));
        }
        let n = polyline.len();
        let mut i: usize = 0;
        while i < n
            invariant
                n == polyline.pos@.len(),
                0 <= i <= n,
                polyline.wf(),
                xpr.wf(),
                xpr.history == old(xpr).history,
                xpr.canvas_w == old(xpr).canvas_w,
                xpr.canvas_h == old(xpr).canvas_h,
                xpr.selected_color == old(xpr).selected_color,
                xpr.preview@ == old(xpr).preview@,
                xpr.cursor@ == old(xpr).cursor@,
                xpr.circle_buf@.len() == old(xpr).circle_buf@.len() + i,
            decreases n - i,
        {
            let p = polyline.get(i);
            xpr.add_circle(Pixel { point: p, color: Color::blue() });
            i = i + 1;
        }
        let m = path.segments.len();
        let mut k: usize = 0;
        while k < m
            invariant
                m == path.segments@.len(),
                0 <= k <= m,
                xpr.wf(),
                xpr.history == old(xpr).history,
                xpr.canvas_w == old(xpr).canvas_w,
                xpr.canvas_h == old(xpr).canvas_h,
                xpr.selected_color == old(xpr).selected_color,
                xpr.preview@ == old(xpr).preview@,
                xpr.cursor@ == old(xpr).cursor@,
                xpr.circle_buf@.len() == old(xpr).circle_buf@.len() + n + 2 * k,
            decreases m - k,
        {
            let seg = path.segments[k];
            xpr.add_circle(Pixel { point: seg.ctrl1, color: Color::red() });
            xpr.add_circle(Pixel { point: seg.ctrl2, color: Color::red() });
            k = k + 1;
        }
        rasterized
    }

    /// Track the pointer.  During a left-button drag the anchor is
    /// recorded and the preview buffer shows the filtered straight-segment
    /// stroke so far.
    pub fn mouse_move(&mut self, xpr: &mut Xprite, p: Point2D) -> (res: Result<(), String>)
        requires
            old(self).wf(),
            old(xpr).wf(),
            p.in_range(),
        ensures
            res is Ok,
            final(self).wf(),
            final(xpr).wf(),
            final(xpr).history == old(xpr).history,
            final(xpr).canvas_w == old(xpr).canvas_w,
            final(xpr).canvas_h == old(xpr).canvas_h,
            final(xpr).selected_color == old(xpr).selected_color,
            final(self).is_mouse_down == old(self).is_mouse_down,
            final(self).tolerance == old(self).tolerance,
            (old(self).is_mouse_down == Some(InputItem::Left) && !crate::geom::spec_oob(
                p.x as int,
                p.y as int,
                old(xpr).canvas_w as int,
                old(xpr).canvas_h as int,
            )) ==> final(self).current_polyline.pos@ == old(self).current_polyline.pos@.push(p) && final(self).buffer@ == dedup_spec(
                pixel_perfect_spec(connect_spec(old(self).current_polyline.pos@.push(p))),
            ),
            old(self).is_mouse_down is None ==> final(self).current_polyline.pos@ == old(self).current_polyline.pos@ && final(self).buffer@ == old(self).buffer@,
            crate::geom::spec_oob(
                p.x as int,
                p.y as int,
                old(xpr).canvas_w as int,
                old(xpr).canvas_h as int,
            ) ==> final(self).current_polyline.pos@ == old(self).current_polyline.pos@,
    {
        let color = xpr.color();
        let footprint = self.brush.to_canvas_pixels(p, color);
        self.cursor = Some(footprint);
        self.cursor_pos = Some(Pixel { point: p, color });
        if self.is_mouse_down.is_none() || crate::geom::oob(p.x, p.y, xpr.canvas_w, xpr.canvas_h) {
            return self.draw(xpr);
        }
        self.current_polyline.push(p);
        let down = self.is_mouse_down.unwrap();
        if let InputItem::Left = down {
            let line_pixs = self.current_polyline.connect_with_line();
            let filtered = pixel_perfect(&line_pixs.to_vec());
            let pixs = Pixels::from_slice(&filtered);
            self.buffer = pixs;
        }
        self.draw(xpr)
    }

    /// Start a gesture: record the anchor and stamp the first footprint.
    pub fn mouse_down(&mut self, xpr: &mut Xprite, p: Point2D, button: InputItem) -> (res: Result<
        (),
        String,
    >)
        requires
            old(self).wf(),
            old(xpr).wf(),
            p.in_range(),
        ensures
            res is Ok,
            final(self).wf(),
            final(xpr).wf(),
            final(xpr).history == old(xpr).history,
            final(xpr).canvas_w == old(xpr).canvas_w,
            final(xpr).canvas_h == old(xpr).canvas_h,
            final(xpr).selected_color == old(xpr).selected_color,
            final(self).is_mouse_down == Some(button),
            final(self).current_polyline.pos@ == old(self).current_polyline.pos@.push(p),
            final(self).tolerance == old(self).tolerance,
    {
        self.is_mouse_down = Some(button);
        self.current_polyline.push(p);
        self.buffer.clear();
        let color = xpr.color();
        let footprint = self.brush.to_canvas_pixels(p, color);
        if let InputItem::Left = button {
            self.buffer.extend(&footprint);
        }
        self.draw(xpr)
    }

    /// End the gesture: simplify the recorded polyline, rasterize the
    /// fitted curve through what is left and commit it through a fresh
    /// history frame.
    pub fn mouse_up(&mut self, xpr: &mut Xprite, _p: Point2D) -> (res: Result<(), String>)
        requires
            old(self).wf(),
            old(xpr).wf(),
        ensures
            res is Ok,
            final(self).wf(),
            final(xpr).wf(),
            final(xpr).canvas_w == old(xpr).canvas_w,
            final(xpr).canvas_h == old(xpr).canvas_h,
            final(xpr).selected_color == old(xpr).selected_color,
            (old(self).is_mouse_down is None || old(self).is_mouse_down == Some(
                InputItem::Right,
            )) ==> *final(xpr) == *old(xpr) && *final(self) == *old(self),
            old(self).is_mouse_down == Some(InputItem::Left) ==> final(self).is_mouse_down is None
                && final(self).buffer@ == Seq::<Pixel>::empty() && final(self).current_polyline.pos@ == Seq::<Point2D>::empty() && final(xpr).history.cursor_spec()
                == old(xpr).history.cursor_spec() + 1 && final(xpr).history.models()
                == committed_models(
                old(xpr).history.models(),
                old(xpr).history.cursor_spec(),
                repaint_spec(
                    vector_stroke(
                        rw_spec(old(self).current_polyline.pos@, old(self).tolerance as int),
                    ),
                    Color::Rgba { r: 255u8, g: 165u8, b: 0u8, a: 255u8 },
                ),
            ),
    {
        if self.is_mouse_down.is_none() {
            return Ok(());
        }
        let down = self.is_mouse_down.unwrap();
        if let InputItem::Right = down {
            return Ok(());
        }
        self.buffer.clear();
        let simple = self.current_polyline.reumann_witkam(self.tolerance);
        let pixs = self.draw_polyline(xpr, &simple);
        self.buffer.extend(&pixs);
        proof {
            assert(Seq::<Pixel>::empty() + pixs@ =~= pixs@);
            crate::pixels::lemma_extend_unique(Seq::<Pixel>::empty(), pixs@);
        }
        xpr.history.enter();
        xpr.history.extend_selected(&self.buffer);
        self.current_polyline.clear();
        self.buffer.clear();
        self.is_mouse_down = None;
        self.draw(xpr)
    }

    /// Render this frame: the cursor footprint and the live buffer.
    pub fn draw(&mut self, xpr: &mut Xprite) -> (res: Result<(), String>)
        requires
            old(self).wf(),
            old(xpr).wf(),
        ensures
            res is Ok,
            *final(self) == *old(self),
            final(xpr).wf(),
            final(xpr).history == old(xpr).history,
            final(xpr).canvas_w == old(xpr).canvas_w,
            final(xpr).canvas_h == old(xpr).canvas_h,
            final(xpr).selected_color == old(xpr).selected_color,
            final(xpr).preview@ == old(self).buffer@,
    {
        xpr.new_frame();
        if let Some(cursor) = &self.cursor {
            xpr.set_cursor(cursor);
        }
        proof {
            assert(Seq::<Pixel>::empty() + self.buffer@ =~= self.buffer@);
            crate::pixels::lemma_extend_unique(Seq::<Pixel>::empty(), self.buffer@);
        }
        xpr.add_pixels(&self.buffer);
        Ok(())
    }

    /// Choose the simplification tolerance for future gestures.
    pub fn set_tolerance(&mut self, tol: i64)
        requires
            0 <= tol <= crate::geom::MAX_COORD,
        ensures
            final(self).tolerance == tol,
            old(self).wf() ==> final(self).wf(),
            final(self).current_polyline.pos@ == old(self).current_polyline.pos@,
            final(self).buffer@ == old(self).buffer@,
    {
        self.tolerance = tol;
    }

    /// Change a tool option: `brush` selects the footprint; anything else
    /// is a logged no-op.
    pub fn set(&mut self, _xpr: &mut Xprite, option: &str, value: &str) -> (res: Result<
        (),
        String,
    >)
        requires
            old(self).wf(),
        ensures
            res is Ok,
            final(self).wf(),
            final(self).tolerance == old(self).tolerance,
            option@ == "brush"@ && value@ == "cross"@ ==> final(self).brush.size == (3u32, 3u32)
                && (forall|x: int, y: int|
                crate::pixels::contains_xy(final(self).brush.shape@, x, y) <==> ((x == 0 && y == 1)
                    || (x == 1 && y == 0) || (x == 1 && y == 1) || (x == 1 && y == 2) || (x == 2
                    && y == 1))),
            option@ == "brush"@ && value@ == "pixel"@ ==> final(self).brush.size == (1u32, 1u32)
                && (forall|x: int, y: int|
                crate::pixels::contains_xy(final(self).brush.shape@, x, y) <==> (x == 0 && y
                    == 0)),
            option@ != "brush"@ ==> final(self).brush == old(self).brush,
            // a malformed value is a logged no-op: the brush is untouched
            value@ != "cross"@ && value@ != "pixel"@ ==> final(self).brush == old(self).brush,
    {
        proof {
            reveal_strlit("brush");
            reveal_strlit("cross");
            reveal_strlit("pixel");
            assert("cross"@.len() == 5 && "pixel"@.len() == 5);
            assert("cross"@[0] == 'c' && "pixel"@[0] == 'p');
            assert("cross"@ != "pixel"@);
        }
        if str_eq(option, "brush") {
            if str_eq(value, "cross") {
                self.brush = Brush::cross();
            } else if str_eq(value, "pixel") {
                self.brush = Brush::pixel();
            }
        }
        Ok(())
    }
}

} // verus!
