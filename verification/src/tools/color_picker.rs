//! The color-picker tool: clicking a cell adopts the color found there,
//! searching the layers of the active frame top-down.

use vstd::prelude::*;
use crate::geom::Point2D;
use crate::pixels::{contains_pt, index_of_pt, Pixel, Pixels};
use crate::tools::{InputItem, ToolType};
use crate::xprite::Xprite;

verus! {

/// The color picker carries no state of its own.
pub struct ColorPicker {}

impl ColorPicker {
    /// A fresh color picker.
    pub fn new() -> (r: ColorPicker) {
        ColorPicker {  }
    }

    /// Which tool this is.
    pub fn tool_type(&self) -> (t: ToolType)
        ensures
            t == ToolType::ColorPicker,
    {
        ToolType::ColorPicker
    }

    /// Track the pointer: mark the cell under it.
    pub fn mouse_move(&mut self, xpr: &mut Xprite, p: Point2D) -> (res: Result<(), String>)
        requires
            old(xpr).wf(),
        ensures
            res is Ok,
            final(xpr).wf(),
            final(xpr).history == old(xpr).history,
            final(xpr).canvas_w == old(xpr).canvas_w,
            final(xpr).canvas_h == old(xpr).canvas_h,
            final(xpr).selected_color == old(xpr).selected_color,
            final(xpr).cursor@.len() == 1 && final(xpr).cursor@[0].point == p,
    {
        let color = xpr.color();
        let mut marker = Pixels::new();
        marker.push(Pixel { point: p, color });
        xpr.set_cursor(&marker);
        self.draw(xpr)
    }

    /// A release does nothing; the pick happens on the press.
    pub fn mouse_up(&mut self, xpr: &mut Xprite, _p: Point2D) -> (res: Result<(), String>)
        ensures
            res is Ok,
            *final(xpr) == *old(xpr),
    {
        Ok(())
    }

    /// Press: adopt the color of the first layer (bottom-up) holding a
    /// pixel at `p`; with no pixel there, keep the current color.
    pub fn mouse_down(&mut self, xpr: &mut Xprite, p: Point2D, _button: InputItem) -> (res: Result<
        (),
        String,
    >)
        requires
            old(xpr).wf(),
        ensures
            res is Ok,
            final(xpr).wf(),
            final(xpr).history == old(xpr).history,
            final(xpr).canvas_w == old(xpr).canvas_w,
            final(xpr).canvas_h == old(xpr).canvas_h,
            final(xpr).preview@ == old(xpr).preview@,
            final(xpr).cursor@ == old(xpr).cursor@,
            ({
                let g = old(xpr).history.models()[old(xpr).history.cursor_spec()];
                (exists|i: int| 0 <= i < g.0.len() && contains_pt((#[trigger] g.0[i]).1, p))
                    ==> ({
                    let i = choose|i: int|
                        0 <= i < g.0.len() && contains_pt((#[trigger] g.0[i]).1, p) && forall|
                            j: int,
                        | 0 <= j < i ==> !contains_pt((#[trigger] g.0[j]).1, p);
                    final(xpr).selected_color == g.0[i].1[index_of_pt(g.0[i].1, p)].color
                })
            }),
            ({
                let g = old(xpr).history.models()[old(xpr).history.cursor_spec()];
                (forall|i: int| 0 <= i < g.0.len() ==> !contains_pt((#[trigger] g.0[i]).1, p))
                    ==> final(xpr).selected_color == old(xpr).selected_color
            }),
    {
        let n = xpr.history.top().layer_count();
        let mut i: usize = 0;
        let ghost g = xpr.history.models()[xpr.history.cursor_spec()];
        while i < n
            invariant
                xpr.wf(),
                xpr.history == old(xpr).history,
                xpr.canvas_w == old(xpr).canvas_w,
                xpr.canvas_h == old(xpr).canvas_h,
                xpr.selected_color == old(xpr).selected_color,
                xpr.preview@ == old(xpr).preview@,
                xpr.cursor@ == old(xpr).cursor@,
                g == old(xpr).history.models()[old(xpr).history.cursor_spec()],
                n == g.0.len(),
                0 <= i <= n,
                forall|j: int| 0 <= j < i ==> !contains_pt((#[trigger] g.0[j]).1, p),
            decreases n - i,
        {
            let picked = xpr.history.top().layer(i).get_color(p);
            if let Some(col) = picked {
                proof {
                    assert(contains_pt(g.0[i as int].1, p));
                    assert(0 <= i < g.0.len() && contains_pt(g.0[i as int].1, p) && forall|j: int|
                        0 <= j < i ==> !contains_pt((#[trigger] g.0[j]).1, p));
                    let w = choose|w: int|
                        0 <= w < g.0.len() && contains_pt((#[trigger] g.0[w]).1, p) && forall|
                            j: int,
                        | 0 <= j < w ==> !contains_pt((#[trigger] g.0[j]).1, p);
                    if w < i {
                        assert(!contains_pt(g.0[w].1, p));
                    }
                    if i < w {
                        assert(!contains_pt(g.0[i as int].1, p));
                    }
                    assert(w == i as int);
                }
                xpr.set_color(&col);
                return Ok(());
            }
            i = i + 1;
        }
        Ok(())
    }

    /// Render this frame; the picker has no preview of its own.
    pub fn draw(&mut self, xpr: &mut Xprite) -> (res: Result<(), String>)
        ensures
            res is Ok,
            final(xpr).preview@ == Seq::<Pixel>::empty(),
            final(xpr).circle_buf@ == Seq::<Pixel>::empty(),
            final(xpr).cursor@ == old(xpr).cursor@,
            final(xpr).history == old(xpr).history,
            final(xpr).canvas_w == old(xpr).canvas_w,
            final(xpr).canvas_h == old(xpr).canvas_h,
            final(xpr).selected_color == old(xpr).selected_color,
            final(xpr).line_buf@ == old(xpr).line_buf@,
            old(xpr).wf() ==> final(xpr).wf(),
    {
        xpr.new_frame();
        Ok(())
    }

    /// The color picker has no string options; every call is a no-op.
    pub fn set(&mut self, _xpr: &mut Xprite, _option: &str, _value: &str) -> (res: Result<
        (),
        String,
    >)
        ensures
            res is Ok,
    {
        Ok(())
    }
}

} // verus!
