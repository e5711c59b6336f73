//! The line tool: drag from a start cell to a cursor cell and commit a
//! straight or direction-snapped pixel line.

use vstd::prelude::*;
use crate::algorithms::line::{bresenham, line_points, snapped_line, snapped_points};
use crate::color::Color;
use crate::geom::Point2D;
use crate::history::{apply_op, HistoryOp};
use crate::pixels::{extend_spec, Pixel, Pixels};
use crate::tools::{str_eq, InputItem, ToolType};
use crate::xprite::Xprite;

verus! {

/// The pixel path the tool draws between two cells: snapped to an angular
/// sector when `snap` holds, the plain rasterized line otherwise.
pub open spec fn line_stroke_points(snap: bool, is45: bool, a: Point2D, b: Point2D) -> Seq<
    (int, int),
> {
    if snap {
        snapped_points(is45, a.x as int, a.y as int, b.x as int, b.y as int)
    } else {
        line_points(a, b)
    }
}

/// The same path as red pixels.
pub open spec fn line_stroke_pixels(snap: bool, is45: bool, a: Point2D, b: Point2D) -> Seq<
    Pixel,
> {
    Seq::new(
        line_stroke_points(snap, is45, a, b).len(),
        |k: int|
            Pixel {
                point: Point2D {
                    x: line_stroke_points(snap, is45, a, b)[k].0 as i64,
                    y: line_stroke_points(snap, is45, a, b)[k].1 as i64,
                },
                color: Color::Rgba { r: 255u8, g: 0u8, b: 0u8, a: 255u8 },
            },
    )
}

/// A pixel sequence repainted with one color.
pub open spec fn recolor_spec(s: Seq<Pixel>, c: Color) -> Seq<Pixel> {
    Seq::new(s.len(), |i: int| Pixel { point: s[i].point, color: c })
}

/// The line tool's gesture state.
pub struct Line {
    pub is_mouse_down: Option<InputItem>,
    pub cursor_pos: Option<Pixel>,
    pub start_pos: Option<Pixel>,
    pub snap: bool,
    pub is_snap_45: bool,
}

impl Line {
    /// Stored positions stay on the canvas grid.
    pub open spec fn wf(&self) -> bool {
        &&& (self.cursor_pos is Some ==> self.cursor_pos->0.point.in_range())
        &&& (self.start_pos is Some ==> self.start_pos->0.point.in_range())
    }

    /// A fresh, idle line tool.
    pub fn new() -> (r: Line)
        ensures
            r.is_mouse_down is None,
            r.cursor_pos is None,
            r.start_pos is None,
            !r.snap,
            !r.is_snap_45,
            r.wf(),
    {
        Line {
            is_mouse_down: None,
            cursor_pos: None,
            start_pos: None,
            snap: false,
            is_snap_45: false,
        }
    }

    /// Which tool this is.
    pub fn tool_type(&self) -> (t: ToolType)
        ensures
            t == ToolType::Line,
    {
        ToolType::Line
    }

    /// Mark the cursor cell in the document's cursor buffer.
    fn set_cursor(&self, xpr: &mut Xprite)
        requires
            self.wf(),
        ensures
            self.cursor_pos is Some ==> final(xpr).cursor@.len() == 1 && final(xpr).cursor@[0].point == self.cursor_pos->0.point,
            self.cursor_pos is None ==> final(xpr).cursor@ == old(xpr).cursor@,
            final(xpr).history == old(xpr).history,
            final(xpr).canvas_w == old(xpr).canvas_w,
            final(xpr).canvas_h == old(xpr).canvas_h,
            final(xpr).selected_color == old(xpr).selected_color,
            final(xpr).preview@ == old(xpr).preview@,
            old(xpr).wf() ==> final(xpr).wf(),
    {
        if let Some(pix) = self.cursor_pos {
            let c = Pixel { point: pix.point, color: Color::red() };
            let mut pixels = Pixels::new();
            pixels.push(c);
            xpr.set_cursor(&pixels);
        }
    }

    /// The pixel path between the gesture's start and the cursor, when a
    /// gesture is in progress.
    fn get_line(&self) -> (r: Option<Pixels>)
        requires
            self.wf(),
        ensures
            r is Some <==> (self.start_pos is Some && self.cursor_pos is Some),
            r is Some ==> (r->0).wf() && (r->0)@ == line_stroke_pixels(
                self.snap,
                self.is_snap_45,
                self.start_pos->0.point,
                self.cursor_pos->0.point,
            ),
    {
        if self.start_pos.is_some() && self.cursor_pos.is_some() {
            let start = self.start_pos.unwrap();
            let stop = self.cursor_pos.unwrap();
            let out = if self.snap {
                snapped_line(self.is_snap_45, &start, &stop)
            } else {
                bresenham(start.point, stop.point)
            };
            proof {
                assert(out@ =~= line_stroke_pixels(
                    self.snap,
                    self.is_snap_45,
                    self.start_pos->0.point,
                    self.cursor_pos->0.point,
                ));
            }
            Some(out)
        } else {
            None
        }
    }

    /// Commit the current line: enter a fresh history frame and merge the
    /// line, painted in the document's color, into the selected layer.
    /// With no gesture in progress the document is left untouched.
    fn finalize_line(&mut self, xpr: &mut Xprite) -> (res: Result<(), String>)
        requires
            old(self).wf(),
            old(xpr).wf(),
        ensures
            res is Ok,
            *final(self) == *old(self),
            final(xpr).wf(),
            final(xpr).canvas_w == old(xpr).canvas_w,
            final(xpr).canvas_h == old(xpr).canvas_h,
            final(xpr).selected_color == old(xpr).selected_color,
            (old(self).start_pos is Some && old(self).cursor_pos is Some) ==> ({
                let entered = apply_op(
                    old(xpr).history.models(),
                    old(xpr).history.cursor_spec(),
                    HistoryOp::Enter,
                );
                let g = entered.0[entered.1];
                let stroke = recolor_spec(
                    line_stroke_pixels(
                        old(self).snap,
                        old(self).is_snap_45,
                        old(self).start_pos->0.point,
                        old(self).cursor_pos->0.point,
                    ),
                    old(xpr).selected_color,
                );
                final(xpr).history.cursor_spec() == entered.1 && final(xpr).history.models()
                    == entered.0.update(
                    entered.1,
                    (g.0.update(g.1, (g.0[g.1].0, extend_spec(g.0[g.1].1, stroke), g.0[g.1].2)), g.1),
                )
            }),
            !(old(self).start_pos is Some && old(self).cursor_pos is Some) ==> final(xpr).history
                == old(xpr).history,
    {
        let line = self.get_line();
        if let Some(mut pixs) = line {
            let color = xpr.color();
            pixs.set_color(&color);
            proof {
                assert(pixs@ =~= recolor_spec(
                    line_stroke_pixels(
                        self.snap,
                        self.is_snap_45,
                        self.start_pos->0.point,
                        self.cursor_pos->0.point,
                    ),
                    xpr.selected_color,
                ));
            }
            xpr.history.enter();
            xpr.history.extend_selected(&pixs);
        }
        Ok(())
    }

    /// Preview the current line in the document's preview buffer.
    fn draw_line(&self, xpr: &mut Xprite) -> (res: Result<(), String>)
        requires
            self.wf(),
            old(xpr).wf(),
        ensures
            res is Ok,
            final(xpr).wf(),
            final(xpr).history == old(xpr).history,
            final(xpr).canvas_w == old(xpr).canvas_w,
            final(xpr).canvas_h == old(xpr).canvas_h,
            final(xpr).selected_color == old(xpr).selected_color,
            final(xpr).cursor@ == old(xpr).cursor@,
            (self.start_pos is Some && self.cursor_pos is Some) ==> final(xpr).preview@
                == extend_spec(
                old(xpr).preview@,
                recolor_spec(
                    line_stroke_pixels(
                        self.snap,
                        self.is_snap_45,
                        self.start_pos->0.point,
                        self.cursor_pos->0.point,
                    ),
                    old(xpr).selected_color,
                ),
            ),
            !(self.start_pos is Some && self.cursor_pos is Some) ==> final(xpr).preview@ == old(xpr).preview@,
            (self.start_pos is Some && self.cursor_pos is Some && old(xpr).preview@.len() == 0)
                ==> final(xpr).preview@ == recolor_spec(
                line_stroke_pixels(
                    self.snap,
                    self.is_snap_45,
                    self.start_pos->0.point,
                    self.cursor_pos->0.point,
                ),
                old(xpr).selected_color,
            ),
    {
        let line = self.get_line();
        if let Some(mut pixs) = line {
            let color = xpr.color();
            pixs.set_color(&color);
            proof {
                assert(pixs@ =~= recolor_spec(
                    line_stroke_pixels(
                        self.snap,
                        self.is_snap_45,
                        self.start_pos->0.point,
                        self.cursor_pos->0.point,
                    ),
                    xpr.selected_color,
                ));
            }
            let ghost pre = xpr.preview@;
            xpr.add_pixels(&pixs);
            proof {
                if pre.len() == 0 {
                    assert(pre + pixs@ =~= pixs@);
                    crate::pixels::lemma_extend_unique(pre, pixs@);
                }
            }
        }
        Ok(())
    }

    /// Render this frame's preview: the in-progress line and the cursor.
    pub fn draw(&mut self, xpr: &mut Xprite) -> (res: Result<(), String>)
        requires
            old(self).wf(),
            old(xpr).wf(),
        ensures
            res is Ok,
            *final(self) == *old(self),
            final(xpr).wf(),
            final(xpr).history == old(xpr).history,
            final(xpr).canvas_w == old(xpr).canvas_w,
            final(xpr).canvas_h == old(xpr).canvas_h,
            final(xpr).selected_color == old(xpr).selected_color,
            (old(self).start_pos is Some && old(self).cursor_pos is Some) ==> final(xpr).preview@
                == recolor_spec(
                line_stroke_pixels(
                    old(self).snap,
                    old(self).is_snap_45,
                    old(self).start_pos->0.point,
                    old(self).cursor_pos->0.point,
                ),
                old(xpr).selected_color,
            ),
            !(old(self).start_pos is Some && old(self).cursor_pos is Some) ==> final(xpr).preview@ == Seq::<Pixel>::empty(),
            old(self).cursor_pos is Some ==> final(xpr).cursor@.len() == 1 && final(xpr).cursor@[0].point == old(self).cursor_pos->0.point,
    {
        xpr.new_frame();
        let res = self.draw_line(xpr);
        self.set_cursor(xpr);
        res
    }

    /// Track the pointer: remember the cursor cell and refresh the preview.
    pub fn mouse_move(&mut self, xpr: &mut Xprite, p: Point2D) -> (res: Result<(), String>)
        requires
            old(self).wf(),
            old(xpr).wf(),
            p.in_range(),
        ensures
            res is Ok,
            final(self).wf(),
            final(self).cursor_pos is Some && final(self).cursor_pos->0.point == p,
            final(self).start_pos == old(self).start_pos,
            final(self).is_mouse_down == old(self).is_mouse_down,
            final(self).snap == old(self).snap,
            final(self).is_snap_45 == old(self).is_snap_45,
            final(xpr).wf(),
            final(xpr).history == old(xpr).history,
            final(xpr).canvas_w == old(xpr).canvas_w,
            final(xpr).canvas_h == old(xpr).canvas_h,
            final(xpr).selected_color == old(xpr).selected_color,
    {
        let color = xpr.color();
        self.cursor_pos = Some(Pixel { point: p, color });
        self.draw(xpr)
    }

    /// Start a gesture on a left press: remember the start cell.
    pub fn mouse_down(&mut self, xpr: &mut Xprite, p: Point2D, button: InputItem) -> (res: Result<
        (),
        String,
    >)
        requires
            old(self).wf(),
            old(xpr).wf(),
            p.in_range(),
        ensures
            res is Ok,
            final(self).wf(),
            final(xpr).wf(),
            button == InputItem::Right ==> *final(self) == *old(self) && *final(xpr) == *old(xpr),
            button == InputItem::Left ==> final(self).is_mouse_down == Some(InputItem::Left)
                && final(self).start_pos is Some && final(self).start_pos->0.point == p && final(self).cursor_pos == old(self).cursor_pos && final(self).snap == old(self).snap && final(self).is_snap_45 == old(self).is_snap_45 && *final(xpr) == *old(xpr),
    {
        if let InputItem::Right = button {
            return Ok(());
        }
        self.is_mouse_down = Some(button);
        let color = xpr.color();
        self.start_pos = Some(Pixel { point: p, color });
        Ok(())
    }

    /// End the gesture: commit the line and return to the idle state.
    pub fn mouse_up(&mut self, xpr: &mut Xprite, p: Point2D) -> (res: Result<(), String>)
        requires
            old(self).wf(),
            old(xpr).wf(),
            p.in_range(),
        ensures
            res is Ok,
            final(self).wf(),
            final(self).is_mouse_down is None,
            final(self).start_pos is None,
            final(self).cursor_pos is Some && final(self).cursor_pos->0.point == p,
            final(self).snap == old(self).snap,
            final(self).is_snap_45 == old(self).is_snap_45,
            final(xpr).wf(),
            final(xpr).canvas_w == old(xpr).canvas_w,
            final(xpr).canvas_h == old(xpr).canvas_h,
            final(xpr).selected_color == old(xpr).selected_color,
            old(self).start_pos is Some ==> ({
                let entered = apply_op(
                    old(xpr).history.models(),
                    old(xpr).history.cursor_spec(),
                    HistoryOp::Enter,
                );
                let g = entered.0[entered.1];
                let stroke = recolor_spec(
                    line_stroke_pixels(
                        old(self).snap,
                        old(self).is_snap_45,
                        old(self).start_pos->0.point,
                        p,
                    ),
                    old(xpr).selected_color,
                );
                final(xpr).history.cursor_spec() == entered.1 && final(xpr).history.models()
                    == entered.0.update(
                    entered.1,
                    (g.0.update(g.1, (g.0[g.1].0, extend_spec(g.0[g.1].1, stroke), g.0[g.1].2)), g.1),
                )
            }),
            old(self).start_pos is None ==> final(xpr).history == old(xpr).history,
    {
        let color = xpr.color();
        self.cursor_pos = Some(Pixel { point: p, color });
        let res = self.finalize_line(xpr);
        self.is_mouse_down = None;
        self.start_pos = None;
        let res2 = self.draw(xpr);
        match (res, res2) {
            (Ok(_), Ok(_)) => Ok(()),
            _ => Ok(()),
        }
    }

    /// Change a tool option: `ctrl` enables 45-degree snapping, `shift`
    /// enables sector snapping, anything else is a logged no-op.
    pub fn set(&mut self, xpr: &mut Xprite, option: &str, value: &str) -> (res: Result<
        (),
        String,
    >)
        requires
            old(self).wf(),
            old(xpr).wf(),
        ensures
            res is Ok,
            final(self).wf(),
            final(xpr).wf(),
            final(xpr).history == old(xpr).history,
            final(xpr).canvas_w == old(xpr).canvas_w,
            final(xpr).canvas_h == old(xpr).canvas_h,
            final(xpr).selected_color == old(xpr).selected_color,
            final(self).is_mouse_down == old(self).is_mouse_down,
            final(self).cursor_pos == old(self).cursor_pos,
            final(self).start_pos == old(self).start_pos,
            option@ == "ctrl"@ && value@ == "true"@ ==> final(self).snap && final(self).is_snap_45,
            option@ == "ctrl"@ && value@ == "false"@ ==> !final(self).snap && final(self).is_snap_45
                == old(self).is_snap_45,
            option@ == "shift"@ && value@ == "true"@ ==> final(self).snap && !final(self).is_snap_45,
            option@ == "shift"@ && value@ == "false"@ ==> !final(self).snap && final(self).is_snap_45 == old(self).is_snap_45,
            option@ != "ctrl"@ && option@ != "shift"@ ==> final(self).snap == old(self).snap
                && final(self).is_snap_45 == old(self).is_snap_45,
            // a malformed value is a logged no-op: the flags are untouched
            value@ != "true"@ && value@ != "false"@ ==> final(self).snap == old(self).snap
                && final(self).is_snap_45 == old(self).is_snap_45,
    {
        proof {
            reveal_strlit("ctrl");
            reveal_strlit("shift");
            reveal_strlit("true");
            reveal_strlit("false");
            assert("ctrl"@.len() == 4);
            assert("shift"@.len() == 5);
            assert("true"@.len() == 4);
            assert("false"@.len() == 5);
            assert("ctrl"@ != "shift"@);
            assert("true"@ != "false"@);
        }
        if str_eq(option, "ctrl") {
            if str_eq(value, "true") {
                self.snap = true;
                self.is_snap_45 = true;
            } else if str_eq(value, "false") {
                self.snap = false;
            }
            let r = self.draw(xpr);
            if r.is_err() {
                return r;
            }
        } else if str_eq(option, "shift") {
            if str_eq(value, "true") {
                self.snap = true;
                self.is_snap_45 = false;
            } else if str_eq(value, "false") {
                self.snap = false;
            }
            let r = self.draw(xpr);
            if r.is_err() {
                return r;
            }
        }
        Ok(())
    }
}

} // verus!
