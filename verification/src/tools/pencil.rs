//! The pencil tool: freehand strokes accumulated into a polyline, cleaned
//! by the pixel-perfect filter and committed on release.

use vstd::prelude::*;
use crate::algorithms::pixel_perfect::{pixel_perfect, pixel_perfect_spec};
use crate::algorithms::sorter::sort_path;
use crate::brush::{canvas_px_spec, follow_spec, Brush, BrushType};
use crate::color::Color;
use crate::geom::Point2D;
use crate::history::{apply_op, HistoryOp};
use crate::layer::GroupModel;
use crate::pixels::{dedup_spec, extend_spec, Pixel, Pixels};
use crate::polyline::{connect_spec, Polyline};
use crate::tools::{str_eq, InputItem, ToolType};
use crate::xprite::Xprite;

verus! {

/// The models of a history after one commit: a fresh frame is entered and
/// `content` is merged into its selected layer.
pub open spec fn committed_models(
    models: Seq<GroupModel>,
    cursor: int,
    content: Seq<Pixel>,
) -> Seq<GroupModel> {
    let entered = apply_op(models, cursor, HistoryOp::Enter);
    let g = entered.0[entered.1];
    entered.0.update(
        entered.1,
        (g.0.update(g.1, (g.0[g.1].0, extend_spec(g.0[g.1].1, content), g.0[g.1].2)), g.1),
    )
}

/// A pixel sequence repainted with one color.
pub open spec fn repaint_spec(s: Seq<Pixel>, c: Color) -> Seq<Pixel> {
    Seq::new(s.len(), |i: int| Pixel { point: s[i].point, color: c })
}

/// The pencil's full stroke pipeline: connect the recorded anchors with
/// straight segments, optionally drop the staircase corners, and stamp the
/// brush along the result.
pub open spec fn pencil_stroke(shape: Seq<Pixel>, pos: Seq<Point2D>, filter: bool) -> Seq<
    Pixel,
> {
    if filter {
        follow_spec(shape, dedup_spec(pixel_perfect_spec(connect_spec(pos))))
    } else {
        follow_spec(shape, connect_spec(pos))
    }
}

/// How the pencil post-processes a finished stroke.
#[derive(Clone, Copy, Debug, PartialEq, Eq, Structural)]
pub enum PencilMode {
    /// Keep the raw rasterized stroke.
    Raw,
    /// Run the pixel-perfect corner filter.
    PixelPerfect,
    /// Filter, then sort each monotonic segment.
    SortedMonotonic,
}

impl PencilMode {
    /// The display name of the mode.
    pub fn as_str(&self) -> (r: &'static str)
        ensures
            r@ == (match *self {
                PencilMode::Raw => "Raw"@,
                PencilMode::PixelPerfect => "Pixel Perfect"@,
                PencilMode::SortedMonotonic => "Sorted Monotonic"@,
            }),
    {
        match self {
            PencilMode::Raw => "Raw",
            PencilMode::PixelPerfect => "Pixel Perfect",
            PencilMode::SortedMonotonic => "Sorted Monotonic",
        }
    }

    /// Parse a display name back into a mode.
    pub fn from_str(string: &str) -> (r: Result<PencilMode, ()>)
        ensures
            string@ == "Raw"@ ==> r == Result::<PencilMode, ()>::Ok(PencilMode::Raw),
            string@ == "Pixel Perfect"@ ==> r == Result::<PencilMode, ()>::Ok(
                PencilMode::PixelPerfect,
            ),
            string@ == "Sorted Monotonic"@ ==> r == Result::<PencilMode, ()>::Ok(
                PencilMode::SortedMonotonic,
            ),
            string@ != "Raw"@ && string@ != "Pixel Perfect"@ && string@ != "Sorted Monotonic"@
                ==> r is Err,
    {
        proof {
            reveal_strlit("Raw");
            reveal_strlit("Pixel Perfect");
            reveal_strlit("Sorted Monotonic");
            assert("Raw"@.len() == 3);
            assert("Pixel Perfect"@.len() == 13);
            assert("Sorted Monotonic"@.len() == 16);
            assert("Raw"@ != "Pixel Perfect"@);
            assert("Raw"@ != "Sorted Monotonic"@);
            assert("Pixel Perfect"@ != "Sorted Monotonic"@);
        }
        if str_eq(string, "Raw") {
            Ok(PencilMode::Raw)
        } else if str_eq(string, "Pixel Perfect") {
            Ok(PencilMode::PixelPerfect)
        } else if str_eq(string, "Sorted Monotonic") {
            Ok(PencilMode::SortedMonotonic)
        } else {
            Err(())
        }
    }
}

/// The pencil tool's gesture state.
pub struct Pencil {
    pub is_mouse_down: Option<InputItem>,
    pub current_polyline: Polyline,
    pub cursor: Option<Pixels>,
    pub cursor_pos: Option<Pixel>,
    pub brush: Brush,
    pub mode: PencilMode,
    pub brush_type: BrushType,
    pub buffer: Pixels,
    pub moved: bool,
}

impl Pencil {
    /// Recorded anchors stay on the grid and the buffers are proper sets.
    pub open spec fn wf(&self) -> bool {
        &&& self.current_polyline.wf()
        &&& self.brush.wf()
        &&& self.buffer.wf()
        &&& (self.cursor_pos is Some ==> self.cursor_pos->0.point.in_range())
        &&& (self.cursor is Some ==> self.cursor->0.wf())
    }

    /// A fresh, idle pencil drawing pixel-perfect strokes with the
    /// single-cell brush.
    pub fn new() -> (r: Pencil)
        ensures
            r.wf(),
            r.is_mouse_down is None,
            r.current_polyline.pos@ == Seq::<Point2D>::empty(),
            r.cursor is None,
            r.cursor_pos is None,
            r.mode == PencilMode::PixelPerfect,
            r.brush_type == BrushType::Pixel,
            r.buffer@ == Seq::<Pixel>::empty(),
            !r.moved,
    {
        Pencil {
            is_mouse_down: None,
            current_polyline: Polyline::new(),
            cursor: None,
            cursor_pos: None,
            brush: Brush::pixel(),
            mode: PencilMode::PixelPerfect,
            brush_type: BrushType::Pixel,
            buffer: Pixels::new(),
            moved: false,
        }
    }

    /// Which tool this is.
    pub fn tool_type(&self) -> (t: ToolType)
        ensures
            t == ToolType::Pencil,
    {
        ToolType::Pencil
    }

    /// Mark the brush footprint in the document's cursor buffer.
    fn set_cursor(&self, xpr: &mut Xprite)
        requires
            self.cursor is Some ==> self.cursor->0.wf(),
        ensures
            self.cursor is Some ==> final(xpr).cursor@ == self.cursor->0@,
            self.cursor is None ==> final(xpr).cursor@ == old(xpr).cursor@,
            final(xpr).history == old(xpr).history,
            final(xpr).canvas_w == old(xpr).canvas_w,
            final(xpr).canvas_h == old(xpr).canvas_h,
            final(xpr).selected_color == old(xpr).selected_color,
            final(xpr).preview@ == old(xpr).preview@,
            old(xpr).wf() ==> final(xpr).wf(),
    {
        if let Some(cursor) = &self.cursor {
            xpr.set_cursor(cursor);
        }
    }

    /// Rebuild the live stroke buffer from the recorded anchors.
    fn rebuild_buffer(&mut self, color: Color)
        requires
            old(self).wf(),
        ensures
            final(self).wf(),
            final(self).buffer@ == repaint_spec(
                pencil_stroke(
                    old(self).brush.shape@,
                    old(self).current_polyline.pos@,
                    old(self).mode != PencilMode::Raw,
                ),
                color,
            ),
            final(self).is_mouse_down == old(self).is_mouse_down,
            final(self).current_polyline.pos@ == old(self).current_polyline.pos@,
            final(self).cursor == old(self).cursor,
            final(self).cursor_pos == old(self).cursor_pos,
            final(self).brush == old(self).brush,
            final(self).mode == old(self).mode,
            final(self).moved == old(self).moved,
    {
        let line_pixs = self.current_polyline.connect_with_line();
        let ghost line_seq = line_pixs@;
        let pixs = if !matches!(self.mode, PencilMode::Raw) {
            let filtered = pixel_perfect(&line_pixs.to_vec());
            Pixels::from_slice(&filtered)
        } else {
            line_pixs
        };
        proof {
            crate::algorithms::pixel_perfect::lemma_pixel_perfect_elements(line_seq);
            assert forall|i: int|
                0 <= i < pixs@.len() implies -4 * crate::geom::MAX_COORD <= (
            #[trigger] pixs@[i]).point.x <= 4 * crate::geom::MAX_COORD && -4
                * crate::geom::MAX_COORD <= pixs@[i].point.y <= 4 * crate::geom::MAX_COORD by {
                let pt = pixs@[i].point;
                assert(crate::pixels::contains_pt(pixs@, pt));
                if self.mode != PencilMode::Raw {
                    let filtered_seq = crate::algorithms::pixel_perfect::pixel_perfect_spec(
                        line_seq,
                    );
                    assert(crate::pixels::contains_pt(filtered_seq, pt));
                    let m = choose|m: int|
                        0 <= m < filtered_seq.len() && filtered_seq[m].point == pt;
                    assert(line_seq.contains(filtered_seq[m]));
                    let t = choose|t: int| 0 <= t < line_seq.len() && line_seq[t] == filtered_seq[m];
                    assert(line_seq[t].point == pt);
                }
            }
        }
        let mut stroked = self.brush.follow_stroke(&pixs);
        stroked.set_color(&color);
        proof {
            assert(stroked@ =~= repaint_spec(
                pencil_stroke(
                    self.brush.shape@,
                    self.current_polyline.pos@,
                    self.mode != PencilMode::Raw,
                ),
                color,
            ));
        }
        self.buffer = stroked;
    }

    /// Track the pointer.  During a left-button drag the anchor is
    /// recorded and the live buffer is rebuilt from the whole stroke so
    /// far; otherwise only the cursor footprint moves.
    pub fn mouse_move(&mut self, xpr: &mut Xprite, p: Point2D) -> (res: Result<(), String>)
        requires
            old(self).wf(),
            old(xpr).wf(),
            p.in_range(),
        ensures
            res is Ok,
            final(self).wf(),
            final(xpr).wf(),
            final(xpr).history == old(xpr).history,
            final(xpr).canvas_w == old(xpr).canvas_w,
            final(xpr).canvas_h == old(xpr).canvas_h,
            final(xpr).selected_color == old(xpr).selected_color,
            final(self).mode == old(self).mode,
            final(self).brush == old(self).brush,
            final(self).is_mouse_down == old(self).is_mouse_down,
            (old(self).is_mouse_down == Some(InputItem::Left) && !crate::geom::spec_oob(
                p.x as int,
                p.y as int,
                old(xpr).canvas_w as int,
                old(xpr).canvas_h as int,
            )) ==> final(self).moved && final(self).current_polyline.pos@ == old(self).current_polyline.pos@.push(p) && final(self).buffer@ == repaint_spec(
                pencil_stroke(
                    old(self).brush.shape@,
                    old(self).current_polyline.pos@.push(p),
                    old(self).mode != PencilMode::Raw,
                ),
                old(xpr).selected_color,
            ),
            old(self).is_mouse_down is None ==> final(self).current_polyline.pos@ == old(self).current_polyline.pos@,
            crate::geom::spec_oob(
                p.x as int,
                p.y as int,
                old(xpr).canvas_w as int,
                old(xpr).canvas_h as int,
            ) ==> final(self).current_polyline.pos@ == old(self).current_polyline.pos@,
    {
        let color = xpr.color();
        let footprint = self.brush.to_canvas_pixels(p, color);
        self.cursor = Some(footprint);
        self.cursor_pos = Some(Pixel { point: p, color });
        if self.is_mouse_down.is_none() || crate::geom::oob(p.x, p.y, xpr.canvas_w, xpr.canvas_h) {
            return self.draw(xpr);
        }
        self.moved = true;
        self.current_polyline.push(p);
        let down = self.is_mouse_down.unwrap();
        if let InputItem::Left = down {
            self.rebuild_buffer(color);
        }
        self.draw(xpr)
    }

    /// Start a gesture: record the anchor and stamp the first footprint.
    pub fn mouse_down(&mut self, xpr: &mut Xprite, p: Point2D, button: InputItem) -> (res: Result<
        (),
        String,
    >)
        requires
            old(self).wf(),
            old(xpr).wf(),
            p.in_range(),
        ensures
            res is Ok,
            final(self).wf(),
            final(xpr).wf(),
            final(xpr).history == old(xpr).history,
            final(xpr).canvas_w == old(xpr).canvas_w,
            final(xpr).canvas_h == old(xpr).canvas_h,
            final(xpr).selected_color == old(xpr).selected_color,
            final(self).is_mouse_down == Some(button),
            final(self).current_polyline.pos@ == old(self).current_polyline.pos@.push(p),
            final(self).mode == old(self).mode,
            final(self).brush == old(self).brush,
            button == InputItem::Left ==> final(self).buffer@ == canvas_px_spec(
                old(self).brush.shape@,
                p,
                old(xpr).selected_color,
            ),
    {
        self.is_mouse_down = Some(button);
        self.current_polyline.push(p);
        self.buffer.clear();
        let color = xpr.color();
        let footprint = self.brush.to_canvas_pixels(p, color);
        if let InputItem::Left = button {
            self.buffer.extend(&footprint);
            proof {
                assert(Seq::<Pixel>::empty() + footprint@ =~= footprint@);
                crate::pixels::lemma_extend_unique(Seq::<Pixel>::empty(), footprint@);
            }
        }
        self.draw(xpr)
    }

    /// End the gesture: run the configured post-processing over the whole
    /// stroke and commit it through a fresh history frame.
    pub fn mouse_up(&mut self, xpr: &mut Xprite, _p: Point2D) -> (res: Result<(), String>)
        requires
            old(self).wf(),
            old(xpr).wf(),
        ensures
            res is Ok,
            final(self).wf(),
            final(xpr).wf(),
            final(xpr).canvas_w == old(xpr).canvas_w,
            final(xpr).canvas_h == old(xpr).canvas_h,
            final(xpr).selected_color == old(xpr).selected_color,
            (old(self).is_mouse_down is None || old(self).is_mouse_down == Some(
                InputItem::Right,
            )) ==> *final(xpr) == *old(xpr) && *final(self) == *old(self),
            old(self).is_mouse_down == Some(InputItem::Left) ==> final(self).is_mouse_down is None
                && !final(self).moved && final(self).buffer@ == Seq::<Pixel>::empty() && final(self).current_polyline.pos@ == Seq::<Point2D>::empty(),
            old(self).is_mouse_down == Some(InputItem::Left) ==> final(xpr).history.cursor_spec()
                == old(xpr).history.cursor_spec() + 1,
            (old(self).is_mouse_down == Some(InputItem::Left) && (old(self).mode
                == PencilMode::Raw || (old(self).mode == PencilMode::PixelPerfect && !old(self).moved))) ==> final(xpr).history.models() == committed_models(
                old(xpr).history.models(),
                old(xpr).history.cursor_spec(),
                repaint_spec(old(self).buffer@, old(xpr).selected_color),
            ),
            (old(self).is_mouse_down == Some(InputItem::Left) && old(self).mode
                == PencilMode::PixelPerfect && old(self).moved) ==> final(xpr).history.models()
                == committed_models(
                old(xpr).history.models(),
                old(xpr).history.cursor_spec(),
                repaint_spec(
                    pencil_stroke(old(self).brush.shape@, old(self).current_polyline.pos@, true),
                    old(xpr).selected_color,
                ),
            ),
            (old(self).is_mouse_down == Some(InputItem::Left) && old(self).mode
                == PencilMode::SortedMonotonic) ==> exists|sorted: Seq<Pixel>|
                sorted.to_multiset() == pixel_perfect_spec(
                    connect_spec(old(self).current_polyline.pos@),
                ).to_multiset() && final(xpr).history.models() == committed_models(
                    old(xpr).history.models(),
                    old(xpr).history.cursor_spec(),
                    repaint_spec(
                        follow_spec(old(self).brush.shape@, dedup_spec(sorted)),
                        old(xpr).selected_color,
                    ),
                ),
    {
        if self.is_mouse_down.is_none() {
            return Ok(());
        }
        let down = self.is_mouse_down.unwrap();
        if let InputItem::Right = down {
            return Ok(());
        }
        let ghost mut sorted_wit: Seq<Pixel> = Seq::<Pixel>::empty();
        match self.mode {
            PencilMode::Raw => {},
            PencilMode::PixelPerfect => {
                if self.moved {
                    let color = xpr.color();
                    self.rebuild_buffer(color);
                }
            },
            PencilMode::SortedMonotonic => {
                broadcast use vstd::seq_lib::group_to_multiset_ensures;

                let line_pixs = self.current_polyline.connect_with_line();
                let ghost line_seq = line_pixs@;
                let filtered = pixel_perfect(&line_pixs.to_vec());
                let sorted = sort_path(&filtered);
                let pixs = Pixels::from_slice(&sorted);
                proof {
                    crate::algorithms::pixel_perfect::lemma_pixel_perfect_elements(line_seq);
                    assert forall|i: int|
                        0 <= i < pixs@.len() implies -4 * crate::geom::MAX_COORD <= (
                    #[trigger] pixs@[i]).point.x <= 4 * crate::geom::MAX_COORD && -4
                        * crate::geom::MAX_COORD <= pixs@[i].point.y <= 4
                        * crate::geom::MAX_COORD by {
                        let pt = pixs@[i].point;
                        assert(crate::pixels::contains_pt(pixs@, pt));
                        assert(crate::pixels::contains_pt(sorted@, pt));
                        let m = choose|m: int| 0 <= m < sorted@.len() && sorted@[m].point == pt;
                        assert(sorted@.contains(sorted@[m]));
                        assert(sorted@.to_multiset().count(sorted@[m]) > 0);
                        assert(filtered@.to_multiset().count(sorted@[m]) > 0);
                        assert(filtered@.contains(sorted@[m]));
                        let w = choose|w: int|
                            0 <= w < filtered@.len() && filtered@[w] == sorted@[m];
                        assert(line_seq.contains(filtered@[w]));
                        let t = choose|t: int|
                            0 <= t < line_seq.len() && line_seq[t] == filtered@[w];
                        assert(line_seq[t].point == pt);
                    }
                }
                let stroked = self.brush.follow_stroke(&pixs);
                self.buffer = stroked;
                proof {
                    sorted_wit = sorted@;
                    assert(self.buffer@ == follow_spec(self.brush.shape@, dedup_spec(sorted_wit)));
                    assert(sorted_wit.to_multiset() == pixel_perfect_spec(
                        connect_spec(old(self).current_polyline.pos@),
                    ).to_multiset());
                }
            },
        }
        let color = xpr.color();
        self.buffer.set_color(&color);
        xpr.history.enter();
        xpr.history.extend_selected(&self.buffer);
        proof {
            if old(self).mode == PencilMode::Raw || (old(self).mode == PencilMode::PixelPerfect
                && !old(self).moved) {
                assert(self.buffer@ =~= repaint_spec(old(self).buffer@, old(xpr).selected_color));
            }
            if old(self).mode == PencilMode::PixelPerfect && old(self).moved {
                assert(self.buffer@ =~= repaint_spec(
                    pencil_stroke(old(self).brush.shape@, old(self).current_polyline.pos@, true),
                    old(xpr).selected_color,
                ));
            }
            if old(self).mode == PencilMode::SortedMonotonic {
                assert(self.buffer@ =~= repaint_spec(
                    follow_spec(old(self).brush.shape@, dedup_spec(sorted_wit)),
                    old(xpr).selected_color,
                ));
                assert(xpr.history.models() == committed_models(
                    old(xpr).history.models(),
                    old(xpr).history.cursor_spec(),
                    repaint_spec(
                        follow_spec(old(self).brush.shape@, dedup_spec(sorted_wit)),
                        old(xpr).selected_color,
                    ),
                ));
            }
        }
        self.current_polyline.clear();
        self.buffer.clear();
        self.is_mouse_down = None;
        self.moved = false;
        self.draw(xpr)
    }

    /// Render this frame: the cursor footprint and the live buffer,
    /// repainted in the document's current color.
    pub fn draw(&mut self, xpr: &mut Xprite) -> (res: Result<(), String>)
        requires
            old(self).wf(),
            old(xpr).wf(),
        ensures
            res is Ok,
            final(self).wf(),
            final(xpr).wf(),
            final(xpr).history == old(xpr).history,
            final(xpr).canvas_w == old(xpr).canvas_w,
            final(xpr).canvas_h == old(xpr).canvas_h,
            final(xpr).selected_color == old(xpr).selected_color,
            final(self).buffer@ == repaint_spec(old(self).buffer@, old(xpr).selected_color),
            final(xpr).preview@ == repaint_spec(old(self).buffer@, old(xpr).selected_color),
            final(self).is_mouse_down == old(self).is_mouse_down,
            final(self).current_polyline.pos@ == old(self).current_polyline.pos@,
            final(self).mode == old(self).mode,
            final(self).brush == old(self).brush,
            final(self).moved == old(self).moved,
    {
        xpr.new_frame();
        self.set_cursor(xpr);
        let color = xpr.color();
        self.buffer.set_color(&color);
        proof {
            assert(self.buffer@ =~= repaint_spec(old(self).buffer@, old(xpr).selected_color));
            assert(self.buffer.wf());
            assert(Seq::<Pixel>::empty() + self.buffer@ =~= self.buffer@);
            crate::pixels::lemma_extend_unique(Seq::<Pixel>::empty(), self.buffer@);
        }
        xpr.add_pixels(&self.buffer);
        Ok(())
    }

    /// Change a tool option: `mode` selects the post-processing, `brush`
    /// selects the footprint; anything else is a logged no-op.
    pub fn set(&mut self, _xpr: &mut Xprite, option: &str, value: &str) -> (res: Result<
        (),
        String,
    >)
        requires
            old(self).wf(),
        ensures
            res is Ok,
            final(self).wf(),
            option@ == "mode"@ && value@ == "Raw"@ ==> final(self).mode == PencilMode::Raw,
            option@ == "mode"@ && value@ == "Pixel Perfect"@ ==> final(self).mode
                == PencilMode::PixelPerfect,
            option@ == "mode"@ && value@ == "Sorted Monotonic"@ ==> final(self).mode
                == PencilMode::SortedMonotonic,
            option@ == "brush"@ && value@ == "+"@ ==> final(self).brush_type == BrushType::Cross,
            option@ == "brush"@ && value@ == "."@ ==> final(self).brush_type == BrushType::Pixel,
            option@ != "mode"@ ==> final(self).mode == old(self).mode,
            option@ != "brush"@ ==> final(self).brush == old(self).brush && final(self).brush_type
                == old(self).brush_type,
            // a malformed value is a logged no-op: the setting is untouched
            value@ != "Raw"@ && value@ != "Pixel Perfect"@ && value@ != "Sorted Monotonic"@
                ==> final(self).mode == old(self).mode,
            value@ != "+"@ && value@ != "."@ ==> final(self).brush == old(self).brush && final(self).brush_type == old(self).brush_type,
    {
        proof {
            reveal_strlit("mode");
            reveal_strlit("brush");
            assert("mode"@.len() == 4);
            assert("brush"@.len() == 5);
            assert("mode"@ != "brush"@);
        }
        if str_eq(option, "mode") {
            let parsed = PencilMode::from_str(value);
            match parsed {
                Ok(m) => {
                    self.mode = m;
                },
                Err(_) => {},
            }
        } else if str_eq(option, "brush") {
            proof {
                reveal_strlit("+");
                reveal_strlit(".");
                assert("+"@.len() == 1 && "."@.len() == 1);
                assert("+"@[0] == '+' && "."@[0] == '.');
                assert("+"@ != "."@);
            }
            if str_eq(value, "+") {
                self.brush = Brush::cross();
                self.brush_type = BrushType::Cross;
            } else if str_eq(value, ".") {
                self.brush = Brush::pixel();
                self.brush_type = BrushType::Pixel;
            }
        }
        Ok(())
    }
}

} // verus!
