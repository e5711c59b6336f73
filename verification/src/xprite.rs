//! The engine document: canvas dimensions, the snapshot history, the
//! selected color, and the per-frame preview buffers that the renderer
//! consumes.  Tools mutate the document only through these methods and
//! commit pixel changes through the history.

use vstd::prelude::*;
use crate::color::Color;
use crate::geom::{Point2D, Rect, MAX_COORD};
use crate::history::History;
use crate::layer::Layer;
use crate::pixels::{contains_xy, extend_spec, Pixel, Pixels};

verus! {

/// The pixels of the selected layer of the document's active frame.
pub open spec fn active_content(x: Xprite) -> Seq<Pixel> {
    x.history.models()[x.history.cursor_spec()].0[x.history.models()[x.history.cursor_spec()].1].1
}

/// The in-memory document plus the transient per-frame state.
pub struct Xprite {
    /// The versioned stack of canvas snapshots.
    pub history: History,
    /// Canvas width in cells.
    pub canvas_w: i64,
    /// Canvas height in cells.
    pub canvas_h: i64,
    /// The color new strokes are painted with.
    pub selected_color: Color,
    /// The uncommitted pixels previewed this frame.
    pub preview: Pixels,
    /// The pixels marking the cursor this frame.
    pub cursor: Pixels,
    /// Mirror-axis guide segments to render.
    pub line_buf: Vec<Rect>,
    /// Anchor and control-point markers to render as circles.
    pub circle_buf: Vec<Pixel>,
}

impl Xprite {
    /// The document invariant: a well-formed history on a bounded canvas,
    /// with well-formed preview buffers.
    pub open spec fn wf(&self) -> bool {
        &&& self.history.wf()
        &&& 0 <= self.canvas_w <= MAX_COORD
        &&& 0 <= self.canvas_h <= MAX_COORD
        &&& self.preview.wf()
        &&& self.cursor.wf()
    }

    /// A fresh document: one empty layer, an empty history, black strokes.
    pub fn new(w: i64, h: i64) -> (r: Xprite)
        requires
            0 <= w <= MAX_COORD,
            0 <= h <= MAX_COORD,
        ensures
            r.wf(),
            r.canvas_w == w,
            r.canvas_h == h,
            r.history.cursor_spec() == 0,
            r.history.models().len() == 1,
            r.preview@ == Seq::<Pixel>::empty(),
            r.cursor@ == Seq::<Pixel>::empty(),
            r.selected_color == (Color::Rgba { r: 0u8, g: 0u8, b: 0u8, a: 255u8 }),
    {
        Xprite {
            history: History::new(String::new()),
            canvas_w: w,
            canvas_h: h,
            selected_color: Color::black(),
            preview: Pixels::new(),
            cursor: Pixels::new(),
            line_buf: Vec::new(),
            circle_buf: Vec::new(),
        }
    }

    /// The color new strokes are painted with.
    pub fn color(&self) -> (c: Color)
        ensures
            c == self.selected_color,
    {
        self.selected_color
    }

    /// Choose the color for new strokes.
    pub fn set_color(&mut self, c: &Color)
        ensures
            final(self).selected_color == *c,
            final(self).history == old(self).history,
            final(self).canvas_w == old(self).canvas_w,
            final(self).canvas_h == old(self).canvas_h,
            final(self).preview@ == old(self).preview@,
            final(self).cursor@ == old(self).cursor@,
            old(self).wf() ==> final(self).wf(),
    {
        self.selected_color = *c;
    }

    /// Start a fresh preview frame: forget the previous frame's preview
    /// pixels and circle markers.
    pub fn new_frame(&mut self)
        ensures
            final(self).preview@ == Seq::<Pixel>::empty(),
            final(self).cursor@ == old(self).cursor@,
            final(self).circle_buf@ == Seq::<Pixel>::empty(),
            final(self).history == old(self).history,
            final(self).canvas_w == old(self).canvas_w,
            final(self).canvas_h == old(self).canvas_h,
            final(self).selected_color == old(self).selected_color,
            final(self).line_buf@ == old(self).line_buf@,
            old(self).wf() ==> final(self).wf(),
    {
        self.preview.clear();
        self.circle_buf = Vec::new();
    }

    /// Add uncommitted pixels to this frame's preview.
    pub fn add_pixels(&mut self, pixs: &Pixels)
        requires
            old(self).wf(),
        ensures
            final(self).wf(),
            final(self).preview@ == extend_spec(old(self).preview@, pixs@),
            forall|a: int, b: int|
                contains_xy(final(self).preview@, a, b) <==> (contains_xy(
                    old(self).preview@,
                    a,
                    b,
                ) || contains_xy(pixs@, a, b)),
            final(self).history == old(self).history,
            final(self).canvas_w == old(self).canvas_w,
            final(self).canvas_h == old(self).canvas_h,
            final(self).selected_color == old(self).selected_color,
            final(self).cursor@ == old(self).cursor@,
    {
        self.preview.extend(pixs);
    }

    /// Replace this frame's cursor marks.
    pub fn set_cursor(&mut self, pixs: &Pixels)
        requires
            pixs.wf(),
        ensures
            final(self).cursor@ == pixs@,
            final(self).history == old(self).history,
            final(self).canvas_w == old(self).canvas_w,
            final(self).canvas_h == old(self).canvas_h,
            final(self).selected_color == old(self).selected_color,
            final(self).preview@ == old(self).preview@,
            old(self).wf() ==> final(self).wf(),
    {
        self.cursor = pixs.duplicate();
    }

    /// Drop every mirror-axis guide.
    pub fn clear_guides(&mut self)
        ensures
            final(self).line_buf@ == Seq::<Rect>::empty(),
            final(self).history == old(self).history,
            final(self).canvas_w == old(self).canvas_w,
            final(self).canvas_h == old(self).canvas_h,
            final(self).selected_color == old(self).selected_color,
            final(self).preview@ == old(self).preview@,
            final(self).cursor@ == old(self).cursor@,
            old(self).wf() ==> final(self).wf(),
    {
        self.line_buf = Vec::new();
    }

    /// Append mirror-axis guides.
    pub fn add_guides(&mut self, guides: &Vec<Rect>)
        ensures
            final(self).line_buf@ == old(self).line_buf@ + guides@,
            final(self).history == old(self).history,
            final(self).canvas_w == old(self).canvas_w,
            final(self).canvas_h == old(self).canvas_h,
            final(self).selected_color == old(self).selected_color,
            final(self).preview@ == old(self).preview@,
            final(self).cursor@ == old(self).cursor@,
            old(self).wf() ==> final(self).wf(),
    {
        let n = guides.len();
        let mut i: usize = 0;
        while i < n
            invariant
                n == guides@.len(),
                0 <= i <= n,
                self.line_buf@ == old(self).line_buf@ + guides@.subrange(0, i as int),
                self.history == old(self).history,
                self.canvas_w == old(self).canvas_w,
                self.canvas_h == old(self).canvas_h,
                self.selected_color == old(self).selected_color,
                self.preview@ == old(self).preview@,
                self.cursor@ == old(self).cursor@,
                self.circle_buf@ == old(self).circle_buf@,
            decreases n - i,
        {
            self.line_buf.push(guides[i]);
            assert(old(self).line_buf@ + guides@.subrange(0, i + 1) =~= (old(self).line_buf@
                + guides@.subrange(0, i as int)).push(guides@[i as int]));
            i = i + 1;
        }
        assert(guides@.subrange(0, n as int) =~= guides@);
    }

    /// Append one circle marker for the renderer.
    pub fn add_circle(&mut self, px: Pixel)
        ensures
            final(self).circle_buf@ == old(self).circle_buf@.push(px),
            final(self).history == old(self).history,
            final(self).canvas_w == old(self).canvas_w,
            final(self).canvas_h == old(self).canvas_h,
            final(self).selected_color == old(self).selected_color,
            final(self).preview@ == old(self).preview@,
            final(self).cursor@ == old(self).cursor@,
            old(self).wf() ==> final(self).wf(),
    {
        self.circle_buf.push(px);
    }

    /// Read access to the selected layer of the active frame.
    pub fn current_layer(&self) -> (r: &Layer)
        requires
            self.wf(),
        ensures
            r.wf(),
            r.model() == ({
                let g = self.history.models()[self.history.cursor_spec()];
                g.0[g.1]
            }),
    {
        self.history.top().selected_layer()
    }
}

} // verus!
