//! The history manager: a versioned stack of canvas snapshots with a
//! cursor.  `enter` commits the active frame and opens a fresh copy of it,
//! discarding the redo tail; `undo` and `redo` only move the cursor, so
//! committed frames are never mutated.
//!
//! The discipline of the stack is stated once over abstract frame
//! sequences (`apply_op`, `run_ops`) and proved for every sequence of
//! operations: the cursor never climbs by more than the number of `enter`
//! calls, and a `redo` right after a fresh `enter` is a no-op.

use vstd::prelude::*;
use vstd::pervasive::VecAdditionalExecFns;
use crate::layer::{GroupModel, LayerGroup};
use crate::pixels::{extend_spec, Pixel, Pixels};

verus! {

/// One step of the history protocol.
#[derive(Clone, Copy, Debug, PartialEq, Eq, Structural)]
pub enum HistoryOp {
    Enter,
    Undo,
    Redo,
}

/// What one operation does to a frame stack and its cursor: `Enter` clones
/// the frame under the cursor on top of it and drops the redo tail, `Undo`
/// and `Redo` move the cursor without changing the frames, saturating at
/// the two ends of the stack.
pub open spec fn apply_op<G>(frames: Seq<G>, cursor: int, op: HistoryOp) -> (Seq<G>, int) {
    match op {
        HistoryOp::Enter => (frames.subrange(0, cursor + 1).push(frames[cursor]), cursor + 1),
        HistoryOp::Undo => if cursor > 0 {
            (frames, cursor - 1)
        } else {
            (frames, cursor)
        },
        HistoryOp::Redo => if cursor + 1 < frames.len() {
            (frames, cursor + 1)
        } else {
            (frames, cursor)
        },
    }
}

/// The state after a whole sequence of operations.
pub open spec fn run_ops<G>(frames: Seq<G>, cursor: int, ops: Seq<HistoryOp>) -> (Seq<G>, int)
    decreases ops.len(),
{
    if ops.len() == 0 {
        (frames, cursor)
    } else {
        let next = apply_op(frames, cursor, ops[0]);
        run_ops(next.0, next.1, ops.subrange(1, ops.len() as int))
    }
}

/// How many `Enter` operations a sequence holds.
pub open spec fn count_enters(ops: Seq<HistoryOp>) -> int
    decreases ops.len(),
{
    if ops.len() == 0 {
        0
    } else {
        (if ops[0] is Enter {
            1int
        } else {
            0int
        }) + count_enters(ops.subrange(1, ops.len() as int))
    }
}

/// For any sequence of operations, the number of committed frames below
/// the cursor never exceeds the committed frames it started with plus the
/// number of `enter` calls in the sequence, and the cursor stays on the
/// stack.  Run from a fresh history (a single frame), the cursor never
/// exceeds the number of `enter` calls.
pub proof fn lemma_history_commit_bound<G>(frames: Seq<G>, cursor: int, ops: Seq<HistoryOp>)
    requires
        0 <= cursor < frames.len(),
    ensures
        run_ops(frames, cursor, ops).1 <= frames.len() - 1 + count_enters(ops),
        run_ops(frames, cursor, ops).0.len() <= frames.len() + count_enters(ops),
        0 <= run_ops(frames, cursor, ops).1 < run_ops(frames, cursor, ops).0.len(),
    decreases ops.len(),
{
    if ops.len() > 0 {
        let next = apply_op(frames, cursor, ops[0]);
        let rest = ops.subrange(1, ops.len() as int);
        assert(0 <= next.1 < next.0.len());
        lemma_history_commit_bound(next.0, next.1, rest);
    }
}

/// A `redo` immediately after a fresh `enter` (with no `undo` in between)
/// is a no-op: the fresh frame is already the newest one.
pub proof fn lemma_redo_after_fresh_enter_noop<G>(frames: Seq<G>, cursor: int)
    requires
        0 <= cursor < frames.len(),
    ensures
        ({
            let entered = apply_op(frames, cursor, HistoryOp::Enter);
            apply_op(entered.0, entered.1, HistoryOp::Redo) == entered
        }),
{
}

/// The versioned stack of canvas snapshots.  The frame under the cursor is
/// the active frame; frames below it are committed, frames above it form
/// the redo tail.
pub struct History {
    frames: Vec<LayerGroup>,
    cursor: usize,
}

impl History {
    /// The models of all frames on the stack, oldest first.
    pub closed spec fn models(&self) -> Seq<GroupModel> {
        self.frames@.map_values(|g: LayerGroup| g.model())
    }

    /// The position of the active frame.
    pub closed spec fn cursor_spec(&self) -> int {
        self.cursor as int
    }

    /// The cursor is on the stack and every frame is well formed.
    pub closed spec fn wf(&self) -> bool {
        &&& self.cursor < self.frames@.len()
        &&& forall|i: int| 0 <= i < self.frames@.len() ==> (#[trigger] self.frames@[i]).wf()
    }

    /// A fresh history: one empty snapshot, active.
    pub fn new(layer_name: String) -> (r: History)
        ensures
            r.wf(),
            r.cursor_spec() == 0,
            r.models().len() == 1,
            r.models()[0].1 == 0,
            r.models()[0].0.len() == 1,
            r.models()[0].0[0] == (layer_name@, Seq::<Pixel>::empty(), true),
    {
        let mut frames: Vec<LayerGroup> = Vec::new();
        frames.push(LayerGroup::new(layer_name));
        let r = History { frames, cursor: 0 };
        assert(r.models() =~= seq![r.frames@[0].model()]);
        r
    }

    /// The number of frames on the stack.
    pub fn frame_count(&self) -> (n: usize)
        ensures
            n == self.models().len(),
    {
        self.frames.len()
    }

    /// The position of the active frame.
    pub fn cursor_index(&self) -> (i: usize)
        ensures
            i == self.cursor_spec(),
    {
        self.cursor
    }

    /// Read access to the active frame.
    pub fn top(&self) -> (r: &LayerGroup)
        requires
            self.wf(),
        ensures
            r.model() == self.models()[self.cursor_spec()],
            r.wf(),
    {
        &self.frames[self.cursor]
    }

    /// The cursor always sits on the stack, and every frame's selection
    /// points at one of its layers.
    pub proof fn lemma_cursor_on_stack(&self)
        requires
            self.wf(),
        ensures
            0 <= self.cursor_spec() < self.models().len(),
            forall|i: int|
                0 <= i < self.models().len() ==> 0 <= (#[trigger] self.models()[i]).1
                    < self.models()[i].0.len(),
    {
        assert forall|i: int|
            0 <= i < self.models().len() implies 0 <= (#[trigger] self.models()[i]).1
            < self.models()[i].0.len() by {
            assert(self.frames@[i].wf());
            self.frames@[i].lemma_selected_in_range();
            assert(self.models()[i] == self.frames@[i].model());
        }
    }

    /// Commit the active frame: clone it on top of the stack, discard the
    /// redo tail and move the cursor to the fresh copy.
    pub fn enter(&mut self)
        requires
            old(self).wf(),
        ensures
            final(self).wf(),
            (final(self).models(), final(self).cursor_spec()) == apply_op(
                old(self).models(),
                old(self).cursor_spec(),
                HistoryOp::Enter,
            ),
            final(self).cursor_spec() == old(self).cursor_spec() + 1,
            final(self).models().len() == old(self).cursor_spec() + 2,
    {
        let n = self.frames.len();
        assert(self.cursor < n);
        let snap = self.frames[self.cursor].duplicate();
        self.frames.truncate(self.cursor + 1);
        self.frames.push(snap);
        self.cursor = self.cursor + 1;
        assert(self.models() =~= old(self).models().subrange(
            0,
            old(self).cursor_spec() + 1,
        ).push(old(self).models()[old(self).cursor_spec()]));
    }

    /// Step the cursor one frame back, unless it is on the oldest frame.
    pub fn undo(&mut self)
        requires
            old(self).wf(),
        ensures
            final(self).wf(),
            (final(self).models(), final(self).cursor_spec()) == apply_op(
                old(self).models(),
                old(self).cursor_spec(),
                HistoryOp::Undo,
            ),
    {
        if self.cursor > 0 {
            self.cursor = self.cursor - 1;
        }
    }

    /// Step the cursor one frame forward, unless no newer frame exists.
    pub fn redo(&mut self)
        requires
            old(self).wf(),
        ensures
            final(self).wf(),
            (final(self).models(), final(self).cursor_spec()) == apply_op(
                old(self).models(),
                old(self).cursor_spec(),
                HistoryOp::Redo,
            ),
    {
        if self.cursor < self.frames.len() - 1 {
            self.cursor = self.cursor + 1;
        }
    }

    /// Merge a pixel set into the selected layer of the active frame; at a
    /// shared point the new color wins.
    pub fn extend_selected(&mut self, pixs: &Pixels)
        requires
            old(self).wf(),
        ensures
            final(self).wf(),
            final(self).cursor_spec() == old(self).cursor_spec(),
            final(self).models() == old(self).models().update(
                old(self).cursor_spec(),
                ({
                    let g = old(self).models()[old(self).cursor_spec()];
                    (
                        g.0.update(
                            g.1,
                            (g.0[g.1].0, extend_spec(g.0[g.1].1, pixs@), g.0[g.1].2),
                        ),
                        g.1,
                    )
                }),
            ),
    {
        let mut tmp = LayerGroup::new(String::new());
        self.frames.set_and_swap(self.cursor, &mut tmp);
        tmp.extend_selected(pixs);
        self.frames.set_and_swap(self.cursor, &mut tmp);
        assert(self.models() =~= old(self).models().update(
            old(self).cursor_spec(),
            ({
                let g = old(self).models()[old(self).cursor_spec()];
                (g.0.update(g.1, (g.0[g.1].0, extend_spec(g.0[g.1].1, pixs@), g.0[g.1].2)), g.1)
            }),
        ));
    }
}

} // verus!
