//! The in-memory undo/redo engine for the interactive session: two stacks of
//! actions plus a pending buffer that batches the mutations of one drag
//! stroke into a single undoable action.

use vstd::prelude::*;

use crate::canvas::{grid_get, grid_in_bounds, grid_set, grid_wf, rows_view, Canvas};
use crate::cell::Cell;

verus! {

/// Cap on the undo stack; the oldest action is evicted beyond it.
pub const MAX_HISTORY: usize = 256;

/// One cell's prior and new value at a coordinate: the atom of change.
#[derive(Clone, Copy, Debug)]
pub struct CellMutation {
    pub x: usize,
    pub y: usize,
    pub old: Cell,
    pub new: Cell,
}

/// A committed, invertible unit of history.
#[derive(Clone)]
pub enum Action {
    /// Per-cell mutations (pencil, eraser, fill, line, rect).
    CellChange(Vec<CellMutation>),
    /// Whole-canvas snapshot (resize, import).
    CanvasSnapshot {
        old_cells: Vec<Vec<Cell>>,
        old_w: usize,
        old_h: usize,
        new_cells: Vec<Vec<Cell>>,
        new_w: usize,
        new_h: usize,
    },
}

/// The model of an action.
pub ghost enum ActionV {
    Cells(Seq<CellMutation>),
    Snapshot {
        old_cells: Seq<Seq<Cell>>,
        old_w: int,
        old_h: int,
        new_cells: Seq<Seq<Cell>>,
        new_w: int,
        new_h: int,
    },
}

impl View for Action {
    type V = ActionV;

    open spec fn view(&self) -> ActionV {
        match self {
            Action::CellChange(ms) => ActionV::Cells(ms@),
            Action::CanvasSnapshot { old_cells, old_w, old_h, new_cells, new_w, new_h } => {
                ActionV::Snapshot {
                    old_cells: rows_view(old_cells@),
                    old_w: *old_w as int,
                    old_h: *old_h as int,
                    new_cells: rows_view(new_cells@),
                    new_w: *new_w as int,
                    new_h: *new_h as int,
                }
            },
        }
    }
}

/// A snapshot action must carry grids that match its stated dimensions;
/// a cell-change action is always valid.
pub open spec fn action_wf(a: ActionV) -> bool {
    match a {
        ActionV::Cells(ms) => true,
        ActionV::Snapshot { old_cells, old_w, old_h, new_cells, new_w, new_h } => {
            grid_wf(old_cells, old_w, old_h) && grid_wf(new_cells, new_w, new_h)
        },
    }
}

/// The grid after applying the `new` values of `ms` in forward order.
pub open spec fn apply_news(g: Seq<Seq<Cell>>, ms: Seq<CellMutation>) -> Seq<Seq<Cell>>
    decreases ms.len(),
{
    if ms.len() == 0 {
        g
    } else {
        apply_news(grid_set(g, ms[0].x as int, ms[0].y as int, ms[0].new), ms.drop_first())
    }
}

/// The grid after applying the `old` values of `ms` in reverse order,
/// as `undo` does.
pub open spec fn apply_olds_rev(g: Seq<Seq<Cell>>, ms: Seq<CellMutation>) -> Seq<Seq<Cell>>
    decreases ms.len(),
{
    if ms.len() == 0 {
        g
    } else {
        let m = ms.last();
        apply_olds_rev(grid_set(g, m.x as int, m.y as int, m.old), ms.drop_last())
    }
}

/// The grid after undoing one action.
pub open spec fn undo_grid(a: ActionV, g: Seq<Seq<Cell>>) -> Seq<Seq<Cell>> {
    match a {
        ActionV::Cells(ms) => apply_olds_rev(g, ms),
        ActionV::Snapshot { old_cells, .. } => old_cells,
    }
}

/// The grid after applying (or redoing) one action.
pub open spec fn redo_grid(a: ActionV, g: Seq<Seq<Cell>>) -> Seq<Seq<Cell>> {
    match a {
        ActionV::Cells(ms) => apply_news(g, ms),
        ActionV::Snapshot { new_cells, .. } => new_cells,
    }
}

/// The model of the history: two stacks and the pending stroke.
pub ghost struct HistoryV {
    pub undo: Seq<ActionV>,
    pub redo: Seq<ActionV>,
    pub pending: Option<Seq<CellMutation>>,
}

/// The model of `commit`: an empty cell change is rejected; otherwise the
/// redo stack is cleared, the action is pushed, and the oldest undo entry
/// is evicted beyond the cap.
pub open spec fn commit_m(h: HistoryV, a: ActionV) -> HistoryV {
    if a matches ActionV::Cells(ms) && ms.len() == 0 {
        h
    } else {
        let u = h.undo.push(a);
        let u2 = if u.len() > MAX_HISTORY { u.drop_first() } else { u };
        HistoryV { undo: u2, redo: Seq::empty(), pending: h.pending }
    }
}

/// The model of `push_mutation`: appended to a pending stroke, or committed
/// immediately as a single-mutation action.
pub open spec fn push_mutation_m(h: HistoryV, m: CellMutation) -> HistoryV {
    match h.pending {
        Some(ms) => HistoryV { undo: h.undo, redo: h.redo, pending: Some(ms.push(m)) },
        None => commit_m(h, ActionV::Cells(seq![m])),
    }
}

/// The model of `end_stroke`: a non-empty pending stroke is committed as one
/// action; pending is cleared regardless.
pub open spec fn end_stroke_m(h: HistoryV) -> HistoryV {
    match h.pending {
        None => h,
        Some(ms) => {
            let h1 = HistoryV { undo: h.undo, redo: h.redo, pending: None };
            if ms.len() == 0 {
                h1
            } else {
                commit_m(h1, ActionV::Cells(ms))
            }
        },
    }
}

/// The model of `begin_stroke`: an open stroke is first auto-closed, then a
/// fresh empty pending list is started.
pub open spec fn begin_stroke_m(h: HistoryV) -> HistoryV {
    let h1 = end_stroke_m(h);
    HistoryV { undo: h1.undo, redo: h1.redo, pending: Some(Seq::empty()) }
}

/// The undo/redo stack pair plus the pending stroke buffer.
pub struct History {
    undo_stack: Vec<Action>,
    redo_stack: Vec<Action>,
    pending: Option<Vec<CellMutation>>,
}

/// The model of a stack of actions.
pub open spec fn actions_view(s: Seq<Action>) -> Seq<ActionV> {
    s.map_values(|a: Action| a@)
}

impl View for History {
    type V = HistoryV;

    closed spec fn view(&self) -> HistoryV {
        HistoryV {
            undo: actions_view(self.undo_stack@),
            redo: actions_view(self.redo_stack@),
            pending: match self.pending {
                Some(ms) => Some(ms@),
                None => None,
            },
        }
    }
}

impl History {
    /// All stacked actions are valid; committed cell changes are non-empty.
    pub open spec fn wf(&self) -> bool {
        &&& forall|i: int| 0 <= i < self@.undo.len() ==> action_wf(#[trigger] self@.undo[i])
        &&& forall|i: int| 0 <= i < self@.redo.len() ==> action_wf(#[trigger] self@.redo[i])
    }

    pub fn new() -> (h: History)
        ensures
            h.wf(),
            h@ == (HistoryV { undo: Seq::<ActionV>::empty(), redo: Seq::<ActionV>::empty(), pending: Option::<Seq<CellMutation>>::None }),
    {
        let h = History { undo_stack: Vec::new(), redo_stack: Vec::new(), pending: None };
        proof {
            assert(h@.undo =~= Seq::<ActionV>::empty());
            assert(h@.redo =~= Seq::<ActionV>::empty());
        }
        h
    }

    /// Commit an action to the undo stack, clearing the redo stack; an
    /// empty cell change is rejected and the oldest entry is evicted when
    /// the cap is exceeded.
    pub fn commit(&mut self, action: Action)
        requires
            old(self).wf(),
            action_wf(action@),
        ensures
            final(self).wf(),
            final(self)@ == commit_m(old(self)@, action@),
    {
        match &action {
            Action::CellChange(mutations) => {
                if mutations.is_empty() {
                    return ;
                }
            },
            _ => {},
        }
        self.redo_stack.clear();
        let ghost a = action@;
        self.undo_stack.push(action);
        proof {
            assert(actions_view(self.undo_stack@) =~= actions_view(old(self).undo_stack@).push(a));
        }
        if self.undo_stack.len() > MAX_HISTORY {
            let ghost before = self.undo_stack@;
            self.undo_stack.remove(0);
            proof {
                assert(actions_view(self.undo_stack@) =~= actions_view(before).drop_first());
            }
        }
        proof {
            assert(actions_view(self.redo_stack@) =~= Seq::<ActionV>::empty());
        }
    }

    /// Start accumulating mutations for a drag stroke.
    pub fn begin_stroke(&mut self)
        requires
            old(self).wf(),
        ensures
            final(self).wf(),
            final(self)@ == begin_stroke_m(old(self)@),
    {
        if self.pending.is_some() {
            self.end_stroke();
        }
        let fresh: Vec<CellMutation> = Vec::new();
        proof {
            assert(fresh@ =~= Seq::<CellMutation>::empty());
        }
        self.pending = Some(fresh);
    }

    /// Add a mutation to the current pending stroke; with no stroke active
    /// it is committed immediately as a single action.
    pub fn push_mutation(&mut self, mutation: CellMutation)
        requires
            old(self).wf(),
        ensures
            final(self).wf(),
            final(self)@ == push_mutation_m(old(self)@, mutation),
    {
        match &mut self.pending {
            Some(pending) => {
                pending.push(mutation);
            },
            None => {
                let mut ms: Vec<CellMutation> = Vec::new();
                ms.push(mutation);
                proof {
                    assert(ms@ =~= seq![mutation]);
                }
                self.commit(Action::CellChange(ms));
            },
        }
    }

    /// Finish the current drag stroke and commit it as one action.
    pub fn end_stroke(&mut self)
        requires
            old(self).wf(),
        ensures
            final(self).wf(),
            final(self)@ == end_stroke_m(old(self)@),
    {
        match self.pending.take() {
            Some(mutations) => {
                if !mutations.is_empty() {
                    self.commit(Action::CellChange(mutations));
                }
            },
            None => {},
        }
    }

    /// Undo the last action, applying old cell values to the grid in
    /// reverse order (or restoring the old snapshot); returns `false` with
    /// nothing changed when there is nothing to undo.
    pub fn undo(&mut self, canvas: &mut Canvas) -> (r: bool)
        requires
            old(self).wf(),
            old(canvas).wf(),
        ensures
            final(self).wf(),
            final(canvas).wf(),
            r == (old(self)@.undo.len() > 0),
            !r ==> final(self)@ == old(self)@ && final(canvas)@ == old(canvas)@
                && final(canvas).width == old(canvas).width
                && final(canvas).height == old(canvas).height,
            r ==> {
                let a = old(self)@.undo.last();
                &&& final(self)@ == (HistoryV {
                    undo: old(self)@.undo.drop_last(),
                    redo: old(self)@.redo.push(a),
                    pending: old(self)@.pending,
                })
                &&& final(canvas)@ == undo_grid(a, old(canvas)@)
                &&& match a {
                    ActionV::Cells(_) => final(canvas).width == old(canvas).width
                        && final(canvas).height == old(canvas).height,
                    ActionV::Snapshot { old_w, old_h, .. } => final(canvas).width == old_w
                        && final(canvas).height == old_h,
                }
            },
    {
        match self.undo_stack.pop() {
            Some(action) => {
                proof {
                    assert(old(self)@.undo.last() == action@);
                    assert(actions_view(self.undo_stack@) =~= old(self)@.undo.drop_last());
                }
                match &action {
                    Action::CellChange(mutations) => {
                        Self::apply_mutations_reverse(canvas, mutations);
                    },
                    Action::CanvasSnapshot { old_cells, old_w, old_h, .. } => {
                        let copy = crate::canvas::copy_rows(old_cells);
                        canvas.replace(copy, *old_w, *old_h);
                    },
                }
                self.redo_stack.push(action);
                proof {
                    assert(actions_view(self.redo_stack@) =~= old(self)@.redo.push(
                        old(self)@.undo.last(),
                    ));
                }
                true
            },
            None => {
                proof {
                    assert(final(self)@ == old(self)@);
                }
                false
            },
        }
    }

    /// Redo the last undone action, applying new cell values in forward
    /// order (or restoring the new snapshot); returns `false` with nothing
    /// changed when there is nothing to redo.
    pub fn redo(&mut self, canvas: &mut Canvas) -> (r: bool)
        requires
            old(self).wf(),
            old(canvas).wf(),
        ensures
            final(self).wf(),
            final(canvas).wf(),
            r == (old(self)@.redo.len() > 0),
            !r ==> final(self)@ == old(self)@ && final(canvas)@ == old(canvas)@
                && final(canvas).width == old(canvas).width
                && final(canvas).height == old(canvas).height,
            r ==> {
                let a = old(self)@.redo.last();
                &&& final(self)@ == (HistoryV {
                    undo: old(self)@.undo.push(a),
                    redo: old(self)@.redo.drop_last(),
                    pending: old(self)@.pending,
                })
                &&& final(canvas)@ == redo_grid(a, old(canvas)@)
                &&& match a {
                    ActionV::Cells(_) => final(canvas).width == old(canvas).width
                        && final(canvas).height == old(canvas).height,
                    ActionV::Snapshot { new_w, new_h, .. } => final(canvas).width == new_w
                        && final(canvas).height == new_h,
                }
            },
    {
        match self.redo_stack.pop() {
            Some(action) => {
                proof {
                    assert(old(self)@.redo.last() == action@);
                    assert(actions_view(self.redo_stack@) =~= old(self)@.redo.drop_last());
                }
                match &action {
                    Action::CellChange(mutations) => {
                        Self::apply_mutations_forward(canvas, mutations);
                    },
                    Action::CanvasSnapshot { new_cells, new_w, new_h, .. } => {
                        let copy = crate::canvas::copy_rows(new_cells);
                        canvas.replace(copy, *new_w, *new_h);
                    },
                }
                self.undo_stack.push(action);
                proof {
                    assert(actions_view(self.undo_stack@) =~= old(self)@.undo.push(
                        old(self)@.redo.last(),
                    ));
                }
                true
            },
            None => {
                proof {
                    assert(final(self)@ == old(self)@);
                }
                false
            },
        }
    }

    /// Apply the `old` values of `mutations` to the grid in reverse order,
    /// as inverting an action requires.
    pub fn apply_mutations_reverse(canvas: &mut Canvas, mutations: &Vec<CellMutation>)
        requires
            old(canvas).wf(),
        ensures
            final(canvas).wf(),
            final(canvas).width == old(canvas).width,
            final(canvas).height == old(canvas).height,
            final(canvas)@ == apply_olds_rev(old(canvas)@, mutations@),
    {
        let mut i: usize = mutations.len();
        proof {
            assert(mutations@.take(mutations@.len() as int) =~= mutations@);
        }
        while i > 0
            invariant
                i <= mutations@.len(),
                canvas.wf(),
                canvas.width == old(canvas).width,
                canvas.height == old(canvas).height,
                apply_olds_rev(canvas@, mutations@.take(i as int)) == apply_olds_rev(
                    old(canvas)@,
                    mutations@,
                ),
            decreases i,
        {
            i = i - 1;
            let m = mutations[i];
            let ghost before = canvas@;
            canvas.set(m.x, m.y, m.old);
            proof {
                assert(mutations@.take(i + 1).drop_last() =~= mutations@.take(i as int));
                assert(mutations@.take(i + 1).last() == m);
                assert(apply_olds_rev(before, mutations@.take(i + 1)) == apply_olds_rev(
                    canvas@,
                    mutations@.take(i as int),
                ));
            }
        }
        proof {
            assert(mutations@.take(0) =~= Seq::<CellMutation>::empty());
        }
    }

    /// Apply the `new` values of `mutations` to the grid in forward order,
    /// as applying or redoing an action requires.
    pub fn apply_mutations_forward(canvas: &mut Canvas, mutations: &Vec<CellMutation>)
        requires
            old(canvas).wf(),
        ensures
            final(canvas).wf(),
            final(canvas).width == old(canvas).width,
            final(canvas).height == old(canvas).height,
            final(canvas)@ == apply_news(old(canvas)@, mutations@),
    {
        let mut i: usize = 0;
        proof {
            assert(mutations@.skip(0) =~= mutations@);
        }
        while i < mutations.len()
            invariant
                i <= mutations@.len(),
                canvas.wf(),
                canvas.width == old(canvas).width,
                canvas.height == old(canvas).height,
                apply_news(canvas@, mutations@.skip(i as int)) == apply_news(
                    old(canvas)@,
                    mutations@,
                ),
            decreases mutations@.len() - i,
        {
            let m = mutations[i];
            let ghost before = canvas@;
            canvas.set(m.x, m.y, m.new);
            proof {
                assert(mutations@.skip(i as int)[0] == m);
                assert(mutations@.skip(i as int).drop_first() =~= mutations@.skip(i + 1));
                assert(apply_news(before, mutations@.skip(i as int)) == apply_news(
                    canvas@,
                    mutations@.skip(i + 1),
                ));
            }
            i = i + 1;
        }
        proof {
            assert(mutations@.skip(mutations@.len() as int) =~= Seq::<CellMutation>::empty());
        }
    }

    pub fn can_undo(&self) -> (r: bool)
        ensures
            r == (self@.undo.len() > 0),
    {
        !self.undo_stack.is_empty()
    }

    pub fn can_redo(&self) -> (r: bool)
        ensures
            r == (self@.redo.len() > 0),
    {
        !self.redo_stack.is_empty()
    }

    pub fn is_stroke_active(&self) -> (r: bool)
        ensures
            r == (self@.pending is Some),
    {
        self.pending.is_some()
    }
}

/// A mutation list is consistent with a grid when every mutation lies in
/// bounds, records the grid's current cell as its `old` value, and no two
/// mutations target the same coordinate. Every tool produces such lists.
pub open spec fn muts_consistent(g: Seq<Seq<Cell>>, ms: Seq<CellMutation>) -> bool {
    &&& forall|i: int| 0 <= i < ms.len() ==> grid_in_bounds(
        g,
        (#[trigger] ms[i]).x as int,
        ms[i].y as int,
    )
    &&& forall|i: int| 0 <= i < ms.len() ==> (#[trigger] ms[i]).old == grid_get(
        g,
        ms[i].x as int,
        ms[i].y as int,
    )
    &&& forall|i: int, j: int|
        0 <= i < j < ms.len() ==> !((#[trigger] ms[i]).x == (#[trigger] ms[j]).x && ms[i].y
            == ms[j].y)
}

/// An action is consistent with the grid it was recorded against: a cell
/// change carries the grid's own prior values, a snapshot carries the grid
/// itself as its old state.
pub open spec fn action_consistent(g: Seq<Seq<Cell>>, a: ActionV) -> bool {
    match a {
        ActionV::Cells(ms) => muts_consistent(g, ms),
        ActionV::Snapshot { old_cells, .. } => old_cells == g,
    }
}

/// A bounds-checked write of a cell's own current value changes nothing.
proof fn lemma_grid_set_same(g: Seq<Seq<Cell>>, x: int, y: int)
    requires
        grid_in_bounds(g, x, y),
    ensures
        grid_set(g, x, y, grid_get(g, x, y)) == g,
{
    assert(grid_set(g, x, y, grid_get(g, x, y)) =~~= g);
}

/// Applying old values in reverse order can also be unfolded from the front:
/// the first mutation's old value is the last one written.
proof fn lemma_olds_rev_unfold_first(g: Seq<Seq<Cell>>, ms: Seq<CellMutation>)
    requires
        ms.len() > 0,
    ensures
        apply_olds_rev(g, ms) == grid_set(
            apply_olds_rev(g, ms.drop_first()),
            ms[0].x as int,
            ms[0].y as int,
            ms[0].old,
        ),
    decreases ms.len(),
{
    if ms.len() == 1 {
        assert(ms.drop_first() =~= Seq::<CellMutation>::empty());
        assert(ms.drop_last() =~= Seq::<CellMutation>::empty());
        assert(ms.last() == ms[0]);
        let g1 = grid_set(g, ms[0].x as int, ms[0].y as int, ms[0].old);
        assert(apply_olds_rev(g1, ms.drop_last()) == g1);
        assert(apply_olds_rev(g, ms) == apply_olds_rev(g1, ms.drop_last()));
        assert(apply_olds_rev(g, ms.drop_first()) == g);
    } else {
        let m = ms.last();
        let g1 = grid_set(g, m.x as int, m.y as int, m.old);
        lemma_olds_rev_unfold_first(g1, ms.drop_last());
        assert(ms.drop_last()[0] == ms[0]);
        assert(ms.drop_last().drop_first() =~= ms.drop_first().drop_last());
        assert(ms.drop_first().last() == m);
        assert(apply_olds_rev(g, ms) == apply_olds_rev(g1, ms.drop_last()));
        assert(apply_olds_rev(g1, ms.drop_last()) == grid_set(
            apply_olds_rev(g1, ms.drop_last().drop_first()),
            ms[0].x as int,
            ms[0].y as int,
            ms[0].old,
        ));
        assert(apply_olds_rev(g, ms.drop_first()) == apply_olds_rev(
            grid_set(g, m.x as int, m.y as int, m.old),
            ms.drop_first().drop_last(),
        ));
    }
}

/// Consistency survives applying a mutation at a coordinate that the
/// remaining mutations do not touch.
proof fn lemma_consistent_after_set(g: Seq<Seq<Cell>>, ms: Seq<CellMutation>)
    requires
        muts_consistent(g, ms),
        ms.len() > 0,
    ensures
        muts_consistent(
            grid_set(g, ms[0].x as int, ms[0].y as int, ms[0].new),
            ms.drop_first(),
        ),
{
    let g1 = grid_set(g, ms[0].x as int, ms[0].y as int, ms[0].new);
    let rest = ms.drop_first();
    assert forall|i: int| 0 <= i < rest.len() implies grid_in_bounds(
        g1,
        (#[trigger] rest[i]).x as int,
        rest[i].y as int,
    ) && rest[i].old == grid_get(g1, rest[i].x as int, rest[i].y as int) by {
        assert(rest[i] == ms[i + 1]);
        assert(!(ms[0].x == ms[i + 1].x && ms[0].y == ms[i + 1].y));
    }
}

/// Writing a coordinate twice keeps only the later write.
proof fn lemma_grid_set_overwrite(g: Seq<Seq<Cell>>, x: int, y: int, c1: Cell, c2: Cell)
    ensures
        grid_set(grid_set(g, x, y, c1), x, y, c2) == grid_set(g, x, y, c2),
{
    if grid_in_bounds(g, x, y) {
        assert(grid_set(grid_set(g, x, y, c1), x, y, c2) =~~= grid_set(g, x, y, c2));
    }
}

/// **Inversion law** for one mutation list: a list consistent with a grid,
/// applied forward and then undone in reverse, restores the grid exactly.
pub proof fn lemma_cell_change_inversion(g: Seq<Seq<Cell>>, ms: Seq<CellMutation>)
    requires
        muts_consistent(g, ms),
    ensures
        apply_olds_rev(apply_news(g, ms), ms) == g,
    decreases ms.len(),
{
    if ms.len() > 0 {
        let m = ms[0];
        let g1 = grid_set(g, m.x as int, m.y as int, m.new);
        let rest = ms.drop_first();
        lemma_consistent_after_set(g, ms);
        lemma_cell_change_inversion(g1, rest);
        lemma_olds_rev_unfold_first(apply_news(g, ms), ms);
        assert(apply_news(g, ms) == apply_news(g1, rest));
        assert(apply_olds_rev(apply_news(g1, rest), rest) == g1);
        assert(apply_olds_rev(apply_news(g, ms), ms) == grid_set(
            g1,
            m.x as int,
            m.y as int,
            m.old,
        ));
        lemma_grid_set_overwrite(g, m.x as int, m.y as int, m.new, m.old);
        lemma_grid_set_same(g, m.x as int, m.y as int);
    }
}

/// **Inversion law** for one action: undoing an action over the grid it
/// produced restores the grid it was recorded against.
pub proof fn lemma_action_inversion(g: Seq<Seq<Cell>>, a: ActionV)
    requires
        action_consistent(g, a),
    ensures
        undo_grid(a, redo_grid(a, g)) == g,
{
    match a {
        ActionV::Cells(ms) => {
            lemma_cell_change_inversion(g, ms);
        },
        ActionV::Snapshot { .. } => {},
    }
}

/// **Redo idempotence**: `undo` then `redo` reproduces the exact grid state
/// before the undo, for cell changes and snapshots alike.
pub proof fn lemma_redo_after_undo(g: Seq<Seq<Cell>>, a: ActionV)
    requires
        action_consistent(g, a),
    ensures
        redo_grid(a, undo_grid(a, redo_grid(a, g))) == redo_grid(a, g),
{
    lemma_action_inversion(g, a);
}

/// The grid after applying a sequence of actions in order.
pub open spec fn apply_actions(g: Seq<Seq<Cell>>, s: Seq<ActionV>) -> Seq<Seq<Cell>>
    decreases s.len(),
{
    if s.len() == 0 {
        g
    } else {
        apply_actions(redo_grid(s[0], g), s.drop_first())
    }
}

/// The grid after undoing a sequence of actions, newest first.
pub open spec fn undo_all(g: Seq<Seq<Cell>>, s: Seq<ActionV>) -> Seq<Seq<Cell>>
    decreases s.len(),
{
    if s.len() == 0 {
        g
    } else {
        undo_all(undo_grid(s.last(), g), s.drop_last())
    }
}

/// Each action in the sequence is consistent with the grid state at the
/// moment it is applied, as recording against the live grid guarantees.
pub open spec fn actions_consistent(g: Seq<Seq<Cell>>, s: Seq<ActionV>) -> bool
    decreases s.len(),
{
    s.len() == 0 || (action_consistent(g, s[0]) && actions_consistent(
        redo_grid(s[0], g),
        s.drop_first(),
    ))
}

proof fn lemma_undo_all_unfold_first(g: Seq<Seq<Cell>>, s: Seq<ActionV>)
    requires
        s.len() > 0,
    ensures
        undo_all(g, s) == undo_grid(s[0], undo_all(g, s.drop_first())),
    decreases s.len(),
{
    if s.len() == 1 {
        assert(s.drop_first() =~= Seq::<ActionV>::empty());
        assert(s.drop_last() =~= Seq::<ActionV>::empty());
        assert(s.last() == s[0]);
        let g1 = undo_grid(s[0], g);
        assert(undo_all(g1, s.drop_last()) == g1);
        assert(undo_all(g, s) == undo_all(g1, s.drop_last()));
        assert(undo_all(g, s.drop_first()) == g);
    } else {
        let g1 = undo_grid(s.last(), g);
        lemma_undo_all_unfold_first(g1, s.drop_last());
        assert(s.drop_last()[0] == s[0]);
        assert(s.drop_last().drop_first() =~= s.drop_first().drop_last());
        assert(s.drop_first().last() == s.last());
        assert(undo_all(g, s) == undo_all(g1, s.drop_last()));
        assert(undo_all(g1, s.drop_last()) == undo_grid(
            s[0],
            undo_all(g1, s.drop_last().drop_first()),
        ));
        assert(undo_all(g, s.drop_first()) == undo_all(g1, s.drop_first().drop_last()));
    }
}

/// **Inversion law**: for any consistently recorded sequence of actions
/// applied to a grid, undoing after every commit, newest first, until the
/// stack is empty restores the original grid cell for cell.
pub proof fn lemma_history_inversion(g: Seq<Seq<Cell>>, s: Seq<ActionV>)
    requires
        actions_consistent(g, s),
    ensures
        undo_all(apply_actions(g, s), s) == g,
    decreases s.len(),
{
    if s.len() > 0 {
        let g1 = redo_grid(s[0], g);
        let rest = s.drop_first();
        lemma_history_inversion(g1, rest);
        lemma_undo_all_unfold_first(apply_actions(g, s), s);
        assert(apply_actions(g, s) == apply_actions(g1, rest));
        lemma_action_inversion(g, s[0]);
    }
}

/// The history after pushing each mutation of a stroke in order.
pub open spec fn push_all_m(h: HistoryV, ms: Seq<CellMutation>) -> HistoryV
    decreases ms.len(),
{
    if ms.len() == 0 {
        h
    } else {
        push_all_m(push_mutation_m(h, ms[0]), ms.drop_first())
    }
}

proof fn lemma_push_all_pending(h: HistoryV, acc: Seq<CellMutation>, ms: Seq<CellMutation>)
    requires
        h.pending == Some(acc),
    ensures
        push_all_m(h, ms) == (HistoryV { undo: h.undo, redo: h.redo, pending: Some(acc + ms) }),
    decreases ms.len(),
{
    if ms.len() == 0 {
        assert(acc + ms =~= acc);
    } else {
        let h1 = push_mutation_m(h, ms[0]);
        assert(h1.pending == Some(acc.push(ms[0])));
        lemma_push_all_pending(h1, acc.push(ms[0]), ms.drop_first());
        assert(acc.push(ms[0]) + ms.drop_first() =~= acc + ms);
    }
}

/// **Stroke atomicity**: mutations pushed between `begin_stroke` and
/// `end_stroke` are committed as one single action holding them all in
/// order, with the redo stack cleared and no stroke left pending; below the
/// cap the undo stack simply grows by that one action.
pub proof fn lemma_stroke_atomicity(h: HistoryV, ms: Seq<CellMutation>)
    requires
        h.pending is None,
        ms.len() > 0,
    ensures
        ({
            let h1 = end_stroke_m(push_all_m(begin_stroke_m(h), ms));
            &&& h1.redo.len() == 0
            &&& h1.pending is None
            &&& h1.undo.len() > 0
            &&& h1.undo.last() == ActionV::Cells(ms)
            &&& h.undo.len() < MAX_HISTORY ==> h1.undo == h.undo.push(ActionV::Cells(ms))
        }),
{
    let hb = begin_stroke_m(h);
    assert(hb == (HistoryV {
        undo: h.undo,
        redo: h.redo,
        pending: Some(Seq::<CellMutation>::empty()),
    }));
    lemma_push_all_pending(hb, Seq::<CellMutation>::empty(), ms);
    assert(Seq::<CellMutation>::empty() + ms =~= ms);
}

/// **Redo-clear law** (in-memory): committing any action that is actually
/// recorded leaves nothing to redo.
pub proof fn lemma_commit_clears_redo(h: HistoryV, a: ActionV)
    requires
        !(a matches ActionV::Cells(ms) && ms.len() == 0),
    ensures
        commit_m(h, a).redo.len() == 0,
{
}

impl Default for History {
    fn default() -> (h: History)
        ensures
            h.wf(),
            h@ == (HistoryV { undo: Seq::<ActionV>::empty(), redo: Seq::<ActionV>::empty(), pending: Option::<Seq<CellMutation>>::None }),
    {
        History::new()
    }
}

} // verus!
