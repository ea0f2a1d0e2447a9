//! The undo log: reversible edit records and the cursor that separates the
//! applied past from the redoable future.
use vstd::prelude::*;

verus! {

/// One reversible change of the buffer. Each record carries `applied`: whether
/// its effect is in the buffer now. Undo and redo check and toggle it, so a
/// record is never applied twice.
#[derive(Debug, PartialEq, Eq)]
pub enum EditOp {
    /// `ch` was inserted at `(line, col)`.
    InsertChar { line: usize, col: usize, ch: char, applied: bool },
    /// The character `ch` at `(line, col)` was removed.
    DeleteChar { line: usize, col: usize, ch: char, applied: bool },
    /// `first_line` was broken at `split_index`; its tail became `second_line`.
    SplitLine { first_line: usize, split_index: usize, second_line: usize, applied: bool },
    /// The line after `merged_line` was appended to it, at column `merge_point`.
    MergeLines { merged_line: usize, merge_point: usize, applied: bool },
    /// The range from `start` to `stop` was removed; `selection` is the removed
    /// text, lines joined by line breaks.
    DeleteSelection {
        start: (usize, usize),
        stop: (usize, usize),
        selection: Vec<char>,
        applied: bool,
    },
    /// `selection` was inserted at `start`, and ended at `stop`.
    InsertSelection {
        applied: bool,
        start: (usize, usize),
        stop: (usize, usize),
        selection: Vec<char>,
    },
}

impl EditOp {
    pub open spec fn is_applied(&self) -> bool {
        match self {
            EditOp::InsertChar { applied, .. } => *applied,
            EditOp::DeleteChar { applied, .. } => *applied,
            EditOp::SplitLine { applied, .. } => *applied,
            EditOp::MergeLines { applied, .. } => *applied,
            EditOp::DeleteSelection { applied, .. } => *applied,
            EditOp::InsertSelection { applied, .. } => *applied,
        }
    }

    /// The same record with its flag set to `a`.
    pub open spec fn with_applied(self, a: bool) -> EditOp {
        match self {
            EditOp::InsertChar { line, col, ch, .. } => EditOp::InsertChar {
                line,
                col,
                ch,
                applied: a,
            },
            EditOp::DeleteChar { line, col, ch, .. } => EditOp::DeleteChar {
                line,
                col,
                ch,
                applied: a,
            },
            EditOp::SplitLine { first_line, split_index, second_line, .. } => EditOp::SplitLine {
                first_line,
                split_index,
                second_line,
                applied: a,
            },
            EditOp::MergeLines { merged_line, merge_point, .. } => EditOp::MergeLines {
                merged_line,
                merge_point,
                applied: a,
            },
            EditOp::DeleteSelection { start, stop, selection, .. } => EditOp::DeleteSelection {
                start,
                stop,
                selection,
                applied: a,
            },
            EditOp::InsertSelection { start, stop, selection, .. } => EditOp::InsertSelection {
                applied: a,
                start,
                stop,
                selection,
            },
        }
    }

    /// Reads the flag.
    pub fn applied(&self) -> (r: bool)
        ensures
            r == self.is_applied(),
    {
        match self {
            EditOp::InsertChar { applied, .. } => *applied,
            EditOp::DeleteChar { applied, .. } => *applied,
            EditOp::SplitLine { applied, .. } => *applied,
            EditOp::MergeLines { applied, .. } => *applied,
            EditOp::DeleteSelection { applied, .. } => *applied,
            EditOp::InsertSelection { applied, .. } => *applied,
        }
    }

    /// Sets the flag.
    pub fn set_applied(&mut self, a: bool)
        ensures
            *final(self) == old(self).with_applied(a),
    {
        match self {
            EditOp::InsertChar { applied, .. } => *applied = a,
            EditOp::DeleteChar { applied, .. } => *applied = a,
            EditOp::SplitLine { applied, .. } => *applied = a,
            EditOp::MergeLines { applied, .. } => *applied = a,
            EditOp::DeleteSelection { applied, .. } => *applied = a,
            EditOp::InsertSelection { applied, .. } => *applied = a,
        }
    }
}

/// The log of edits, oldest first. Records below `cursor` are applied and can
/// be undone; those from `cursor` on were undone and can be redone.
#[derive(Debug)]
pub struct UndoStack {
    pub stack: Vec<EditOp>,
    pub cursor: usize,
}

impl UndoStack {
    pub open spec fn wf(&self) -> bool {
        self.cursor <= self.stack@.len()
    }

    /// A restored log, or an empty one.
    pub fn new(past_stack: Option<UndoStack>) -> (r: UndoStack)
        ensures
            past_stack is None ==> r.stack@.len() == 0 && r.cursor == 0,
            past_stack is Some ==> r == past_stack->Some_0,
    {
        match past_stack {
            Some(state) => state,
            None => UndoStack { stack: Vec::new(), cursor: 0 },
        }
    }

    /// Records a new edit: the redoable future is dropped, the edit is
    /// appended, and the cursor moves past it.
    pub fn push(&mut self, op: EditOp)
        ensures
            final(self).stack@ == old(self).stack@.take(
                if old(self).cursor < old(self).stack@.len() {
                    old(self).cursor as int
                } else {
                    old(self).stack@.len() as int
                },
            ).push(op),
            final(self).cursor == final(self).stack@.len(),
    {
        if self.cursor < self.stack.len() {
            self.stack.truncate(self.cursor);
        }
        let ghost before = self.stack@;
        self.stack.push(op);
        assert(before =~= old(self).stack@.take(before.len() as int));
        self.cursor = self.stack.len();
    }

    /// Forgets the whole history.
    pub fn clear(&mut self)
        ensures
            final(self).stack@.len() == 0,
            final(self).cursor == 0,
    {
        self.stack.clear();
        self.cursor = 0;
    }
}

} // verus!
