//! An open document: its lines, and the editor state around them (cursor,
//! viewport, selection, search highlights and the undo log).
use vstd::prelude::*;
use crate::buffer;
use crate::error::EditError;
use crate::buffer::{lemma_edits_keep_plain, lines_of, no_breaks, NEWLINE};
use crate::history::{EditOp, UndoStack};
use crate::replay::{
    apply_backward, apply_forward, backward, backward_cursor, forward, forward_cursor,
    chained, lemma_chain_walk, lemma_flag_irrelevant, lemma_reversible, redone, reversible, undone,
};
use crate::text::{chars_of, string_of};

verus! {

/// A direction of plain cursor movement.
#[derive(Debug, Clone, Copy, PartialEq, Eq, Structural)]
pub enum CursorDirection {
    Left,
    Right,
    Up,
    Down,
}

/// The editor state of one document. `curs_y` is the cursor row inside the
/// viewport, whose first line is `scroll_offset`; the cursor's line in the
/// buffer is `scroll_offset + curs_y`. Selection ends are absolute
/// `(line, col)` positions, in either order.
pub struct EditorState {
    pub curs_x: usize,
    pub curs_y: usize,
    pub is_dirty: bool,
    pub window_height: usize,
    pub scroll_offset: usize,
    pub find_active: bool,
    pub current_match: usize,
    pub highlights: Vec<(usize, usize, usize)>,
    pub undo_stack: UndoStack,
    pub selection: Option<((usize, usize), (usize, usize))>,
}

/// The rows of the viewport that the cursor may take below row 0: two rows of
/// the window are its border.
pub open spec fn visible_rows(window_height: usize) -> int {
    if window_height >= 2 {
        window_height - 2
    } else {
        0
    }
}

/// The first visible line after the viewport is moved to show `line`.
pub open spec fn scrolled(scroll: int, line: int, rows: int) -> int {
    if line < scroll {
        line
    } else if line > scroll + rows {
        if rows > 0 {
            line - rows + 1
        } else {
            line
        }
    } else {
        scroll
    }
}

impl EditorState {
    /// The state of a fresh document, or a restored one.
    pub fn new(past_state: Option<EditorState>) -> (r: EditorState)
        ensures
            past_state is Some ==> r == past_state->Some_0,
            past_state is None ==> r.curs_x == 0 && r.curs_y == 0 && !r.is_dirty && r.scroll_offset
                == 0 && r.window_height == 0 && !r.find_active && r.current_match == 0
                && r.highlights@.len() == 0 && r.undo_stack.stack@.len() == 0
                && r.undo_stack.cursor == 0 && r.selection is None,
    {
        match past_state {
            Some(state) => state,
            None => EditorState {
                curs_x: 0,
                curs_y: 0,
                is_dirty: false,
                scroll_offset: 0,
                window_height: 0,
                find_active: false,
                current_match: 0,
                highlights: Vec::new(),
                undo_stack: UndoStack::new(None),
                selection: None,
            },
        }
    }

    /// Moves the active end of a selection in progress to `(y, x)`; the anchor
    /// stays. Without a selection nothing changes.
    pub fn update_selection_end(&mut self, y: usize, x: usize)
        ensures
            *final(self) == (EditorState { selection: final(self).selection, ..*old(self) }),
            old(self).selection is Some ==> final(self).selection == Some(
                (old(self).selection->Some_0.0, (y, x)),
            ),
            old(self).selection is None ==> final(self).selection is None,
            final(self).curs_x == old(self).curs_x,
            final(self).curs_y == old(self).curs_y,
            final(self).scroll_offset == old(self).scroll_offset,
    {
        if let Some((start, _)) = self.selection {
            self.selection = Some((start, (y, x)));
        }
    }

    /// Starts a selection at `(y, x)`, both ends there, unless one is already
    /// in progress.
    pub fn start_selection(&mut self, y: usize, x: usize)
        ensures
            *final(self) == (EditorState { selection: final(self).selection, ..*old(self) }),
            old(self).selection is None ==> final(self).selection == Some(((y, x), (y, x))),
            old(self).selection is Some ==> final(self).selection == old(self).selection,
            final(self).curs_x == old(self).curs_x,
            final(self).curs_y == old(self).curs_y,
            final(self).scroll_offset == old(self).scroll_offset,
    {
        if self.selection.is_none() {
            self.selection = Some(((y, x), (y, x)));
        }
    }

    /// Moves the viewport so that `op_line` shows, and puts the cursor on it
    /// at column `op_col`, one further with `add_offset`.
    pub fn adjust_cursor(&mut self, op_line: usize, op_col: usize, add_offset: bool)
        requires
            add_offset ==> op_col < usize::MAX,
        ensures
            final(self).scroll_offset == scrolled(
                old(self).scroll_offset as int,
                op_line as int,
                visible_rows(old(self).window_height),
            ),
            final(self).curs_y == op_line - final(self).scroll_offset,
            final(self).curs_x == if add_offset {
                op_col + 1
            } else {
                op_col as int
            },
            final(self).curs_y <= visible_rows(old(self).window_height),
            final(self).window_height == old(self).window_height,
            final(self).is_dirty == old(self).is_dirty,
            final(self).find_active == old(self).find_active,
            final(self).current_match == old(self).current_match,
            final(self).highlights == old(self).highlights,
            final(self).undo_stack == old(self).undo_stack,
            final(self).selection == old(self).selection,
    {
        let rows = if self.window_height >= 2 {
            self.window_height - 2
        } else {
            0
        };
        if op_line < self.scroll_offset {
            self.scroll_offset = op_line;
        } else if op_line - self.scroll_offset > rows {
            if rows > 0 {
                self.scroll_offset = op_line - rows + 1;
            } else {
                self.scroll_offset = op_line;
            }
        }
        self.curs_y = op_line - self.scroll_offset;
        self.curs_x = if add_offset {
            op_col + 1
        } else {
            op_col
        };
    }
}

/// An open document. `content` holds its lines; `history` is the sequence of
/// buffers that the undo log passes through, oldest first, kept for the
/// proofs only.
pub struct Document {
    pub file_path: String,
    pub permissions: String,
    pub size: u64,
    pub content: Vec<Vec<char>>,
    pub state: EditorState,
    pub history: Ghost<Seq<Seq<Seq<char>>>>,
}

/// The length of a buffer's text, lines joined by line breaks.
pub open spec fn text_len(b: Seq<Seq<char>>) -> int {
    buffer::join_lines(b).len() as int
}

impl Document {
    /// The lines of the document.
    pub open spec fn lines(&self) -> Seq<Seq<char>> {
        lines_of(self.content@)
    }

    /// The document is well formed: no line holds a line break.
    pub open spec fn wf(&self) -> bool {
        no_breaks(self.lines())
    }

    /// The cursor's absolute position, `(line, col)`.
    pub open spec fn cursor_at(&self) -> (int, int) {
        (self.state.scroll_offset + self.state.curs_y, self.state.curs_x as int)
    }

    /// The log agrees with the buffer `b` as the current one: each record
    /// leads from one buffer of `history` to the next and back, and exactly
    /// the records below the cursor are applied.
    pub open spec fn log_consistent_at(&self, b: Seq<Seq<char>>) -> bool {
        let ops = self.state.undo_stack.stack@;
        let c = self.state.undo_stack.cursor as int;
        let h = self.history@;
        &&& c <= ops.len()
        &&& h.len() == ops.len() + 1
        &&& h[c] == b
        &&& forall|i: int| #![trigger h[i]] 0 <= i < h.len() ==> no_breaks(h[i])
        &&& forall|i: int|
            #![trigger ops[i]]
            0 <= i < ops.len() ==> forward(h[i], ops[i]) == Some(h[i + 1]) && backward(
                h[i + 1],
                ops[i],
            ) == Some(h[i]) && ops[i].is_applied() == (i < c)
    }

    /// The log agrees with the document's own buffer.
    pub open spec fn log_consistent(&self) -> bool {
        self.log_consistent_at(self.lines())
    }

    /// `self` is `pre` after the edit `op` was made and recorded: the buffer
    /// changed as `op` says, the redoable records were dropped and `op`
    /// appended, and the cursor landed where `op` puts it.
    pub open spec fn edited(&self, pre: Document, op: EditOp) -> bool {
        let old_ops = pre.state.undo_stack.stack@;
        let kept = if pre.state.undo_stack.cursor < old_ops.len() {
            pre.state.undo_stack.cursor as int
        } else {
            old_ops.len() as int
        };
        &&& forward(pre.lines(), op) == Some(self.lines())
        &&& self.state.undo_stack.stack@ == old_ops.take(kept).push(op)
        &&& self.state.undo_stack.cursor == self.state.undo_stack.stack@.len()
        &&& self.cursor_at() == forward_cursor(op)
        &&& self.state.curs_y <= visible_rows(self.state.window_height)
        &&& self.state.window_height == pre.state.window_height
        &&& self.state.is_dirty
        &&& !self.state.find_active
        &&& self.state.highlights@.len() == 0
        &&& pre.wf() ==> self.wf()
        &&& pre.log_consistent() && reversible(pre.lines(), op) ==> self.log_consistent()
    }

    /// A document with the lines of `text`, as a file holds them: a line
    /// ends at each line break, a carriage return before it is dropped, and
    /// a break at the very end starts no further line.
    pub fn new(file_path: String, permissions: String, size: u64, text: &str) -> (r: Document)
        ensures
            r.lines() == file_lines(text@),
            r.file_path == file_path,
            r.permissions == permissions,
            r.size == size,
            !r.state.is_dirty,
            r.state.undo_stack.stack@.len() == 0,
            r.state.undo_stack.cursor == 0,
            r.cursor_at() == (0int, 0int),
            r.wf(),
            r.log_consistent(),
    {
        let chars = chars_of(text);
        let mut pieces = buffer::split(&chars);
        proof {
            buffer::lemma_split_nonempty(text@);
        }
        let ghost all = lines_of(pieces@);
        assert(pieces@[pieces@.len() - 1]@ == all.last());
        if pieces.len() > 0 && pieces[pieces.len() - 1].len() == 0 {
            pieces.pop();
            assert(lines_of(pieces@) =~= all.drop_last());
        }
        let ghost p0 = lines_of(pieces@);
        let mut lines: Vec<Vec<char>> = Vec::new();
        let mut i: usize = 0;
        while i < pieces.len()
            invariant
                i <= pieces.len(),
                pieces@.len() == p0.len(),
                forall|j: int| i <= j < p0.len() ==> #[trigger] pieces@[j]@ == p0[j],
                lines_of(lines@) == p0.take(i as int).map_values(|l: Seq<char>| without_cr(l)),
            decreases pieces.len() - i,
        {
            let mut l: Vec<char> = Vec::new();
            pieces.set_and_swap(i, &mut l);
            assert(l@ == p0[i as int]);
            let n = l.len();
            if n > 0 && l[n - 1] == '\r' {
                l.pop();
            }
            assert(l@ =~= without_cr(p0[i as int]));
            let ghost prev = lines_of(lines@);
            lines.push(l);
            assert(lines_of(lines@) =~= prev.push(without_cr(p0[i as int])));
            assert(p0.take(i + 1).map_values(|l: Seq<char>| without_cr(l)) =~= p0.take(
                i as int,
            ).map_values(|l: Seq<char>| without_cr(l)).push(without_cr(p0[i as int])));
            i = i + 1;
            assert(lines_of(lines@) =~= p0.take(i as int).map_values(|l: Seq<char>| without_cr(l)));
        }
        assert(p0.take(i as int) =~= p0);
        let ghost b = lines_of(lines@);
        proof {
            buffer::lemma_split_plain(text@);
            assert forall|i: int, j: int| 0 <= i < b.len() && 0 <= j < b[i].len() implies b[i][j]
                != NEWLINE by {
                assert(b[i] == without_cr(p0[i]));
                assert(p0[i] == all[i]);
                assert(b[i][j] == all[i][j]);
            }
        }
        let history: Ghost<Seq<Seq<Seq<char>>>> = Ghost(Seq::empty().push(b));
        Document {
            file_path,
            permissions,
            size,
            content: lines,
            state: EditorState::new(None),
            history,
        }
    }
}

/// `l` without a carriage return at its end.
pub open spec fn without_cr(l: Seq<char>) -> Seq<char> {
    if l.len() > 0 && l.last() == '\r' {
        l.drop_last()
    } else {
        l
    }
}

/// The lines of a file's text.
pub open spec fn file_lines(t: Seq<char>) -> Seq<Seq<char>> {
    let p = buffer::split_text(t);
    let q = if p.last().len() == 0 {
        p.drop_last()
    } else {
        p
    };
    q.map_values(|l: Seq<char>| without_cr(l))
}

impl Document {
    /// Nothing but, perhaps, the buffer's storage changed.
    pub open spec fn unchanged(&self, pre: Document) -> bool {
        &&& self.lines() == pre.lines()
        &&& self.state == pre.state
        &&& self.history == pre.history
        &&& self.size == pre.size
    }

    /// Marks the document changed, and takes the size of its text anew.
    fn mark_changed(&mut self)
        ensures
            final(self).file_path == old(self).file_path,
            final(self).permissions == old(self).permissions,
            final(self).state.is_dirty,
            final(self).size == text_len(final(self).lines()) as u64,
            final(self).lines() == old(self).lines(),
            final(self).history == old(self).history,
            final(self).state == (EditorState { is_dirty: true, ..old(self).state }),
    {
        self.state.is_dirty = true;
        let joined = buffer::join(&self.content);
        self.size = joined.len() as u64;
    }

    /// Cuts every line at the line breaks it holds, so that each piece is a
    /// line of its own (an empty line stays one empty line), marks the
    /// document changed and takes the size of its text anew. A well formed
    /// document keeps its lines.
    pub fn update_content(&mut self)
        ensures
            final(self).file_path == old(self).file_path,
            final(self).permissions == old(self).permissions,
            final(self).state.is_dirty,
            final(self).size == text_len(final(self).lines()) as u64,
            final(self).lines() == split_all(old(self).lines()),
            final(self).wf(),
            old(self).wf() ==> final(self).lines() == old(self).lines(),
            final(self).history == old(self).history,
            final(self).state == (EditorState { is_dirty: true, ..old(self).state }),
    {
        let ghost b = self.lines();
        let mut out: Vec<Vec<char>> = Vec::new();
        let mut i: usize = 0;
        while i < self.content.len()
            invariant
                i <= self.content@.len(),
                b == self.lines(),
                lines_of(out@) == split_all(b.take(i as int)),
            decreases self.content@.len() - i,
        {
            assert(self.content@[i as int]@ == b[i as int]);
            let mut pieces = buffer::split(&self.content[i]);
            let ghost before = lines_of(out@);
            let ghost added = lines_of(pieces@);
            out.append(&mut pieces);
            assert(lines_of(out@) =~= before + added);
            assert(b.take(i + 1).drop_last() =~= b.take(i as int));
            i = i + 1;
        }
        assert(b.take(b.len() as int) =~= b);
        self.content = out;
        proof {
            lemma_split_all_plain(b);
            if no_breaks(b) {
                lemma_split_all_keeps(b);
            }
        }
        self.mark_changed();
    }

    /// Shows `v` as the search matches.
    pub fn highlight(&mut self, v: Vec<(usize, usize, usize)>)
        ensures
            final(self).file_path == old(self).file_path,
            final(self).permissions == old(self).permissions,
            final(self).state.highlights == v,
            final(self).state.find_active,
            final(self).lines() == old(self).lines(),
            final(self).history == old(self).history,
            final(self).state == (EditorState {
                highlights: v,
                find_active: true,
                ..old(self).state
            }),
    {
        self.state.highlights = v;
        self.state.find_active = true;
    }

    /// Clears the search matches.
    pub fn unhighlight(&mut self)
        ensures
            final(self).file_path == old(self).file_path,
            final(self).permissions == old(self).permissions,
            final(self).state.highlights@.len() == 0,
            !final(self).state.find_active,
            final(self).lines() == old(self).lines(),
            final(self).history == old(self).history,
            final(self).size == old(self).size,
            final(self).state == (EditorState {
                highlights: final(self).state.highlights,
                find_active: false,
                ..old(self).state
            }),
    {
        self.state.highlights.clear();
        self.state.find_active = false;
    }

    /// Moves the viewport so that `op_line` shows, and puts the cursor on it
    /// at column `op_col`, one further with `add_offset`.
    pub fn adjust_cursor(&mut self, op_line: usize, op_col: usize, add_offset: bool)
        requires
            add_offset ==> op_col < usize::MAX,
        ensures
            final(self).state.scroll_offset == scrolled(
                old(self).state.scroll_offset as int,
                op_line as int,
                visible_rows(old(self).state.window_height),
            ),
            final(self).state.curs_y == op_line - final(self).state.scroll_offset,
            final(self).state.curs_x == if add_offset {
                op_col + 1
            } else {
                op_col as int
            },
            final(self).cursor_at() == (op_line as int, final(self).state.curs_x as int),
            final(self).state.curs_y <= visible_rows(old(self).state.window_height),
            final(self).lines() == old(self).lines(),
            final(self).history == old(self).history,
            final(self).state == (EditorState {
                scroll_offset: final(self).state.scroll_offset,
                curs_y: final(self).state.curs_y,
                curs_x: final(self).state.curs_x,
                ..old(self).state
            }),
    {
        self.state.adjust_cursor(op_line, op_col, add_offset);
    }

    /// Records `op`, which took the buffer from `pre` to the current one,
    /// marks the document changed and puts the cursor at `(line, col)`.
    fn record(&mut self, op: EditOp, line: usize, col: usize, Ghost(pre): Ghost<Seq<Seq<char>>>)
        requires
            forward(pre, op) == Some(old(self).lines()),
            (line as int, col as int) == forward_cursor(op),
            op.is_applied(),
        ensures
            final(self).lines() == old(self).lines(),
            final(self).state.undo_stack.stack@ == old(self).state.undo_stack.stack@.take(
                if old(self).state.undo_stack.cursor < old(self).state.undo_stack.stack@.len() {
                    old(self).state.undo_stack.cursor as int
                } else {
                    old(self).state.undo_stack.stack@.len() as int
                },
            ).push(op),
            final(self).state.undo_stack.cursor == final(self).state.undo_stack.stack@.len(),
            final(self).cursor_at() == forward_cursor(op),
            final(self).state.curs_y <= visible_rows(final(self).state.window_height),
            final(self).state.window_height == old(self).state.window_height,
            final(self).state.is_dirty,
            !final(self).state.find_active,
            final(self).state.highlights@.len() == 0,
            final(self).state.selection == old(self).state.selection,
            final(self).file_path == old(self).file_path,
            final(self).permissions == old(self).permissions,
            old(self).log_consistent_at(pre) && reversible(pre, op) && no_breaks(old(self).lines())
                ==> final(self).log_consistent(),
    {
        proof {
            if old(self).log_consistent_at(pre) && reversible(pre, op) {
                lemma_reversible(pre, op);
            }
        }
        let ghost c = self.state.undo_stack.cursor as int;
        let ghost n = self.state.undo_stack.stack@.len() as int;
        let ghost kept = if c < n {
            c
        } else {
            n
        };
        let ghost h0 = self.history@;
        let ghost ops0 = self.state.undo_stack.stack@;
        self.history = Ghost(self.history@.take(kept + 1).push(self.lines()));
        self.state.undo_stack.push(op);
        self.state.adjust_cursor(line, col, false);
        self.mark_changed();
        self.unhighlight();
        proof {
            if old(self).log_consistent_at(pre) && reversible(pre, op) && no_breaks(
                old(self).lines(),
            ) {
                let h = self.history@;
                assert forall|i: int| 0 <= i < h.len() implies #[trigger] no_breaks(h[i]) by {
                    if i < h.len() - 1 {
                        assert(h[i] == h0[i]);
                    }
                }
                let ops = self.state.undo_stack.stack@;
                assert(kept == c);
                assert forall|i: int| 0 <= i < ops.len() implies #[trigger] forward(h[i], ops[i]) == Some(
                    h[i + 1],
                ) && backward(h[i + 1], ops[i]) == Some(h[i]) && ops[i].is_applied() == (i
                    < ops.len()) by {
                    if i < c {
                        assert(ops[i] == ops0[i]);
                        assert(h[i] == h0[i]);
                        assert(h[i + 1] == h0[i + 1]);
                        assert(forward(h0[i], ops0[i]) == Some(h0[i + 1]));
                    } else {
                        assert(ops[i] == op);
                        assert(h[i] == pre);
                    }
                }
            }
        }
    }
}

impl Document {
    /// Breaks line `line1` at `split_index` (the Enter key): the rest of the
    /// line becomes a new line after it, and the cursor goes to its start.
    pub fn split_lines(&mut self, line1: usize, split_index: usize) -> (r: Result<(), EditError>)
        ensures
            buffer::valid_pos(old(self).lines(), line1 as int, split_index as int) ==> r is Ok
                && final(self).lines() == buffer::spec_split_line(
                old(self).lines(),
                line1 as int,
                split_index as int,
            ) && final(self).edited(
                *old(self),
                EditOp::SplitLine {
                    first_line: line1,
                    split_index,
                    second_line: (line1 + 1) as usize,
                    applied: true,
                },
            ) && (old(self).log_consistent() ==> final(self).log_consistent()),
            !buffer::valid_pos(old(self).lines(), line1 as int, split_index as int) ==> r == Err::<
                (),
                EditError,
            >(EditError::OutOfRange) && final(self).unchanged(*old(self)),
    {
        let ghost pre = self.lines();
        buffer::split_line(&mut self.content, line1, split_index)?;
        assert(self.lines().len() == self.content@.len());
        let n = self.content.len();
        assert(line1 + 1 < n);
        let op = EditOp::SplitLine {
            first_line: line1,
            split_index,
            second_line: line1 + 1,
            applied: true,
        };
        proof {
            if no_breaks(pre) {
                lemma_edits_keep_plain(pre);
                assert(no_breaks(self.lines()));
            }
        }
        self.record(op, line1 + 1, 0, Ghost(pre));
        Ok(())
    }

    /// Appends line `line2` to line `line1` and removes it (Backspace at
    /// column 0, Delete at the end of a line); `line2` must be the next line.
    /// The cursor goes to the joint.
    pub fn merge_lines(&mut self, line1: usize, line2: usize) -> (r: Result<(), EditError>)
        ensures
            line2 == line1 + 1 && line2 < old(self).lines().len() ==> r is Ok && final(self).lines()
                == buffer::spec_merge_lines(old(self).lines(), line1 as int) && final(self).edited(
                *old(self),
                EditOp::MergeLines {
                    merged_line: line1,
                    merge_point: old(self).lines()[line1 as int].len() as usize,
                    applied: true,
                },
            ) && (old(self).log_consistent() ==> final(self).log_consistent()),
            !(line2 == line1 + 1 && line2 < old(self).lines().len()) ==> r == Err::<(), EditError>(
                EditError::OutOfRange,
            ) && final(self).unchanged(*old(self)),
    {
        if line1 >= self.content.len() {
            return Err(EditError::OutOfRange);
        }
        let ghost pre = self.lines();
        let merge_point = self.content[line1].len();
        buffer::merge_lines(&mut self.content, line1, line2)?;
        let op = EditOp::MergeLines { merged_line: line1, merge_point, applied: true };
        proof {
            if no_breaks(pre) {
                lemma_edits_keep_plain(pre);
                assert(no_breaks(self.lines()));
            }
        }
        self.record(op, line1, merge_point, Ghost(pre));
        Ok(())
    }

    /// Types `c` at `(line, col)`; the cursor goes after it. Past the last
    /// line the buffer is first extended with empty lines, recorded as
    /// insertions of their own so that undo takes them away too. A line
    /// break splits the line there instead, as `split_lines` does.
    pub fn insert_char(&mut self, line: usize, col: usize, c: char) -> (r: Result<(), EditError>)
        ensures
            c == NEWLINE && buffer::valid_pos(old(self).lines(), line as int, col as int) ==> r is Ok
                && final(self).lines() == buffer::spec_split_line(
                old(self).lines(),
                line as int,
                col as int,
            ) && final(self).edited(
                *old(self),
                EditOp::SplitLine {
                    first_line: line,
                    split_index: col,
                    second_line: (line + 1) as usize,
                    applied: true,
                },
            ) && (old(self).log_consistent() ==> final(self).log_consistent()),
            c == NEWLINE && !buffer::valid_pos(old(self).lines(), line as int, col as int) ==> r
                == Err::<(), EditError>(EditError::OutOfRange) && final(self).unchanged(*old(self)),
            c != NEWLINE && buffer::insertable(old(self).lines(), line as int, col as int) ==> r is Ok
                && final(self).lines() == buffer::spec_insert_char(
                old(self).lines(),
                line as int,
                col as int,
                c,
            ),
            c != NEWLINE && buffer::insertable(old(self).lines(), line as int, col as int)
                ==> final(self).state.undo_stack.stack@.last() == (EditOp::InsertChar {
                line,
                col,
                ch: c,
                applied: true,
            }) && final(self).cursor_at() == (line as int, col + 1),
            c != NEWLINE && buffer::insertable(old(self).lines(), line as int, col as int) && line
                < old(self).lines().len() ==> final(self).edited(
                *old(self),
                EditOp::InsertChar { line, col, ch: c, applied: true },
            ),
            c != NEWLINE && buffer::insertable(old(self).lines(), line as int, col as int) && line
                >= old(self).lines().len() ==> exists|mid: Document|
                mid.lines() == buffer::padded(old(self).lines(), line as int)
                    && #[trigger] final(self).edited(
                    mid,
                    EditOp::InsertChar { line, col, ch: c, applied: true },
                ),
            c != NEWLINE && buffer::insertable(old(self).lines(), line as int, col as int) && old(
                self).log_consistent() ==> final(self).log_consistent(),
            c != NEWLINE && !buffer::insertable(old(self).lines(), line as int, col as int) ==> r
                == Err::<(), EditError>(EditError::OutOfRange) && final(self).unchanged(*old(self)),
    {
        if c == NEWLINE {
            return self.split_lines(line, col);
        }
        let ghost b = self.lines();
        let n = self.content.len();
        if line >= n {
            if col != 0 {
                return Err(EditError::OutOfRange);
            }
            if n == 0 {
                proof {
                    buffer::lemma_pad_empty(b);
                }
                let _ = self.insert_text((0, 0), Vec::new());
            }
            let m = self.content.len();
            assert(self.lines().len() == m);
            if line >= m {
                let last = m - 1;
                let k = line - last;
                let mut breaks: Vec<char> = Vec::new();
                let mut i: usize = 0;
                while i < k
                    invariant
                        i <= k,
                        breaks@ == buffer::newlines(i as nat),
                    decreases k - i,
                {
                    breaks.push(NEWLINE);
                    i = i + 1;
                    assert(breaks@ =~= buffer::newlines(i as nat));
                }
                let ghost mid0 = self.lines();
                proof {
                    buffer::lemma_pad_by_breaks(mid0, k as nat);
                    if n == 0 {
                        buffer::lemma_padded_twice(b, line as int);
                    }
                }
                assert(self.content@[last as int]@ == mid0[last as int]);
                let end_col = self.content[last].len();
                let _ = self.insert_text((last, end_col), breaks);
            }
            assert(self.lines() == buffer::padded(b, line as int));
        }
        let ghost mid = *self;
        let ghost pre = self.lines();
        buffer::insert_char(&mut self.content, line, col, c)?;
        assert(buffer::spec_insert_char(pre, line as int, col as int, c) == buffer::spec_insert_char(
            b,
            line as int,
            col as int,
            c,
        ));
        assert(self.lines().len() == self.content@.len());
        assert(self.content@[line as int]@ == self.lines()[line as int]);
        let n = self.content[line].len();
        assert(col < n);
        let op = EditOp::InsertChar { line, col, ch: c, applied: true };
        proof {
            if no_breaks(pre) {
                lemma_edits_keep_plain(pre);
                assert(no_breaks(self.lines()));
            }
        }
        self.record(op, line, col + 1, Ghost(pre));
        proof {
            if no_breaks(pre) {
                assert(no_breaks(self.lines()));
            }
            assert(self.edited(mid, op));
        }
        Ok(())
    }

    /// Deletes the character before column `col` of `line` (Backspace); the
    /// cursor goes where it stood.
    pub fn delete_char(&mut self, line: usize, col: usize) -> (r: Result<(), EditError>)
        ensures
            buffer::valid_pos(old(self).lines(), line as int, col as int) && col > 0 ==> r is Ok
                && final(self).lines() == buffer::spec_delete_char(
                old(self).lines(),
                line as int,
                col as int,
            ) && final(self).edited(
                *old(self),
                EditOp::DeleteChar {
                    line,
                    col: (col - 1) as usize,
                    ch: old(self).lines()[line as int][col - 1],
                    applied: true,
                },
            ) && (old(self).log_consistent() ==> final(self).log_consistent()),
            !(buffer::valid_pos(old(self).lines(), line as int, col as int) && col > 0) ==> r
                == Err::<(), EditError>(EditError::OutOfRange) && final(self).unchanged(*old(self)),
    {
        if line >= self.content.len() || col == 0 || col > self.content[line].len() {
            assert(line < self.content.len() ==> self.content@[line as int]@ == self.lines()[line as int]);
            return Err(EditError::OutOfRange);
        }
        assert(self.content@[line as int]@ == self.lines()[line as int]);
        let ghost pre = self.lines();
        let ch = self.content[line][col - 1];
        buffer::delete_char(&mut self.content, line, col)?;
        let op = EditOp::DeleteChar { line, col: col - 1, ch, applied: true };
        proof {
            if no_breaks(pre) {
                lemma_edits_keep_plain(pre);
                assert(no_breaks(self.lines()));
            }
        }
        self.record(op, line, col - 1, Ghost(pre));
        Ok(())
    }
}

impl Document {
    /// Deletes the text between `start` and `stop`, in whichever order they
    /// come, clears the selection and returns the removed text. The cursor
    /// goes to the start of the range.
    pub fn delete_selection(&mut self, start: (usize, usize), stop: (usize, usize)) -> (r: Result<
        String,
        EditError,
    >)
        ensures
            ({
                let b = old(self).lines();
                let (s, e) = buffer::ordered(start, stop);
                let (sl, sc, el, ec) = (s.0 as int, s.1 as int, e.0 as int, e.1 as int);
                let op = final(self).state.undo_stack.stack@.last();
                &&& buffer::range_ok(b, start, stop) ==> {
                    &&& r is Ok
                    &&& r->Ok_0@ == buffer::spec_removed_text(b, sl, sc, el, ec)
                    &&& final(self).lines() == buffer::spec_delete_range(b, sl, sc, el, ec)
                    &&& op matches EditOp::DeleteSelection { start: s2, stop: e2, selection, applied } && s2
                        == s && e2 == e && selection@ == r->Ok_0@ && applied
                    &&& final(self).edited(*old(self), op)
                    &&& final(self).state.selection is None
                    &&& old(self).log_consistent() && (buffer::takes_break(
                        b,
                        sl,
                        sc,
                        el,
                        ec,
                    ) ==> el + 1 < b.len()) ==> final(self).log_consistent()
                }
                &&& !buffer::range_ok(b, start, stop) ==> r == Err::<String, EditError>(
                    EditError::OutOfRange,
                ) && final(self).unchanged(*old(self))
            }),
    {
        let ghost pre = self.lines();
        proof {
            if self.log_consistent() {
                assert(no_breaks(self.history@[self.state.undo_stack.cursor as int]));
            }
        }
        let text = buffer::delete_range(&mut self.content, start, stop)?;
        let (s, e) = if start.0 < stop.0 || (start.0 == stop.0 && start.1 <= stop.1) {
            (start, stop)
        } else {
            (stop, start)
        };
        let out = string_of(&text);
        let op = EditOp::DeleteSelection { start: s, stop: e, selection: text, applied: true };
        proof {
            if no_breaks(pre) {
                lemma_edits_keep_plain(pre);
                assert(no_breaks(self.lines()));
            }
        }
        self.record(op, s.0, s.1, Ghost(pre));
        self.state.selection = None;
        Ok(out)
    }

    /// Inserts `st`, which may hold line breaks, at `start` (a paste), and
    /// returns the position right after it, where the cursor goes. Past the
    /// last line the buffer is first extended with empty lines.
    pub fn insert_selection(&mut self, start: (usize, usize), st: String) -> (r: Result<
        (usize, usize),
        EditError,
    >)
        ensures
            ({
                let b = old(self).lines();
                let op = final(self).state.undo_stack.stack@.last();
                &&& buffer::insertable(b, start.0 as int, start.1 as int) ==> {
                    &&& r is Ok
                    &&& final(self).lines() == buffer::spec_insert_range(
                        b,
                        start.0 as int,
                        start.1 as int,
                        st@,
                    )
                    &&& (r->Ok_0.0 as int, r->Ok_0.1 as int) == buffer::spec_insert_end(
                        start.0 as int,
                        start.1 as int,
                        st@,
                    )
                    &&& op matches EditOp::InsertSelection { start: s2, stop: e2, selection, applied }
                        && s2 == start && e2 == r->Ok_0 && selection@ == st@ && applied
                    &&& final(self).edited(*old(self), op)
                    &&& old(self).log_consistent() && buffer::valid_pos(
                        b,
                        start.0 as int,
                        start.1 as int,
                    ) && start.1 < b[start.0 as int].len() ==> final(self).log_consistent()
                }
                &&& !buffer::insertable(b, start.0 as int, start.1 as int) ==> r == Err::<
                    (usize, usize),
                    EditError,
                >(EditError::OutOfRange) && final(self).unchanged(*old(self))
            }),
    {
        let text = chars_of(&st);
        self.insert_text(start, text)
    }

    /// Inserts the characters `text` at `start`, as `insert_selection` does.
    fn insert_text(&mut self, start: (usize, usize), text: Vec<char>) -> (r: Result<
        (usize, usize),
        EditError,
    >)
        ensures
            ({
                let b = old(self).lines();
                let op = final(self).state.undo_stack.stack@.last();
                &&& buffer::insertable(b, start.0 as int, start.1 as int) ==> {
                    &&& r is Ok
                    &&& final(self).lines() == buffer::spec_insert_range(
                        b,
                        start.0 as int,
                        start.1 as int,
                        text@,
                    )
                    &&& (r->Ok_0.0 as int, r->Ok_0.1 as int) == buffer::spec_insert_end(
                        start.0 as int,
                        start.1 as int,
                        text@,
                    )
                    &&& op matches EditOp::InsertSelection { start: s2, stop: e2, selection, applied }
                        && s2 == start && e2 == r->Ok_0 && selection@ == text@ && applied
                    &&& final(self).edited(*old(self), op)
                    &&& old(self).log_consistent() && buffer::valid_pos(
                        b,
                        start.0 as int,
                        start.1 as int,
                    ) && start.1 < b[start.0 as int].len() ==> final(self).log_consistent()
                }
                &&& !buffer::insertable(b, start.0 as int, start.1 as int) ==> r == Err::<
                    (usize, usize),
                    EditError,
                >(EditError::OutOfRange) && final(self).unchanged(*old(self))
            }),
    {
        let ghost pre = self.lines();
        let end = buffer::insert_range(&mut self.content, start.0, start.1, &text)?;
        let op = EditOp::InsertSelection { applied: true, start, stop: end, selection: text };
        proof {
            if no_breaks(pre) {
                lemma_edits_keep_plain(pre);
                assert(no_breaks(self.lines()));
            }
        }
        self.record(op, end.0, end.1, Ghost(pre));
        Ok(end)
    }
}

impl Document {
    /// Undoes the last applied record: its inverse is applied to the buffer,
    /// it is marked undone, the log's cursor steps back over it, and the
    /// cursor goes to the site of the edit. A record found already undone is
    /// stepped over and nothing else changes.
    #[verifier::rlimit(50)]
    pub fn undo(&mut self) -> (r: Result<(), EditError>)
        ensures
            ({
                let ops = old(self).state.undo_stack.stack@;
                let c = old(self).state.undo_stack.cursor as int;
                let b = old(self).lines();
                &&& c == 0 || c > ops.len() ==> r == Err::<(), EditError>(EditError::NothingToUndo)
                    && final(self).unchanged(*old(self))
                &&& 0 < c <= ops.len() && !ops[c - 1].is_applied() ==> r is Ok && final(self).lines()
                    == b && final(self).state.undo_stack.stack@ == ops
                    && final(self).state.undo_stack.cursor == c - 1
                &&& 0 < c <= ops.len() && ops[c - 1].is_applied() && backward(b, ops[c - 1]) is Some
                    ==> {
                    &&& r is Ok
                    &&& final(self).lines() == backward(b, ops[c - 1])->Some_0
                    &&& final(self).state.undo_stack.stack@ == ops.update(
                        c - 1,
                        ops[c - 1].with_applied(false),
                    )
                    &&& final(self).state.undo_stack.cursor == c - 1
                    &&& final(self).cursor_at() == backward_cursor(ops[c - 1])
                    &&& final(self).state.is_dirty
                    &&& !final(self).state.find_active
                }
                &&& 0 < c <= ops.len() && ops[c - 1].is_applied() && backward(b, ops[c - 1]) is None
                    ==> r == Err::<(), EditError>(EditError::OutOfRange) && final(self).unchanged(
                    *old(self),
                )
                &&& old(self).log_consistent() && c > 0 ==> r is Ok && final(self).log_consistent()
                    && final(self).lines() == old(self).history@[c - 1]
            }),
            final(self).history == old(self).history,
            final(self).state.window_height == old(self).state.window_height,
    {
        let c = self.state.undo_stack.cursor;
        if c == 0 || c > self.state.undo_stack.stack.len() {
            return Err(EditError::NothingToUndo);
        }
        let idx = c - 1;
        let ghost ops = self.state.undo_stack.stack@;
        let ghost b = self.lines();
        if !self.state.undo_stack.stack[idx].applied() {
            self.state.undo_stack.cursor = idx;
            return Ok(());
        }
        let at = apply_backward(&mut self.content, &self.state.undo_stack.stack[idx])?;
        self.state.undo_stack.stack[idx].set_applied(false);
        self.state.undo_stack.cursor = idx;
        self.state.adjust_cursor(at.0, at.1, false);
        self.mark_changed();
        self.unhighlight();
        proof {
            lemma_flag_irrelevant(b, ops[idx as int], false);
            if old(self).log_consistent() {
                let h = self.history@;
                let ops2 = self.state.undo_stack.stack@;
                assert forall|i: int| 0 <= i < ops2.len() implies #[trigger] forward(h[i], ops2[i]) == Some(
                    h[i + 1],
                ) && backward(h[i + 1], ops2[i]) == Some(h[i]) && ops2[i].is_applied() == (i
                    < idx) by {
                    assert(forward(h[i], ops[i]) == Some(h[i + 1]));
                    if i == idx {
                        lemma_flag_irrelevant(h[i], ops[i], false);
                        lemma_flag_irrelevant(h[i + 1], ops[i], false);
                    }
                }
            }
        }
        Ok(())
    }

    /// Redoes the first undone record: its edit is applied to the buffer
    /// again, it is marked applied, the log's cursor steps past it, and the
    /// cursor goes where the edit put it. A record found already applied is
    /// stepped over and nothing else changes.
    #[verifier::rlimit(50)]
    pub fn redo(&mut self) -> (r: Result<(), EditError>)
        ensures
            ({
                let ops = old(self).state.undo_stack.stack@;
                let c = old(self).state.undo_stack.cursor as int;
                let b = old(self).lines();
                &&& c >= ops.len() ==> r == Err::<(), EditError>(EditError::NothingToRedo) && final(self).unchanged(*old(self))
                &&& c < ops.len() && ops[c].is_applied() ==> r is Ok && final(self).lines() == b
                    && final(self).state.undo_stack.stack@ == ops
                    && final(self).state.undo_stack.cursor == c + 1
                &&& c < ops.len() && !ops[c].is_applied() && forward(b, ops[c]) is Some ==> {
                    &&& r is Ok
                    &&& final(self).lines() == forward(b, ops[c])->Some_0
                    &&& final(self).state.undo_stack.stack@ == ops.update(
                        c,
                        ops[c].with_applied(true),
                    )
                    &&& final(self).state.undo_stack.cursor == c + 1
                    &&& final(self).cursor_at() == forward_cursor(ops[c])
                    &&& final(self).state.is_dirty
                    &&& !final(self).state.find_active
                }
                &&& c < ops.len() && !ops[c].is_applied() && forward(b, ops[c]) is None ==> r
                    == Err::<(), EditError>(EditError::OutOfRange) && final(self).unchanged(
                    *old(self),
                )
                &&& old(self).log_consistent() && c < ops.len() ==> r is Ok && final(self).log_consistent() && final(self).lines() == old(self).history@[c + 1]
            }),
            final(self).history == old(self).history,
            final(self).state.window_height == old(self).state.window_height,
    {
        let c = self.state.undo_stack.cursor;
        if c >= self.state.undo_stack.stack.len() {
            return Err(EditError::NothingToRedo);
        }
        let ghost ops = self.state.undo_stack.stack@;
        let ghost b = self.lines();
        if self.state.undo_stack.stack[c].applied() {
            self.state.undo_stack.cursor = c + 1;
            return Ok(());
        }
        let at = apply_forward(&mut self.content, &self.state.undo_stack.stack[c])?;
        self.state.undo_stack.stack[c].set_applied(true);
        self.state.undo_stack.cursor = c + 1;
        self.state.adjust_cursor(at.0, at.1, false);
        self.mark_changed();
        self.unhighlight();
        proof {
            lemma_flag_irrelevant(b, ops[c as int], true);
            if old(self).log_consistent() {
                let h = self.history@;
                let ops2 = self.state.undo_stack.stack@;
                assert forall|i: int| 0 <= i < ops2.len() implies #[trigger] forward(h[i], ops2[i]) == Some(
                    h[i + 1],
                ) && backward(h[i + 1], ops2[i]) == Some(h[i]) && ops2[i].is_applied() == (i
                    < c + 1) by {
                    assert(forward(h[i], ops[i]) == Some(h[i + 1]));
                    if i == c {
                        lemma_flag_irrelevant(h[i], ops[i], true);
                        lemma_flag_irrelevant(h[i + 1], ops[i], true);
                    }
                }
            }
        }
        Ok(())
    }
}

/// Undo, then redo, give back the last edit's buffer: from a document whose
/// log agrees with its buffer and has nothing to redo, undoing every record
/// in turn reaches the first buffer of the log, and redoing every record from
/// there reaches the document's buffer again. (Each `undo` and `redo` call
/// takes exactly one of these steps, and the last `redo` puts the cursor
/// where the last edit put it: see their contracts.)
pub proof fn lemma_undo_all_then_redo_all(d: Document)
    requires
        d.log_consistent(),
        d.state.undo_stack.cursor == d.state.undo_stack.stack@.len(),
    ensures
        ({
            let ops = d.state.undo_stack.stack@;
            let n = ops.len() as int;
            &&& undone(d.lines(), ops, n) == Some(d.history@[0])
            &&& redone(d.history@[0], ops, 0, n) == Some(d.lines())
        }),
{
    let ops = d.state.undo_stack.stack@;
    let h = d.history@;
    assert(chained(h, ops)) by {
        assert forall|i: int| 0 <= i < ops.len() implies #[trigger] forward(h[i], ops[i]) == Some(
            h[i + 1],
        ) && backward(h[i + 1], ops[i]) == Some(h[i]) by {}
    }
    lemma_chain_walk(h, ops, ops.len() as int);
    lemma_chain_walk(h, ops, 0);
}

/// The length of line `i` of `b`, 0 past the end.
pub open spec fn line_len(b: Seq<Seq<char>>, i: int) -> int {
    if 0 <= i < b.len() {
        b[i].len() as int
    } else {
        0
    }
}

/// `a`, but at most `b`.
pub open spec fn at_most(a: int, b: int) -> int {
    if a <= b {
        a
    } else {
        b
    }
}

/// The length of the cursor's line, or 0 where it is past the end.
fn cursor_line_len(d: &Document, line_off: usize) -> (r: usize)
    ensures
        r == line_len(d.lines(), d.state.scroll_offset + d.state.curs_y + line_off),
{
    let n = d.content.len();
    let (s, y) = (d.state.scroll_offset, d.state.curs_y);
    if y < n && s < n - y && line_off < n - y - s {
        let i = s + y + line_off;
        assert(d.content@[i as int]@ == d.lines()[i as int]);
        d.content[i].len()
    } else {
        0
    }
}

/// The cursor fields of `ns` and `st` agree.
pub open spec fn same_cursor(ns: EditorState, st: EditorState) -> bool {
    ns.curs_x == st.curs_x && ns.curs_y == st.curs_y && ns.scroll_offset == st.scroll_offset
}

/// `ns` holds the cursor of `st` after a plain move in `direction` over the
/// lines `b`. Left and right stay within `[0, len]` of the cursor's line. Up
/// and down move one row, scrolling the viewport by one line at its top or
/// bottom edge; down stops at the last line; the column is then cut to the
/// new line's length. Over no lines the cursor stays.
pub open spec fn cursor_moved(
    b: Seq<Seq<char>>,
    st: EditorState,
    ns: EditorState,
    direction: CursorDirection,
) -> bool {
    let line = st.scroll_offset + st.curs_y;
    &&& b.len() == 0 ==> same_cursor(ns, st)
    &&& b.len() > 0 ==> match direction {
                CursorDirection::Left => ns.curs_y == st.curs_y && ns.scroll_offset
                    == st.scroll_offset && ns.curs_x == if st.curs_x > 0 {
                    st.curs_x - 1
                } else {
                    0
                },
                CursorDirection::Right => ns.curs_y == st.curs_y && ns.scroll_offset
                    == st.scroll_offset && ns.curs_x == if st.curs_x < line_len(b, line) {
                    st.curs_x + 1
                } else {
                    st.curs_x as int
                },
                CursorDirection::Up => {
                    &&& st.curs_y > 0 ==> ns.curs_y == st.curs_y - 1 && ns.scroll_offset
                        == st.scroll_offset
                    &&& st.curs_y == 0 ==> ns.curs_y == 0 && ns.scroll_offset == if st.scroll_offset
                        > 0 {
                        st.scroll_offset - 1
                    } else {
                        0
                    }
                    &&& ns.curs_x == at_most(
                        st.curs_x as int,
                        line_len(b, ns.scroll_offset + ns.curs_y),
                    )
                },
                CursorDirection::Down => {
                    &&& line + 1 < b.len() && st.curs_y < visible_rows(st.window_height) ==> ns.curs_y
                        == st.curs_y + 1 && ns.scroll_offset == st.scroll_offset
                    &&& line + 1 < b.len() && st.curs_y >= visible_rows(st.window_height)
                        ==> ns.curs_y == st.curs_y && ns.scroll_offset == st.scroll_offset + 1
                    &&& line + 1 < b.len() ==> ns.curs_x == at_most(
                        st.curs_x as int,
                        line_len(b, line + 1),
                    )
                    &&& line + 1 >= b.len() ==> same_cursor(ns, st)
                },
            }
}

/// Plain cursor movement, as `cursor_moved` says; nothing but the cursor
/// changes.
pub fn move_curs(active_doc: &mut Document, direction: CursorDirection)
    ensures
        ({
            let st = old(active_doc).state;
            let ns = final(active_doc).state;
            &&& final(active_doc).lines() == old(active_doc).lines()
            &&& final(active_doc).history == old(active_doc).history
            &&& final(active_doc).size == old(active_doc).size
            &&& final(active_doc).file_path == old(active_doc).file_path
            &&& final(active_doc).permissions == old(active_doc).permissions
            &&& ns == (EditorState {
                curs_x: ns.curs_x,
                curs_y: ns.curs_y,
                scroll_offset: ns.scroll_offset,
                ..st
            })
            &&& cursor_moved(old(active_doc).lines(), st, ns, direction)
        }),
{
    if active_doc.content.len() == 0 {
        return ;
    }
    match direction {
        CursorDirection::Left => {
            if active_doc.state.curs_x > 0 {
                active_doc.state.curs_x = active_doc.state.curs_x - 1;
            }
        },
        CursorDirection::Right => {
            let len = cursor_line_len(active_doc, 0);
            if active_doc.state.curs_x < len {
                active_doc.state.curs_x = active_doc.state.curs_x + 1;
            }
        },
        CursorDirection::Up => {
            if active_doc.state.curs_y > 0 {
                active_doc.state.curs_y = active_doc.state.curs_y - 1;
            } else if active_doc.state.scroll_offset > 0 {
                active_doc.state.scroll_offset = active_doc.state.scroll_offset - 1;
            }
            let len = cursor_line_len(active_doc, 0);
            if active_doc.state.curs_x > len {
                active_doc.state.curs_x = len;
            }
        },
        CursorDirection::Down => {
            let n = active_doc.content.len();
            let (s, y) = (active_doc.state.scroll_offset, active_doc.state.curs_y);
            if y < n && s < n - y && 1 < n - y - s {
                let len = cursor_line_len(active_doc, 1);
                let rows = if active_doc.state.window_height >= 2 {
                    active_doc.state.window_height - 2
                } else {
                    0
                };
                if y < rows {
                    active_doc.state.curs_y = y + 1;
                } else {
                    active_doc.state.scroll_offset = s + 1;
                }
                if active_doc.state.curs_x > len {
                    active_doc.state.curs_x = len;
                }
            }
        },
    }
}

impl Document {
    /// Makes the next search match current, wrapping after the last, and
    /// puts the cursor at its end. Without matches nothing changes.
    pub fn next_match(&mut self)
        ensures
            ({
                let hs = old(self).state.highlights@;
                let m = final(self).state.current_match as int;
                &&& hs.len() == 0 ==> final(self).state == old(self).state
                &&& hs.len() > 0 ==> m == (old(self).state.current_match as int + 1) % (hs.len() as int)
                    && final(self).cursor_at() == (hs[m].0 as int, hs[m].2 as int)
                &&& final(self).lines() == old(self).lines()
                &&& final(self).history == old(self).history
                &&& final(self).state.undo_stack == old(self).state.undo_stack
                &&& final(self).state.highlights == old(self).state.highlights
            }),
    {
        let n = self.state.highlights.len();
        if n == 0 {
            return ;
        }
        let c = self.state.current_match % n;
        let m = if c + 1 < n {
            c + 1
        } else {
            0
        };
        assert(m == (self.state.current_match as int + 1) % (n as int)) by (nonlinear_arith)
            requires
                c == (self.state.current_match as int) % (n as int),
                n > 0,
                m == if c + 1 < n {
                    c + 1
                } else {
                    0
                },
        ;
        self.state.current_match = m;
        let h = self.state.highlights[m];
        self.state.adjust_cursor(h.0, h.2, false);
    }

    /// Makes the previous search match current, wrapping before the first,
    /// and puts the cursor at its end. Without matches nothing changes.
    pub fn prev_match(&mut self)
        ensures
            ({
                let hs = old(self).state.highlights@;
                let m = final(self).state.current_match as int;
                let c = (old(self).state.current_match as int) % (hs.len() as int);
                &&& hs.len() == 0 ==> final(self).state == old(self).state
                &&& hs.len() > 0 ==> m == (if c == 0 {
                    hs.len() - 1
                } else {
                    c - 1
                }) && final(self).cursor_at() == (hs[m].0 as int, hs[m].2 as int)
                &&& final(self).lines() == old(self).lines()
                &&& final(self).history == old(self).history
                &&& final(self).state.undo_stack == old(self).state.undo_stack
                &&& final(self).state.highlights == old(self).state.highlights
            }),
    {
        let n = self.state.highlights.len();
        if n == 0 {
            return ;
        }
        let c = self.state.current_match % n;
        let m = if c == 0 {
            n - 1
        } else {
            c - 1
        };
        self.state.current_match = m;
        let h = self.state.highlights[m];
        self.state.adjust_cursor(h.0, h.2, false);
    }
}

/// A new edit after an undo drops what could have been redone: the log then
/// ends with the new edit, the records from the old cursor on are gone, and
/// there is nothing to redo (so `redo` fails with `NothingToRedo`).
pub proof fn lemma_edit_drops_redo(pre: Document, post: Document, op: EditOp)
    requires
        post.edited(pre, op),
        pre.state.undo_stack.cursor <= pre.state.undo_stack.stack@.len(),
    ensures
        post.state.undo_stack.stack@ == pre.state.undo_stack.stack@.take(
            pre.state.undo_stack.cursor as int,
        ).push(op),
        post.state.undo_stack.cursor >= post.state.undo_stack.stack@.len(),
{
}

impl Document {
    /// Forgets the undo history; the buffer stays as it is.
    pub fn clear_history(&mut self)
        ensures
            final(self).lines() == old(self).lines(),
            final(self).state.undo_stack.stack@.len() == 0,
            final(self).state.undo_stack.cursor == 0,
            old(self).wf() ==> final(self).log_consistent(),
            final(self).cursor_at() == old(self).cursor_at(),
    {
        self.state.undo_stack.clear();
        self.history = Ghost(Seq::empty().push(self.lines()));
    }
}

/// Each line cut at the line breaks it holds, pieces in order.
pub open spec fn split_all(ls: Seq<Seq<char>>) -> Seq<Seq<char>>
    decreases ls.len(),
{
    if ls.len() == 0 {
        Seq::empty()
    } else {
        split_all(ls.drop_last()) + buffer::split_text(ls.last())
    }
}

proof fn lemma_split_all_plain(ls: Seq<Seq<char>>)
    ensures
        no_breaks(split_all(ls)),
    decreases ls.len(),
{
    if ls.len() > 0 {
        lemma_split_all_plain(ls.drop_last());
        buffer::lemma_split_plain(ls.last());
        let a = split_all(ls.drop_last());
        let p = buffer::split_text(ls.last());
        let r = split_all(ls);
        assert forall|i: int, j: int| 0 <= i < r.len() && 0 <= j < r[i].len() implies r[i][j]
            != NEWLINE by {
            if i < a.len() {
                assert(r[i] == a[i]);
            } else {
                assert(r[i] == p[i - a.len()]);
            }
        }
    }
}

proof fn lemma_split_all_keeps(ls: Seq<Seq<char>>)
    requires
        no_breaks(ls),
    ensures
        split_all(ls) == ls,
    decreases ls.len(),
{
    if ls.len() > 0 {
        let init = ls.drop_last();
        assert(no_breaks(init)) by {
            assert forall|i: int, j: int| 0 <= i < init.len() && 0 <= j < init[i].len() implies init[i][j]
                != NEWLINE by {
                assert(init[i] == ls[i]);
            }
        }
        lemma_split_all_keeps(init);
        let l = ls.last();
        assert(no_breaks(seq![l])) by {
            assert forall|i: int, j: int| 0 <= i < 1 && 0 <= j < seq![l][i].len() implies seq![l][i][j]
                != NEWLINE by {
                assert(l[j] == ls[ls.len() - 1][j]);
            }
        }
        buffer::lemma_split_join(seq![l]);
        assert(buffer::join_lines(seq![l]) == l);
        assert(init + seq![l] =~= ls);
    }
}

} // verus!
