//! What the editing keys do at the cursor: typing, Backspace, Enter, paste,
//! copy, and moving with the selection held.
use vstd::prelude::*;
use crate::buffer::{
    self, insertable, join_lines, ordered, range_ok, spec_delete_char, spec_delete_range,
    spec_insert_char, spec_insert_end, spec_insert_range, spec_merge_lines, spec_split_line,
    valid_pos, NEWLINE,
};
use crate::document::{cursor_moved, move_curs, CursorDirection, Document, EditorState};
use crate::error::EditError;
use crate::history::EditOp;
use crate::text::string_of;

verus! {

/// `post` is `pre` after its selection was deleted and the deletion
/// recorded: the cursor stands at the start of the range and no selection
/// is left.
pub open spec fn deleted_selection(pre: Document, post: Document) -> bool {
    &&& pre.state.selection is Some
    &&& post.state.undo_stack.stack@.last() matches EditOp::DeleteSelection { start, stop, .. }
        && (start, stop) == ordered(pre.state.selection->Some_0.0, pre.state.selection->Some_0.1)
    &&& post.edited(pre, post.state.undo_stack.stack@.last())
    &&& post.state.selection is None
}

/// `post` is `pre` after `text` was inserted at `at` and the insertion
/// recorded; the cursor stands after the text.
pub open spec fn inserted_text(pre: Document, post: Document, at: (usize, usize), text: Seq<char>) -> bool {
    &&& post.state.undo_stack.stack@.last() matches EditOp::InsertSelection { start, selection, .. }
        && start == at && selection@ == text
    &&& post.edited(pre, post.state.undo_stack.stack@.last())
}

/// The text between two ordered positions, lines joined by line breaks.
pub open spec fn spec_selected_text(b: Seq<Seq<char>>, sl: int, sc: int, el: int, ec: int) -> Seq<
    char,
> {
    if sl == el {
        b[sl].subrange(sc, ec)
    } else {
        join_lines(seq![b[sl].skip(sc)] + b.subrange(sl + 1, el) + seq![b[el].take(ec)])
    }
}

/// The characters of `v` from `a` up to `b`.
fn copy_range(v: &Vec<char>, a: usize, b: usize) -> (r: Vec<char>)
    requires
        a <= b <= v@.len(),
    ensures
        r@ == v@.subrange(a as int, b as int),
{
    let mut out: Vec<char> = Vec::new();
    let mut i: usize = a;
    while i < b
        invariant
            a <= i <= b <= v@.len(),
            out@ == v@.subrange(a as int, i as int),
        decreases b - i,
    {
        out.push(v[i]);
        i = i + 1;
        assert(out@ =~= v@.subrange(a as int, i as int));
    }
    out
}

impl Document {
    /// The cursor's absolute position, where it fits a `usize`.
    pub fn cursor_position(&self) -> (r: Option<(usize, usize)>)
        ensures
            r is Some <==> self.cursor_at().0 <= usize::MAX,
            r is Some ==> (r->Some_0.0 as int, r->Some_0.1 as int) == self.cursor_at(),
    {
        if self.state.curs_y <= usize::MAX - self.state.scroll_offset {
            Some((self.state.scroll_offset + self.state.curs_y, self.state.curs_x))
        } else {
            None
        }
    }

    /// The selected text (what a copy takes); `None` without a selection or
    /// where its ends do not fit the buffer.
    pub fn selected_text(&self) -> (r: Option<String>)
        ensures
            ({
                let b = self.lines();
                match self.state.selection {
                    None => r is None,
                    Some(sel) => {
                        let (s, e) = ordered(sel.0, sel.1);
                        &&& range_ok(b, sel.0, sel.1) ==> r is Some && r->Some_0@
                            == spec_selected_text(b, s.0 as int, s.1 as int, e.0 as int, e.1 as int)
                        &&& !range_ok(b, sel.0, sel.1) ==> r is None
                    },
                }
            }),
    {
        let (a, z) = match self.state.selection {
            None => return None,
            Some(sel) => sel,
        };
        let (s, e) = if a.0 < z.0 || (a.0 == z.0 && a.1 <= z.1) {
            (a, z)
        } else {
            (z, a)
        };
        let n = self.content.len();
        if e.0 >= n || e.1 > self.content[e.0].len() || s.1 > self.content[s.0].len() {
            assert(e.0 < n ==> self.content@[e.0 as int]@ == self.lines()[e.0 as int]);
            assert(e.0 < n ==> self.content@[s.0 as int]@ == self.lines()[s.0 as int]);
            return None;
        }
        let ghost b = self.lines();
        assert(self.content@[e.0 as int]@ == b[e.0 as int]);
        assert(self.content@[s.0 as int]@ == b[s.0 as int]);
        if s.0 == e.0 {
            let t = copy_range(&self.content[s.0], s.1, e.1);
            return Some(string_of(&t));
        }
        let mut pieces: Vec<Vec<char>> = Vec::new();
        pieces.push(copy_range(&self.content[s.0], s.1, self.content[s.0].len()));
        let mut i: usize = s.0 + 1;
        while i < e.0
            invariant
                s.0 < i <= e.0 < n,
                n == self.content@.len(),
                b == self.lines(),
                s.1 <= b[s.0 as int].len(),
                crate::buffer::lines_of(pieces@) == seq![b[s.0 as int].skip(s.1 as int)]
                    + b.subrange(s.0 + 1, i as int),
            decreases e.0 - i,
        {
            assert(self.content@[i as int]@ == b[i as int]);
            let l = copy_range(&self.content[i], 0, self.content[i].len());
            assert(l@ =~= b[i as int]);
            let ghost prev = crate::buffer::lines_of(pieces@);
            pieces.push(l);
            i = i + 1;
            assert(crate::buffer::lines_of(pieces@) =~= prev.push(b[i - 1]));
            assert(crate::buffer::lines_of(pieces@) =~= seq![b[s.0 as int].skip(s.1 as int)]
                + b.subrange(s.0 + 1, i as int));
        }
        let ghost prev = crate::buffer::lines_of(pieces@);
        pieces.push(copy_range(&self.content[e.0], 0, e.1));
        assert(crate::buffer::lines_of(pieces@) =~= prev.push(b[e.0 as int].take(e.1 as int)));
        assert(b[s.0 as int].subrange(s.1 as int, b[s.0 as int].len() as int) =~= b[s.0 as int].skip(
            s.1 as int,
        ));
        assert(crate::buffer::lines_of(pieces@) =~= seq![b[s.0 as int].skip(s.1 as int)]
            + b.subrange(s.0 + 1, e.0 as int) + seq![b[e.0 as int].take(e.1 as int)]);
        let t = buffer::join(&pieces);
        Some(string_of(&t))
    }

    /// Backspace: deletes the selection where there is one; else the
    /// character before the cursor; at column 0 the line joins the one
    /// above; at the very start nothing happens.
    pub fn backspace(&mut self) -> (r: Result<(), EditError>)
        ensures
            ({
                let b = old(self).lines();
                let (line, col) = old(self).cursor_at();
                match old(self).state.selection {
                    Some(sel) => {
                        let (s, e) = ordered(sel.0, sel.1);
                        &&& range_ok(b, sel.0, sel.1) ==> r is Ok && final(self).lines()
                            == spec_delete_range(b, s.0 as int, s.1 as int, e.0 as int, e.1 as int)
                            && deleted_selection(*old(self), *final(self))
                        &&& !range_ok(b, sel.0, sel.1) ==> r == Err::<(), EditError>(
                            EditError::OutOfRange,
                        ) && final(self).unchanged(*old(self))
                    },
                    None => {
                        &&& line <= usize::MAX && col > 0 && valid_pos(b, line, col) ==> r is Ok
                            && final(self).lines() == spec_delete_char(b, line, col) && final(
                            self).edited(
                            *old(self),
                            EditOp::DeleteChar {
                                line: line as usize,
                                col: (col - 1) as usize,
                                ch: b[line][col - 1],
                                applied: true,
                            },
                        )
                        &&& line <= usize::MAX && col == 0 && 0 < line < b.len() ==> r is Ok
                            && final(self).lines() == spec_merge_lines(b, line - 1) && final(
                            self).edited(
                            *old(self),
                            EditOp::MergeLines {
                                merged_line: (line - 1) as usize,
                                merge_point: b[line - 1].len() as usize,
                                applied: true,
                            },
                        )
                        &&& line <= usize::MAX && col == 0 && line == 0 ==> r is Ok && final(self).unchanged(*old(self))
                        &&& r is Err ==> r == Err::<(), EditError>(EditError::OutOfRange) && final(self).unchanged(*old(self))
                    },
                }
            }),
    {
        if let Some((a, z)) = self.state.selection {
            let removed = self.delete_selection(a, z);
            return match removed {
                Ok(_) => Ok(()),
                Err(e) => Err(e),
            };
        }
        let (line, col) = match self.cursor_position() {
            Some(p) => p,
            None => return Err(EditError::OutOfRange),
        };
        if col > 0 {
            self.delete_char(line, col)
        } else if line > 0 {
            self.merge_lines(line - 1, line)
        } else {
            Ok(())
        }
    }

    /// Enter: breaks the cursor's line at the cursor. On the line just past
    /// the end, column 0, an empty line is added and broken.
    pub fn enter(&mut self) -> (r: Result<(), EditError>)
        ensures
            ({
                let b = old(self).lines();
                let (line, col) = old(self).cursor_at();
                &&& line < b.len() && valid_pos(b, line, col) ==> r is Ok && final(self).lines()
                    == spec_split_line(b, line, col) && final(self).edited(
                    *old(self),
                    EditOp::SplitLine {
                        first_line: line as usize,
                        split_index: col as usize,
                        second_line: (line + 1) as usize,
                        applied: true,
                    },
                )
                &&& line >= b.len() && line <= usize::MAX && col == 0 ==> r is Ok && final(self).lines() == spec_insert_range(b, line, 0, seq![NEWLINE])
                    && inserted_text(*old(self), *final(self), (line as usize, 0), seq![NEWLINE])
                &&& r is Err ==> r == Err::<(), EditError>(EditError::OutOfRange) && final(self).unchanged(*old(self))
            }),
    {
        let n = self.content.len();
        assert(self.lines().len() == n);
        let (line, col) = match self.cursor_position() {
            Some(p) => p,
            None => return Err(EditError::OutOfRange),
        };
        if line < n {
            self.split_lines(line, col)
        } else {
            let text = "\n".to_owned();
            proof {
                reveal_strlit("\n");
            }
            assert(text@ =~= seq![NEWLINE]);
            match self.insert_selection((line, col), text) {
                Ok(_) => Ok(()),
                Err(e) => Err(e),
            }
        }
    }

    /// Types `c` at the cursor; a selection is deleted first and the
    /// character goes where it began.
    pub fn type_char(&mut self, c: char) -> (r: Result<(), EditError>)
        ensures
            ({
                let b = old(self).lines();
                let (line, col) = old(self).cursor_at();
                match old(self).state.selection {
                    Some(sel) => {
                        let (s, e) = ordered(sel.0, sel.1);
                        let d = spec_delete_range(b, s.0 as int, s.1 as int, e.0 as int, e.1 as int);
                        &&& range_ok(b, sel.0, sel.1) && c != NEWLINE && insertable(
                            d,
                            s.0 as int,
                            s.1 as int,
                        ) ==> r is Ok && final(self).lines() == spec_insert_char(
                            d,
                            s.0 as int,
                            s.1 as int,
                            c,
                        ) && final(self).state.undo_stack.stack@.last() == (EditOp::InsertChar {
                            line: s.0,
                            col: s.1,
                            ch: c,
                            applied: true,
                        }) && final(self).cursor_at() == (s.0 as int, s.1 + 1) && exists|mid: Document|
                            #[trigger] deleted_selection(*old(self), mid) && (s.0 < d.len() ==> final(
                                self).edited(
                                mid,
                                EditOp::InsertChar { line: s.0, col: s.1, ch: c, applied: true },
                            ))
                        &&& !range_ok(b, sel.0, sel.1) ==> r == Err::<(), EditError>(
                            EditError::OutOfRange,
                        ) && final(self).unchanged(*old(self))
                    },
                    None => {
                        &&& line <= usize::MAX && c != NEWLINE && insertable(b, line, col) ==> r is Ok
                            && final(self).lines() == spec_insert_char(b, line, col, c)
                            && final(self).state.undo_stack.stack@.last() == (EditOp::InsertChar {
                            line: line as usize,
                            col: col as usize,
                            ch: c,
                            applied: true,
                        }) && final(self).cursor_at() == (line, col + 1) && (line < b.len() ==> final(
                            self).edited(
                            *old(self),
                            EditOp::InsertChar {
                                line: line as usize,
                                col: col as usize,
                                ch: c,
                                applied: true,
                            },
                        ))
                        &&& line <= usize::MAX && c == NEWLINE && valid_pos(b, line, col) ==> r is Ok
                            && final(self).lines() == spec_split_line(b, line, col) && final(
                            self).edited(
                            *old(self),
                            EditOp::SplitLine {
                                first_line: line as usize,
                                split_index: col as usize,
                                second_line: (line + 1) as usize,
                                applied: true,
                            },
                        )
                        &&& r is Err ==> final(self).unchanged(*old(self))
                    },
                }
            }),
    {
        let ghost pre = *self;
        if let Some((a, z)) = self.state.selection {
            if let Err(e) = self.delete_selection(a, z) {
                return Err(e);
            }
        }
        let ghost mid = *self;
        let (line, col) = match self.cursor_position() {
            Some(p) => p,
            None => return Err(EditError::OutOfRange),
        };
        let r = self.insert_char(line, col, c);
        proof {
            if pre.state.selection is Some && r is Ok {
                assert(deleted_selection(pre, mid));
            }
        }
        r
    }

    /// Pastes `text` at the cursor; a selection is deleted first and the
    /// text goes where it began. Returns the position after the text.
    pub fn paste(&mut self, text: String) -> (r: Result<(usize, usize), EditError>)
        ensures
            ({
                let b = old(self).lines();
                let (line, col) = old(self).cursor_at();
                match old(self).state.selection {
                    Some(sel) => {
                        let (s, e) = ordered(sel.0, sel.1);
                        let d = spec_delete_range(b, s.0 as int, s.1 as int, e.0 as int, e.1 as int);
                        &&& range_ok(b, sel.0, sel.1) && insertable(d, s.0 as int, s.1 as int)
                            ==> r is Ok && final(self).lines() == spec_insert_range(
                            d,
                            s.0 as int,
                            s.1 as int,
                            text@,
                        ) && (r->Ok_0.0 as int, r->Ok_0.1 as int) == spec_insert_end(
                            s.0 as int,
                            s.1 as int,
                            text@,
                        ) && exists|mid: Document|
                            deleted_selection(*old(self), mid) && #[trigger] inserted_text(
                                mid,
                                *final(self),
                                s,
                                text@,
                            )
                        &&& !range_ok(b, sel.0, sel.1) ==> r == Err::<(usize, usize), EditError>(
                            EditError::OutOfRange,
                        ) && final(self).unchanged(*old(self))
                    },
                    None => {
                        &&& line <= usize::MAX && insertable(b, line, col) ==> r is Ok && final(self).lines() == spec_insert_range(b, line, col, text@)
                            && (r->Ok_0.0 as int, r->Ok_0.1 as int) == spec_insert_end(
                            line,
                            col,
                            text@,
                        ) && inserted_text(*old(self), *final(self), (line as usize, col as usize), text@)
                        &&& r is Err ==> final(self).unchanged(*old(self))
                    },
                }
            }),
    {
        let ghost pre = *self;
        if let Some((a, z)) = self.state.selection {
            if let Err(e) = self.delete_selection(a, z) {
                return Err(e);
            }
        }
        let ghost mid = *self;
        let at = match self.cursor_position() {
            Some(p) => p,
            None => return Err(EditError::OutOfRange),
        };
        let r = self.insert_selection(at, text);
        proof {
            if pre.state.selection is Some && r is Ok {
                assert(deleted_selection(pre, mid));
                assert(inserted_text(mid, *self, at, text@));
            }
        }
        r
    }

    /// Moves the cursor with the selection held: a selection starts at the
    /// cursor if none is in progress, and its moving end follows the cursor.
    pub fn select_move(&mut self, direction: CursorDirection)
        ensures
            final(self).lines() == old(self).lines(),
            final(self).history == old(self).history,
            final(self).size == old(self).size,
            final(self).state == (EditorState {
                curs_x: final(self).state.curs_x,
                curs_y: final(self).state.curs_y,
                scroll_offset: final(self).state.scroll_offset,
                selection: final(self).state.selection,
                ..old(self).state
            }),
            cursor_moved(old(self).lines(), old(self).state, final(self).state, direction),
            old(self).state.selection is Some && final(self).cursor_at().0 <= usize::MAX
                ==> final(self).state.selection == Some(
                (
                    old(self).state.selection->Some_0.0,
                    (final(self).cursor_at().0 as usize, final(self).state.curs_x),
                ),
            ),
            old(self).state.selection is None && old(self).cursor_at().0 <= usize::MAX && final(
                self).cursor_at().0 <= usize::MAX ==> final(self).state.selection == Some(
                (
                    (old(self).cursor_at().0 as usize, old(self).state.curs_x),
                    (final(self).cursor_at().0 as usize, final(self).state.curs_x),
                ),
            ),
    {
        if let Some(p) = self.cursor_position() {
            self.state.start_selection(p.0, p.1);
        }
        move_curs(self, direction);
        if let Some(p) = self.cursor_position() {
            self.state.update_selection_end(p.0, p.1);
        }
    }
}

} // verus!
