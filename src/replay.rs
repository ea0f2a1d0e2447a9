//! What an edit record does to a buffer, forward and backward, and where the
//! cursor lands each way.
use vstd::prelude::*;
use crate::buffer::{
    self, insertable, lemma_delete_then_insert, lemma_split_then_merge, no_breaks, spec_removed_text,
    takes_break, lines_of, ordered, range_ok, spec_delete_char, spec_delete_range,
    spec_insert_char, spec_insert_range, spec_merge_lines, spec_split_line, valid_pos,
};
use crate::error::EditError;
use crate::history::EditOp;

verus! {

/// The buffer after the record's edit, where its positions fit `b`.
pub open spec fn forward(b: Seq<Seq<char>>, op: EditOp) -> Option<Seq<Seq<char>>> {
    match op {
        EditOp::InsertChar { line, col, ch, .. } => if insertable(b, line as int, col as int) {
            Some(spec_insert_char(b, line as int, col as int, ch))
        } else {
            None
        },
        EditOp::DeleteChar { line, col, .. } => if valid_pos(b, line as int, col + 1) {
            Some(spec_delete_char(b, line as int, col + 1))
        } else {
            None
        },
        EditOp::SplitLine { first_line, split_index, .. } => if valid_pos(
            b,
            first_line as int,
            split_index as int,
        ) {
            Some(spec_split_line(b, first_line as int, split_index as int))
        } else {
            None
        },
        EditOp::MergeLines { merged_line, .. } => if merged_line + 1 < b.len() {
            Some(spec_merge_lines(b, merged_line as int))
        } else {
            None
        },
        EditOp::DeleteSelection { start, stop, .. } => if range_ok(b, start, stop) {
            let (s, e) = ordered(start, stop);
            Some(spec_delete_range(b, s.0 as int, s.1 as int, e.0 as int, e.1 as int))
        } else {
            None
        },
        EditOp::InsertSelection { start, selection, .. } => if insertable(
            b,
            start.0 as int,
            start.1 as int,
        ) {
            Some(spec_insert_range(b, start.0 as int, start.1 as int, selection@))
        } else {
            None
        },
    }
}

/// The buffer after the inverse of the record's edit, where its positions
/// fit `b`.
pub open spec fn backward(b: Seq<Seq<char>>, op: EditOp) -> Option<Seq<Seq<char>>> {
    match op {
        EditOp::InsertChar { line, col, .. } => if valid_pos(b, line as int, col + 1) {
            Some(spec_delete_char(b, line as int, col + 1))
        } else {
            None
        },
        EditOp::DeleteChar { line, col, ch, .. } => if insertable(b, line as int, col as int) {
            Some(spec_insert_char(b, line as int, col as int, ch))
        } else {
            None
        },
        EditOp::SplitLine { first_line, second_line, .. } => if second_line == first_line + 1
            && second_line < b.len() {
            Some(spec_merge_lines(b, first_line as int))
        } else {
            None
        },
        EditOp::MergeLines { merged_line, merge_point, .. } => if valid_pos(
            b,
            merged_line as int,
            merge_point as int,
        ) {
            Some(spec_split_line(b, merged_line as int, merge_point as int))
        } else {
            None
        },
        EditOp::DeleteSelection { start, stop, selection, .. } => {
            let (s, e) = ordered(start, stop);
            if insertable(b, s.0 as int, s.1 as int) {
                Some(spec_insert_range(b, s.0 as int, s.1 as int, selection@))
            } else {
                None
            }
        },
        EditOp::InsertSelection { start, stop, .. } => if range_ok(b, start, stop) {
            let (s, e) = ordered(start, stop);
            Some(spec_delete_range(b, s.0 as int, s.1 as int, e.0 as int, e.1 as int))
        } else {
            None
        },
    }
}

/// Where the cursor lands after the record's edit: after an inserted
/// character, on a deleted or merged position, at the start of a new line.
pub open spec fn forward_cursor(op: EditOp) -> (int, int) {
    match op {
        EditOp::InsertChar { line, col, .. } => (line as int, col + 1),
        EditOp::DeleteChar { line, col, .. } => (line as int, col as int),
        EditOp::SplitLine { first_line, .. } => (first_line + 1, 0),
        EditOp::MergeLines { merged_line, merge_point, .. } => (
            merged_line as int,
            merge_point as int,
        ),
        EditOp::DeleteSelection { start, stop, .. } => {
            let (s, e) = ordered(start, stop);
            (s.0 as int, s.1 as int)
        },
        EditOp::InsertSelection { stop, .. } => (stop.0 as int, stop.1 as int),
    }
}

/// Where the cursor lands after the inverse of the record's edit: at the
/// site of the edit.
pub open spec fn backward_cursor(op: EditOp) -> (int, int) {
    match op {
        EditOp::InsertChar { line, col, .. } => (line as int, col as int),
        EditOp::DeleteChar { line, col, .. } => (line as int, col as int),
        EditOp::SplitLine { first_line, split_index, .. } => (
            first_line as int,
            split_index as int,
        ),
        EditOp::MergeLines { merged_line, merge_point, .. } => (
            merged_line as int,
            merge_point as int,
        ),
        EditOp::DeleteSelection { start, stop, .. } => {
            let (s, e) = ordered(start, stop);
            (e.0 as int, e.1 as int)
        },
        EditOp::InsertSelection { start, stop, .. } => {
            let (s, e) = ordered(start, stop);
            (s.0 as int, s.1 as int)
        },
    }
}

/// The record applies to `b`, and its inverse then gives `b` back.
pub open spec fn round_trips(b: Seq<Seq<char>>, op: EditOp) -> bool {
    &&& forward(b, op) is Some
    &&& backward(forward(b, op)->Some_0, op) == Some(b)
}

/// Applies the record's edit to `buf`; returns where the cursor lands.
pub fn apply_forward(buf: &mut Vec<Vec<char>>, op: &EditOp) -> (r: Result<(usize, usize), EditError>)
    ensures
        forward(lines_of(old(buf)@), *op) is Some ==> r is Ok && lines_of(final(buf)@) == forward(
            lines_of(old(buf)@),
            *op,
        )->Some_0 && (r->Ok_0.0 as int, r->Ok_0.1 as int) == forward_cursor(*op),
        forward(lines_of(old(buf)@), *op) is None ==> r == Err::<(usize, usize), EditError>(
            EditError::OutOfRange,
        ) && final(buf)@ == old(buf)@,
{
    match op {
        EditOp::InsertChar { line, col, ch, .. } => {
            buffer::insert_char(buf, *line, *col, *ch)?;
            assert(lines_of(buf@).len() == buf@.len());
            assert(*line < lines_of(buf@).len());
            assert(buf@[*line as int]@ == lines_of(buf@)[*line as int]);
            let n = buf[*line].len();
            assert(*col < n);
            Ok((*line, *col + 1))
        },
        EditOp::DeleteChar { line, col, .. } => {
            if *line >= buf.len() || *col >= buf[*line].len() {
                assert(*line < buf.len() ==> buf@[*line as int]@ == lines_of(buf@)[*line as int]);
                return Err(EditError::OutOfRange);
            }
            buffer::delete_char(buf, *line, *col + 1)?;
            Ok((*line, *col))
        },
        EditOp::SplitLine { first_line, split_index, .. } => {
            buffer::split_line(buf, *first_line, *split_index)?;
            assert(lines_of(buf@).len() == buf@.len());
            let n = buf.len();
            assert(*first_line + 1 < n);
            Ok((*first_line + 1, 0))
        },
        EditOp::MergeLines { merged_line, merge_point, .. } => {
            if *merged_line >= buf.len() {
                return Err(EditError::OutOfRange);
            }
            buffer::merge_lines(buf, *merged_line, *merged_line + 1)?;
            Ok((*merged_line, *merge_point))
        },
        EditOp::DeleteSelection { start, stop, .. } => {
            buffer::delete_range(buf, *start, *stop)?;
            if start.0 < stop.0 || (start.0 == stop.0 && start.1 <= stop.1) {
                Ok(*start)
            } else {
                Ok(*stop)
            }
        },
        EditOp::InsertSelection { start, stop, selection, .. } => {
            buffer::insert_range(buf, start.0, start.1, selection)?;
            Ok(*stop)
        },
    }
}

/// Applies the inverse of the record's edit to `buf`; returns where the
/// cursor lands.
pub fn apply_backward(buf: &mut Vec<Vec<char>>, op: &EditOp) -> (r: Result<(usize, usize), EditError>)
    ensures
        backward(lines_of(old(buf)@), *op) is Some ==> r is Ok && lines_of(final(buf)@) == backward(
            lines_of(old(buf)@),
            *op,
        )->Some_0 && (r->Ok_0.0 as int, r->Ok_0.1 as int) == backward_cursor(*op),
        backward(lines_of(old(buf)@), *op) is None ==> r == Err::<(usize, usize), EditError>(
            EditError::OutOfRange,
        ) && final(buf)@ == old(buf)@,
{
    match op {
        EditOp::InsertChar { line, col, .. } => {
            if *line >= buf.len() || *col >= buf[*line].len() {
                assert(*line < buf.len() ==> buf@[*line as int]@ == lines_of(buf@)[*line as int]);
                return Err(EditError::OutOfRange);
            }
            buffer::delete_char(buf, *line, *col + 1)?;
            Ok((*line, *col))
        },
        EditOp::DeleteChar { line, col, ch, .. } => {
            buffer::insert_char(buf, *line, *col, *ch)?;
            Ok((*line, *col))
        },
        EditOp::SplitLine { first_line, split_index, second_line, .. } => {
            buffer::merge_lines(buf, *first_line, *second_line)?;
            Ok((*first_line, *split_index))
        },
        EditOp::MergeLines { merged_line, merge_point, .. } => {
            buffer::split_line(buf, *merged_line, *merge_point)?;
            Ok((*merged_line, *merge_point))
        },
        EditOp::DeleteSelection { start, stop, selection, .. } => {
            let (s, e) = if start.0 < stop.0 || (start.0 == stop.0 && start.1 <= stop.1) {
                (*start, *stop)
            } else {
                (*stop, *start)
            };
            buffer::insert_range(buf, s.0, s.1, selection)?;
            Ok(e)
        },
        EditOp::InsertSelection { start, stop, .. } => {
            buffer::delete_range(buf, *start, *stop)?;
            if start.0 < stop.0 || (start.0 == stop.0 && start.1 <= stop.1) {
                Ok(*start)
            } else {
                Ok(*stop)
            }
        },
    }
}

/// The records whose inverse is known to undo them exactly on `b`: those of
/// single characters and of line breaks, the deletion of a range that does
/// not take a line break after the last line, the insertion of text in front
/// of characters of a line, the insertion of text ending in a line break at
/// the end of the last line, and the insertion of nothing into an empty
/// buffer.
pub open spec fn reversible(b: Seq<Seq<char>>, op: EditOp) -> bool {
    match op {
        EditOp::InsertChar { line, col, .. } => valid_pos(b, line as int, col as int),
        EditOp::DeleteChar { line, col, ch, .. } => valid_pos(b, line as int, col + 1)
            && b[line as int][col as int] == ch,
        EditOp::SplitLine { first_line, split_index, second_line, .. } => valid_pos(
            b,
            first_line as int,
            split_index as int,
        ) && second_line == first_line + 1,
        EditOp::MergeLines { merged_line, merge_point, .. } => merged_line + 1 < b.len()
            && merge_point == b[merged_line as int].len(),
        EditOp::DeleteSelection { start, stop, selection, .. } => {
            let (s, e) = ordered(start, stop);
            let (sl, sc, el, ec) = (s.0 as int, s.1 as int, e.0 as int, e.1 as int);
            &&& no_breaks(b)
            &&& range_ok(b, start, stop)
            &&& takes_break(b, sl, sc, el, ec) ==> el + 1 < b.len()
            &&& selection@ == spec_removed_text(b, sl, sc, el, ec)
        },
        EditOp::InsertSelection { start, stop, selection, .. } => {
            let (l, c) = (start.0 as int, start.1 as int);
            &&& (stop.0 as int, stop.1 as int) == buffer::spec_insert_end(l, c, selection@)
            &&& {
                ||| valid_pos(b, l, c) && c < b[l].len()
                ||| b.len() >= 1 && l + 1 == b.len() && c == b[l].len() && selection@.len() > 0
                    && selection@.last() == buffer::NEWLINE
                ||| b.len() == 0 && l == 0 && c == 0 && selection@.len() == 0
            }
        },
    }
}

/// A reversible record applies to `b`, and undoing it gives `b` back.
pub proof fn lemma_reversible(b: Seq<Seq<char>>, op: EditOp)
    requires
        reversible(b, op),
    ensures
        round_trips(b, op),
{
    match op {
        EditOp::InsertChar { line, col, ch, .. } => {
            let f = spec_insert_char(b, line as int, col as int, ch);
            assert(f[line as int].remove(col as int) =~= b[line as int]);
            assert(spec_delete_char(f, line as int, col + 1) =~= b);
        },
        EditOp::DeleteChar { line, col, .. } => {
            let f = spec_delete_char(b, line as int, col + 1);
            let ch = b[line as int][col as int];
            assert(f[line as int].insert(col as int, ch) =~= b[line as int]);
            assert(spec_insert_char(f, line as int, col as int, ch) =~= b);
        },
        EditOp::SplitLine { first_line, split_index, .. } => {
            lemma_split_then_merge(b, first_line as int, split_index as int);
        },
        EditOp::MergeLines { merged_line, .. } => {
            let l = merged_line as int;
            let f = spec_merge_lines(b, l);
            assert(f[l].take(b[l].len() as int) =~= b[l]);
            assert(f[l].skip(b[l].len() as int) =~= b[l + 1]);
            assert(spec_split_line(f, l, b[l].len() as int) =~= b);
        },
        EditOp::DeleteSelection { start, stop, .. } => {
            let (s, e) = ordered(start, stop);
            lemma_delete_then_insert(b, s.0 as int, s.1 as int, e.0 as int, e.1 as int);
        },
        EditOp::InsertSelection { start, stop, selection, .. } => {
            let (l, c) = (start.0 as int, start.1 as int);
            buffer::lemma_split_nonempty(selection@);
            if valid_pos(b, l, c) && c < b[l].len() {
                buffer::lemma_insert_then_delete(b, l, c, selection@);
            } else if b.len() >= 1 && l + 1 == b.len() && c == b[l].len() && selection@.len() > 0
                && selection@.last() == buffer::NEWLINE {
                buffer::lemma_append_then_delete(b, selection@);
                buffer::lemma_split_nonempty(selection@.drop_last());
            } else {
                buffer::lemma_pad_empty_then_delete(b);
            }
            assert(ordered(start, stop) == (start, stop));
        },
    }
}

/// The flag of a record plays no part in what it does.
pub proof fn lemma_flag_irrelevant(b: Seq<Seq<char>>, op: EditOp, a: bool)
    ensures
        forward(b, op.with_applied(a)) == forward(b, op),
        backward(b, op.with_applied(a)) == backward(b, op),
        forward_cursor(op.with_applied(a)) == forward_cursor(op),
        backward_cursor(op.with_applied(a)) == backward_cursor(op),
        op.with_applied(a).is_applied() == a,
{
}

/// The buffer after undoing records `c - 1` down to `0` of `ops`, one after
/// the other, starting from `b`; `None` where an inverse does not apply.
pub open spec fn undone(b: Seq<Seq<char>>, ops: Seq<EditOp>, c: int) -> Option<Seq<Seq<char>>>
    decreases c,
{
    if c <= 0 {
        Some(b)
    } else {
        match backward(b, ops[c - 1]) {
            Some(b2) => undone(b2, ops, c - 1),
            None => None,
        }
    }
}

/// The buffer after redoing records `from` up to `to - 1` of `ops`, one
/// after the other, starting from `b`; `None` where an edit does not apply.
pub open spec fn redone(b: Seq<Seq<char>>, ops: Seq<EditOp>, from: int, to: int) -> Option<
    Seq<Seq<char>>,
>
    decreases to - from,
{
    if from >= to {
        Some(b)
    } else {
        match forward(b, ops[from]) {
            Some(b2) => redone(b2, ops, from + 1, to),
            None => None,
        }
    }
}

/// Each record of `ops` leads from one buffer of `h` to the next, and its
/// inverse leads back.
pub open spec fn chained(h: Seq<Seq<Seq<char>>>, ops: Seq<EditOp>) -> bool {
    &&& h.len() == ops.len() + 1
    &&& forall|i: int|
        #![trigger ops[i]]
        0 <= i < ops.len() ==> forward(h[i], ops[i]) == Some(h[i + 1]) && backward(h[i + 1], ops[i])
            == Some(h[i])
}

/// Along a chain, undoing the first `k` records from buffer `k` reaches
/// buffer 0, and redoing records `k` on from buffer `k` reaches the last.
pub proof fn lemma_chain_walk(h: Seq<Seq<Seq<char>>>, ops: Seq<EditOp>, k: int)
    requires
        chained(h, ops),
        0 <= k <= ops.len(),
    ensures
        undone(h[k], ops, k) == Some(h[0]),
        redone(h[k], ops, k, ops.len() as int) == Some(h[ops.len() as int]),
    decreases ops.len() - k,
{
    lemma_undo_walk(h, ops, k);
    if k < ops.len() {
        assert(forward(h[k], ops[k]) == Some(h[k + 1]));
        lemma_chain_walk(h, ops, k + 1);
    }
}

proof fn lemma_undo_walk(h: Seq<Seq<Seq<char>>>, ops: Seq<EditOp>, k: int)
    requires
        chained(h, ops),
        0 <= k <= ops.len(),
    ensures
        undone(h[k], ops, k) == Some(h[0]),
    decreases k,
{
    if k > 0 {
        assert(backward(h[k], ops[k - 1]) == Some(h[k - 1]));
        lemma_undo_walk(h, ops, k - 1);
    }
}

} // verus!
