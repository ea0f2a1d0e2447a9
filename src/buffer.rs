//! The line buffer: an ordered sequence of lines of characters, addressed by
//! absolute (line, column) positions, with the primitive mutations of the
//! editor. Every index is checked before anything changes.
use vstd::prelude::*;
use crate::error::EditError;

verus! {

/// The line break that separates two lines in joined text.
pub const NEWLINE: char = '\n';

/// The lines of a buffer as sequences of characters.
pub open spec fn lines_of(v: Seq<Vec<char>>) -> Seq<Seq<char>> {
    v.map_values(|l: Vec<char>| l@)
}

/// No line holds a line break.
pub open spec fn no_breaks(b: Seq<Seq<char>>) -> bool {
    forall|i: int, j: int| 0 <= i < b.len() && 0 <= j < b[i].len() ==> b[i][j] != NEWLINE
}

/// `(line, col)` addresses an existing line, and a column up to its end.
pub open spec fn valid_pos(b: Seq<Seq<char>>, line: int, col: int) -> bool {
    0 <= line < b.len() && 0 <= col <= b[line].len()
}

/// The buffer extended with empty lines until `line` exists.
pub open spec fn padded(b: Seq<Seq<char>>, line: int) -> Seq<Seq<char>> {
    if line < b.len() {
        b
    } else {
        b + Seq::new((line + 1 - b.len()) as nat, |i: int| Seq::<char>::empty())
    }
}

/// A position where text may be inserted: an existing position, or column 0
/// of a line past the end (the buffer is padded with empty lines first).
pub open spec fn insertable(b: Seq<Seq<char>>, line: int, col: int) -> bool {
    0 <= line && 0 <= col && (line < b.len() ==> col <= b[line].len()) && (line >= b.len() ==> col
        == 0)
}

/// `ch` inserted at `(line, col)`.
pub open spec fn spec_insert_char(b: Seq<Seq<char>>, line: int, col: int, ch: char) -> Seq<
    Seq<char>,
> {
    let p = padded(b, line);
    p.update(line, p[line].insert(col, ch))
}

/// The character just before column `col` of `line` removed.
pub open spec fn spec_delete_char(b: Seq<Seq<char>>, line: int, col: int) -> Seq<Seq<char>> {
    b.update(line, b[line].remove(col - 1))
}

/// `line` broken in two at `index`: its tail becomes the next line.
pub open spec fn spec_split_line(b: Seq<Seq<char>>, line: int, index: int) -> Seq<Seq<char>> {
    b.update(line, b[line].take(index)).insert(line + 1, b[line].skip(index))
}

/// The line after `line` appended to it and removed.
pub open spec fn spec_merge_lines(b: Seq<Seq<char>>, line: int) -> Seq<Seq<char>> {
    b.update(line, b[line] + b[line + 1]).remove(line + 1)
}

/// Inserts `ch` at `(line, col)`; where `line` is past the end the buffer is
/// first extended with empty lines, and then only column 0 exists.
pub fn insert_char(buf: &mut Vec<Vec<char>>, line: usize, col: usize, ch: char) -> (r: Result<
    (),
    EditError,
>)
    ensures
        insertable(lines_of(old(buf)@), line as int, col as int) ==> r is Ok && lines_of(final(buf)@)
            == spec_insert_char(lines_of(old(buf)@), line as int, col as int, ch),
        !insertable(lines_of(old(buf)@), line as int, col as int) ==> r == Err::<(), EditError>(
            EditError::OutOfRange) && final(buf)@ == old(buf)@,
{
    if line < buf.len() {
        if col > buf[line].len() {
            return Err(EditError::OutOfRange);
        }
    } else if col != 0 {
        return Err(EditError::OutOfRange);
    }
    let ghost b0 = lines_of(buf@);
    while buf.len() <= line
        invariant
            b0 == lines_of(old(buf)@),
            b0.len() <= buf.len(),
            line >= b0.len() ==> buf.len() <= line + 1,
            line < b0.len() ==> buf.len() == b0.len(),
            lines_of(buf@) == b0 + Seq::new(
                (buf.len() - b0.len()) as nat,
                |i: int| Seq::<char>::empty(),
            ),
        decreases line + 1 - buf.len(),
    {
        let ghost prev = lines_of(buf@);
        buf.push(Vec::new());
        assert(lines_of(buf@) =~= prev.push(Seq::<char>::empty()));
        assert(lines_of(buf@) =~= b0 + Seq::new(
            (buf.len() - b0.len()) as nat,
            |i: int| Seq::<char>::empty(),
        ));
    }
    assert(lines_of(buf@) =~= padded(b0, line as int));
    assert(buf@[line as int]@ == lines_of(buf@)[line as int]);
    buf[line].insert(col, ch);
    assert(lines_of(buf@) =~= spec_insert_char(b0, line as int, col as int, ch));
    Ok(())
}

/// Removes the character just before column `col` of `line`: `col` is the
/// position after the character that goes. Column 0 has nothing before it.
pub fn delete_char(buf: &mut Vec<Vec<char>>, line: usize, col: usize) -> (r: Result<(), EditError>)
    ensures
        valid_pos(lines_of(old(buf)@), line as int, col as int) && col > 0 ==> r is Ok && lines_of(
            final(buf)@,
        ) == spec_delete_char(lines_of(old(buf)@), line as int, col as int),
        !(valid_pos(lines_of(old(buf)@), line as int, col as int) && col > 0) ==> r == Err::<
            (),
            EditError,
        >(EditError::OutOfRange) && final(buf)@ == old(buf)@,
{
    if line >= buf.len() || col == 0 || col > buf[line].len() {
        return Err(EditError::OutOfRange);
    }
    let ghost b0 = lines_of(buf@);
    buf[line].remove(col - 1);
    assert(lines_of(buf@) =~= spec_delete_char(b0, line as int, col as int));
    Ok(())
}

/// Breaks `line` at `index`: the characters from `index` on become a new line
/// right after it. At the end of the line the new line is empty; at column 0
/// the whole content moves down and `line` is left empty.
pub fn split_line(buf: &mut Vec<Vec<char>>, line: usize, index: usize) -> (r: Result<(), EditError>)
    ensures
        valid_pos(lines_of(old(buf)@), line as int, index as int) ==> r is Ok && lines_of(
            final(buf)@,
        ) == spec_split_line(lines_of(old(buf)@), line as int, index as int),
        !valid_pos(lines_of(old(buf)@), line as int, index as int) ==> r == Err::<(), EditError>(
            EditError::OutOfRange,
        ) && final(buf)@ == old(buf)@,
{
    if line >= buf.len() || index > buf[line].len() {
        return Err(EditError::OutOfRange);
    }
    let ghost b0 = lines_of(buf@);
    let tail = buf[line].split_off(index);
    buf.insert(line + 1, tail);
    assert(lines_of(buf@) =~= spec_split_line(b0, line as int, index as int));
    Ok(())
}

/// Appends line `next` to line `line` and removes it; `next` must be the
/// line right after `line`.
pub fn merge_lines(buf: &mut Vec<Vec<char>>, line: usize, next: usize) -> (r: Result<
    (),
    EditError,
>)
    ensures
        next == line + 1 && next < old(buf)@.len() ==> r is Ok && lines_of(final(buf)@)
            == spec_merge_lines(lines_of(old(buf)@), line as int),
        !(next == line + 1 && next < old(buf)@.len()) ==> r == Err::<(), EditError>(
            EditError::OutOfRange,
        ) && final(buf)@ == old(buf)@,
{
    if line >= buf.len() || next != line + 1 || next >= buf.len() {
        return Err(EditError::OutOfRange);
    }
    let ghost b0 = lines_of(buf@);
    let mut tail = buf.remove(next);
    buf[line].append(&mut tail);
    assert(lines_of(buf@) =~= spec_merge_lines(b0, line as int));
    Ok(())
}

/// Splitting a line and merging the two halves again gives back the buffer.
pub proof fn lemma_split_then_merge(b: Seq<Seq<char>>, line: int, index: int)
    requires
        valid_pos(b, line, index),
    ensures
        spec_merge_lines(spec_split_line(b, line, index), line) == b,
{
    let s = spec_split_line(b, line, index);
    assert(s[line] + s[line + 1] =~= b[line]);
    assert(spec_merge_lines(s, line) =~= b);
}

/// Lines joined into one text, with a line break between each two.
pub open spec fn join_lines(ls: Seq<Seq<char>>) -> Seq<char>
    decreases ls.len(),
{
    if ls.len() == 0 {
        Seq::empty()
    } else if ls.len() == 1 {
        ls[0]
    } else {
        join_lines(ls.drop_last()) + seq![NEWLINE] + ls.last()
    }
}

/// A text cut at each line break: always at least one piece, and one more
/// than the text has line breaks.
pub open spec fn split_text(t: Seq<char>) -> Seq<Seq<char>>
    decreases t.len(),
{
    if t.len() == 0 {
        seq![Seq::<char>::empty()]
    } else {
        let r = split_text(t.drop_last());
        if t.last() == NEWLINE {
            r.push(Seq::<char>::empty())
        } else {
            r.update(r.len() - 1, r.last().push(t.last()))
        }
    }
}

pub open spec fn no_break(t: Seq<char>) -> bool {
    forall|j: int| 0 <= j < t.len() ==> t[j] != NEWLINE
}

pub proof fn lemma_split_nonempty(t: Seq<char>)
    ensures
        split_text(t).len() >= 1,
    decreases t.len(),
{
    if t.len() > 0 {
        lemma_split_nonempty(t.drop_last());
    }
}

/// Text without a line break extends the last piece.
proof fn lemma_split_append_plain(t: Seq<char>, u: Seq<char>)
    requires
        no_break(u),
    ensures
        split_text(t + u) == split_text(t).update(
            split_text(t).len() - 1,
            split_text(t).last() + u,
        ),
    decreases u.len(),
{
    lemma_split_nonempty(t);
    if u.len() == 0 {
        assert(t + u =~= t);
        assert(split_text(t).last() + u =~= split_text(t).last());
        assert(split_text(t).update(split_text(t).len() - 1, split_text(t).last())
            =~= split_text(t));
    } else {
        let u0 = u.drop_last();
        lemma_split_append_plain(t, u0);
        assert((t + u).drop_last() =~= t + u0);
        assert((t + u).last() == u.last());
        assert(split_text(t).last() + u0 + seq![u.last()] =~= split_text(t).last() + u);
        assert(u.last() == u[u.len() - 1]);
        assert(u.last() != NEWLINE);
        let r = split_text(t + u0);
        assert(r.len() == split_text(t).len());
        assert(r.last() == split_text(t).last() + u0);
        assert(split_text(t + u) == r.update(r.len() - 1, r.last().push(u.last())));
        assert((split_text(t).last() + u0).push(u.last()) =~= split_text(t).last() + u);
        assert(split_text(t + u) =~= split_text(t).update(
            split_text(t).len() - 1,
            split_text(t).last() + u,
        ));
    }
}

/// A text that is one piece holds no line break.
proof fn lemma_split_single(t: Seq<char>)
    requires
        split_text(t).len() == 1,
    ensures
        split_text(t)[0] == t,
    decreases t.len(),
{
    if t.len() > 0 {
        let r = split_text(t.drop_last());
        lemma_split_nonempty(t.drop_last());
        if t.last() != NEWLINE {
            lemma_split_single(t.drop_last());
            assert(t.drop_last().push(t.last()) =~= t);
        }
    }
}

/// A line break then text without one starts a new piece.
proof fn lemma_split_append_line(t: Seq<char>, u: Seq<char>)
    requires
        no_break(u),
    ensures
        split_text(t + seq![NEWLINE] + u) == split_text(t).push(u),
{
    let t1 = t + seq![NEWLINE];
    assert(t1.drop_last() =~= t);
    assert(split_text(t1) == split_text(t).push(Seq::<char>::empty()));
    lemma_split_append_plain(t1, u);
    assert(Seq::<char>::empty() + u =~= u);
    assert(split_text(t1 + u) =~= split_text(t).push(u));
}

/// Cutting joined lines gives the lines back.
pub proof fn lemma_split_join(ls: Seq<Seq<char>>)
    requires
        ls.len() >= 1,
        no_breaks(ls),
    ensures
        split_text(join_lines(ls)) == ls,
    decreases ls.len(),
{
    if ls.len() == 1 {
        assert(no_break(ls[0]));
        lemma_split_append_plain(Seq::<char>::empty(), ls[0]);
        assert(Seq::<char>::empty() + ls[0] =~= ls[0]);
        assert(split_text(Seq::<char>::empty()).update(0, Seq::<char>::empty() + ls[0]) =~= ls);
    } else {
        let init = ls.drop_last();
        assert forall|i: int, j: int| 0 <= i < init.len() && 0 <= j < init[i].len() implies init[i][j]
            != NEWLINE by {
            assert(init[i] == ls[i]);
        }
        lemma_split_join(init);
        assert(no_break(ls.last()));
        lemma_split_append_line(join_lines(init), ls.last());
        assert(init.push(ls.last()) =~= ls);
    }
}

/// Cutting joined lines with a line break after them gives the lines back
/// and one empty line.
pub proof fn lemma_split_join_break(ls: Seq<Seq<char>>)
    requires
        ls.len() >= 1,
        no_breaks(ls),
    ensures
        split_text(join_lines(ls).push(NEWLINE)) == ls.push(Seq::<char>::empty()),
{
    lemma_split_join(ls);
    let t = join_lines(ls).push(NEWLINE);
    assert(t.drop_last() =~= join_lines(ls));
}

/// `(sl, sc)` to `(el, ec)` is a range of existing positions, start first.
pub open spec fn range_valid(b: Seq<Seq<char>>, sl: int, sc: int, el: int, ec: int) -> bool {
    valid_pos(b, sl, sc) && valid_pos(b, el, ec) && (sl < el || (sl == el && sc <= ec))
}

/// The deletion of the range also takes the line break after `el`: on one
/// line when the range is the whole line, across lines when it reaches the
/// end of `el`.
pub open spec fn takes_break(b: Seq<Seq<char>>, sl: int, sc: int, el: int, ec: int) -> bool {
    ec == b[el].len() && (sl < el || sc == 0)
}

/// The text that deleting the range removes, lines joined by line breaks,
/// with a line break at the end where the range reaches the end of `el`.
pub open spec fn spec_removed_text(b: Seq<Seq<char>>, sl: int, sc: int, el: int, ec: int) -> Seq<
    char,
> {
    if sl == el {
        if takes_break(b, sl, sc, el, ec) {
            b[sl].push(NEWLINE)
        } else {
            b[sl].subrange(sc, ec)
        }
    } else {
        let t = join_lines(seq![b[sl].skip(sc)] + b.subrange(sl + 1, el) + seq![b[el].take(ec)]);
        if ec == b[el].len() {
            t.push(NEWLINE)
        } else {
            t
        }
    }
}

/// The buffer after deleting the range.
pub open spec fn spec_delete_range(b: Seq<Seq<char>>, sl: int, sc: int, el: int, ec: int) -> Seq<
    Seq<char>,
> {
    if sl == el {
        if takes_break(b, sl, sc, el, ec) {
            b.remove(sl)
        } else {
            b.update(sl, b[sl].take(sc) + b[sl].skip(ec))
        }
    } else if ec < b[el].len() {
        b.take(sl) + seq![b[sl].take(sc) + b[el].skip(ec)] + b.skip(el + 1)
    } else if el + 1 < b.len() {
        b.take(sl) + seq![b[sl].take(sc) + b[el + 1]] + b.skip(el + 2)
    } else {
        b.take(sl) + seq![b[sl].take(sc)]
    }
}

/// The pieces of inserted text between the head and the tail of the line
/// they go into.
pub open spec fn framed(parts: Seq<Seq<char>>, head: Seq<char>, tail: Seq<char>) -> Seq<Seq<char>> {
    if parts.len() == 1 {
        seq![head + parts[0] + tail]
    } else {
        seq![head + parts[0]] + parts.subrange(1, parts.len() - 1) + seq![parts.last() + tail]
    }
}

/// The buffer after inserting `text` at `(line, col)`.
pub open spec fn spec_insert_range(b: Seq<Seq<char>>, line: int, col: int, text: Seq<char>) -> Seq<
    Seq<char>,
> {
    let p = padded(b, line);
    p.take(line) + framed(split_text(text), p[line].take(col), p[line].skip(col)) + p.skip(line + 1)
}

/// The position right after the text inserted at `(line, col)`.
pub open spec fn spec_insert_end(line: int, col: int, text: Seq<char>) -> (int, int) {
    let parts = split_text(text);
    if parts.len() == 1 {
        (line, col + text.len())
    } else {
        (line + parts.len() - 1, parts.last().len() as int)
    }
}

/// Appends the characters of `src` to `out`.
fn append_chars(out: &mut Vec<char>, src: &Vec<char>)
    ensures
        final(out)@ == old(out)@ + src@,
{
    let mut i: usize = 0;
    while i < src.len()
        invariant
            i <= src.len(),
            out@ == old(out)@ + src@.take(i as int),
        decreases src.len() - i,
    {
        out.push(src[i]);
        i = i + 1;
        assert(out@ =~= old(out)@ + src@.take(i as int));
    }
    assert(src@.take(src.len() as int) =~= src@);
}

/// The lines joined by line breaks.
pub fn join(ls: &Vec<Vec<char>>) -> (r: Vec<char>)
    ensures
        r@ == join_lines(lines_of(ls@)),
{
    let mut out: Vec<char> = Vec::new();
    let mut i: usize = 0;
    while i < ls.len()
        invariant
            i <= ls.len(),
            out@ == join_lines(lines_of(ls@).take(i as int)),
        decreases ls.len() - i,
    {
        let ghost prev = lines_of(ls@).take(i as int);
        if i > 0 {
            out.push(NEWLINE);
        }
        append_chars(&mut out, &ls[i]);
        i = i + 1;
        let ghost cur = lines_of(ls@).take(i as int);
        assert(cur.drop_last() =~= prev);
        if i == 1 {
            assert(out@ =~= join_lines(cur));
        }
    }
    assert(lines_of(ls@).take(ls.len() as int) =~= lines_of(ls@));
    out
}

/// The text cut at each line break.
pub fn split(t: &Vec<char>) -> (r: Vec<Vec<char>>)
    ensures
        lines_of(r@) == split_text(t@),
{
    let mut parts: Vec<Vec<char>> = Vec::new();
    let mut cur: Vec<char> = Vec::new();
    let mut i: usize = 0;
    while i < t.len()
        invariant
            i <= t.len(),
            lines_of(parts@).push(cur@) == split_text(t@.take(i as int)),
        decreases t.len() - i,
    {
        let ghost prev = t@.take(i as int);
        let c = t[i];
        i = i + 1;
        assert(t@.take(i as int).drop_last() =~= prev);
        if c == NEWLINE {
            parts.push(cur);
            cur = Vec::new();
            assert(lines_of(parts@).push(cur@) =~= split_text(prev).push(Seq::<char>::empty()));
        } else {
            cur.push(c);
            assert(lines_of(parts@).push(cur@) =~= split_text(t@.take(i as int)));
        }
    }
    assert(t@.take(t.len() as int) =~= t@);
    parts.push(cur);
    parts
}

/// The two ends of a range in document order.
pub open spec fn ordered(a: (usize, usize), b: (usize, usize)) -> ((usize, usize), (usize, usize)) {
    if a.0 < b.0 || (a.0 == b.0 && a.1 <= b.1) {
        (a, b)
    } else {
        (b, a)
    }
}

/// The range of `(start, stop)`, put in order, is valid in `b`.
pub open spec fn range_ok(b: Seq<Seq<char>>, start: (usize, usize), stop: (usize, usize)) -> bool {
    let (s, e) = ordered(start, stop);
    range_valid(b, s.0 as int, s.1 as int, e.0 as int, e.1 as int)
}

/// Deletes the text between `start` and `stop`, whichever comes first, and
/// returns it (see `spec_removed_text`).
pub fn delete_range(buf: &mut Vec<Vec<char>>, start: (usize, usize), stop: (usize, usize)) -> (r:
    Result<Vec<char>, EditError>)
    ensures
        ({
            let b = lines_of(old(buf)@);
            let (s, e) = ordered(start, stop);
            let (sl, sc, el, ec) = (s.0 as int, s.1 as int, e.0 as int, e.1 as int);
            &&& range_ok(b, start, stop) ==> r is Ok && r->Ok_0@ == spec_removed_text(
                b,
                sl,
                sc,
                el,
                ec,
            ) && lines_of(final(buf)@) == spec_delete_range(b, sl, sc, el, ec)
            &&& !range_ok(b, start, stop) ==> r == Err::<Vec<char>, EditError>(
                EditError::OutOfRange,
            ) && final(buf)@ == old(buf)@
        }),
{
    let ghost b = lines_of(buf@);
    let (s, e) = if start.0 < stop.0 || (start.0 == stop.0 && start.1 <= stop.1) {
        (start, stop)
    } else {
        (stop, start)
    };
    let (sl, sc, el, ec) = (s.0, s.1, e.0, e.1);
    if el >= buf.len() || ec > buf[el].len() || sc > buf[sl].len() {
        return Err(EditError::OutOfRange);
    }
    assert(buf@[sl as int]@ == b[sl as int]);
    assert(buf@[el as int]@ == b[el as int]);
    if sl == el {
        if sc == 0 && ec == buf[el].len() {
            let ghost before = buf@;
            let mut text = buf.remove(sl);
            text.push(NEWLINE);
            assert(takes_break(b, sl as int, sc as int, el as int, ec as int));
            assert forall|i: int| 0 <= i < buf@.len() implies buf@[i]@ == b.remove(sl as int)[i] by {
                if i < sl {
                    assert(buf@[i] == before[i]);
                } else {
                    assert(buf@[i] == before[i + 1]);
                }
            }
            assert(lines_of(buf@) =~= spec_delete_range(b, sl as int, sc as int, el as int, ec as int));
            return Ok(text);
        }
        let mut tail = buf[sl].split_off(ec);
        let text = buf[sl].split_off(sc);
        buf[sl].append(&mut tail);
        assert(!takes_break(b, sl as int, sc as int, el as int, ec as int));
        assert(text@ =~= spec_removed_text(b, sl as int, sc as int, el as int, ec as int));
        assert(buf@[sl as int]@ =~= b[sl as int].take(sc as int) + b[sl as int].skip(ec as int));
        assert(lines_of(buf@) =~= spec_delete_range(b, sl as int, sc as int, el as int, ec as int));
        return Ok(text);
    }
    let mut later = buf.split_off(sl + 1);
    let mut first = buf.remove(sl);
    let removed_first = first.split_off(sc);
    let mut after = later.split_off(el - sl);
    let mut mids = later;
    let mut last = mids.remove(el - sl - 1);
    let mut last_tail = last.split_off(ec);
    assert(lines_of(mids@) =~= b.subrange(sl + 1, el as int));
    assert(lines_of(after@) =~= b.skip(el + 1));
    let mut pieces: Vec<Vec<char>> = Vec::new();
    pieces.push(removed_first);
    pieces.append(&mut mids);
    pieces.push(last);
    assert(lines_of(pieces@) =~= seq![b[sl as int].skip(sc as int)] + b.subrange(sl + 1, el as int)
        + seq![b[el as int].take(ec as int)]);
    let mut text = join(&pieces);
    assert(lines_of(buf@) =~= b.take(sl as int));
    if last_tail.len() > 0 {
        first.append(&mut last_tail);
        buf.push(first);
        buf.append(&mut after);
    } else {
        text.push(NEWLINE);
        if after.len() > 0 {
            let mut next = after.remove(0);
            first.append(&mut next);
            buf.push(first);
            buf.append(&mut after);
        } else {
            buf.push(first);
        }
    }
    assert(lines_of(buf@) =~= spec_delete_range(b, sl as int, sc as int, el as int, ec as int));
    Ok(text)
}

/// Inserts `text`, which may hold line breaks, at `(line, col)`: the line is
/// cut there and the pieces of the text go between its head and its tail.
/// Returns the position right after the inserted text. Where `line` is past
/// the end the buffer is first extended with empty lines.
pub fn insert_range(buf: &mut Vec<Vec<char>>, line: usize, col: usize, text: &Vec<char>) -> (r:
    Result<(usize, usize), EditError>)
    ensures
        insertable(lines_of(old(buf)@), line as int, col as int) ==> r is Ok && lines_of(final(buf)@)
            == spec_insert_range(lines_of(old(buf)@), line as int, col as int, text@) && (
        r->Ok_0.0 as int, r->Ok_0.1 as int) == spec_insert_end(line as int, col as int, text@),
        !insertable(lines_of(old(buf)@), line as int, col as int) ==> r == Err::<
            (usize, usize),
            EditError,
        >(EditError::OutOfRange) && final(buf)@ == old(buf)@,
{
    if line < buf.len() {
        if col > buf[line].len() {
            return Err(EditError::OutOfRange);
        }
    } else if col != 0 {
        return Err(EditError::OutOfRange);
    }
    let ghost b0 = lines_of(buf@);
    while buf.len() <= line
        invariant
            b0 == lines_of(old(buf)@),
            b0.len() <= buf.len(),
            line >= b0.len() ==> buf.len() <= line + 1,
            line < b0.len() ==> buf.len() == b0.len(),
            lines_of(buf@) == b0 + Seq::new(
                (buf.len() - b0.len()) as nat,
                |i: int| Seq::<char>::empty(),
            ),
        decreases line + 1 - buf.len(),
    {
        let ghost prev = lines_of(buf@);
        buf.push(Vec::new());
        assert(lines_of(buf@) =~= prev.push(Seq::<char>::empty()));
        assert(lines_of(buf@) =~= b0 + Seq::new(
            (buf.len() - b0.len()) as nat,
            |i: int| Seq::<char>::empty(),
        ));
    }
    let ghost p = lines_of(buf@);
    assert(p =~= padded(b0, line as int));
    assert(buf@[line as int]@ == p[line as int]);
    let mut parts = split(text);
    proof {
        lemma_split_nonempty(text@);
    }
    let mut after = buf.split_off(line + 1);
    let mut head = buf.remove(line);
    let mut tail = head.split_off(col);
    let n = parts.len();
    let end: (usize, usize);
    if n == 1 {
        let mut piece = parts.remove(0);
        proof {
            lemma_split_single(text@);
        }
        head.append(&mut piece);
        end = (line, head.len());
        head.append(&mut tail);
        buf.push(head);
    } else {
        let mut last = parts.remove(n - 1);
        let last_len = last.len();
        let mut first = parts.remove(0);
        head.append(&mut first);
        buf.push(head);
        buf.append(&mut parts);
        last.append(&mut tail);
        buf.push(last);
        end = (buf.len() - 1, last_len);
    }
    buf.append(&mut after);
    assert(lines_of(buf@) =~= spec_insert_range(b0, line as int, col as int, text@));
    Ok(end)
}

/// Inserting the text that a range deletion removed, at the start of the
/// range, gives back the buffer, line count included. Excluded is a deletion
/// that takes the line break after the last line, which does not exist.
pub proof fn lemma_delete_then_insert(b: Seq<Seq<char>>, sl: int, sc: int, el: int, ec: int)
    requires
        no_breaks(b),
        range_valid(b, sl, sc, el, ec),
        takes_break(b, sl, sc, el, ec) ==> el + 1 < b.len(),
    ensures
        spec_insert_range(
            spec_delete_range(b, sl, sc, el, ec),
            sl,
            sc,
            spec_removed_text(b, sl, sc, el, ec),
        ) == b,
{
    let d = spec_delete_range(b, sl, sc, el, ec);
    let t = spec_removed_text(b, sl, sc, el, ec);
    let r = spec_insert_range(d, sl, sc, t);
    if sl == el {
        if takes_break(b, sl, sc, el, ec) {
            assert(no_break(b[sl]));
            assert(seq![b[sl]].len() == 1);
            lemma_split_join_break(seq![b[sl]]);
            assert(join_lines(seq![b[sl]]) == b[sl]);
            assert(split_text(t) == seq![b[sl], Seq::<char>::empty()]);
            assert(padded(d, sl) == d);
            assert(d[sl].take(sc) =~= Seq::<char>::empty());
            assert(d[sl].skip(sc) =~= b[sl + 1]);
            assert(Seq::<char>::empty() + b[sl] =~= b[sl]);
            assert(Seq::<char>::empty() + b[sl + 1] =~= b[sl + 1]);
            assert(r =~= b);
        } else {
            let piece = b[sl].subrange(sc, ec);
            assert(no_break(piece)) by {
                assert forall|j: int| 0 <= j < piece.len() implies piece[j] != NEWLINE by {
                    assert(piece[j] == b[sl][sc + j]);
                }
            }
            lemma_split_join(seq![piece]);
            assert(split_text(t) == seq![piece]);
            assert(padded(d, sl) == d);
            assert(d[sl].take(sc) =~= b[sl].take(sc));
            assert(d[sl].skip(sc) =~= b[sl].skip(ec));
            assert(b[sl].take(sc) + piece + b[sl].skip(ec) =~= b[sl]);
            assert(r =~= b);
        }
    } else {
        let ls = seq![b[sl].skip(sc)] + b.subrange(sl + 1, el) + seq![b[el].take(ec)];
        assert(no_breaks(ls)) by {
            assert forall|i: int, j: int| 0 <= i < ls.len() && 0 <= j < ls[i].len() implies ls[i][j]
                != NEWLINE by {
                if i == 0 {
                    assert(ls[i][j] == b[sl][sc + j]);
                } else if i == ls.len() - 1 {
                    assert(ls[i][j] == b[el][j]);
                } else {
                    assert(ls[i] == b[sl + i]);
                }
            }
        }
        assert(padded(d, sl) == d);
        assert(d[sl].take(sc) =~= b[sl].take(sc));
        assert(b[sl].take(sc) + b[sl].skip(sc) =~= b[sl]);
        if ec < b[el].len() {
            lemma_split_join(ls);
            assert(split_text(t) == ls);
            assert(d[sl].skip(sc) =~= b[el].skip(ec));
            assert(b[el].take(ec) + b[el].skip(ec) =~= b[el]);
            assert(ls.subrange(1, ls.len() - 1) =~= b.subrange(sl + 1, el));
            assert(r =~= b);
        } else {
            lemma_split_join_break(ls);
            assert(split_text(t) == ls.push(Seq::<char>::empty()));
            assert(d[sl].skip(sc) =~= b[el + 1]);
            assert(b[el].take(ec) =~= b[el]);
            assert(Seq::<char>::empty() + b[el + 1] =~= b[el + 1]);
            assert(ls.push(Seq::<char>::empty()).subrange(1, ls.len() as int) =~= b.subrange(
                sl + 1,
                el,
            ).push(b[el]));
            assert(r =~= b);
        }
    }
}

/// The pieces of a cut text hold no line break.
pub proof fn lemma_split_plain(t: Seq<char>)
    ensures
        no_breaks(split_text(t)),
    decreases t.len(),
{
    if t.len() > 0 {
        lemma_split_plain(t.drop_last());
        lemma_split_nonempty(t.drop_last());
        let r = split_text(t.drop_last());
        let s = split_text(t);
        assert forall|i: int, j: int| 0 <= i < s.len() && 0 <= j < s[i].len() implies s[i][j]
            != NEWLINE by {
            if t.last() != NEWLINE && i == r.len() - 1 {
                if j < r[i].len() {
                    assert(s[i][j] == r[i][j]);
                }
            } else if i < r.len() {
                assert(s[i] == r[i]);
            }
        }
    }
}

/// Each primitive edit keeps lines free of line breaks (inserting a
/// character other than a line break).
pub proof fn lemma_edits_keep_plain(b: Seq<Seq<char>>)
    requires
        no_breaks(b),
    ensures
        forall|line: int, col: int, ch: char|
            insertable(b, line, col) && ch != NEWLINE ==> #[trigger] no_breaks(
                spec_insert_char(b, line, col, ch),
            ),
        forall|line: int, col: int|
            valid_pos(b, line, col) && col > 0 ==> #[trigger] no_breaks(
                spec_delete_char(b, line, col),
            ),
        forall|line: int, index: int|
            valid_pos(b, line, index) ==> #[trigger] no_breaks(spec_split_line(b, line, index)),
        forall|line: int| 0 <= line && line + 1 < b.len() ==> #[trigger] no_breaks(
            spec_merge_lines(b, line),
        ),
        forall|sl: int, sc: int, el: int, ec: int|
            range_valid(b, sl, sc, el, ec) ==> #[trigger] no_breaks(
                spec_delete_range(b, sl, sc, el, ec),
            ),
        forall|line: int, col: int, t: Seq<char>|
            insertable(b, line, col) ==> #[trigger] no_breaks(spec_insert_range(b, line, col, t)),
{
    assert forall|line: int, col: int, ch: char|
        insertable(b, line, col) && ch != NEWLINE implies #[trigger] no_breaks(
        spec_insert_char(b, line, col, ch),
    ) by {
        let p = padded(b, line);
        let r = spec_insert_char(b, line, col, ch);
        assert forall|i: int, j: int| 0 <= i < r.len() && 0 <= j < r[i].len() implies r[i][j]
            != NEWLINE by {
            if i < b.len() && i != line {
                assert(r[i] == b[i]);
            } else if i == line {
                if j < col {
                    assert(r[i][j] == p[i][j]);
                } else if j > col {
                    assert(r[i][j] == p[i][j - 1]);
                }
                if i < b.len() {
                    assert(p[i] == b[i]);
                }
            }
        }
    }
    assert forall|line: int, col: int| valid_pos(b, line, col) && col > 0 implies #[trigger] no_breaks(
        spec_delete_char(b, line, col),
    ) by {
        let r = spec_delete_char(b, line, col);
        assert forall|i: int, j: int| 0 <= i < r.len() && 0 <= j < r[i].len() implies r[i][j]
            != NEWLINE by {
            if i == line {
                if j < col - 1 {
                    assert(r[i][j] == b[i][j]);
                } else {
                    assert(r[i][j] == b[i][j + 1]);
                }
            }
        }
    }
    assert forall|line: int, index: int| valid_pos(b, line, index) implies #[trigger] no_breaks(
        spec_split_line(b, line, index),
    ) by {
        let r = spec_split_line(b, line, index);
        assert forall|i: int, j: int| 0 <= i < r.len() && 0 <= j < r[i].len() implies r[i][j]
            != NEWLINE by {
            if i < line {
                assert(r[i] == b[i]);
            } else if i == line {
                assert(r[i][j] == b[line][j]);
            } else if i == line + 1 {
                assert(r[i][j] == b[line][index + j]);
            } else {
                assert(r[i] == b[i - 1]);
            }
        }
    }
    assert forall|line: int| 0 <= line && line + 1 < b.len() implies #[trigger] no_breaks(
        spec_merge_lines(b, line),
    ) by {
        let r = spec_merge_lines(b, line);
        assert forall|i: int, j: int| 0 <= i < r.len() && 0 <= j < r[i].len() implies r[i][j]
            != NEWLINE by {
            if i < line {
                assert(r[i] == b[i]);
            } else if i == line {
                if j < b[line].len() {
                    assert(r[i][j] == b[line][j]);
                } else {
                    assert(r[i][j] == b[line + 1][j - b[line].len()]);
                }
            } else {
                assert(r[i] == b[i + 1]);
            }
        }
    }
    assert forall|sl: int, sc: int, el: int, ec: int| range_valid(b, sl, sc, el, ec) implies #[trigger] no_breaks(
        spec_delete_range(b, sl, sc, el, ec),
    ) by {
        let r = spec_delete_range(b, sl, sc, el, ec);
        assert forall|i: int, j: int| 0 <= i < r.len() && 0 <= j < r[i].len() implies r[i][j]
            != NEWLINE by {
            if sl == el {
                if takes_break(b, sl, sc, el, ec) {
                    if i < sl {
                        assert(r[i] == b[i]);
                    } else {
                        assert(r[i] == b[i + 1]);
                    }
                } else if i == sl {
                    if j < sc {
                        assert(r[i][j] == b[sl][j]);
                    } else {
                        assert(r[i][j] == b[sl][ec + j - sc]);
                    }
                } else {
                    assert(r[i] == b[i]);
                }
            } else if i < sl {
                assert(r[i] == b[i]);
            } else if i == sl {
                if j < sc {
                    assert(r[i][j] == b[sl][j]);
                } else if ec < b[el].len() {
                    assert(r[i][j] == b[el][ec + j - sc]);
                } else if el + 1 < b.len() {
                    assert(r[i][j] == b[el + 1][j - sc]);
                }
            } else if ec < b[el].len() {
                assert(r[i] == b[el + 1 + i - sl - 1]);
            } else {
                assert(r[i] == b[el + 2 + i - sl - 1]);
            }
        }
    }
    assert forall|line: int, col: int, t: Seq<char>| insertable(b, line, col) implies #[trigger] no_breaks(
        spec_insert_range(b, line, col, t),
    ) by {
        let p = padded(b, line);
        let parts = split_text(t);
        lemma_split_plain(t);
        lemma_split_nonempty(t);
        assert(no_breaks(p)) by {
            assert forall|i: int, j: int| 0 <= i < p.len() && 0 <= j < p[i].len() implies p[i][j]
                != NEWLINE by {
                if i < b.len() {
                    assert(p[i] == b[i]);
                }
            }
        }
        let head = p[line].take(col);
        let tail = p[line].skip(col);
        let f = framed(parts, head, tail);
        assert(no_breaks(f)) by {
            assert forall|i: int, j: int| 0 <= i < f.len() && 0 <= j < f[i].len() implies f[i][j]
                != NEWLINE by {
                let n = parts.len() as int;
                if n == 1 {
                    let x = head + parts[0] + tail;
                    assert(f[i] == x);
                    if j < head.len() {
                        assert(x[j] == p[line][j]);
                    } else if j < head.len() + parts[0].len() {
                        assert(x[j] == parts[0][j - head.len()]);
                    } else {
                        assert(x[j] == p[line][col + j - head.len() - parts[0].len()]);
                    }
                } else if i == 0 {
                    if j < head.len() {
                        assert(f[i][j] == p[line][j]);
                    } else {
                        assert(f[i][j] == parts[0][j - head.len()]);
                    }
                } else if i == f.len() - 1 {
                    if j < parts[n - 1].len() {
                        assert(f[i][j] == parts[n - 1][j]);
                    } else {
                        assert(f[i][j] == p[line][col + j - parts[n - 1].len()]);
                    }
                } else {
                    assert(f[i] == parts[i]);
                }
            }
        }
        let r = spec_insert_range(b, line, col, t);
        assert forall|i: int, j: int| 0 <= i < r.len() && 0 <= j < r[i].len() implies r[i][j]
            != NEWLINE by {
            if i < line {
                assert(r[i] == p[i]);
            } else if i < line + f.len() {
                assert(r[i] == f[i - line]);
            } else {
                assert(r[i] == p[i - f.len() + 1]);
            }
        }
    }
}

/// Deleting from the insertion point to the end of text just inserted gives
/// back the buffer, where the line held characters after the insertion
/// point (else the deletion would also take the line break after it).
pub proof fn lemma_insert_then_delete(b: Seq<Seq<char>>, l: int, c: int, t: Seq<char>)
    requires
        valid_pos(b, l, c),
        c < b[l].len(),
    ensures
        ({
            let r = spec_insert_range(b, l, c, t);
            let (el, ec) = spec_insert_end(l, c, t);
            &&& range_valid(r, l, c, el, ec)
            &&& spec_delete_range(r, l, c, el, ec) == b
        }),
{
    let parts = split_text(t);
    lemma_split_nonempty(t);
    let n = parts.len() as int;
    let head = b[l].take(c);
    let tail = b[l].skip(c);
    let r = spec_insert_range(b, l, c, t);
    let (el, ec) = spec_insert_end(l, c, t);
    assert(padded(b, l) == b);
    if n == 1 {
        lemma_split_single(t);
        assert(r[l] == head + t + tail);
        assert(r[l].take(c) =~= head);
        assert(r[l].skip(c + t.len()) =~= tail);
        assert(head + tail =~= b[l]);
        assert(spec_delete_range(r, l, c, el, ec) =~= b);
    } else {
        let last = parts[n - 1];
        assert(r[l] == head + parts[0]);
        assert(r[el] == last + tail);
        assert(r[l].take(c) =~= head);
        assert(r[el].skip(ec) =~= tail);
        assert(head + tail =~= b[l]);
        assert(r.take(l) =~= b.take(l));
        assert(r.skip(el + 1) =~= b.skip(l + 1));
        assert(spec_delete_range(r, l, c, el, ec) =~= b);
    }
}

/// `k` line breaks.
pub open spec fn newlines(k: nat) -> Seq<char> {
    Seq::new(k, |i: int| NEWLINE)
}

/// `k` empty lines.
pub open spec fn empty_lines(k: nat) -> Seq<Seq<char>> {
    Seq::new(k, |i: int| Seq::<char>::empty())
}

proof fn lemma_split_newlines(k: nat)
    ensures
        split_text(newlines(k)) == empty_lines(k + 1),
    decreases k,
{
    if k > 0 {
        lemma_split_newlines((k - 1) as nat);
        assert(newlines(k).drop_last() =~= newlines((k - 1) as nat));
        assert(newlines(k).last() == NEWLINE);
        assert(empty_lines(k as nat).push(Seq::<char>::empty()) =~= empty_lines(k + 1));
    } else {
        assert(split_text(newlines(0)) =~= empty_lines(1));
    }
}

/// Inserting `k` line breaks at the end of the last line adds `k` empty
/// lines.
pub proof fn lemma_pad_by_breaks(b: Seq<Seq<char>>, k: nat)
    requires
        b.len() >= 1,
        k >= 1,
    ensures
        spec_insert_range(b, b.len() - 1, b[b.len() - 1].len() as int, newlines(k)) == b
            + empty_lines(k),
        b + empty_lines(k) == padded(b, b.len() - 1 + k),
{
    lemma_split_newlines(k);
    let l = b.len() - 1;
    let parts = split_text(newlines(k));
    assert(padded(b, l) == b);
    assert(b[l].take(b[l].len() as int) =~= b[l]);
    assert(b[l].skip(b[l].len() as int) =~= Seq::<char>::empty());
    assert(b[l] + Seq::<char>::empty() =~= b[l]);
    assert(Seq::<char>::empty() + Seq::<char>::empty() =~= Seq::<char>::empty());
    let f = framed(parts, b[l], Seq::<char>::empty());
    assert(f =~= seq![b[l]] + empty_lines(k));
    assert(spec_insert_range(b, l, b[l].len() as int, newlines(k)) =~= b + empty_lines(k));
    assert(b + empty_lines(k) =~= padded(b, b.len() - 1 + k));
}

/// Inserting nothing into an empty buffer adds one empty line.
pub proof fn lemma_pad_empty(b: Seq<Seq<char>>)
    requires
        b.len() == 0,
    ensures
        spec_insert_range(b, 0, 0, Seq::<char>::empty()) == empty_lines(1),
        empty_lines(1) == padded(b, 0),
        padded(empty_lines(1), 0) == empty_lines(1),
{
    assert(split_text(Seq::<char>::empty()) == seq![Seq::<char>::empty()]);
    let p = padded(b, 0);
    assert(p =~= empty_lines(1));
    assert(p[0].take(0) =~= Seq::<char>::empty());
    assert(p[0].skip(0) =~= Seq::<char>::empty());
    assert(Seq::<char>::empty() + Seq::<char>::empty() + Seq::<char>::empty() =~= Seq::<
        char,
    >::empty());
    assert(spec_insert_range(b, 0, 0, Seq::<char>::empty()) =~= empty_lines(1));
}

/// Padding reached in two steps is padding reached in one.
pub proof fn lemma_padded_twice(b: Seq<Seq<char>>, line: int)
    requires
        b.len() == 0,
        line >= 1,
    ensures
        padded(empty_lines(1), line) == padded(b, line),
{
    assert(padded(empty_lines(1), line) =~= padded(b, line));
}

/// Deleting from the insertion point to the end of text that ended in a
/// line break, inserted at the end of the last line, gives back the buffer.
pub proof fn lemma_append_then_delete(b: Seq<Seq<char>>, t: Seq<char>)
    requires
        b.len() >= 1,
        t.len() > 0,
        t.last() == NEWLINE,
    ensures
        ({
            let l = b.len() - 1;
            let c = b[l].len() as int;
            let r = spec_insert_range(b, l, c, t);
            let (el, ec) = spec_insert_end(l, c, t);
            &&& range_valid(r, l, c, el, ec)
            &&& spec_delete_range(r, l, c, el, ec) == b
        }),
{
    let l = b.len() - 1;
    let c = b[l].len() as int;
    lemma_split_nonempty(t.drop_last());
    let parts = split_text(t);
    let n = parts.len() as int;
    assert(n >= 2);
    assert(parts.last() == Seq::<char>::empty());
    let r = spec_insert_range(b, l, c, t);
    assert(padded(b, l) == b);
    assert(b[l].take(c) =~= b[l]);
    assert(b[l].skip(c) =~= Seq::<char>::empty());
    assert(r.len() == l + n);
    assert(r[l] == b[l] + parts[0]);
    assert(r[l + n - 1] == parts[n - 1] + Seq::<char>::empty());
    assert(r[l + n - 1] =~= Seq::<char>::empty());
    assert(r[l].take(c) =~= b[l]);
    assert(r.take(l) =~= b.take(l));
    assert(spec_delete_range(r, l, c, l + n - 1, 0) =~= b);
}

/// Inserting nothing into an empty buffer is undone by deleting the empty
/// range at its start.
pub proof fn lemma_pad_empty_then_delete(b: Seq<Seq<char>>)
    requires
        b.len() == 0,
    ensures
        range_valid(spec_insert_range(b, 0, 0, Seq::<char>::empty()), 0, 0, 0, 0),
        spec_delete_range(spec_insert_range(b, 0, 0, Seq::<char>::empty()), 0, 0, 0, 0) == b,
        spec_insert_end(0, 0, Seq::<char>::empty()) == (0int, 0int),
{
    lemma_pad_empty(b);
    let r = spec_insert_range(b, 0, 0, Seq::<char>::empty());
    assert(r[0].len() == 0);
    assert(r.remove(0) =~= b);
}

} // verus!
