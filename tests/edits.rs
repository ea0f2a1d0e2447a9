use tpad::document::{move_curs, CursorDirection, Document, EditorState};
use tpad::error::EditError;
use tpad::history::{EditOp, UndoStack};

fn doc(text: &str) -> Document {
    let mut d = Document::new(String::from("notes.txt"), String::from("-rw-r--r--"), 0, text);
    d.state.window_height = 10;
    d
}

fn lines(d: &Document) -> Vec<String> {
    d.content.iter().map(|l| l.iter().collect()).collect()
}

fn cursor(d: &Document) -> (usize, usize) {
    (d.state.scroll_offset + d.state.curs_y, d.state.curs_x)
}

#[test]
fn new_reads_lines_of_a_file() {
    let d = doc("one\r\ntwo\n\nthree\n");
    assert_eq!(lines(&d), vec!["one", "two", "", "three"]);
    assert!(!d.state.is_dirty);
    assert_eq!(d.file_path, "notes.txt");
    let empty = doc("");
    assert_eq!(empty.content.len(), 0);
}

#[test]
fn insert_char_then_undo_restores_hello_world() {
    let mut d = doc("hello\nworld");
    assert_eq!(d.insert_char(0, 5, '!'), Ok(()));
    assert_eq!(lines(&d), vec!["hello!", "world"]);
    assert_eq!(cursor(&d), (0, 6));
    assert!(d.state.is_dirty);
    assert_eq!(d.undo(), Ok(()));
    assert_eq!(lines(&d), vec!["hello", "world"]);
    assert_eq!(cursor(&d), (0, 5));
}

#[test]
fn insert_char_past_the_end_adds_lines() {
    let mut d = doc("a");
    assert_eq!(d.insert_char(2, 0, 'x'), Ok(()));
    assert_eq!(lines(&d), vec!["a", "", "x"]);
    assert_eq!(d.insert_char(5, 1, 'y'), Err(EditError::OutOfRange));
    assert_eq!(lines(&d), vec!["a", "", "x"]);
}

#[test]
fn insert_char_rejects_a_column_past_the_line() {
    let mut d = doc("abc");
    assert_eq!(d.insert_char(0, 4, 'x'), Err(EditError::OutOfRange));
    assert_eq!(lines(&d), vec!["abc"]);
    assert_eq!(d.state.undo_stack.stack.len(), 0);
}

#[test]
fn insert_char_of_a_line_break_splits() {
    let mut d = doc("abcd");
    assert_eq!(d.insert_char(0, 2, '\n'), Ok(()));
    assert_eq!(lines(&d), vec!["ab", "cd"]);
    assert_eq!(cursor(&d), (1, 0));
}

#[test]
fn delete_char_removes_the_character_before_the_column() {
    let mut d = doc("abc");
    assert_eq!(d.delete_char(0, 2), Ok(()));
    assert_eq!(lines(&d), vec!["ac"]);
    assert_eq!(cursor(&d), (0, 1));
    assert_eq!(
        d.state.undo_stack.stack[0],
        EditOp::DeleteChar { line: 0, col: 1, ch: 'b', applied: true }
    );
    assert_eq!(d.delete_char(0, 0), Err(EditError::OutOfRange));
    assert_eq!(d.delete_char(1, 1), Err(EditError::OutOfRange));
    assert_eq!(d.undo(), Ok(()));
    assert_eq!(lines(&d), vec!["abc"]);
}

#[test]
fn split_then_merge_restores_each_split_point() {
    for i in 0..=6 {
        let mut d = doc("banana\nx");
        assert_eq!(d.split_lines(0, i), Ok(()));
        assert_eq!(lines(&d), vec![&"banana"[..i], &"banana"[i..], "x"]);
        assert_eq!(cursor(&d), (1, 0));
        assert_eq!(d.merge_lines(0, 1), Ok(()));
        assert_eq!(lines(&d), vec!["banana", "x"]);
        assert_eq!(cursor(&d), (0, i));
    }
}

#[test]
fn split_at_line_edges() {
    let mut d = doc("abc");
    assert_eq!(d.split_lines(0, 3), Ok(()));
    assert_eq!(lines(&d), vec!["abc", ""]);
    let mut e = doc("abc");
    assert_eq!(e.split_lines(0, 0), Ok(()));
    assert_eq!(lines(&e), vec!["", "abc"]);
    assert_eq!(e.split_lines(0, 1), Err(EditError::OutOfRange));
    assert_eq!(e.split_lines(7, 0), Err(EditError::OutOfRange));
}

#[test]
fn merge_lines_needs_the_next_line() {
    let mut d = doc("a\nb\nc");
    assert_eq!(d.merge_lines(0, 2), Err(EditError::OutOfRange));
    assert_eq!(d.merge_lines(2, 3), Err(EditError::OutOfRange));
    assert_eq!(d.merge_lines(1, 2), Ok(()));
    assert_eq!(lines(&d), vec!["a", "bc"]);
    assert_eq!(cursor(&d), (1, 1));
}

#[test]
fn delete_range_across_lines_and_insert_back() {
    let mut d = doc("abcdef\nghijkl");
    let removed = d.delete_selection((0, 2), (1, 3)).unwrap();
    assert_eq!(removed, "cdef\nghi");
    assert_eq!(lines(&d), vec!["abjkl"]);
    assert_eq!(cursor(&d), (0, 2));
    assert_eq!(d.insert_selection((0, 2), removed), Ok((1, 3)));
    assert_eq!(lines(&d), vec!["abcdef", "ghijkl"]);
}

#[test]
fn delete_range_in_reverse_order_is_normalized() {
    let mut d = doc("abcdef\nghijkl");
    let removed = d.delete_selection((1, 3), (0, 2)).unwrap();
    assert_eq!(removed, "cdef\nghi");
    assert_eq!(lines(&d), vec!["abjkl"]);
}

#[test]
fn delete_then_insert_restores_single_line() {
    let mut d = doc("hello world\nnext");
    let removed = d.delete_selection((0, 2), (0, 7)).unwrap();
    assert_eq!(removed, "llo w");
    assert_eq!(lines(&d), vec!["heorld", "next"]);
    assert_eq!(d.insert_selection((0, 2), removed), Ok((0, 7)));
    assert_eq!(lines(&d), vec!["hello world", "next"]);
}

#[test]
fn delete_of_a_whole_line_takes_its_line_break() {
    let mut d = doc("one\ntwo\nthree");
    let removed = d.delete_selection((1, 0), (1, 3)).unwrap();
    assert_eq!(removed, "two\n");
    assert_eq!(lines(&d), vec!["one", "three"]);
    d.insert_selection((1, 0), removed).unwrap();
    assert_eq!(lines(&d), vec!["one", "two", "three"]);
}

#[test]
fn delete_to_the_end_of_a_line_takes_the_break_after_it() {
    let mut d = doc("abcdef\nghi\nxyz");
    let removed = d.delete_selection((0, 2), (1, 3)).unwrap();
    assert_eq!(removed, "cdef\nghi\n");
    assert_eq!(lines(&d), vec!["abxyz"]);
    d.insert_selection((0, 2), removed).unwrap();
    assert_eq!(lines(&d), vec!["abcdef", "ghi", "xyz"]);
}

#[test]
fn delete_over_three_lines() {
    let mut d = doc("abc\ndef\nghi\njkl");
    let removed = d.delete_selection((0, 1), (2, 2)).unwrap();
    assert_eq!(removed, "bc\ndef\ngh");
    assert_eq!(lines(&d), vec!["ai", "jkl"]);
    assert_eq!(d.undo(), Ok(()));
    assert_eq!(lines(&d), vec!["abc", "def", "ghi", "jkl"]);
    assert_eq!(cursor(&d), (2, 2));
    assert_eq!(d.redo(), Ok(()));
    assert_eq!(lines(&d), vec!["ai", "jkl"]);
}

#[test]
fn delete_range_out_of_range_is_refused() {
    let mut d = doc("abc\nde");
    assert_eq!(d.delete_selection((0, 1), (1, 3)), Err(EditError::OutOfRange));
    assert_eq!(d.delete_selection((0, 1), (2, 0)), Err(EditError::OutOfRange));
    assert_eq!(lines(&d), vec!["abc", "de"]);
}

#[test]
fn insert_selection_of_several_lines() {
    let mut d = doc("start end");
    assert_eq!(d.insert_selection((0, 6), String::from("one\ntwo\nthree ")), Ok((2, 6)));
    assert_eq!(lines(&d), vec!["start one", "two", "three end"]);
    assert_eq!(cursor(&d), (2, 6));
    assert_eq!(d.undo(), Ok(()));
    assert_eq!(lines(&d), vec!["start end"]);
    assert_eq!(d.insert_selection((3, 1), String::from("x")), Err(EditError::OutOfRange));
}

#[test]
fn undo_all_then_redo_all_reproduces_the_last_edit() {
    let mut d = doc("abc\ndef");
    d.insert_char(0, 3, 'x').unwrap();
    d.split_lines(0, 2).unwrap();
    d.delete_char(2, 3).unwrap();
    d.merge_lines(1, 2).unwrap();
    d.insert_char(0, 0, '>').unwrap();
    let end_lines = lines(&d);
    let end_cursor = cursor(&d);
    let mut undos = 0;
    while d.undo().is_ok() {
        undos += 1;
    }
    assert_eq!(undos, 5);
    assert_eq!(d.undo(), Err(EditError::NothingToUndo));
    assert_eq!(lines(&d), vec!["abc", "def"]);
    while d.redo().is_ok() {}
    assert_eq!(d.redo(), Err(EditError::NothingToRedo));
    assert_eq!(lines(&d), end_lines);
    assert_eq!(cursor(&d), end_cursor);
}

#[test]
fn new_edit_after_undo_discards_redo() {
    let mut d = doc("abc");
    d.insert_char(0, 3, 'd').unwrap();
    d.insert_char(0, 4, 'e').unwrap();
    d.undo().unwrap();
    assert_eq!(d.state.undo_stack.cursor, 1);
    d.insert_char(0, 0, 'z').unwrap();
    assert_eq!(d.state.undo_stack.stack.len(), 2);
    assert_eq!(d.redo(), Err(EditError::NothingToRedo));
    assert_eq!(lines(&d), vec!["zabcd"]);
}

#[test]
fn undo_and_redo_on_an_empty_log() {
    let mut d = doc("abc");
    assert_eq!(d.undo(), Err(EditError::NothingToUndo));
    assert_eq!(d.redo(), Err(EditError::NothingToRedo));
}

#[test]
fn undo_flags_records() {
    let mut d = doc("ab");
    d.insert_char(0, 1, 'x').unwrap();
    assert!(d.state.undo_stack.stack[0].applied());
    d.undo().unwrap();
    assert!(!d.state.undo_stack.stack[0].applied());
    d.redo().unwrap();
    assert!(d.state.undo_stack.stack[0].applied());
    assert_eq!(cursor(&d), (0, 2));
}

#[test]
fn undo_of_a_stale_record_is_refused() {
    let mut d = doc("abc");
    d.state.undo_stack.push(EditOp::InsertChar { line: 4, col: 0, ch: 'q', applied: true });
    assert_eq!(d.undo(), Err(EditError::OutOfRange));
    assert_eq!(d.state.undo_stack.cursor, 1);
    assert_eq!(lines(&d), vec!["abc"]);
}

#[test]
fn undo_steps_over_a_record_already_undone() {
    let mut d = doc("abc");
    d.state.undo_stack.push(EditOp::InsertChar { line: 0, col: 0, ch: 'q', applied: false });
    assert_eq!(d.undo(), Ok(()));
    assert_eq!(d.state.undo_stack.cursor, 0);
    assert_eq!(lines(&d), vec!["abc"]);
}

#[test]
fn adjust_cursor_scrolls_down_to_show_the_line() {
    let mut d = doc("");
    d.state.window_height = 10;
    d.state.scroll_offset = 0;
    d.adjust_cursor(20, 3, false);
    assert_eq!(d.state.scroll_offset, 13);
    assert_eq!(d.state.curs_y, 7);
    assert_eq!(d.state.curs_x, 3);
}

#[test]
fn adjust_cursor_scrolls_up_and_adds_offset() {
    let mut d = doc("");
    d.state.window_height = 10;
    d.state.scroll_offset = 30;
    d.adjust_cursor(12, 4, true);
    assert_eq!(d.state.scroll_offset, 12);
    assert_eq!(d.state.curs_y, 0);
    assert_eq!(d.state.curs_x, 5);
    d.adjust_cursor(20, 0, false);
    assert_eq!(d.state.scroll_offset, 12);
    assert_eq!(d.state.curs_y, 8);
}

#[test]
fn move_cursor_clamps_and_scrolls() {
    let mut d = doc("abcd\nxy\nlonger line");
    d.state.window_height = 3;
    move_curs(&mut d, CursorDirection::Left);
    assert_eq!(cursor(&d), (0, 0));
    for _ in 0..6 {
        move_curs(&mut d, CursorDirection::Right);
    }
    assert_eq!(cursor(&d), (0, 4));
    move_curs(&mut d, CursorDirection::Down);
    assert_eq!((d.state.curs_y, d.state.scroll_offset, d.state.curs_x), (1, 0, 2));
    move_curs(&mut d, CursorDirection::Down);
    assert_eq!((d.state.curs_y, d.state.scroll_offset, d.state.curs_x), (1, 1, 2));
    move_curs(&mut d, CursorDirection::Down);
    assert_eq!(cursor(&d), (2, 2));
    move_curs(&mut d, CursorDirection::Up);
    move_curs(&mut d, CursorDirection::Up);
    assert_eq!((d.state.curs_y, d.state.scroll_offset), (0, 0));
    move_curs(&mut d, CursorDirection::Up);
    assert_eq!(cursor(&d), (0, 2));
}

#[test]
fn selection_keeps_its_anchor() {
    let mut s = EditorState::new(None);
    s.update_selection_end(3, 3);
    assert_eq!(s.selection, None);
    s.start_selection(2, 5);
    assert_eq!(s.selection, Some(((2, 5), (2, 5))));
    s.start_selection(9, 9);
    s.update_selection_end(4, 1);
    assert_eq!(s.selection, Some(((2, 5), (4, 1))));
}

#[test]
fn editor_state_starts_empty_or_restored() {
    let s = EditorState::new(None);
    assert_eq!((s.curs_x, s.curs_y, s.scroll_offset, s.window_height), (0, 0, 0, 0));
    assert!(!s.is_dirty && !s.find_active);
    let mut old = EditorState::new(None);
    old.curs_x = 7;
    let r = EditorState::new(Some(old));
    assert_eq!(r.curs_x, 7);
}

#[test]
fn push_drops_the_redoable_records() {
    let mut u = UndoStack::new(None);
    for i in 0..3 {
        u.push(EditOp::InsertChar { line: 0, col: i, ch: 'a', applied: true });
    }
    u.cursor = 1;
    u.push(EditOp::MergeLines { merged_line: 0, merge_point: 2, applied: true });
    assert_eq!(u.stack.len(), 2);
    assert_eq!(u.cursor, 2);
    assert_eq!(u.stack[1], EditOp::MergeLines { merged_line: 0, merge_point: 2, applied: true });
    u.clear();
    assert_eq!((u.stack.len(), u.cursor), (0, 0));
}

#[test]
fn update_content_marks_dirty_and_measures() {
    let mut d = doc("ab\ncde");
    d.update_content();
    assert!(d.state.is_dirty);
    assert_eq!(d.size, 6);
}

#[test]
fn update_content_splits_lines_holding_line_breaks() {
    let mut d = doc("x");
    d.content = vec!["a\nb".chars().collect(), Vec::new(), "c\n".chars().collect()];
    d.update_content();
    assert_eq!(lines(&d), vec!["a", "b", "", "c", ""]);
    assert_eq!(d.size, 7);
    d.update_content();
    assert_eq!(lines(&d), vec!["a", "b", "", "c", ""]);
}

#[test]
fn typing_past_the_end_is_undone_with_its_padding() {
    let mut d = doc("ab");
    d.insert_char(3, 0, 'x').unwrap();
    assert_eq!(lines(&d), vec!["ab", "", "", "x"]);
    assert_eq!(cursor(&d), (3, 1));
    let end = lines(&d);
    while d.undo().is_ok() {}
    assert_eq!(lines(&d), vec!["ab"]);
    while d.redo().is_ok() {}
    assert_eq!(lines(&d), end);
    assert_eq!(cursor(&d), (3, 1));
}

#[test]
fn typing_into_an_empty_document_is_undone_completely() {
    let mut d = doc("");
    d.insert_char(1, 0, 'q').unwrap();
    assert_eq!(lines(&d), vec!["", "q"]);
    while d.undo().is_ok() {}
    assert_eq!(d.content.len(), 0);
    while d.redo().is_ok() {}
    assert_eq!(lines(&d), vec!["", "q"]);
}
