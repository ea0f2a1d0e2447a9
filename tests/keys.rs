use tpad::document::{CursorDirection, Document};
use tpad::error::EditError;

fn doc(text: &str) -> Document {
    let mut d = Document::new(String::from("k.txt"), String::new(), 0, text);
    d.state.window_height = 10;
    d
}

fn lines(d: &Document) -> Vec<String> {
    d.content.iter().map(|l| l.iter().collect()).collect()
}

#[test]
fn typing_goes_in_at_the_cursor() {
    let mut d = doc("ac");
    d.adjust_cursor(0, 1, false);
    assert_eq!(d.type_char('b'), Ok(()));
    assert_eq!(lines(&d), vec!["abc"]);
    assert_eq!(d.cursor_position(), Some((0, 2)));
}

#[test]
fn typing_replaces_the_selection() {
    let mut d = doc("hello world");
    d.state.start_selection(0, 6);
    d.state.update_selection_end(0, 11);
    assert_eq!(d.type_char('W'), Ok(()));
    assert_eq!(lines(&d), vec!["hello W"]);
    assert_eq!(d.state.selection, None);
}

#[test]
fn backspace_deletes_joins_and_stops_at_the_start() {
    let mut d = doc("ab\ncd");
    d.adjust_cursor(1, 1, false);
    assert_eq!(d.backspace(), Ok(()));
    assert_eq!(lines(&d), vec!["ab", "d"]);
    assert_eq!(d.backspace(), Ok(()));
    assert_eq!(lines(&d), vec!["abd"]);
    assert_eq!(d.cursor_position(), Some((0, 2)));
    d.adjust_cursor(0, 0, false);
    assert_eq!(d.backspace(), Ok(()));
    assert_eq!(lines(&d), vec!["abd"]);
}

#[test]
fn enter_breaks_the_line_and_starts_an_empty_document() {
    let mut d = doc("abcd");
    d.adjust_cursor(0, 2, false);
    assert_eq!(d.enter(), Ok(()));
    assert_eq!(lines(&d), vec!["ab", "cd"]);
    assert_eq!(d.cursor_position(), Some((1, 0)));
    let mut e = doc("");
    assert_eq!(e.enter(), Ok(()));
    assert_eq!(lines(&e), vec!["", ""]);
    let mut f = doc("");
    f.adjust_cursor(0, 3, false);
    assert_eq!(f.enter(), Err(EditError::OutOfRange));
}

#[test]
fn paste_and_copy_round_trip() {
    let mut d = doc("one\ntwo\nthree");
    d.select_move(CursorDirection::Down);
    d.select_move(CursorDirection::Right);
    assert_eq!(d.state.selection, Some(((0, 0), (1, 1))));
    let copied = d.selected_text().unwrap();
    assert_eq!(copied, "one\nt");
    d.adjust_cursor(2, 5, false);
    d.state.selection = None;
    assert_eq!(d.paste(copied), Ok((3, 1)));
    assert_eq!(lines(&d), vec!["one", "two", "threeone", "t"]);
}

#[test]
fn paste_over_a_selection() {
    let mut d = doc("abcdef");
    d.state.start_selection(0, 1);
    d.state.update_selection_end(0, 4);
    assert_eq!(d.selected_text(), Some(String::from("bcd")));
    assert_eq!(d.paste(String::from("XY")), Ok((0, 3)));
    assert_eq!(lines(&d), vec!["aXYef"]);
}

#[test]
fn selected_text_needs_a_fitting_selection() {
    let mut d = doc("ab");
    assert_eq!(d.selected_text(), None);
    d.state.start_selection(0, 1);
    d.state.update_selection_end(3, 0);
    assert_eq!(d.selected_text(), None);
}

#[test]
fn clear_history_forgets_the_log() {
    let mut d = doc("ab");
    d.insert_char(0, 0, 'x').unwrap();
    d.clear_history();
    assert_eq!(d.undo(), Err(EditError::NothingToUndo));
    assert_eq!(lines(&d), vec!["xab"]);
}

#[test]
fn select_move_starts_and_follows() {
    let mut d = doc("abc\ndef");
    d.adjust_cursor(0, 1, false);
    d.select_move(CursorDirection::Right);
    assert_eq!(d.state.selection, Some(((0, 1), (0, 2))));
    d.select_move(CursorDirection::Down);
    assert_eq!(d.state.selection, Some(((0, 1), (1, 2))));
    assert_eq!(d.cursor_position(), Some((1, 2)));
}

#[test]
fn paste_returns_the_end_and_undoes() {
    let mut d = doc("abc");
    d.adjust_cursor(0, 1, false);
    assert_eq!(d.paste(String::from("1\n2")), Ok((1, 1)));
    assert_eq!(lines(&d), vec!["a1", "2bc"]);
    assert_eq!(d.cursor_position(), Some((1, 1)));
    d.undo().unwrap();
    assert_eq!(lines(&d), vec!["abc"]);
}
