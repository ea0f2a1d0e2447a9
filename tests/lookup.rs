use tpad::document::Document;
use tpad::files::{get_file_name, permission_string};
use tpad::models::{Popup, PopupTypes};
use tpad::theme::{hex_to_rgb, Theme};

fn doc(text: &str) -> Document {
    let mut d = Document::new(String::from("f"), String::new(), 0, text);
    d.state.window_height = 10;
    d
}

#[test]
fn find_an_in_banana_and_anagram() {
    let d = doc("banana\nanagram");
    assert_eq!(d.find("an"), vec![(0, 1, 3), (0, 3, 5), (1, 0, 2)]);
}

#[test]
fn find_skips_overlapping_matches() {
    let d = doc("aaaa\nxyz");
    assert_eq!(d.find("aa"), vec![(0, 0, 2), (0, 2, 4)]);
    assert_eq!(d.find("q"), vec![]);
    assert_eq!(
        d.find(""),
        vec![(0, 0, 0), (0, 1, 1), (0, 2, 2), (0, 3, 3), (0, 4, 4), (1, 0, 0), (1, 1, 1), (1, 2, 2), (1, 3, 3)]
    );
}

#[test]
fn find_counts_columns_in_characters() {
    let d = doc("héllo wörld");
    assert_eq!(d.find("wö"), vec![(0, 6, 8)]);
}

#[test]
fn highlight_then_cycle_matches() {
    let mut d = doc("banana\nanagram");
    let m = d.find("an");
    d.highlight(m);
    assert!(d.state.find_active);
    d.next_match();
    assert_eq!(d.state.current_match, 1);
    assert_eq!((d.state.scroll_offset + d.state.curs_y, d.state.curs_x), (0, 5));
    d.next_match();
    d.next_match();
    assert_eq!(d.state.current_match, 0);
    d.prev_match();
    assert_eq!(d.state.current_match, 2);
    assert_eq!((d.state.scroll_offset + d.state.curs_y, d.state.curs_x), (1, 2));
    d.unhighlight();
    assert!(!d.state.find_active);
    assert!(d.state.highlights.is_empty());
    d.next_match();
    assert_eq!(d.state.current_match, 2);
}

#[test]
fn edits_clear_highlights() {
    let mut d = doc("banana");
    let m = d.find("a");
    d.highlight(m);
    d.insert_char(0, 0, 'x').unwrap();
    assert!(!d.state.find_active);
}

#[test]
fn word_count_counts_words_holding_the_word() {
    let d = doc("a test, testing\tthe tester\n  retest  nothing");
    assert_eq!(d.word_count("test"), 4);
    assert_eq!(d.word_count("xyz"), 0);
    assert_eq!(d.word_count(""), 7);
}

#[test]
fn permission_strings() {
    assert_eq!(permission_string(0o755, true), "drwxr-xr-x");
    assert_eq!(permission_string(0o640, false), "-rw-r-----");
    assert_eq!(permission_string(0, false), "----------");
}

#[test]
fn file_names() {
    assert_eq!(get_file_name(String::from("/home/user/notes.txt")), "notes.txt");
    assert_eq!(get_file_name(String::from("plain.rs")), "plain.rs");
    assert_eq!(get_file_name(String::from("dir/")), "");
}

#[test]
fn hex_colours() {
    assert_eq!(hex_to_rgb("#ff8000"), Some((255, 128, 0)));
    assert_eq!(hex_to_rgb("#0087F9"), Some((0, 135, 249)));
    assert_eq!(hex_to_rgb("#zz0010"), Some((0, 0, 16)));
    assert_eq!(hex_to_rgb("ff8000"), None);
    assert_eq!(hex_to_rgb("#fff"), None);
}

#[test]
fn default_theme_colours() {
    let t = Theme::default();
    assert_eq!(t.editor.highlights, "#f9d800");
    assert_eq!(t.popup.error_fg, "#ff0000");
    assert_eq!(t.tabs.inactive_bg, "#d5d5d5");
}

#[test]
fn popup_new_keeps_its_parts() {
    let p = Popup::new(String::from("Save before quitting?"), PopupTypes::SaveOnClosePopup);
    assert_eq!(p.kind, PopupTypes::SaveOnClosePopup);
    assert_eq!(p.msg, "Save before quitting?");
}
