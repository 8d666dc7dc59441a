//! The cursor and selection model exercised end to end: movement with and
//! without the selection modifier, goal-column clamping, selection
//! normalization, and the edit commands.

use editor_core::{CursorPosition, Editor, SimpleBuffer, TextBuffer};

fn editor_of(lines: &[&str]) -> Editor {
    Editor::new(lines.iter().map(|s| s.to_string()).collect())
}

#[test]
fn empty_document_is_one_empty_line() {
    let e = Editor::new(Vec::new());
    assert_eq!(e.get_buffer().line_count(), 1);
    assert_eq!(e.get_buffer().all_lines(), vec![""]);
    assert_eq!(e.cursor_position(), CursorPosition::new(0, 0));
}

#[test]
fn right_at_line_end_wraps_to_next_row() {
    let mut e = editor_of(&["foo", "bar"]);
    e.set_cursor_position(CursorPosition::new(0, 3));
    e.move_right(false);
    assert_eq!(e.cursor_position(), CursorPosition::new(1, 0));
    e.move_right(false);
    assert_eq!(e.cursor_position(), CursorPosition::new(1, 1));
}

#[test]
fn right_at_document_end_stays() {
    let mut e = editor_of(&["ab"]);
    e.set_cursor_position(CursorPosition::new(0, 2));
    e.move_right(false);
    assert_eq!(e.cursor_position(), CursorPosition::new(0, 2));
}

#[test]
fn left_at_column_zero_joins_previous_row_end() {
    let mut e = editor_of(&["foo", "bar"]);
    e.set_cursor_position(CursorPosition::new(1, 0));
    e.move_left(false);
    assert_eq!(e.cursor_position(), CursorPosition::new(0, 3));
    e.set_cursor_position(CursorPosition::new(0, 0));
    e.move_left(false);
    assert_eq!(e.cursor_position(), CursorPosition::new(0, 0));
}

#[test]
fn select_all_then_delete_empties_document() {
    let mut e = editor_of(&["abc", "def"]);
    e.select_all();
    assert_eq!(e.get_selection_range().unwrap().0, CursorPosition::new(0, 0));
    assert_eq!(e.get_selection_range().unwrap().1, CursorPosition::new(1, 3));
    assert!(e.delete_selection());
    assert_eq!(e.get_buffer().all_lines(), vec![""]);
    assert_eq!(e.cursor_position(), CursorPosition::new(0, 0));
}

#[test]
fn goal_column_survives_short_lines() {
    let mut e = editor_of(&["a", "bb", "ccc"]);
    e.set_cursor_position(CursorPosition::new(2, 2));
    e.move_up(false);
    assert_eq!(e.cursor_position(), CursorPosition::new(1, 2));
    e.move_up(false);
    assert_eq!(e.cursor_position(), CursorPosition::new(0, 1));
    e.move_down(false);
    assert_eq!(e.cursor_position(), CursorPosition::new(1, 2));
    e.move_down(false);
    assert_eq!(e.cursor_position(), CursorPosition::new(2, 2));
}

#[test]
fn selection_range_is_ordered_both_ways() {
    let mut e = editor_of(&["hello", "world"]);
    // Anchor before the cursor.
    e.set_cursor_position(CursorPosition::new(0, 1));
    e.move_right(true);
    e.move_right(true);
    let (s, t) = e.get_selection_range().unwrap();
    assert_eq!(s, CursorPosition::new(0, 1));
    assert_eq!(t, CursorPosition::new(0, 3));
    // Anchor after the cursor.
    e.clear_selection();
    e.set_cursor_position(CursorPosition::new(1, 2));
    e.move_left(true);
    e.move_up(true);
    let (s, t) = e.get_selection_range().unwrap();
    assert_eq!(s, CursorPosition::new(0, 1));
    assert_eq!(t, CursorPosition::new(1, 2));
}

#[test]
fn selected_text_single_and_multi_row() {
    let mut e = editor_of(&["hello", "big", "world"]);
    e.set_cursor_position(CursorPosition::new(0, 1));
    e.move_right(true);
    e.move_right(true);
    assert_eq!(e.get_selected_text(), "el");
    e.clear_selection();
    assert_eq!(e.get_selected_text(), "");
    e.set_cursor_position(CursorPosition::new(0, 3));
    e.move_down(true);
    e.move_down(true);
    assert_eq!(e.get_selected_text(), "lo\nbig\nwor");
}

#[test]
fn insert_char_advances_cursor() {
    let mut e = editor_of(&["ab"]);
    e.set_cursor_position(CursorPosition::new(0, 1));
    e.insert_char('X');
    assert_eq!(e.get_buffer().all_lines(), vec!["aXb"]);
    assert_eq!(e.cursor_position(), CursorPosition::new(0, 2));
}

#[test]
fn insert_char_replaces_selection() {
    let mut e = editor_of(&["hello"]);
    e.set_cursor_position(CursorPosition::new(0, 1));
    e.move_right(true);
    e.move_right(true);
    e.move_right(true);
    e.insert_char('-');
    assert_eq!(e.get_buffer().all_lines(), vec!["h-o"]);
    assert_eq!(e.cursor_position(), CursorPosition::new(0, 2));
}

#[test]
fn insert_newline_splits_row() {
    let mut e = editor_of(&["hello"]);
    e.set_cursor_position(CursorPosition::new(0, 2));
    e.insert_newline();
    assert_eq!(e.get_buffer().all_lines(), vec!["he", "llo"]);
    assert_eq!(e.cursor_position(), CursorPosition::new(1, 0));
}

#[test]
fn backspace_joins_rows_and_stops_at_start() {
    let mut e = editor_of(&["ab", "cd"]);
    e.set_cursor_position(CursorPosition::new(1, 0));
    e.backspace();
    assert_eq!(e.get_buffer().all_lines(), vec!["abcd"]);
    assert_eq!(e.cursor_position(), CursorPosition::new(0, 2));
    e.backspace();
    assert_eq!(e.get_buffer().all_lines(), vec!["acd"]);
    e.set_cursor_position(CursorPosition::new(0, 0));
    e.backspace();
    assert_eq!(e.get_buffer().all_lines(), vec!["acd"]);
}

#[test]
fn backspace_on_selection_deletes_only_it() {
    let mut e = editor_of(&["hello"]);
    e.set_cursor_position(CursorPosition::new(0, 1));
    e.move_right(true);
    e.move_right(true);
    e.backspace();
    assert_eq!(e.get_buffer().all_lines(), vec!["hlo"]);
    assert_eq!(e.cursor_position(), CursorPosition::new(0, 1));
}

#[test]
fn delete_forward_joins_rows_and_stops_at_end() {
    let mut e = editor_of(&["ab", "cd"]);
    e.set_cursor_position(CursorPosition::new(0, 2));
    e.delete();
    assert_eq!(e.get_buffer().all_lines(), vec!["abcd"]);
    e.set_cursor_position(CursorPosition::new(0, 4));
    e.delete();
    assert_eq!(e.get_buffer().all_lines(), vec!["abcd"]);
    e.set_cursor_position(CursorPosition::new(0, 0));
    e.delete();
    assert_eq!(e.get_buffer().all_lines(), vec!["bcd"]);
}

#[test]
fn update_buffer_clamps_cursor() {
    let mut e = editor_of(&["one line that is long", "two"]);
    e.set_cursor_position(CursorPosition::new(1, 3));
    e.update_buffer(vec!["x".to_string()]);
    assert_eq!(e.get_buffer().all_lines(), vec!["x"]);
    assert_eq!(e.cursor_position(), CursorPosition::new(0, 1));
    assert!(!e.has_selection());
}

#[test]
fn update_buffer_keeps_clamped_anchor() {
    let mut e = editor_of(&["abcdef", "ghi"]);
    e.set_cursor_position(CursorPosition::new(0, 2));
    e.move_down(true);
    assert!(e.has_selection());
    e.update_buffer(vec!["xy".to_string()]);
    let (s, t) = e.get_selection_range().unwrap();
    assert_eq!(s, CursorPosition::new(0, 2));
    assert_eq!(t, CursorPosition::new(0, 2));
}

#[test]
fn update_line_replaces_and_clamps() {
    let mut e = editor_of(&["aaaa", "bbbb"]);
    e.set_cursor_position(CursorPosition::new(1, 4));
    e.update_line(1, "cc".to_string());
    assert_eq!(e.get_buffer().all_lines(), vec!["aaaa", "cc"]);
    assert_eq!(e.cursor_position(), CursorPosition::new(1, 2));
    // A row beyond the last is ignored.
    e.update_line(7, "zz".to_string());
    assert_eq!(e.get_buffer().all_lines(), vec!["aaaa", "cc"]);
}

#[test]
fn detected_language_defaults_to_rust() {
    let e = editor_of(&["fn main() {}"]);
    assert_eq!(e.language(), "Rust");
}

#[test]
fn simple_buffer_construction() {
    let b = SimpleBuffer::new(Vec::new());
    assert_eq!(b.line_count(), 1);
    assert_eq!(b.all_lines(), vec![""]);
    let b = SimpleBuffer::from_text("foo\nbar\n");
    assert_eq!(b.all_lines(), vec!["foo", "bar", ""]);
    let b = SimpleBuffer::from_text("");
    assert_eq!(b.all_lines(), vec![""]);
    let b = SimpleBuffer::from_text("foo\nbar");
    assert_eq!(b.all_lines(), vec!["foo", "bar"]);
    assert_eq!(b.get_line(1).as_deref(), Some("bar"));
    assert_eq!(b.get_line(2), None);
    assert_eq!(b.line_len(0), 3);
    assert_eq!(b.line_len(9), 0);
}

#[test]
fn simple_buffer_edits() {
    let mut b = SimpleBuffer::from_text("hello\nworld");
    b.insert_at(0, 5, ", big");
    assert_eq!(b.all_lines(), vec!["hello, big", "world"]);
    b.insert_at(1, 0, "my\nown ");
    assert_eq!(b.all_lines(), vec!["hello, big", "my", "own world"]);
    b.delete_at(0, 5);
    assert_eq!(b.all_lines(), vec!["hello big", "my", "own world"]);
    b.delete_at(1, 2);
    assert_eq!(b.all_lines(), vec!["hello big", "myown world"]);
    b.backspace_at(1, 3);
    assert_eq!(b.all_lines(), vec!["hello big", "mywn world"]);
    b.backspace_at(1, 0);
    assert_eq!(b.all_lines(), vec!["hello bigmywn world"]);
    // Out-of-range rows are ignored.
    b.insert_at(5, 0, "zzz");
    b.delete_at(5, 0);
    b.backspace_at(5, 0);
    assert_eq!(b.all_lines(), vec!["hello bigmywn world"]);
}

#[test]
fn buffer_mut_edits_show_through() {
    let mut e = editor_of(&["abc"]);
    e.get_buffer_mut().insert_at(0, 3, "def");
    assert_eq!(e.get_buffer().all_lines(), vec!["abcdef"]);
}
