use drn_editor::editor::{Editor, Modifiers};
use drn_editor::line::{Alignment, Line};
use drn_editor::range::{GridPos, Range};

fn editor_with(rows: &[&str]) -> Editor {
    let mut e = Editor::new(800, 600, 0, 55, 10, 10, 20);
    e.lines = rows
        .iter()
        .map(|r| Line { buffer: r.chars().collect(), alignment: Alignment::Left })
        .collect();
    e
}

fn texts(e: &Editor) -> Vec<String> {
    e.lines.iter().map(|l| l.buffer.iter().collect()).collect()
}

fn no_mods() -> Modifiers {
    Modifiers { shift: false, ctrl: false, alt: false, logo: false }
}

#[test]
fn lines_index_single_row() {
    let e = editor_with(&["0123456789"]);
    let r = Range::new(GridPos::new(2, 0), GridPos::new(5, 0));
    assert_eq!(r.get_lines_index(&e.lines), vec![(2, 5)]);
}

#[test]
fn lines_index_two_rows() {
    let e = editor_with(&["0123456789", "0123456789"]);
    let r = Range::new(GridPos::new(3, 0), GridPos::new(2, 1));
    assert_eq!(r.get_lines_index(&e.lines), vec![(3, 10), (0, 2)]);
}

#[test]
fn lines_index_reversed_and_interior_rows() {
    let e = editor_with(&["abcd", "ef", "ghijk"]);
    let r = Range::new(GridPos::new(3, 2), GridPos::new(1, 0));
    assert_eq!(r.get_lines_index(&e.lines), vec![(1, 4), (0, 2), (0, 3)]);
    let invalid = Range::new(GridPos::new(1, 1), GridPos::new(1, 1));
    assert_eq!(invalid.get_lines_index(&e.lines), vec![]);
}

#[test]
fn delete_selection_keeps_row_zero() {
    let mut e = editor_with(&["ab", "", "cd"]);
    e.selection.set(GridPos::new(0, 0), GridPos::new(2, 2));
    e.delete_selection();
    assert_eq!(texts(&e), vec![String::new()]);
    assert_eq!((e.cursor.x, e.cursor.y), (0, 0));
    assert!(!e.selection.is_valid());
}

#[test]
fn delete_selection_partial_rows() {
    let mut e = editor_with(&["abcd", "efgh", "ijkl"]);
    e.selection.set(GridPos::new(2, 2), GridPos::new(1, 0));
    e.delete_selection();
    assert_eq!(texts(&e), vec!["a".to_string(), "kl".to_string()]);
    assert_eq!((e.cursor.x, e.cursor.y), (1, 0));
}

#[test]
fn delete_selection_without_selection_changes_nothing() {
    let mut e = editor_with(&["abc"]);
    e.cursor.move_to(2, 0);
    e.delete_selection();
    assert_eq!(texts(&e), vec!["abc".to_string()]);
    assert_eq!((e.cursor.x, e.cursor.y), (2, 0));
}

#[test]
fn typing_opener_inserts_pair_and_backspace_removes_it() {
    let mut e = editor_with(&[""]);
    e.add_char('(');
    assert_eq!(texts(&e), vec!["()".to_string()]);
    assert_eq!(e.lines[0].buffer, vec!['(', ')']);
    assert_eq!((e.cursor.x, e.cursor.y), (1, 0));
    e.delete_char();
    assert_eq!(texts(&e), vec![String::new()]);
    assert_eq!((e.cursor.x, e.cursor.y), (0, 0));
    assert!(e.dirty);
}

#[test]
fn typing_with_alt_advances_one_column() {
    let mut e = editor_with(&["xb"]);
    e.modifiers = Modifiers { alt: true, ..no_mods() };
    e.add_char('a');
    assert_eq!(texts(&e), vec!["axb".to_string()]);
    assert_eq!((e.cursor.x, e.cursor.y), (1, 0));
    let mut s = editor_with(&["xyb"]);
    s.modifiers = Modifiers { alt: true, ..no_mods() };
    s.selection.set(GridPos::new(0, 0), GridPos::new(1, 0));
    s.add_char('a');
    assert_eq!(texts(&s), vec!["ayb".to_string()]);
    assert_eq!((s.cursor.x, s.cursor.y), (1, 0));
}

#[test]
fn typing_replaces_selection() {
    let mut e = editor_with(&["hello"]);
    e.selection.set(GridPos::new(1, 0), GridPos::new(4, 0));
    e.add_char('X');
    assert_eq!(texts(&e), vec!["hXo".to_string()]);
    assert_eq!((e.cursor.x, e.cursor.y), (2, 0));
}

#[test]
fn typing_opener_wraps_selection() {
    let mut e = editor_with(&["abc"]);
    e.selection.set(GridPos::new(0, 0), GridPos::new(3, 0));
    e.add_char('[');
    assert_eq!(texts(&e), vec!["[abc]".to_string()]);
    assert!(!e.selection.is_valid());
}

#[test]
fn backspace_keeps_unpaired_neighbour() {
    let mut e = editor_with(&["(x"]);
    e.cursor.move_to(1, 0);
    e.delete_char();
    assert_eq!(texts(&e), vec!["x".to_string()]);
}

#[test]
fn backspace_joins_rows() {
    let mut e = editor_with(&["ab", "cd"]);
    e.cursor.move_to(0, 1);
    e.delete_char();
    assert_eq!(texts(&e), vec!["abcd".to_string()]);
    assert_eq!((e.cursor.x, e.cursor.y), (2, 0));
    let mut top = editor_with(&["ab"]);
    top.delete_char();
    assert_eq!(texts(&top), vec!["ab".to_string()]);
}

#[test]
fn alt_backspace_deletes_previous_word() {
    let mut e = editor_with(&["hello world"]);
    e.cursor.move_to(11, 0);
    e.modifiers = Modifiers { alt: true, ..no_mods() };
    e.delete_char();
    assert_eq!(texts(&e), vec!["hello ".to_string()]);
    assert_eq!((e.cursor.x, e.cursor.y), (6, 0));
}

#[test]
fn alt_word_jumps() {
    let mut e = editor_with(&["hello world"]);
    e.modifiers = Modifiers { alt: true, ..no_mods() };
    e.move_cursor_relative(1, 0);
    assert_eq!((e.cursor.x, e.cursor.y), (5, 0));
    e.cursor.move_to(11, 0);
    e.move_cursor_relative(-1, 0);
    assert_eq!((e.cursor.x, e.cursor.y), (6, 0));
}

#[test]
fn word_jump_bounds() {
    let e = editor_with(&["foo_bar (baz)"]);
    assert_eq!(e.lines[0].get_next_jump(0), (0, 3));
    assert_eq!(e.lines[0].get_next_jump(4), (0, 7));
    assert_eq!(e.lines[0].get_next_jump(13), (9, 13));
    assert_eq!(e.lines[0].get_word_at(2), (0, 7));
}

#[test]
fn plain_moves_roll_over_rows_and_clamp() {
    let mut e = editor_with(&["abc", "d"]);
    e.cursor.move_to(3, 0);
    e.move_cursor_relative(1, 0);
    assert_eq!((e.cursor.x, e.cursor.y), (0, 1));
    e.move_cursor_relative(-1, 0);
    assert_eq!((e.cursor.x, e.cursor.y), (3, 0));
    e.move_cursor_relative(0, 1);
    assert_eq!((e.cursor.x, e.cursor.y), (1, 1));
    e.move_cursor_relative(0, 5);
    assert_eq!((e.cursor.x, e.cursor.y), (1, 1));
}

#[test]
fn cmd_moves_to_line_and_file_ends() {
    let mut e = editor_with(&["abc", "defg", "h"]);
    e.cursor.move_to(1, 1);
    e.modifiers = Modifiers { logo: true, ..no_mods() };
    e.move_cursor_relative(1, 0);
    assert_eq!((e.cursor.x, e.cursor.y), (4, 1));
    e.move_cursor_relative(-1, 0);
    assert_eq!((e.cursor.x, e.cursor.y), (0, 1));
    e.move_cursor_relative(0, 1);
    assert_eq!((e.cursor.x, e.cursor.y), (0, 2));
    e.move_cursor_relative(0, -1);
    assert_eq!((e.cursor.x, e.cursor.y), (0, 0));
}

#[test]
fn shift_extends_and_plain_move_collapses() {
    let mut e = editor_with(&["abcdef"]);
    e.cursor.move_to(1, 0);
    e.modifiers = Modifiers { shift: true, ..no_mods() };
    e.move_cursor_relative(1, 0);
    e.move_cursor_relative(1, 0);
    assert_eq!(e.selection.start(), Some(GridPos::new(1, 0)));
    assert_eq!(e.selection.end(), Some(GridPos::new(3, 0)));
    e.modifiers = no_mods();
    e.move_cursor_relative(-1, 0);
    assert_eq!((e.cursor.x, e.cursor.y), (1, 0));
    assert!(!e.selection.is_valid());
}

#[test]
fn cmd_ctrl_swaps_rows() {
    let mut e = editor_with(&["one", "two", "three"]);
    e.cursor.move_to(1, 1);
    e.modifiers = Modifiers { logo: true, ctrl: true, ..no_mods() };
    e.move_cursor_relative(0, -1);
    assert_eq!(texts(&e), vec!["two".to_string(), "one".to_string(), "three".to_string()]);
    assert_eq!((e.cursor.x, e.cursor.y), (1, 0));
    e.move_cursor_relative(0, -1);
    assert_eq!(texts(&e), vec!["two".to_string(), "one".to_string(), "three".to_string()]);
    e.switch_lines(1);
    assert_eq!(texts(&e), vec!["one".to_string(), "two".to_string(), "three".to_string()]);
    assert_eq!((e.cursor.x, e.cursor.y), (1, 1));
}

#[test]
fn new_line_splits_row() {
    let mut e = editor_with(&["hello"]);
    e.cursor.move_to(2, 0);
    assert!(!e.new_line());
    assert_eq!(texts(&e), vec!["he".to_string(), "llo".to_string()]);
    assert_eq!((e.cursor.x, e.cursor.y), (0, 1));
}

#[test]
fn new_line_continues_list() {
    let mut e = editor_with(&["  - item"]);
    e.lines[0].alignment = Alignment::Center;
    e.cursor.move_to(8, 0);
    assert!(e.new_line());
    assert_eq!(texts(&e), vec!["  - item".to_string(), "  - ".to_string()]);
    assert_eq!((e.cursor.x, e.cursor.y), (4, 1));
    assert_eq!(e.lines[1].alignment, Alignment::Center);
    let mut crlf = editor_with(&["-\r"]);
    crlf.cursor.move_to(2, 0);
    assert!(!crlf.new_line());
    assert_eq!((crlf.cursor.x, crlf.cursor.y), (0, 1));
    let mut bare = editor_with(&["- "]);
    bare.cursor.move_to(2, 0);
    assert!(!bare.new_line());
    assert_eq!(texts(&bare), vec!["- ".to_string(), String::new()]);
}

#[test]
fn camera_follows_cursor_down() {
    let rows: Vec<String> = (0..40).map(|i| format!("row {i}")).collect();
    let refs: Vec<&str> = rows.iter().map(|s| s.as_str()).collect();
    let mut e = editor_with(&refs);
    e.move_cursor(GridPos::new(0, 30));
    assert_eq!((e.cursor.x, e.cursor.y), (0, 30));
    assert_eq!(e.camera.y, 180);
    assert_eq!(e.camera.x, 0);
    e.move_cursor(GridPos::new(99, 99));
    assert_eq!((e.cursor.x, e.cursor.y), (6, 39));
}

#[test]
fn shift_at_document_start_sets_selection_end() {
    let mut e = editor_with(&["abc"]);
    e.modifiers = Modifiers { shift: true, ..no_mods() };
    e.move_cursor_relative(-1, 0);
    assert_eq!((e.cursor.x, e.cursor.y), (0, 0));
    assert_eq!(e.selection.range.start, Some(GridPos::new(0, 0)));
    assert_eq!(e.selection.range.end, Some(GridPos::new(0, 0)));
}

#[test]
fn underline_keeps_selection_as_given() {
    let mut e = editor_with(&["abc"]);
    e.selection.set(GridPos::new(2, 0), GridPos::new(0, 0));
    e.underline();
    assert_eq!(e.underline_buffer, vec![Range::new(GridPos::new(2, 0), GridPos::new(0, 0))]);
}
