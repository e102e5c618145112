use drn_editor::commands::{Command, Key};
use drn_editor::editor::{Editor, Modifiers};
use drn_editor::line::{Alignment, Line};
use drn_editor::range::{GridPos, Range};
use drn_editor::symbols::format_symbols;

fn doc(rows: &[&str]) -> Editor {
    let mut e = Editor::new(800, 600, 0, 55, 10, 10, 20);
    e.lines = rows
        .iter()
        .map(|r| Line { buffer: r.chars().collect(), alignment: Alignment::Left })
        .collect();
    e
}

fn rows(e: &Editor) -> Vec<String> {
    e.lines.iter().map(|l| l.buffer.iter().collect()).collect()
}

fn r(a: (u32, u32), b: (u32, u32)) -> Range {
    Range::new(GridPos::new(a.0, a.1), GridPos::new(b.0, b.1))
}

#[test]
fn range_ids() {
    assert_eq!(r((1, 2), (30, 4)).get_id(), "2-1-4-30");
    assert_eq!(r((1, 1), (1, 1)).get_id(), "Invalid range");
}

#[test]
fn style_lines_are_read() {
    let lines = vec!["#u: 1-0-4-0,2-1-0-3,", "#b: 5-5-6-6, 7-0-9-0 ,", "text"];
    assert_eq!(Range::get_ranges_from_drn_line("#u:", &lines), vec![r((0, 1), (0, 4)), r((1, 2), (3, 0))]);
    assert_eq!(Range::get_ranges_from_drn_line("#b:", &lines), vec![r((5, 5), (6, 6)), r((0, 7), (0, 9))]);
    assert_eq!(Range::get_ranges_from_drn_line("#x:", &lines), vec![]);
    let no_comma = vec!["#u: 1-0-4-0"];
    assert_eq!(Range::get_ranges_from_drn_line("#u:", &no_comma), vec![]);
    let short = vec!["#u: 1-0-4,1-2-3-99999999999,"];
    assert_eq!(Range::get_ranges_from_drn_line("#u:", &short), vec![]);
}

#[test]
fn malformed_style_line_gives_nothing() {
    let junk = vec!["#u: 1-2-3-4,x,"];
    assert_eq!(Range::get_ranges_from_drn_line("#u:", &junk), vec![]);
    let five = vec!["#u:0-0-0-0-0,"];
    assert_eq!(Range::get_ranges_from_drn_line("#u:", &five), vec![]);
    let empty_range = vec!["#u: 3-3-3-3,"];
    assert_eq!(Range::get_ranges_from_drn_line("#u:", &empty_range), vec![]);
    let mut e = doc(&[""]);
    e.load_drn_text("#u: 0-0-0-2,oops,\n#b: 0-0-0-1,\nab");
    assert!(e.underline_buffer.is_empty());
    assert_eq!(e.bold_buffer, vec![r((0, 0), (1, 0))]);
}

#[test]
fn styled_text_round_trip() {
    let mut e = doc(&["hello", "", "world"]);
    e.underline_buffer = vec![r((0, 0), (5, 0)), r((2, 2), (2, 2))];
    e.bold_buffer = vec![r((1, 2), (3, 2))];
    let text = e.encode_drn();
    assert_eq!(text, "#u: 0-0-0-5,\n#b: 2-1-2-3,\nhello\n\nworld");
    let mut back = doc(&[""]);
    back.load_drn_text(&text);
    assert_eq!(rows(&back), vec!["hello".to_string(), String::new(), "world".to_string()]);
    assert_eq!(back.underline_buffer, vec![r((0, 0), (5, 0))]);
    assert_eq!(back.bold_buffer, vec![r((1, 2), (3, 2))]);
    assert_eq!((back.cursor.x, back.cursor.y), (0, 0));
}

#[test]
fn styled_text_without_header() {
    let mut e = doc(&[""]);
    e.load_drn_text("plain\ntext\n\n");
    assert_eq!(rows(&e), vec!["plain".to_string(), "text".to_string()]);
    assert!(e.underline_buffer.is_empty());
    assert!(e.bold_buffer.is_empty());
}

#[test]
fn plain_text_round_trip() {
    let mut e = doc(&[""]);
    e.load_txt_text("a\nbc\n");
    assert_eq!(rows(&e), vec!["a".to_string(), "bc".to_string()]);
    assert_eq!(e.encode_txt(), "a\nbc");
    e.load_txt_text("");
    assert_eq!(rows(&e), vec![String::new()]);
}

#[test]
fn selected_text_has_newline_per_row() {
    let mut e = doc(&["abcd", "efgh"]);
    e.selection.set(GridPos::new(2, 0), GridPos::new(1, 1));
    assert_eq!(e.get_selected_text(), "cd\ne\n");
    e.selection.reset();
    assert_eq!(e.get_selected_text(), "");
}

#[test]
fn find_wraps_around() {
    let mut e = doc(&["one two", "three", "two"]);
    e.cursor.move_to(5, 0);
    e.find("two");
    assert_eq!((e.cursor.x, e.cursor.y), (0, 2));
    e.move_cursor(GridPos::new(1, 2));
    e.find("one");
    assert_eq!((e.cursor.x, e.cursor.y), (0, 0));
    e.find("zzz");
    assert_eq!((e.cursor.x, e.cursor.y), (0, 0));
}

#[test]
fn selections_of_word_line_and_all() {
    let mut e = doc(&["foo bar", "baz"]);
    e.cursor.move_to(5, 0);
    e.select_current_word();
    assert_eq!(e.selection.start(), Some(GridPos::new(4, 0)));
    assert_eq!(e.selection.end(), Some(GridPos::new(7, 0)));
    e.select_all();
    assert_eq!(e.selection.end(), Some(GridPos::new(3, 1)));
    e.selection.reset();
    e.select_current_line();
    assert_eq!(e.selection.end(), Some(GridPos::new(7, 0)));
    assert_eq!((e.cursor.x, e.cursor.y), (0, 1));
}

#[test]
fn duplicate_and_align() {
    let mut e = doc(&["a", "b"]);
    e.duplicate_line();
    assert_eq!(rows(&e), vec!["a".to_string(), "a".to_string(), "b".to_string()]);
    assert_eq!((e.cursor.x, e.cursor.y), (0, 1));
    e.set_line_alignment(Alignment::Right);
    assert_eq!(e.lines[1].alignment, Alignment::Right);
    assert_eq!(e.lines[0].alignment, Alignment::Left);
}

#[test]
fn styles_toggle_on_selection() {
    let mut e = doc(&["abcdef"]);
    e.selection.set(GridPos::new(1, 0), GridPos::new(4, 0));
    e.underline();
    e.bold();
    assert_eq!(e.underline_buffer, vec![r((1, 0), (4, 0))]);
    assert_eq!(e.bold_buffer, vec![r((1, 0), (4, 0))]);
    e.underline();
    assert!(e.underline_buffer.is_empty());
}

#[test]
fn keys_and_shortcuts() {
    let mut e = doc(&["ab"]);
    assert_eq!(e.handle_key(Key::Right), Command::Nothing);
    assert_eq!((e.cursor.x, e.cursor.y), (1, 0));
    e.handle_key(Key::Delete);
    assert_eq!(rows(&e), vec!["a".to_string()]);
    e.handle_key(Key::Return);
    assert_eq!(rows(&e), vec!["a".to_string(), String::new()]);
    assert_eq!(e.handle_key(Key::Escape), Command::CloseMenu);
    e.modifiers = Modifiers { shift: false, ctrl: false, alt: false, logo: true };
    assert_eq!(e.shortcut('s'), Command::Save);
    assert_eq!(e.shortcut('c'), Command::Nothing);
    e.shortcut('a');
    assert_eq!(e.shortcut('c'), Command::Copy("a\n\n".into()));
    assert_eq!(e.shortcut('x'), Command::Copy("a\n\n".into()));
    assert_eq!(rows(&e), vec![String::new()]);
}

#[test]
fn list_continuation_undo() {
    let mut e = doc(&["- a"]);
    e.cursor.move_to(3, 0);
    assert_eq!(e.handle_key(Key::Return), Command::OfferUndoChip);
    assert_eq!(rows(&e), vec!["- a".to_string(), "- ".to_string()]);
    e.cancel_chip();
    assert_eq!(rows(&e), vec!["- a".to_string(), String::new(), String::new()]);
    assert_eq!((e.cursor.x, e.cursor.y), (0, 2));
}

#[test]
fn paste_appends_lines() {
    let mut e = doc(&["x"]);
    e.cursor.move_to(1, 0);
    e.paste("ab\n\ncd");
    assert_eq!(rows(&e), vec!["xab".to_string(), "cd".to_string()]);
    assert_eq!((e.cursor.x, e.cursor.y), (2, 1));
    assert!(e.dirty);
}

#[test]
fn typing_text_and_ticking() {
    let mut e = doc(&[""]);
    e.add_text("hi");
    assert_eq!(rows(&e), vec!["hi".to_string()]);
    assert!(e.cursor.animation_x.is_some());
    for _ in 0..20 {
        e.update(16);
    }
    assert!(e.cursor.animation_x.is_none());
    assert_eq!(e.get_mouse_position_index(20, 0).y, 0);
}

#[test]
fn arrows_become_symbols() {
    let text: Vec<char> = "a -> b <-- c != d >= e <= f --> g <- h".chars().collect();
    let out: String = format_symbols(&text).iter().collect();
    assert_eq!(out, "a \u{2192} b \u{2190} c \u{2260} d \u{2265} e \u{2264} f \u{2192} g \u{2190} h");
    let mut e = doc(&["x->y", "a!=b"]);
    e.cursor.move_to(4, 0);
    e.update_text_layout();
    assert_eq!(rows(&e), vec!["x\u{2192}y".to_string(), "a\u{2260}b".to_string()]);
    assert_eq!((e.cursor.x, e.cursor.y), (3, 0));
    let mut start = doc(&["->"]);
    start.update_text_layout();
    assert_eq!((start.cursor.x, start.cursor.y), (0, 0));
}

#[test]
fn word_and_character_counts() {
    let e = doc(&["one  two", "", " three "]);
    assert_eq!(e.counts(), (3, 15));
    assert_eq!(e.lines[0].get_word_count(), 2);
    assert_eq!(e.lines[0].get_text(), "one  two");
}
