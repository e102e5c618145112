use vstd::prelude::*;

use crate::camera::{Camera, metric_ok};
use crate::cursor::Cursor;
use crate::line::{Alignment, Line, doc_of, next_jump_spec, run_right, word_at_spec, word_count_spec};
use crate::range::{GridPos, Range, rows_fit};
use crate::style::{add_range_to_buffer, all_forward, forward, no_nesting, toggle_spec};
use crate::symbols::symbols;
use crate::text::{chars_of, is_whitespace, push_char, whitespace};
use crate::tween::Tween;
use crate::selection::Selection;

verus! {

/// Which modifier keys are held.
#[derive(Clone, Copy, Debug, PartialEq, Eq, Structural)]
pub struct Modifiers {
    pub shift: bool,
    pub ctrl: bool,
    pub alt: bool,
    pub logo: bool,
}

/// The alignment of each row.
pub open spec fn aligns_of(lines: Seq<Line>) -> Seq<Alignment> {
    lines.map_values(|l: Line| l.alignment)
}

/// `p` addresses a slot of the document: an existing row, a column up to its length.
pub open spec fn pos_in(doc: Seq<Seq<char>>, p: GridPos) -> bool {
    p.y < doc.len() && p.x <= doc[p.y as int].len()
}

pub open spec fn end_in(doc: Seq<Seq<char>>, e: Option<GridPos>) -> bool {
    e is Some ==> pos_in(doc, e.unwrap())
}

/// `p` with its row held to the last row and its column to that row's length.
pub open spec fn clamp_to_doc(doc: Seq<Seq<char>>, p: GridPos) -> GridPos {
    let y = if p.y < doc.len() {
        p.y as int
    } else {
        doc.len() - 1
    };
    let x = if p.x <= doc[y].len() {
        p.x as int
    } else {
        doc[y].len() as int
    };
    GridPos { x: x as u32, y: y as u32 }
}

pub open spec fn min_u32(a: u32, b: u32) -> u32 {
    if a <= b {
        a
    } else {
        b
    }
}

pub open spec fn max_u32(a: u32, b: u32) -> u32 {
    if a <= b {
        b
    } else {
        a
    }
}

/// `row` without the columns between `a` and `b`.
pub open spec fn cut_row(row: Seq<char>, a: u32, b: u32) -> Seq<char> {
    row.subrange(0, min_u32(a, b) as int) + row.subrange(max_u32(a, b) as int, row.len() as int)
}

/// The document with the columns that `r` covers taken out of each row that it spans.
pub open spec fn drain_rows(doc: Seq<Seq<char>>, r: Range) -> Seq<Seq<char>> {
    let s = r.real_start_spec();
    let idx = r.lines_index_spec(doc);
    Seq::new(
        doc.len(),
        |i: int|
            if s.y <= i < s.y + idx.len() {
                cut_row(doc[i], idx[i - s.y].0, idx[i - s.y].1)
            } else {
                doc[i]
            },
    )
}

/// The document without the empty rows among rows `lo..=hi`, row 0 excepted.
pub open spec fn prune(doc: Seq<Seq<char>>, lo: int, hi: int) -> Seq<Seq<char>>
    decreases hi - lo + 1,
{
    if hi < lo {
        doc
    } else {
        let d = if 0 < hi < doc.len() && doc[hi].len() == 0 {
            doc.remove(hi)
        } else {
            doc
        };
        prune(d, lo, hi - 1)
    }
}

/// The alignments of the rows that `prune(doc, lo, hi)` keeps.
pub open spec fn prune_aligns(doc: Seq<Seq<char>>, al: Seq<Alignment>, lo: int, hi: int) -> Seq<Alignment>
    decreases hi - lo + 1,
{
    if hi < lo {
        al
    } else if 0 < hi < doc.len() && doc[hi].len() == 0 {
        prune_aligns(doc.remove(hi), al.remove(hi), lo, hi - 1)
    } else {
        prune_aligns(doc, al, lo, hi - 1)
    }
}

/// The document after deleting the text of the valid range `r`.
pub open spec fn delete_range_doc(doc: Seq<Seq<char>>, r: Range) -> Seq<Seq<char>> {
    let s = r.real_start_spec();
    let n = r.lines_index_spec(doc).len();
    prune(drain_rows(doc, r), s.y as int, s.y + n - 1)
}

/// Deleting the selected text, when the selection is valid: the cursor goes to where the
/// selection started, held inside what is left, and the selection is cleared.
pub open spec fn delete_sel_state(st: EditState) -> EditState {
    let (doc, cur, sel) = st;
    if sel.valid() {
        let d = delete_range_doc(doc, sel);
        (d, clamp_to_doc(d, sel.real_start_spec()), Range { start: None, end: None })
    } else {
        st
    }
}

/// What the editing operations act on: the rows' text, the cursor, the selected range.
pub type EditState = (Seq<Seq<char>>, GridPos, Range);

/// The first and last row of the selection, or the cursor's row when nothing is selected.
pub open spec fn block_rows(cursor: GridPos, sel: Range) -> (int, int) {
    if sel.valid() {
        (sel.real_start_spec().y as int, sel.real_end_spec().y as int)
    } else {
        (cursor.y as int, cursor.y as int)
    }
}

/// `p` moved `d` rows, where `d` is -1 or 1.
pub open spec fn shift_row(p: GridPos, d: int) -> GridPos {
    GridPos { x: p.x, y: (p.y + d) as u32 }
}

/// Swaps the cursor's row, or the rows of the selection, with the row above (`dir < 0`)
/// or below (`dir > 0`); the selection and the cursor follow. Where there is no such row,
/// or `dir` is 0, nothing changes. A selection with a single end is dropped by a swap.
pub open spec fn switch_spec(st: EditState, dir: int) -> EditState {
    let (doc, cursor, sel) = st;
    let (a, b) = block_rows(cursor, sel);
    let moved_sel = if sel.valid() {
        Range {
            start: Some(shift_row(sel.real_start_spec(), if dir < 0 { -1 } else { 1 })),
            end: Some(shift_row(sel.real_end_spec(), if dir < 0 { -1 } else { 1 })),
        }
    } else {
        Range { start: None, end: None }
    };
    if dir < 0 && a > 0 {
        let d = doc.remove(a - 1).insert(b, doc[a - 1]);
        let cy = if cursor.y > 0 { cursor.y - 1 } else { 0 };
        (d, clamp_to_doc(d, GridPos { x: cursor.x, y: cy as u32 }), moved_sel)
    } else if dir > 0 && b + 1 < doc.len() {
        let d = doc.remove(b + 1).insert(a, doc[b + 1]);
        (d, clamp_to_doc(d, GridPos { x: cursor.x, y: (cursor.y + 1) as u32 }), moved_sel)
    } else {
        st
    }
}

/// The column and row that a relative move by `(dx, dy)` aims at, before it is fitted to
/// the document: Alt jumps over a word, Cmd (without Ctrl) goes to the start or end of the
/// row or document, otherwise the column moves by `dx` and the row by `dy`, held to the
/// existing rows.
pub open spec fn aim(st: EditState, m: Modifiers, dx: int, dy: int) -> (int, int) {
    let (doc, cur, sel) = st;
    let last = doc.len() - 1;
    let y0 = cur.y + dy;
    let ny = if y0 < 0 {
        0
    } else if y0 > last {
        last
    } else {
        y0
    };
    if m.alt {
        let (js, je) = next_jump_spec(doc[cur.y as int], cur.x as int);
        let nx = if dx < 0 && js != cur.x {
            js
        } else if dx > 0 && je != cur.x {
            je
        } else {
            cur.x + dx
        };
        (nx, ny)
    } else if m.logo && !m.ctrl {
        let nx = if dx < 0 {
            0
        } else if dx > 0 {
            doc[cur.y as int].len() as int
        } else {
            cur.x + dx
        };
        let ny2 = if dy < 0 {
            0
        } else if dy > 0 {
            last
        } else {
            ny
        };
        (nx, ny2)
    } else {
        (cur.x + dx, ny)
    }
}

/// Where the cursor lands when aiming at `(nx, ny)` from `cur`: past the start of a row it
/// goes to the end of the row above, past its end to the start of the row below, else to
/// column `nx` of row `ny`, held to that row's length. `None`: there is no such row.
pub open spec fn landing(doc: Seq<Seq<char>>, cur: GridPos, nx: int, ny: int) -> Option<GridPos> {
    if nx < 0 {
        if cur.y == 0 {
            None
        } else {
            Some(GridPos { x: doc[cur.y - 1].len() as u32, y: (cur.y - 1) as u32 })
        }
    } else if nx > doc[cur.y as int].len() {
        if cur.y >= doc.len() - 1 {
            None
        } else {
            Some(GridPos { x: 0, y: (cur.y + 1) as u32 })
        }
    } else {
        let len = doc[ny].len() as int;
        Some(GridPos { x: (if nx >= len { len } else { nx }) as u32, y: ny as u32 })
    }
}

/// The first part of a relative move: Shift anchors a selection at the cursor when there
/// is none; Cmd with Ctrl (without Alt) swaps rows.
pub open spec fn prepared(st: EditState, m: Modifiers, dy: int) -> EditState {
    let (doc, cur, sel) = st;
    let sel1 = if m.shift && !sel.valid() {
        Range { start: Some(cur), end: sel.end }
    } else {
        sel
    };
    if m.logo && m.ctrl && !m.alt {
        switch_spec((doc, cur, sel1), dy)
    } else {
        (doc, cur, sel1)
    }
}

/// The rest of a relative move aimed at `(nx, ny)`: a plain move with a selection
/// collapses it to its start (backwards) or end (forwards); otherwise the cursor lands
/// (see `landing`) and the selection is extended to it with Shift, or cleared by a move.
pub open spec fn finished(st: EditState, m: Modifiers, dx: int, dy: int, nx: int, ny: int) -> EditState {
    let (doc, cur, sel) = st;
    let none = Range { start: None, end: None };
    let keep = m.logo && m.ctrl;
    if sel.valid() && !m.shift && !keep && (dx > 0 || dy > 0) {
        (doc, clamp_to_doc(doc, sel.real_end_spec()), none)
    } else if sel.valid() && !m.shift && !keep && (dx < 0 || dy < 0) {
        (doc, clamp_to_doc(doc, sel.real_start_spec()), none)
    } else {
        landed(st, m, dx, dy, nx, ny)
    }
}

/// The cursor lands (see `landing`), or stays where it is when there is nowhere to land;
/// the selection is extended to it with Shift, or cleared by a move.
pub open spec fn landed(st: EditState, m: Modifiers, dx: int, dy: int, nx: int, ny: int) -> EditState {
    let (doc, cur, sel) = st;
    let p = match landing(doc, cur, nx, ny) {
        None => cur,
        Some(q) => q,
    };
    let sel3 = if m.shift {
        Range { start: sel.start, end: Some(p) }
    } else if (dx != 0 || dy != 0) && sel.valid() && !(m.logo && m.ctrl) {
        Range { start: None, end: None }
    } else {
        sel
    };
    (doc, p, sel3)
}

/// A relative cursor move by `(dx, dy)` with modifiers `m`.
pub open spec fn move_rel_spec(st: EditState, m: Modifiers, dx: int, dy: int) -> EditState {
    let (nx, ny) = aim(st, m, dx, dy);
    finished(prepared(st, m, dy), m, dx, dy, nx, ny)
}

/// The closing character that typing `c` pairs with, if any.
pub open spec fn closer_of(c: char) -> Option<char> {
    if c == '(' {
        Some(')')
    } else if c == '[' {
        Some(']')
    } else if c == '{' {
        Some('}')
    } else if c == '"' {
        Some('"')
    } else {
        None
    }
}

/// `doc` with `c` inserted in row `p.y` at column `p.x`.
pub open spec fn insert_at(doc: Seq<Seq<char>>, p: GridPos, c: char) -> Seq<Seq<char>> {
    doc.update(p.y as int, doc[p.y as int].insert(p.x as int, c))
}

/// The text after typing `c`, before the cursor moves: an ordinary character replaces the
/// selection; an opener is inserted at the selection's start (or the cursor) and its closer
/// right after the selection's end (or the cursor).
pub open spec fn typed_state(st: EditState, c: char) -> EditState {
    let st1 = if closer_of(c) is None {
        delete_sel_state(st)
    } else {
        st
    };
    insert_typed(st1, c)
}

/// Inserts `c` at the selection's start (or the cursor) and, for an opener, its closer right
/// after the selection's end (or the cursor).
pub open spec fn insert_typed(st1: EditState, c: char) -> EditState {
    let (d1, c1, s1) = st1;
    let pos = if s1.valid() {
        s1.real_start_spec()
    } else {
        c1
    };
    let d2 = insert_at(d1, pos, c);
    let d3 = match closer_of(c) {
        None => d2,
        Some(cl) => {
            let ap = if s1.valid() {
                s1.real_end_spec()
            } else {
                c1
            };
            let col = if ap.y == pos.y {
                ap.x + 1
            } else {
                ap.x as int
            };
            insert_at(d2, GridPos { x: col as u32, y: ap.y }, cl)
        },
    };
    (d3, c1, s1)
}

/// Typing `c`: the text changes as `typed_state` says, the cursor goes one column past the
/// typed character, whatever modifiers are held, and the selection is cleared.
pub open spec fn add_char_spec(st: EditState, c: char) -> EditState {
    let st1 = if closer_of(c) is None {
        delete_sel_state(st)
    } else {
        st
    };
    let pos = if st1.2.valid() {
        st1.2.real_start_spec()
    } else {
        st1.1
    };
    (typed_state(st, c).0, GridPos { x: (pos.x + 1) as u32, y: pos.y }, Range { start: None, end: None })
}

/// With Alt or Cmd, Backspace first selects from the cursor to where a move back lands.
pub open spec fn back_selection(st: EditState, m: Modifiers) -> EditState {
    if m.alt || m.logo {
        let (d, cur, sel) = st;
        let (d2, cur2, sel2) = move_rel_spec((d, cur, Range { start: Some(cur), end: sel.end }), m, -1, 0);
        (d2, cur2, Range { start: sel2.start, end: Some(cur2) })
    } else {
        st
    }
}

/// Backspace: deletes the selection if there is one; at the start of a row, joins the row
/// to the one above (row 0 stays, and so does a row whose join would not fit); else deletes the character before the cursor, and the
/// closer right after it too when the two form an opener-closer pair.
pub open spec fn delete_char_spec(st: EditState, m: Modifiers) -> EditState {
    let st1 = back_selection(st, m);
    let (d, cur, sel) = st1;
    let none = Range { start: None, end: None };
    if sel.valid() {
        delete_sel_state(st1)
    } else if cur.x == 0 {
        if cur.y == 0 {
            st1
        } else {
            let prev = d[cur.y - 1];
            if prev.len() + d[cur.y as int].len() > u32::MAX {
                st1
            } else {
                let joined = d.update(cur.y - 1, prev + d[cur.y as int]).remove(cur.y as int);
                (joined, GridPos { x: prev.len() as u32, y: (cur.y - 1) as u32 }, none)
            }
        }
    } else {
        let row = d[cur.y as int];
        let p = cur.x as int;
        let pair = row.len() > p && closer_of(row[p - 1]) == Some(row[p]);
        let row2 = if pair {
            row.remove(p).remove(p - 1)
        } else {
            row.remove(p - 1)
        };
        (d.update(cur.y as int, row2), GridPos { x: (p - 1) as u32, y: cur.y }, none)
    }
}

/// White space, which may stand before a list item's dash.
pub open spec fn is_blank(c: char) -> bool {
    is_whitespace(c)
}

pub open spec fn blank_pred() -> spec_fn(char) -> bool {
    |c: char| is_blank(c)
}

/// Number of blank characters that `s` starts with.
pub open spec fn leading_blanks(s: Seq<char>) -> int {
    run_right(s, 0, blank_pred())
}

/// `s` is a list item with content: after its leading blanks comes `-`, and something that
/// is not blank follows.
pub open spec fn continues_list(s: Seq<char>) -> bool {
    let w = leading_blanks(s);
    &&& w < s.len()
    &&& s[w] == '-'
    &&& exists|j: int| w < j < s.len() && !is_blank(#[trigger] s[j])
}

/// Enter: deletes the selection, then splits the cursor's row at the cursor; the text after
/// the cursor moves to a new row below. When the text before the cursor is a list item with
/// content, the new row starts with the same blanks and `- `, and the cursor goes past them;
/// otherwise it goes to the start of the new row. The selection is cleared.
pub open spec fn new_line_spec(st: EditState) -> EditState {
    let (d, cur, sel) = delete_sel_state(st);
    let row = d[cur.y as int];
    let before = row.take(cur.x as int);
    let after = row.skip(cur.x as int);
    let w = leading_blanks(before);
    let cont = continues_list(before);
    let new_row = if cont {
        before.take(w) + seq!['-', ' '] + after
    } else {
        after
    };
    let d2 = d.update(cur.y as int, before).insert(cur.y + 1, new_row);
    let x = if cont {
        w + 2
    } else {
        0
    };
    (d2, GridPos { x: x as u32, y: (cur.y + 1) as u32 }, Range { start: None, end: None })
}

/// A tween after one tick of `dt`: started if it was not, advanced, and gone once ended.
pub open spec fn advance(t: Option<Tween>, dt: i64) -> Option<Tween> {
    match t {
        None => None,
        Some(a) => {
            let s = if !a.has_started {
                Tween { is_ended: a.from == a.to, has_started: true, ..a }
            } else {
                a
            };
            let next = s.update_spec(dt).0;
            if next.is_ended {
                None
            } else {
                Some(next)
            }
        },
    }
}

/// The document with rows `a..=b` repeated right after themselves.
pub open spec fn duplicated(doc: Seq<Seq<char>>, a: int, b: int) -> Seq<Seq<char>> {
    doc.take(b + 1) + doc.subrange(a, b + 1) + doc.skip(b + 1)
}

/// The text of the spans `idx` of consecutive rows from row `y`, each followed by a newline.
pub open spec fn rows_text(doc: Seq<Seq<char>>, y: int, idx: Seq<(u32, u32)>) -> Seq<char>
    decreases idx.len(),
{
    if idx.len() == 0 {
        Seq::empty()
    } else {
        let k = idx.len() - 1;
        rows_text(doc, y, idx.drop_last()) + doc[y + k].subrange(idx[k].0 as int, idx[k].1 as int)
            + seq!['\n']
    }
}

/// The selected text, a newline after each row's part; empty without a valid selection.
pub open spec fn selected_text(doc: Seq<Seq<char>>, r: Range) -> Seq<char> {
    if !r.valid() {
        Seq::empty()
    } else {
        rows_text(doc, r.real_start_spec().y as int, r.lines_index_spec(doc))
    }
}

/// `pat` occurs in `row` at column `i`.
pub open spec fn occurs_at(row: Seq<char>, i: int, pat: Seq<char>) -> bool {
    0 <= i && i + pat.len() <= row.len() && row.subrange(i, i + pat.len()) == pat
}

/// The first column from `from` on where `pat` occurs in `row`.
pub open spec fn first_match(row: Seq<char>, from: int, pat: Seq<char>) -> Option<int>
    decreases row.len() + 1 - from,
{
    if from < 0 || from + pat.len() > row.len() {
        None
    } else if occurs_at(row, from, pat) {
        Some(from)
    } else {
        first_match(row, from + 1, pat)
    }
}

/// The first occurrence of `pat` when searching rows in order from the cursor's row
/// (from the cursor's column there), wrapping past the last row, looking at rows
/// `k..doc.len()` of that order.
pub open spec fn search_from(doc: Seq<Seq<char>>, cur: GridPos, pat: Seq<char>, k: int) -> Option<GridPos>
    decreases doc.len() - k,
{
    if k < 0 || k >= doc.len() {
        None
    } else {
        let y = (cur.y + k) % (doc.len() as int);
        let start = if k == 0 {
            cur.x as int
        } else {
            0
        };
        match first_match(doc[y], start, pat) {
            Some(i) => Some(GridPos { x: i as u32, y: y as u32 }),
            None => search_from(doc, cur, pat, k + 1),
        }
    }
}

/// `e` held inside the document, if present.
pub open spec fn clamp_end(doc: Seq<Seq<char>>, e: Option<GridPos>) -> Option<GridPos> {
    match e {
        Some(p) => Some(clamp_to_doc(doc, p)),
        None => None,
    }
}

/// Every row drawn with symbols (see `symbols`); the cursor moves back by as many characters
/// as its row lost (not past the row's start), and the selection's ends are held inside
/// the new text.
pub open spec fn format_state(st: EditState) -> EditState {
    let (d, cur, sel) = st;
    let d2 = Seq::new(d.len(), |i: int| symbols(d[i]));
    let diff = d[cur.y as int].len() - d2[cur.y as int].len();
    let x = if cur.x >= diff {
        cur.x - diff
    } else {
        0
    };
    (d2, GridPos { x: x as u32, y: cur.y }, Range { start: clamp_end(d2, sel.start), end: clamp_end(d2, sel.end) })
}

/// Number of words over all rows.
pub open spec fn total_words(doc: Seq<Seq<char>>) -> nat
    decreases doc.len(),
{
    if doc.len() == 0 {
        0
    } else {
        total_words(doc.drop_last()) + word_count_spec(doc.last())
    }
}

/// Number of characters over all rows.
pub open spec fn total_chars(doc: Seq<Seq<char>>) -> nat
    decreases doc.len(),
{
    if doc.len() == 0 {
        0
    } else {
        total_chars(doc.drop_last()) + doc.last().len()
    }
}

/// The cursor's row, or the selected rows, repeated right after themselves; the cursor
/// moves down by as many rows, and a selection with a single end is dropped.
pub open spec fn duplicate_state(st: EditState) -> EditState {
    let (d, cur, sel) = st;
    let (a, b) = block_rows(cur, sel);
    let d2 = duplicated(d, a, b);
    let sel2 = if sel.valid() {
        sel
    } else {
        Range { start: None, end: None }
    };
    (d2, clamp_to_doc(d2, GridPos { x: cur.x, y: (cur.y + b - a + 1) as u32 }), sel2)
}

/// Every row leaves room for two more characters.
pub open spec fn rows_have_room(doc: Seq<Seq<char>>) -> bool {
    forall|i: int| 0 <= i < doc.len() ==> #[trigger] doc[i].len() + 2 <= u32::MAX
}

/// The document editor: rows of text, a cursor, a selection, style buffers and a viewport.
pub struct Editor {
    pub lines: Vec<Line>,
    pub cursor: Cursor,
    pub camera: Camera,
    /// Inner margin of the text area, in pixel units.
    pub padding: i64,
    pub selection: Selection,
    pub underline_buffer: Vec<Range>,
    pub bold_buffer: Vec<Range>,
    pub modifiers: Modifiers,
    /// Set by every edit: the document differs from what was last saved.
    pub dirty: bool,
}

impl Editor {
    pub open spec fn doc(self) -> Seq<Seq<char>> {
        doc_of(self.lines@)
    }

    pub open spec fn cursor_pos(self) -> GridPos {
        GridPos { x: self.cursor.x, y: self.cursor.y }
    }

    pub open spec fn state(self) -> EditState {
        (self.doc(), self.cursor_pos(), self.selection.range)
    }

    /// Well-formed, and the cursor addresses a slot of the document.
    pub open spec fn wf(self) -> bool {
        self.basics() && pos_in(self.doc(), self.cursor_pos())
    }

    /// Well-formed but for where the cursor stands.
    pub open spec fn basics(self) -> bool {
        &&& 1 <= self.lines@.len() <= u32::MAX
        &&& rows_fit(self.lines@)
        &&& end_in(self.doc(), self.selection.range.start)
        &&& end_in(self.doc(), self.selection.range.end)
        &&& self.cursor.wf()
        &&& self.selection.wf()
        &&& self.camera.wf()
        &&& metric_ok(self.padding as int)
    }

    /// An editor holding one empty row, for a text area of the given size.
    pub fn new(
        width: i64,
        height: i64,
        offset_x: i64,
        offset_y: i64,
        padding: i64,
        char_width: u16,
        char_height: u16,
    ) -> (r: Editor)
        requires
            -0x100_0000 <= width <= 0x100_0000,
            -0x100_0000 <= height <= 0x100_0000,
            -0x100_0000 <= offset_x <= 0x100_0000,
            -0x100_0000 <= offset_y <= 0x100_0000,
            -0x100_0000 <= padding <= 0x100_0000,
        ensures
            r.wf(),
            r.doc() == seq![Seq::<char>::empty()],
            r.cursor_pos() == (GridPos { x: 0, y: 0 }),
            r.selection.range == (Range { start: None, end: None }),
            r.underline_buffer@ == Seq::<Range>::empty(),
            r.bold_buffer@ == Seq::<Range>::empty(),
            r.padding == padding,
            !r.dirty,
    {
        let mut lines: Vec<Line> = Vec::new();
        lines.push(Line::new());
        let r = Editor {
            lines,
            cursor: Cursor::new(0, 0, char_width, char_height),
            camera: Camera::new(width, height, offset_x, offset_y, padding),
            padding,
            selection: Selection::new(char_width, char_height),
            underline_buffer: Vec::new(),
            bold_buffer: Vec::new(),
            modifiers: Modifiers { shift: false, ctrl: false, alt: false, logo: false },
            dirty: false,
        };
        proof {
            assert(r.doc() =~= seq![Seq::<char>::empty()]);
        }
        r
    }

    pub fn line_len(&self, y: usize) -> (r: u32)
        requires
            rows_fit(self.lines@),
            y < self.lines@.len(),
        ensures
            r == self.doc()[y as int].len(),
    {
        self.lines[y].buffer.len() as u32
    }

    /// `position` held inside the document.
    pub fn get_valid_cursor_position(&self, position: GridPos) -> (r: GridPos)
        requires
            1 <= self.lines@.len() <= u32::MAX,
            rows_fit(self.lines@),
        ensures
            r == clamp_to_doc(self.doc(), position),
            pos_in(self.doc(), r),
    {
        let max_y = (self.lines.len() - 1) as u32;
        let y = if position.y <= max_y {
            position.y
        } else {
            max_y
        };
        let len = self.line_len(y as usize);
        let x = if position.x <= len {
            position.x
        } else {
            len
        };
        GridPos { x, y }
    }

    /// Scrolls so that the cursor's exact position lies inside the viewport's margins.
    pub fn update_camera(&mut self)
        requires
            old(self).basics(),
        ensures
            *final(self) == (Editor {
                camera: old(self).camera.follow(old(self).cursor, old(self).padding as int),
                ..*old(self)
            }),
            final(self).camera.wf(),
    {
        proof {
            reveal(Camera::follow);
        }
        let real_x = self.cursor.real_x() as i128;
        let off_x = self.camera.get_cursor_x_with_offset(&self.cursor) as i128;
        let comp_x = self.camera.computed_x() as i128;
        let safe = self.camera.safe_zone_size as i128;
        let pad = self.padding as i128;
        if off_x < comp_x + safe {
            self.camera.move_x(off_x - comp_x - safe);
        } else if pad + real_x - comp_x > self.camera.width as i128 - safe {
            self.camera.move_x(pad + real_x - comp_x - self.camera.width as i128 + safe);
        }
        let real_y = self.cursor.real_y() as i128;
        let off_y = self.camera.get_cursor_y_with_offset(&self.cursor) as i128;
        let comp_y = self.camera.computed_y() as i128;
        let safe_y = self.camera.safe_zone_size as i128;
        if off_y < comp_y + safe_y {
            self.camera.move_y(off_y - comp_y - safe_y);
        } else if pad + real_y - comp_y > self.camera.height as i128 - safe_y {
            self.camera.move_y(pad + real_y - comp_y - self.camera.height as i128 + safe_y);
        }
    }

    /// Moves the cursor to `position`, held inside the document, then scrolls to it.
    #[verifier::rlimit(50)]
    pub fn move_cursor(&mut self, position: GridPos)
        requires
            old(self).basics(),
        ensures
            final(self).wf(),
            final(self).cursor_pos() == clamp_to_doc(old(self).doc(), position),
            final(self).lines == old(self).lines,
            final(self).selection == old(self).selection,
            final(self).underline_buffer == old(self).underline_buffer,
            final(self).bold_buffer == old(self).bold_buffer,
            final(self).modifiers == old(self).modifiers,
            final(self).dirty == old(self).dirty,
            final(self).padding == old(self).padding,
            final(self).camera == old(self).camera.follow(final(self).cursor, old(self).padding as int),
    {
        let pos = self.get_valid_cursor_position(position);
        if pos.x != self.cursor.x || pos.y != self.cursor.y {
            self.cursor.move_to(pos.x, pos.y);
        }
        self.update_camera();
    }

    /// Deletes the selected text: each row that the selection spans loses the columns it
    /// covers, the rows of that span left empty are removed (never row 0), the cursor goes
    /// to where the selection started and the selection is cleared. Without a valid
    /// selection nothing changes.
    #[verifier::rlimit(50)]
    pub fn delete_selection(&mut self)
        requires
            old(self).wf(),
        ensures
            final(self).wf(),
            !old(self).selection.range.valid() ==> *final(self) == *old(self),
            final(self).state() == delete_sel_state(old(self).state()),
            old(self).selection.range.valid() ==> final(self).camera == old(self).camera.follow(
                final(self).cursor,
                old(self).padding as int,
            ),
            ({
                let r = old(self).selection.range;
                let d = old(self).doc();
                let y = r.real_start_spec().y as int;
                r.valid() ==> aligns_of(final(self).lines@) == prune_aligns(
                    drain_rows(d, r),
                    aligns_of(old(self).lines@),
                    y,
                    y + r.lines_index_spec(d).len() - 1,
                )
            }),
            final(self).underline_buffer == old(self).underline_buffer,
            final(self).bold_buffer == old(self).bold_buffer,
            final(self).modifiers == old(self).modifiers,
            final(self).dirty == old(self).dirty,
    {
        if !self.selection.is_valid() {
            return;
        }
        let ghost r = self.selection.range;
        let ghost old_lines = self.lines@;
        let start = self.selection.start().unwrap();
        let idx = self.selection.get_lines_index(&self.lines);
        let initial = start.y as usize;
        let n = idx.len();
        let total = self.lines.len();
        proof {
            let e = r.real_end_spec();
            assert(n == e.y - start.y + 1);
        }
        let mut k: usize = 0;
        while k < n
            invariant
                r.valid(),
                start == r.real_start_spec(),
                idx@ == r.lines_index_spec(doc_of(old_lines)),
                n == idx@.len(),
                initial == start.y,
                initial + n <= total,
                total == old_lines.len(),
                pos_in(doc_of(old_lines), r.real_start_spec()),
                pos_in(doc_of(old_lines), r.real_end_spec()),
                rows_fit(old_lines),
                k <= n,
                self.lines@.len() == old_lines.len(),
                aligns_of(self.lines@) == aligns_of(old_lines),
                forall|i: int|
                    0 <= i < old_lines.len() ==> #[trigger] self.lines@[i]@ == (if initial <= i
                        < initial + k {
                        drain_rows(doc_of(old_lines), r)[i]
                    } else {
                        old_lines[i]@
                    }),
                self.cursor == old(self).cursor,
                self.camera == old(self).camera,
                self.selection == old(self).selection,
                self.padding == old(self).padding,
                self.underline_buffer == old(self).underline_buffer,
                self.bold_buffer == old(self).bold_buffer,
                self.modifiers == old(self).modifiers,
                self.dirty == old(self).dirty,
            decreases n - k,
        {
            let (a, b) = idx[k];
            let row = initial + k;
            proof {
                assert(self.lines@[row as int]@ == old_lines[row as int]@);
                assert forall|i: int| 0 <= i < old_lines.len() implies #[trigger] doc_of(old_lines)[i].len() <= u32::MAX by {
                    assert(doc_of(old_lines)[i] == old_lines[i]@);
                }
                lemma_index_in_doc(r, doc_of(old_lines), k as int);
            }
            let lo = if a <= b {
                a
            } else {
                b
            };
            let hi = if a <= b {
                b
            } else {
                a
            };
            let new_buf = cut_chars(&self.lines[row].buffer, lo as usize, hi as usize);
            let ghost before = self.lines@;
            self.lines[row].buffer = new_buf;
            proof {
                assert(aligns_of(self.lines@) =~= aligns_of(before));
                assert forall|i: int| 0 <= i < old_lines.len() implies #[trigger] self.lines@[i]@ == (
                if initial <= i < initial + k + 1 {
                    drain_rows(doc_of(old_lines), r)[i]
                } else {
                    old_lines[i]@
                }) by {
                    if i != row {
                        assert(self.lines@[i] == before[i]);
                    }
                }
            }
            k = k + 1;
        }
        proof {
            assert(doc_of(self.lines@) =~= drain_rows(doc_of(old_lines), r));
        }
        let ghost drained = doc_of(self.lines@);
        let ghost al0 = aligns_of(self.lines@);
        let mut k: usize = 0;
        while k < n
            invariant
                k <= n,
                initial + n <= total,
                total == old_lines.len(),
                old_lines.len() <= u32::MAX,
                1 <= self.lines@.len() <= total,
                initial + n - k <= self.lines@.len(),
                rows_fit(self.lines@),
                prune(doc_of(self.lines@), initial as int, initial + n - 1 - k) == prune(
                    drained,
                    initial as int,
                    initial + n - 1,
                ),
                prune_aligns(doc_of(self.lines@), aligns_of(self.lines@), initial as int, initial + n - 1 - k)
                    == prune_aligns(drained, al0, initial as int, initial + n - 1),
                self.cursor == old(self).cursor,
                self.camera == old(self).camera,
                self.selection == old(self).selection,
                self.padding == old(self).padding,
                self.underline_buffer == old(self).underline_buffer,
                self.bold_buffer == old(self).bold_buffer,
                self.modifiers == old(self).modifiers,
                self.dirty == old(self).dirty,
            decreases n - k,
        {
            let index = initial + (n - 1 - k);
            let ghost cur = doc_of(self.lines@);
            let ghost cal = aligns_of(self.lines@);
            proof {
                assert(cur[index as int] == self.lines@[index as int]@);
            }
            if index > 0 && self.lines[index].buffer.len() == 0 {
                self.lines.remove(index);
                proof {
                    assert(doc_of(self.lines@) =~= cur.remove(index as int));
                    assert(aligns_of(self.lines@) =~= cal.remove(index as int));
                }
            }
            k = k + 1;
        }
        self.selection.reset();
        self.move_cursor(start);
    }

    /// Takes row `from` out and puts it back at index `to`.
    fn move_row(&mut self, from: usize, to: usize)
        requires
            rows_fit(old(self).lines@),
            from < old(self).lines@.len(),
            to < old(self).lines@.len(),
        ensures
            final(self).doc() == old(self).doc().remove(from as int).insert(to as int, old(self).doc()[from as int]),
            aligns_of(final(self).lines@) == aligns_of(old(self).lines@).remove(from as int).insert(
                to as int,
                aligns_of(old(self).lines@)[from as int],
            ),
            final(self).lines@.len() == old(self).lines@.len(),
            rows_fit(final(self).lines@),
            final(self).cursor == old(self).cursor,
            final(self).camera == old(self).camera,
            final(self).selection == old(self).selection,
            final(self).padding == old(self).padding,
            final(self).underline_buffer == old(self).underline_buffer,
            final(self).bold_buffer == old(self).bold_buffer,
            final(self).modifiers == old(self).modifiers,
            final(self).dirty == old(self).dirty,
    {
        let ghost old_lines = self.lines@;
        let line = self.lines.remove(from);
        self.lines.insert(to, line);
        proof {
            assert(self.lines@ =~= old_lines.remove(from as int).insert(to as int, old_lines[from as int]));
            assert(aligns_of(self.lines@) =~= aligns_of(old_lines).remove(from as int).insert(to as int, old_lines[from as int].alignment));
            assert(self.doc() =~= doc_of(old_lines).remove(from as int).insert(to as int, old_lines[from as int]@));
            assert forall|i: int| 0 <= i < self.lines@.len() implies #[trigger] self.lines@[i]@.len() <= u32::MAX by {
                if i < to {
                    if i < from {
                        assert(self.lines@[i] == old_lines[i]);
                    } else {
                        assert(self.lines@[i] == old_lines[i + 1]);
                    }
                } else if i > to {
                    if i - 1 < from {
                        assert(self.lines@[i] == old_lines[i - 1]);
                    } else {
                        assert(self.lines@[i] == old_lines[i]);
                    }
                }
            }
        }
    }

    /// Swaps the current row, or the selected rows, with their neighbour in direction
    /// `dir`; the selection and the cursor move with the text.
    #[verifier::rlimit(50)]
    pub fn switch_lines(&mut self, dir: i32)
        requires
            old(self).wf(),
        ensures
            final(self).wf(),
            final(self).state() == switch_spec(old(self).state(), dir as int),
            ({
                let al = aligns_of(old(self).lines@);
                let (a, b) = block_rows(old(self).cursor_pos(), old(self).selection.range);
                aligns_of(final(self).lines@) == (if dir < 0 && a > 0 {
                    al.remove(a - 1).insert(b, al[a - 1])
                } else if dir > 0 && b + 1 < al.len() {
                    al.remove(b + 1).insert(a, al[b + 1])
                } else {
                    al
                })
            }),
            final(self).underline_buffer == old(self).underline_buffer,
            final(self).bold_buffer == old(self).bold_buffer,
            final(self).modifiers == old(self).modifiers,
            final(self).dirty == old(self).dirty,
    {
        let valid = self.selection.is_valid();
        let a = if valid {
            self.selection.start().unwrap().y
        } else {
            self.cursor.y
        } as usize;
        let b = if valid {
            self.selection.end().unwrap().y
        } else {
            self.cursor.y
        } as usize;
        let ghost doc = self.doc();
        let ghost sel = self.selection.range;
        proof {
            assert(a <= b < doc.len());
        }
        if dir < 0 && a > 0 {
            self.move_row(a - 1, b);
            if valid {
                let s = self.selection.start().unwrap();
                let e = self.selection.end().unwrap();
                self.selection.set_start(GridPos { x: s.x, y: s.y - 1 });
                self.selection.set_end(GridPos { x: e.x, y: e.y - 1 });
                proof {
                    assert(self.doc()[s.y - 1] == doc[s.y as int]);
                    assert(self.doc()[e.y - 1] == doc[e.y as int]);
                }
            } else {
                self.selection.reset();
            }
            let cy = if self.cursor.y > 0 {
                self.cursor.y - 1
            } else {
                0
            };
            let cx = self.cursor.x;
            self.move_cursor(GridPos { x: cx, y: cy });
        } else if dir > 0 && b + 1 < self.lines.len() {
            self.move_row(b + 1, a);
            if valid {
                let s = self.selection.start().unwrap();
                let e = self.selection.end().unwrap();
                self.selection.set_start(GridPos { x: s.x, y: s.y + 1 });
                self.selection.set_end(GridPos { x: e.x, y: e.y + 1 });
                proof {
                    assert(self.doc()[s.y + 1] == doc[s.y as int]);
                    assert(self.doc()[e.y + 1] == doc[e.y as int]);
                }
            } else {
                self.selection.reset();
            }
            let cy = self.cursor.y + 1;
            let cx = self.cursor.x;
            self.move_cursor(GridPos { x: cx, y: cy });
        }
    }

    /// The column and row aimed at by a relative move.
    fn aim_at(&self, rel_x: i32, rel_y: i32) -> (r: (i64, i64))
        requires
            self.wf(),
        ensures
            r.0 == aim(self.state(), self.modifiers, rel_x as int, rel_y as int).0,
            r.1 == aim(self.state(), self.modifiers, rel_x as int, rel_y as int).1,
            0 <= r.1 < self.lines@.len(),
            r.0 >= 0 || rel_x < 0,
    {
        let m = self.modifiers;
        let cx = self.cursor.x;
        let cy = self.cursor.y;
        let max_y = (self.lines.len() - 1) as i64;
        let mut new_x: i64 = cx as i64 + rel_x as i64;
        let sum_y = cy as i64 + rel_y as i64;
        let mut new_y: i64 = if sum_y < 0 {
            0
        } else if sum_y > max_y {
            max_y
        } else {
            sum_y
        };
        proof {
            assert(self.doc()[cy as int] == self.lines@[cy as int]@);
        }
        if m.alt {
            let (start, end) = self.lines[cy as usize].get_next_jump(cx);
            if rel_x < 0 && start != cx {
                new_x = start as i64;
            } else if rel_x > 0 && end != cx {
                new_x = end as i64;
            }
        } else if m.logo && !m.ctrl {
            if rel_x < 0 {
                new_x = 0;
            } else if rel_x > 0 {
                new_x = self.line_len(cy as usize) as i64;
            }
            if rel_y < 0 {
                new_y = 0;
            } else if rel_y > 0 {
                new_y = max_y;
            }
        }
        (new_x, new_y)
    }

    /// Anchors a selection with Shift and swaps rows with Cmd and Ctrl.
    fn prepare_move(&mut self, rel_y: i32)
        requires
            old(self).wf(),
        ensures
            final(self).wf(),
            final(self).state() == prepared(old(self).state(), old(self).modifiers, rel_y as int),
            final(self).lines@.len() == old(self).lines@.len(),
            !(old(self).modifiers.logo && old(self).modifiers.ctrl && !old(self).modifiers.alt) ==> {
                &&& final(self).lines == old(self).lines
                &&& final(self).camera == old(self).camera
                &&& final(self).cursor == old(self).cursor
                &&& final(self).padding == old(self).padding
            },
            final(self).underline_buffer == old(self).underline_buffer,
            final(self).bold_buffer == old(self).bold_buffer,
            final(self).modifiers == old(self).modifiers,
            final(self).dirty == old(self).dirty,
    {
        let m = self.modifiers;
        if m.shift && !self.selection.is_valid() {
            let p = GridPos { x: self.cursor.x, y: self.cursor.y };
            self.selection.set_start(p);
        }
        if m.logo && m.ctrl && !m.alt {
            self.switch_lines(rel_y);
        }
    }

    /// Collapses the selection or lands the cursor, for a move aimed at `(new_x, new_y)`.
    #[verifier::rlimit(50)]
    fn finish_move(&mut self, rel_x: i32, rel_y: i32, new_x: i64, new_y: i64)
        requires
            old(self).wf(),
            0 <= new_y < old(self).lines@.len(),
            new_x >= 0 || rel_x < 0,
        ensures
            final(self).wf(),
            final(self).state() == finished(
                old(self).state(),
                old(self).modifiers,
                rel_x as int,
                rel_y as int,
                new_x as int,
                new_y as int,
            ),
            final(self).underline_buffer == old(self).underline_buffer,
            final(self).bold_buffer == old(self).bold_buffer,
            final(self).modifiers == old(self).modifiers,
            final(self).lines == old(self).lines,
            final(self).camera == old(self).camera.follow(final(self).cursor, old(self).padding as int),
            final(self).dirty == old(self).dirty,
    {
        let m = self.modifiers;
        let keep = m.logo && m.ctrl;
        if self.selection.is_valid() && !m.shift && !keep {
            if rel_x > 0 || rel_y > 0 {
                let e = self.selection.end().unwrap();
                self.move_cursor(e);
                self.selection.reset();
                return;
            } else if rel_x < 0 || rel_y < 0 {
                let s = self.selection.start().unwrap();
                self.move_cursor(s);
                self.selection.reset();
                return;
            }
        }
        self.land(rel_x, rel_y, new_x, new_y);
    }

    /// Where a move aimed at `(new_x, new_y)` lands.
    fn landing_of(&self, new_x: i64, new_y: i64) -> (r: Option<GridPos>)
        requires
            self.wf(),
            0 <= new_y < self.lines@.len(),
        ensures
            r == landing(self.doc(), self.cursor_pos(), new_x as int, new_y as int),
            r is Some ==> pos_in(self.doc(), r.unwrap()),
    {
        let cy2 = self.cursor.y;
        if new_x < 0 {
            if cy2 == 0 {
                return None;
            }
            let len = self.line_len((cy2 - 1) as usize);
            Some(GridPos { x: len, y: cy2 - 1 })
        } else if new_x > self.line_len(cy2 as usize) as i64 {
            if cy2 as usize >= self.lines.len() - 1 {
                return None;
            }
            Some(GridPos { x: 0, y: cy2 + 1 })
        } else {
            let len = self.line_len(new_y as usize) as i64;
            if new_x >= len {
                Some(GridPos { x: len as u32, y: new_y as u32 })
            } else {
                Some(GridPos { x: new_x as u32, y: new_y as u32 })
            }
        }
    }

    /// Lands the cursor for a move aimed at `(new_x, new_y)` and updates the selection.
    fn land(&mut self, rel_x: i32, rel_y: i32, new_x: i64, new_y: i64)
        requires
            old(self).wf(),
            0 <= new_y < old(self).lines@.len(),
        ensures
            final(self).wf(),
            final(self).state() == landed(
                old(self).state(),
                old(self).modifiers,
                rel_x as int,
                rel_y as int,
                new_x as int,
                new_y as int,
            ),
            final(self).lines == old(self).lines,
            final(self).camera == old(self).camera.follow(final(self).cursor, old(self).padding as int),
            final(self).underline_buffer == old(self).underline_buffer,
            final(self).bold_buffer == old(self).bold_buffer,
            final(self).modifiers == old(self).modifiers,
            final(self).dirty == old(self).dirty,
    {
        let target = self.landing_of(new_x, new_y);
        let p = match target {
            None => GridPos { x: self.cursor.x, y: self.cursor.y },
            Some(q) => q,
        };
        self.land_at(p, rel_x, rel_y);
    }

    /// Puts the cursor on `p`, extends the selection to it with Shift or clears it after a
    /// move, and scrolls to it.
    fn land_at(&mut self, p: GridPos, rel_x: i32, rel_y: i32)
        requires
            old(self).wf(),
            pos_in(old(self).doc(), p),
        ensures
            final(self).wf(),
            ({
                let (d, cur, sel) = old(self).state();
                let m = old(self).modifiers;
                final(self).state() == (d, p, if m.shift {
                    Range { start: sel.start, end: Some(p) }
                } else if (rel_x != 0 || rel_y != 0) && sel.valid() && !(m.logo && m.ctrl) {
                    Range { start: None, end: None }
                } else {
                    sel
                })
            }),
            final(self).lines == old(self).lines,
            final(self).camera == old(self).camera.follow(final(self).cursor, old(self).padding as int),
            final(self).underline_buffer == old(self).underline_buffer,
            final(self).bold_buffer == old(self).bold_buffer,
            final(self).modifiers == old(self).modifiers,
            final(self).dirty == old(self).dirty,
    {
        let m = self.modifiers;
        let keep = m.logo && m.ctrl;
        self.cursor.move_to(p.x, p.y);
        if m.shift {
            self.selection.set_end(p);
        } else if (rel_x != 0 || rel_y != 0) && self.selection.is_valid() && !keep {
            self.selection.reset();
        }
        self.update_camera();
    }


    /// Moves the cursor by `(rel_x, rel_y)` under the held modifiers (see `move_rel_spec`),
    /// then scrolls to it; at the document's edge the cursor stays and Shift still sets the
    /// selection's end.
    #[verifier::rlimit(50)]
    pub fn move_cursor_relative(&mut self, rel_x: i32, rel_y: i32)
        requires
            old(self).wf(),
        ensures
            final(self).wf(),
            final(self).state() == move_rel_spec(old(self).state(), old(self).modifiers, rel_x as int, rel_y as int),
            !(old(self).modifiers.logo && old(self).modifiers.ctrl && !old(self).modifiers.alt) ==> {
                &&& aligns_of(final(self).lines@) == aligns_of(old(self).lines@)
                &&& final(self).camera == old(self).camera.follow(final(self).cursor, old(self).padding as int)
            },
            final(self).underline_buffer == old(self).underline_buffer,
            final(self).bold_buffer == old(self).bold_buffer,
            final(self).modifiers == old(self).modifiers,
            final(self).dirty == old(self).dirty,
    {
        let (new_x, new_y) = self.aim_at(rel_x, rel_y);
        self.prepare_move(rel_y);
        self.finish_move(rel_x, rel_y, new_x, new_y);
    }

    /// Inserts `c` at column `p.x` of row `p.y`.
    fn insert_char(&mut self, p: GridPos, c: char)
        requires
            old(self).basics(),
            p.y < old(self).lines@.len(),
            p.x <= old(self).doc()[p.y as int].len(),
            old(self).doc()[p.y as int].len() < u32::MAX,
        ensures
            final(self).basics(),
            final(self).doc() == insert_at(old(self).doc(), p, c),
            final(self).lines@.len() == old(self).lines@.len(),
            forall|i: int| 0 <= i < old(self).lines@.len() ==> #[trigger] final(self).doc()[i].len() >= old(self).doc()[i].len(),
            final(self).cursor == old(self).cursor,
            final(self).selection == old(self).selection,
            final(self).camera == old(self).camera,
            final(self).padding == old(self).padding,
            final(self).underline_buffer == old(self).underline_buffer,
            final(self).bold_buffer == old(self).bold_buffer,
            final(self).modifiers == old(self).modifiers,
            final(self).dirty == old(self).dirty,
    {
        let ghost d = self.doc();
        proof {
            assert(d[p.y as int] == self.lines@[p.y as int]@);
        }
        self.lines[p.y as usize].buffer.insert(p.x as usize, c);
        proof {
            assert(self.doc() =~= insert_at(d, p, c));
            assert forall|i: int| 0 <= i < self.lines@.len() implies #[trigger] self.lines@[i]@.len() <= u32::MAX by {
                assert(self.doc()[i] == self.lines@[i]@);
            }
        }
    }

    /// Inserts `c`, and its closer for an opener (see `insert_typed`).
    fn insert_typed_char(&mut self, c: char, closer: Option<char>)
        requires
            old(self).wf(),
            rows_have_room(old(self).doc()),
            closer == closer_of(c),
        ensures
            final(self).wf(),
            final(self).state() == insert_typed(old(self).state(), c),
            final(self).underline_buffer == old(self).underline_buffer,
            final(self).bold_buffer == old(self).bold_buffer,
            final(self).modifiers == old(self).modifiers,
            final(self).camera == old(self).camera,
            final(self).cursor == old(self).cursor,
            final(self).padding == old(self).padding,
            final(self).dirty == old(self).dirty,
    {
        let ghost d0 = self.doc();
        let valid = self.selection.is_valid();
        let cur = GridPos { x: self.cursor.x, y: self.cursor.y };
        let pos = if valid {
            self.selection.start().unwrap()
        } else {
            cur
        };
        self.insert_char(pos, c);
        let ghost d1 = self.doc();
        match closer {
            Some(cl) => {
                let ap = if valid {
                    self.selection.end().unwrap()
                } else {
                    cur
                };
                let col = if ap.y == pos.y {
                    ap.x + 1
                } else {
                    ap.x
                };
                proof {
                    assert(d1[ap.y as int].len() >= d0[ap.y as int].len());
                    assert(d1[pos.y as int].len() == d0[pos.y as int].len() + 1);
                }
                self.insert_char(GridPos { x: col, y: ap.y }, cl);
            },
            None => {},
        }
        proof {
            assert forall|i: int| 0 <= i < self.lines@.len() implies #[trigger] self.doc()[i].len() >= d0[i].len() by {
                assert(self.doc()[i].len() >= d1[i].len());
                assert(d1[i].len() >= d0[i].len());
            }
            assert(self.doc()[self.cursor.y as int].len() >= d0[self.cursor.y as int].len());
            let rs = self.selection.range.start;
            let re = self.selection.range.end;
            if rs is Some {
                assert(self.doc()[rs.unwrap().y as int].len() >= d0[rs.unwrap().y as int].len());
            }
            if re is Some {
                assert(self.doc()[re.unwrap().y as int].len() >= d0[re.unwrap().y as int].len());
            }
        }
    }

    /// Types `c` (see `add_char_spec`).
    pub fn add_char(&mut self, c: char)
        requires
            old(self).wf(),
            rows_have_room(old(self).doc()),
        ensures
            final(self).wf(),
            final(self).state() == add_char_spec(old(self).state(), c),
            !old(self).selection.range.valid() || closer_of(c) is Some ==> final(self).camera
                == old(self).camera.follow(final(self).cursor, old(self).padding as int),
            final(self).underline_buffer == old(self).underline_buffer,
            final(self).bold_buffer == old(self).bold_buffer,
            final(self).modifiers == old(self).modifiers,
            final(self).dirty,
    {
        let closer: Option<char> = if c == '(' {
            Some(')')
        } else if c == '[' {
            Some(']')
        } else if c == '{' {
            Some('}')
        } else if c == '"' {
            Some('"')
        } else {
            None
        };
        if closer.is_none() {
            let ghost st = self.state();
            self.delete_selection();
            proof {
                lemma_delete_keeps_room(st);
            }
        }
        let pos = if self.selection.is_valid() {
            self.selection.start().unwrap()
        } else {
            GridPos { x: self.cursor.x, y: self.cursor.y }
        };
        let ghost d0 = self.doc();
        self.insert_typed_char(c, closer);
        proof {
            assert(self.doc()[pos.y as int].len() >= d0[pos.y as int].len() + 1);
        }
        self.dirty = true;
        self.selection.reset();
        self.cursor.move_to(pos.x + 1, pos.y);
        self.update_camera();
    }

    /// Joins row `row` to the end of the row above and puts the cursor at the seam.
    fn join_with_previous(&mut self)
        requires
            old(self).wf(),
            old(self).cursor.y > 0,
            old(self).doc()[old(self).cursor.y - 1].len() + old(self).doc()[old(self).cursor.y as int].len() <= u32::MAX,
            old(self).selection.range == (Range { start: None, end: None }),
        ensures
            final(self).wf(),
            aligns_of(final(self).lines@) == aligns_of(old(self).lines@).remove(old(self).cursor.y as int),
            ({
                let (d, cur, sel) = old(self).state();
                let prev = d[cur.y - 1];
                final(self).state() == (
                    d.update(cur.y - 1, prev + d[cur.y as int]).remove(cur.y as int),
                    GridPos { x: prev.len() as u32, y: (cur.y - 1) as u32 },
                    sel,
                )
            }),
            final(self).camera == old(self).camera.follow(final(self).cursor, old(self).padding as int),
            final(self).underline_buffer == old(self).underline_buffer,
            final(self).bold_buffer == old(self).bold_buffer,
            final(self).modifiers == old(self).modifiers,
            final(self).dirty == old(self).dirty,
    {
        let ghost d = self.doc();
        let row = self.cursor.y as usize;
        let prev_len = self.line_len(row - 1);
        let mut k: usize = 0;
        let n = self.lines[row].buffer.len();
        proof {
            assert(d[row as int] == self.lines@[row as int]@);
            assert(d[row - 1] == self.lines@[row - 1]@);
        }
        while k < n
            invariant
                row == self.cursor.y,
                0 < row < self.lines@.len(),
                n == d[row as int].len(),
                k <= n,
                d == old(self).doc(),
                self.lines@.len() == d.len(),
                doc_of(self.lines@) == d.update(row - 1, d[row - 1] + d[row as int].take(k as int)),
                prev_len == d[row - 1].len(),
                prev_len + n <= u32::MAX,
                aligns_of(self.lines@) == aligns_of(old(self).lines@),
                self.cursor == old(self).cursor,
                self.camera == old(self).camera,
                self.selection == old(self).selection,
                self.padding == old(self).padding,
                self.underline_buffer == old(self).underline_buffer,
                self.bold_buffer == old(self).bold_buffer,
                self.modifiers == old(self).modifiers,
                self.dirty == old(self).dirty,
            decreases n - k,
        {
            proof {
                assert(doc_of(self.lines@)[row as int] == self.lines@[row as int]@);
            }
            let ch = self.lines[row].buffer[k];
            proof {
                assert(ch == d[row as int][k as int]);
                assert(doc_of(self.lines@)[row - 1] == self.lines@[row - 1]@);
            }
            let ghost before = self.lines@;
            self.lines[row - 1].buffer.push(ch);
            proof {
                assert(d[row as int].take(k + 1) =~= d[row as int].take(k as int).push(ch));
                assert(self.lines@[row - 1]@ == before[row - 1]@.push(ch));
                assert(doc_of(before)[row - 1] == before[row - 1]@);
                assert((d[row - 1] + d[row as int].take(k as int)).push(ch) =~= d[row - 1] + d[row as int].take(k + 1));
                assert forall|i: int| 0 <= i < self.lines@.len() && i != row - 1 implies self.lines@[i] == before[i] by {}
                assert(aligns_of(self.lines@) =~= aligns_of(before));
            }
            proof {
                let target = d.update(row - 1, d[row - 1] + d[row as int].take(k + 1));
                assert forall|i: int| 0 <= i < self.lines@.len() implies #[trigger] doc_of(self.lines@)[i] == target[i] by {
                    assert(doc_of(self.lines@)[i] == self.lines@[i]@);
                    assert(doc_of(before)[i] == before[i]@);
                }
                assert(doc_of(self.lines@) =~= target);
            }
            k = k + 1;
        }
        proof {
            assert(d[row as int].take(n as int) =~= d[row as int]);
        }
        self.cursor.move_to(prev_len, (row - 1) as u32);
        let ghost before = self.lines@;
        self.lines.remove(row);
        proof {
            assert(aligns_of(self.lines@) =~= aligns_of(before).remove(row as int));
            assert(doc_of(self.lines@) =~= doc_of(before).remove(row as int));
            assert forall|i: int| 0 <= i < self.lines@.len() implies #[trigger] self.lines@[i]@.len() <= u32::MAX by {
                assert(doc_of(self.lines@)[i] == self.lines@[i]@);
                if i < row - 1 || i >= row {
                    assert(self.lines@[i]@ == d[if i < row { i } else { i + 1 }]);
                }
            }
            assert(doc_of(self.lines@)[row - 1] == self.lines@[row - 1]@);
        }
        self.update_camera();
    }

    /// Deletes the character before the cursor, and the closer after it when the two form a
    /// pair, and moves the cursor back one column.
    #[verifier::rlimit(50)]
    fn remove_before_cursor(&mut self)
        requires
            old(self).wf(),
            old(self).cursor.x > 0,
            old(self).selection.range == (Range { start: None, end: None }),
        ensures
            final(self).wf(),
            ({
                let (d, cur, sel) = old(self).state();
                let row = d[cur.y as int];
                let p = cur.x as int;
                let pair = row.len() > p && closer_of(row[p - 1]) == Some(row[p]);
                let row2 = if pair {
                    row.remove(p).remove(p - 1)
                } else {
                    row.remove(p - 1)
                };
                final(self).state() == (d.update(cur.y as int, row2), GridPos { x: (p - 1) as u32, y: cur.y }, sel)
            }),
            aligns_of(final(self).lines@) == aligns_of(old(self).lines@),
            final(self).camera == old(self).camera.follow(final(self).cursor, old(self).padding as int),
            final(self).underline_buffer == old(self).underline_buffer,
            final(self).bold_buffer == old(self).bold_buffer,
            final(self).modifiers == old(self).modifiers,
            final(self).dirty == old(self).dirty,
    {
        let y = self.cursor.y as usize;
        let p = self.cursor.x as usize;
        proof {
            assert(self.doc()[y as int] == self.lines@[y as int]@);
        }
        let row2 = backspaced(&self.lines[y].buffer, p);
        self.replace_row(y, row2);
        self.cursor.move_to((p - 1) as u32, y as u32);
        self.update_camera();
    }

    /// Replaces the text of row `y`.
    pub(crate) fn replace_row(&mut self, y: usize, buf: Vec<char>)
        requires
            old(self).basics(),
            y < old(self).lines@.len(),
            buf@.len() <= u32::MAX,
        ensures
            final(self).doc() == old(self).doc().update(y as int, buf@),
            final(self).lines@.len() == old(self).lines@.len(),
            final(self).lines@[y as int].alignment == old(self).lines@[y as int].alignment,
            aligns_of(final(self).lines@) == aligns_of(old(self).lines@),
            rows_fit(final(self).lines@),
            final(self).cursor == old(self).cursor,
            final(self).camera == old(self).camera,
            final(self).selection == old(self).selection,
            final(self).padding == old(self).padding,
            final(self).underline_buffer == old(self).underline_buffer,
            final(self).bold_buffer == old(self).bold_buffer,
            final(self).modifiers == old(self).modifiers,
            final(self).dirty == old(self).dirty,
    {
        let ghost d = self.doc();
        let ghost before = self.lines@;
        self.lines[y].buffer = buf;
        proof {
            assert(aligns_of(self.lines@) =~= aligns_of(before));
            assert(doc_of(self.lines@) =~= d.update(y as int, buf@));
            assert forall|i: int| 0 <= i < self.lines@.len() implies #[trigger] self.lines@[i]@.len() <= u32::MAX by {
                assert(doc_of(self.lines@)[i] == self.lines@[i]@);
                if i != y {
                    assert(self.lines@[i] == before[i]);
                }
            }
        }
    }

    /// Backspace (see `delete_char_spec`).
    pub fn delete_char(&mut self)
        requires
            old(self).wf(),
        ensures
            final(self).wf(),
            final(self).state() == delete_char_spec(old(self).state(), old(self).modifiers),
            ({
                let (d, cur, sel) = old(self).state();
                let m = old(self).modifiers;
                let joined = cur.x == 0 && cur.y > 0 && d[cur.y - 1].len() + d[cur.y as int].len() <= u32::MAX;
                !(m.alt || m.logo) && !sel.valid() ==> final(self).camera == (if cur.x > 0 || joined {
                    old(self).camera.follow(final(self).cursor, old(self).padding as int)
                } else {
                    old(self).camera
                })
            }),
            ({
                let (d, cur, sel) = old(self).state();
                let m = old(self).modifiers;
                let al = aligns_of(old(self).lines@);
                let joined = cur.x == 0 && cur.y > 0 && d[cur.y - 1].len() + d[cur.y as int].len() <= u32::MAX;
                !(m.alt || m.logo) && !sel.valid() ==> aligns_of(final(self).lines@) == (if joined {
                    al.remove(cur.y as int)
                } else {
                    al
                })
            }),
            final(self).underline_buffer == old(self).underline_buffer,
            final(self).bold_buffer == old(self).bold_buffer,
            final(self).modifiers == old(self).modifiers,
            final(self).dirty,
    {
        let m = self.modifiers;
        if m.alt || m.logo {
            let cur = GridPos { x: self.cursor.x, y: self.cursor.y };
            self.selection.set_start(cur);
            self.move_cursor_relative(-1, 0);
            let cur2 = GridPos { x: self.cursor.x, y: self.cursor.y };
            self.selection.set_end(cur2);
        }
        self.dirty = true;
        if self.selection.is_valid() {
            self.delete_selection();
            return;
        }
        if self.cursor.x == 0 {
            if self.cursor.y == 0 {
                return;
            }
            let above = self.line_len((self.cursor.y - 1) as usize) as u64;
            let here = self.line_len(self.cursor.y as usize) as u64;
            if above + here > u32::MAX as u64 {
                return;
            }
            self.selection.reset();
            self.join_with_previous();
        } else {
            self.selection.reset();
            self.remove_before_cursor();
        }
    }

    /// Enter (see `new_line_spec`). Returns whether a list item was continued, which is
    /// when an undo of the continuation is offered.
    #[verifier::rlimit(50)]
    pub fn new_line(&mut self) -> (continued: bool)
        requires
            old(self).wf(),
            old(self).lines@.len() < u32::MAX,
            rows_have_room(old(self).doc()),
        ensures
            final(self).wf(),
            final(self).state() == new_line_spec(old(self).state()),
            continued == continues_list(
                delete_sel_state(old(self).state()).0[delete_sel_state(old(self).state()).1.y as int].take(
                    delete_sel_state(old(self).state()).1.x as int,
                ),
            ),
            final(self).lines@[final(self).cursor.y as int].alignment == final(self).lines@[final(self).cursor.y - 1].alignment,
            !old(self).selection.range.valid() ==> {
                let y = old(self).cursor.y as int;
                &&& final(self).lines@[y].alignment == old(self).lines@[y].alignment
                &&& final(self).lines@[y + 1].alignment == old(self).lines@[y].alignment
            },
            !old(self).selection.range.valid() ==> final(self).camera == old(self).camera.follow(
                final(self).cursor,
                old(self).padding as int,
            ),
            final(self).underline_buffer == old(self).underline_buffer,
            final(self).bold_buffer == old(self).bold_buffer,
            final(self).modifiers == old(self).modifiers,
            final(self).dirty == old(self).dirty,
    {
        let ghost st = self.state();
        self.delete_selection();
        proof {
            lemma_delete_keeps_room(st);
        }
        self.selection.reset();
        let cy = self.cursor.y as usize;
        let cx = self.cursor.x as usize;
        let ghost d = self.doc();
        proof {
            assert(d[cy as int] == self.lines@[cy as int]@);
            assert(d[cy as int].len() + 2 <= u32::MAX);
        }
        let len = self.lines[cy].buffer.len();
        let before = cut_chars(&self.lines[cy].buffer, cx, len);
        let mut after = cut_chars(&self.lines[cy].buffer, 0, cx);
        proof {
            assert(before@ =~= d[cy as int].take(cx as int));
            assert(after@ =~= d[cy as int].skip(cx as int));
        }
        let (cont, w) = list_prefix(&before);
        let mut new_buf: Vec<char> = if cont {
            let mut b = cut_chars(&before, w, before.len());
            b.push('-');
            b.push(' ');
            b
        } else {
            Vec::new()
        };
        new_buf.append(&mut after);
        proof {
            if cont {
                assert(new_buf@ =~= before@.take(w as int) + seq!['-', ' '] + d[cy as int].skip(cx as int));
            } else {
                assert(new_buf@ =~= d[cy as int].skip(cx as int));
            }
        }
        let alignment = self.lines[cy].alignment;
        self.replace_row(cy, before);
        let ghost mid = self.lines@;
        self.lines.insert(cy + 1, Line { buffer: new_buf, alignment });
        proof {
            assert(self.lines@[cy as int] == mid[cy as int]);
            assert(doc_of(self.lines@) =~= doc_of(mid).insert(cy + 1, new_buf@));
            assert forall|i: int| 0 <= i < self.lines@.len() implies #[trigger] self.lines@[i]@.len() <= u32::MAX by {
                assert(doc_of(self.lines@)[i] == self.lines@[i]@);
                if i < cy + 1 {
                    assert(doc_of(mid)[i] == mid[i]@);
                } else if i > cy + 1 {
                    assert(doc_of(mid)[i - 1] == mid[i - 1]@);
                }
            }
        }
        let x = if cont {
            w + 2
        } else {
            0
        };
        self.move_cursor(GridPos { x: x as u32, y: (cy + 1) as u32 });
        cont
    }

    /// Toggles underlining on the selection (see `toggle_spec`); with a selection in
    /// document order, a buffer with no entry enclosing another stays so.
    pub fn underline(&mut self)
        requires
            old(self).wf(),
        ensures
            final(self).wf(),
            final(self).underline_buffer@ == toggle_spec(old(self).underline_buffer@, old(self).selection.range),
            forward(old(self).selection.range) && all_forward(old(self).underline_buffer@) && no_nesting(
                old(self).underline_buffer@,
            ) ==> all_forward(
                final(self).underline_buffer@,
            ) && no_nesting(final(self).underline_buffer@),
            final(self).state() == old(self).state(),
            final(self).bold_buffer == old(self).bold_buffer,
            final(self).dirty,
    {
        let r = self.selection.get_range();
        add_range_to_buffer(r, &mut self.underline_buffer);
        self.dirty = true;
    }

    /// Toggles bold on the selection (see `toggle_spec`); with a selection in document
    /// order, a buffer with no entry enclosing another stays so.
    pub fn bold(&mut self)
        requires
            old(self).wf(),
        ensures
            final(self).wf(),
            final(self).bold_buffer@ == toggle_spec(old(self).bold_buffer@, old(self).selection.range),
            forward(old(self).selection.range) && all_forward(old(self).bold_buffer@) && no_nesting(
                old(self).bold_buffer@,
            ) ==> all_forward(
                final(self).bold_buffer@,
            ) && no_nesting(final(self).bold_buffer@),
            final(self).state() == old(self).state(),
            final(self).underline_buffer == old(self).underline_buffer,
            final(self).dirty,
    {
        let r = self.selection.get_range();
        add_range_to_buffer(r, &mut self.bold_buffer);
        self.dirty = true;
    }

    /// Anchors the selection at the cursor.
    pub fn begin_selection(&mut self)
        requires
            old(self).wf(),
        ensures
            final(self).wf(),
            final(self).state() == (old(self).doc(), old(self).cursor_pos(), Range {
                start: Some(old(self).cursor_pos()),
                end: old(self).selection.range.end,
            }),
    {
        let p = GridPos { x: self.cursor.x, y: self.cursor.y };
        self.selection.set_start(p);
    }

    /// Extends the selection to the cursor.
    pub fn end_selection(&mut self)
        requires
            old(self).wf(),
        ensures
            final(self).wf(),
            final(self).state() == (old(self).doc(), old(self).cursor_pos(), Range {
                start: old(self).selection.range.start,
                end: Some(old(self).cursor_pos()),
            }),
    {
        let p = GridPos { x: self.cursor.x, y: self.cursor.y };
        self.selection.set_end(p);
    }

    /// Extends the selection to `position` (held inside the document) and moves the cursor
    /// there, unless the selection already ends there.
    pub fn update_selection(&mut self, position: GridPos)
        requires
            old(self).wf(),
        ensures
            final(self).wf(),
            ({
                let p = clamp_to_doc(old(self).doc(), position);
                let sel = old(self).selection.range;
                if sel.valid() && sel.real_end_spec() == p {
                    final(self).state() == old(self).state()
                } else {
                    final(self).state() == (old(self).doc(), p, Range { start: sel.start, end: Some(p) })
                }
            }),
    {
        let p = self.get_valid_cursor_position(position);
        if let Some(end) = self.selection.end() {
            if end == p {
                return;
            }
        }
        self.selection.set_end(p);
        self.move_cursor(p);
    }

    /// The cell under the pixel `(px, py)` of the text area: the nearest column boundary
    /// and the row that holds the point, held inside the document.
    pub fn get_mouse_position_index(&self, px: i64, py: i64) -> (r: GridPos)
        requires
            self.wf(),
            self.cursor.char_width > 0,
            self.cursor.char_height > 0,
            -0x1000_0000_0000 <= px <= 0x1000_0000_0000,
            -0x1000_0000_0000 <= py <= 0x1000_0000_0000,
        ensures
            ({
                let cw = self.cursor.char_width as int;
                let ch = self.cursor.char_height as int;
                let fx = (2 * (px + self.camera.computed_x_spec()) + cw) / (2 * cw);
                let fy = (py + self.camera.computed_y_spec()) / ch;
                let gx = if fx < 0 { 0 } else if fx > u32::MAX { u32::MAX as int } else { fx };
                let gy = if fy < 0 { 0 } else if fy > u32::MAX { u32::MAX as int } else { fy };
                r == clamp_to_doc(self.doc(), GridPos { x: gx as u32, y: gy as u32 })
            }),
    {
        let cw = self.cursor.char_width as i128;
        let ch = self.cursor.char_height as i128;
        let ax = 2 * (px as i128 + self.camera.computed_x() as i128) + cw;
        let ay = py as i128 + self.camera.computed_y() as i128;
        let fx: i128 = if ax >= 0 {
            ax / (2 * cw)
        } else {
            -1
        };
        let fy: i128 = if ay >= 0 {
            ay / ch
        } else {
            -1
        };
        proof {
            let nx = ax as int;
            let dx = 2 * cw as int;
            let ny = ay as int;
            let dy = ch as int;
            assert(nx < 0 ==> nx / dx < 0) by (nonlinear_arith)
                requires
                    dx > 0,
            ;
            assert(ny < 0 ==> ny / dy < 0) by (nonlinear_arith)
                requires
                    dy > 0,
            ;
        }
        let gx: u32 = if fx < 0 {
            0
        } else if fx > u32::MAX as i128 {
            u32::MAX
        } else {
            fx as u32
        };
        let gy: u32 = if fy < 0 {
            0
        } else if fy > u32::MAX as i128 {
            u32::MAX
        } else {
            fy as u32
        };
        self.get_valid_cursor_position(GridPos { x: gx, y: gy })
    }

    /// Selects the space-delimited word around the cursor.
    pub fn select_current_word(&mut self)
        requires
            old(self).wf(),
        ensures
            final(self).wf(),
            ({
                let (d, cur, sel) = old(self).state();
                let (a, b) = word_at_spec(d[cur.y as int], cur.x as int);
                final(self).state() == (d, cur, Range {
                    start: Some(GridPos { x: a as u32, y: cur.y }),
                    end: Some(GridPos { x: b as u32, y: cur.y }),
                })
            }),
    {
        let cy = self.cursor.y as usize;
        proof {
            assert(self.doc()[cy as int] == self.lines@[cy as int]@);
        }
        let (start, end) = self.lines[cy].get_word_at(self.cursor.x);
        proof {
            crate::line::lemma_word_at_bounds(self.doc()[cy as int], self.cursor.x as int);
        }
        self.selection.set(
            GridPos { x: start, y: self.cursor.y },
            GridPos { x: end, y: self.cursor.y },
        );
    }

    /// Selects the whole document.
    pub fn select_all(&mut self)
        requires
            old(self).wf(),
        ensures
            final(self).wf(),
            ({
                let (d, cur, sel) = old(self).state();
                final(self).state() == (d, cur, Range {
                    start: Some(GridPos { x: 0, y: 0 }),
                    end: Some(GridPos { x: d.last().len() as u32, y: (d.len() - 1) as u32 }),
                })
            }),
    {
        let last = self.lines.len() - 1;
        let len = self.line_len(last);
        self.selection.set(GridPos { x: 0, y: 0 }, GridPos { x: len, y: last as u32 });
    }

    /// Adds the cursor's row to the selection and moves the cursor to the next row.
    pub fn select_current_line(&mut self)
        requires
            old(self).wf(),
        ensures
            final(self).wf(),
            ({
                let (d, cur, sel) = old(self).state();
                let row = Range {
                    start: Some(GridPos { x: 0, y: cur.y }),
                    end: Some(GridPos { x: d[cur.y as int].len() as u32, y: cur.y }),
                };
                final(self).state() == (
                    d,
                    clamp_to_doc(d, GridPos { x: 0, y: (cur.y + 1) as u32 }),
                    sel.add_spec(row),
                )
            }),
    {
        let cy = self.cursor.y;
        let len = self.line_len(cy as usize);
        let row = Range::new(GridPos { x: 0, y: cy }, GridPos { x: len, y: cy });
        self.selection.add(row);
        let next = if cy < u32::MAX {
            cy + 1
        } else {
            cy
        };
        proof {
            assert(cy + 1 <= u32::MAX);
        }
        self.move_cursor(GridPos { x: 0, y: next });
    }

    /// Sets the alignment of the selected rows, or of the cursor's row.
    pub fn set_line_alignment(&mut self, alignment: Alignment)
        requires
            old(self).wf(),
        ensures
            final(self).wf(),
            final(self).state() == old(self).state(),
            final(self).lines@.len() == old(self).lines@.len(),
            ({
                let (a, b) = block_rows(old(self).cursor_pos(), old(self).selection.range);
                forall|i: int|
                    0 <= i < old(self).lines@.len() ==> #[trigger] final(self).lines@[i].alignment == (if a
                        <= i <= b {
                        alignment
                    } else {
                        old(self).lines@[i].alignment
                    })
            }),
            final(self).dirty,
    {
        let valid = self.selection.is_valid();
        let a = if valid {
            self.selection.start().unwrap().y
        } else {
            self.cursor.y
        } as usize;
        let b = if valid {
            self.selection.end().unwrap().y
        } else {
            self.cursor.y
        } as usize;
        let ghost old_lines = self.lines@;
        let n = self.lines.len();
        let mut i: usize = a;
        while i <= b
            invariant
                a <= i <= b + 1,
                b < n,
                n == self.lines@.len(),
                self.lines@.len() == old_lines.len(),
                forall|j: int|
                    0 <= j < old_lines.len() ==> #[trigger] self.lines@[j]@ == old_lines[j]@,
                forall|j: int|
                    0 <= j < old_lines.len() ==> #[trigger] self.lines@[j].alignment == (if a <= j < i {
                        alignment
                    } else {
                        old_lines[j].alignment
                    }),
                self.cursor == old(self).cursor,
                self.camera == old(self).camera,
                self.selection == old(self).selection,
                self.padding == old(self).padding,
                self.underline_buffer == old(self).underline_buffer,
                self.bold_buffer == old(self).bold_buffer,
                self.modifiers == old(self).modifiers,
                self.dirty == old(self).dirty,
                old_lines == old(self).lines@,
            decreases b + 1 - i,
        {
            let ghost before = self.lines@;
            self.lines[i].alignment = alignment;
            proof {
                assert forall|j: int| 0 <= j < old_lines.len() implies #[trigger] self.lines@[j]@ == old_lines[j]@ by {
                    assert(self.lines@[j]@ == before[j]@);
                }
            }
            i = i + 1;
        }
        proof {
            assert(doc_of(self.lines@) =~= doc_of(old_lines));
            assert forall|j: int| 0 <= j < self.lines@.len() implies #[trigger] self.lines@[j]@.len() <= u32::MAX by {
                assert(self.lines@[j]@ == old_lines[j]@);
            }
        }
        self.dirty = true;
    }

    /// Repeats the cursor's row, or the selected rows, right after themselves, and moves the
    /// cursor down by as many rows. A selection with a single end is dropped.
    #[verifier::rlimit(50)]
    pub fn duplicate_line(&mut self)
        requires
            old(self).wf(),
            old(self).lines@.len() * 2 <= u32::MAX,
        ensures
            final(self).wf(),
            final(self).state() == duplicate_state(old(self).state()),
    {
        let valid = self.selection.is_valid();
        let a = if valid {
            self.selection.start().unwrap().y
        } else {
            self.cursor.y
        } as usize;
        let b = if valid {
            self.selection.end().unwrap().y
        } else {
            self.cursor.y
        } as usize;
        let ghost d = self.doc();
        let mut i: usize = a;
        while i <= b
            invariant
                a <= i <= b + 1,
                b < d.len(),
                d.len() * 2 <= u32::MAX,
                doc_of(self.lines@) == d.take(a as int) + d.subrange(a as int, i as int) + d.skip(a as int),
                self.lines@.len() == d.len() + (i - a),
                rows_fit(self.lines@),
                self.cursor == old(self).cursor,
                self.camera == old(self).camera,
                self.selection == old(self).selection,
                self.padding == old(self).padding,
                self.underline_buffer == old(self).underline_buffer,
                self.bold_buffer == old(self).bold_buffer,
                self.modifiers == old(self).modifiers,
                self.dirty == old(self).dirty,
                d == old(self).doc(),
            decreases b + 1 - i,
        {
            let src = i + (i - a);
            proof {
                assert(doc_of(self.lines@)[src as int] == self.lines@[src as int]@);
                assert(doc_of(self.lines@)[src as int] == d[i as int]);
            }
            let copy = Line { buffer: self.lines[src].buffer.clone(), alignment: self.lines[src].alignment };
            let ghost before = self.lines@;
            self.lines.insert(i, copy);
            proof {
                assert(doc_of(self.lines@) =~= doc_of(before).insert(i as int, d[i as int]));
                assert(doc_of(self.lines@) =~= d.take(a as int) + d.subrange(a as int, i + 1) + d.skip(a as int));
                assert forall|j: int| 0 <= j < self.lines@.len() implies #[trigger] self.lines@[j]@.len() <= u32::MAX by {
                    assert(doc_of(self.lines@)[j] == self.lines@[j]@);
                    assert(d[0].len() >= 0);
                }
            }
            i = i + 1;
        }
        proof {
            assert(doc_of(self.lines@) =~= duplicated(d, a as int, b as int));
            assert forall|j: int| 0 <= j <= b implies #[trigger] self.doc()[j] == d[j] by {}
        }
        if !valid {
            self.selection.reset();
        }
        let cx = self.cursor.x;
        let cy = self.cursor.y + (b - a + 1) as u32;
        self.move_cursor(GridPos { x: cx, y: cy });
    }

    /// Advances every running glide by `dt` milliseconds, dropping those that ended.
    pub fn update(&mut self, dt: i64)
        requires
            old(self).wf(),
        ensures
            final(self).wf(),
            final(self).state() == old(self).state(),
            final(self).cursor.animation_x == advance(old(self).cursor.animation_x, dt),
            final(self).cursor.animation_y == advance(old(self).cursor.animation_y, dt),
            final(self).camera.animation_x == advance(old(self).camera.animation_x, dt),
            final(self).camera.animation_y == advance(old(self).camera.animation_y, dt),
            final(self).selection.start_animation_x == advance(old(self).selection.start_animation_x, dt),
            final(self).selection.start_animation_y == advance(old(self).selection.start_animation_y, dt),
            final(self).selection.end_animation_x == advance(old(self).selection.end_animation_x, dt),
            final(self).selection.end_animation_y == advance(old(self).selection.end_animation_y, dt),
    {
        self.cursor.animation_x = advance_tween(self.cursor.animation_x, dt);
        self.cursor.animation_y = advance_tween(self.cursor.animation_y, dt);
        self.camera.animation_x = advance_tween(self.camera.animation_x, dt);
        self.camera.animation_y = advance_tween(self.camera.animation_y, dt);
        self.selection.start_animation_x = advance_tween(self.selection.start_animation_x, dt);
        self.selection.start_animation_y = advance_tween(self.selection.start_animation_y, dt);
        self.selection.end_animation_x = advance_tween(self.selection.end_animation_x, dt);
        self.selection.end_animation_y = advance_tween(self.selection.end_animation_y, dt);
    }

    /// The selected text (see `selected_text`).
    pub fn get_selected_text(&self) -> (r: String)
        requires
            self.wf(),
        ensures
            r@ == selected_text(self.doc(), self.selection.range),
    {
        let mut out = String::new();
        if !self.selection.is_valid() {
            return out;
        }
        let ghost r = self.selection.range;
        let ghost doc = self.doc();
        let idx = self.selection.get_lines_index(&self.lines);
        let initial = self.selection.start().unwrap().y as usize;
        proof {
            assert forall|i: int| 0 <= i < doc.len() implies #[trigger] doc[i].len() <= u32::MAX by {
                assert(doc[i] == self.lines@[i]@);
            }
        }
        let mut k: usize = 0;
        while k < idx.len()
            invariant
                self.wf(),
                r == self.selection.range,
                doc == self.doc(),
                r.valid(),
                initial == r.real_start_spec().y,
                idx@ == r.lines_index_spec(doc),
                forall|i: int| 0 <= i < doc.len() ==> #[trigger] doc[i].len() <= u32::MAX,
                k <= idx@.len(),
                out@ == rows_text(doc, initial as int, idx@.take(k as int)),
            decreases idx@.len() - k,
        {
            let (a, b) = idx[k];
            proof {
                lemma_index_in_doc(r, doc, k as int);
                assert(doc[initial + k] == self.lines@[initial + k]@);
                assert(idx@.take(k + 1).drop_last() =~= idx@.take(k as int));
            }
            let row = initial + k;
            let mut j: usize = a as usize;
            let ghost base = out@;
            while j < b as usize
                invariant
                    a <= j <= b,
                    b <= doc[row as int].len(),
                    row < self.lines@.len(),
                    doc[row as int] == self.lines@[row as int]@,
                    out@ == base + doc[row as int].subrange(a as int, j as int),
                decreases b - j,
            {
                push_char(&mut out, self.lines[row].buffer[j]);
                j = j + 1;
                proof {
                    assert(out@ =~= base + doc[row as int].subrange(a as int, j as int));
                }
            }
            push_char(&mut out, '\n');
            k = k + 1;
        }
        proof {
            assert(idx@.take(k as int) =~= idx@);
        }
        out
    }

    /// Every row leaves room for two more characters.
    pub fn has_room(&self) -> (r: bool)
        requires
            self.wf(),
        ensures
            r == rows_have_room(self.doc()),
    {
        let mut i: usize = 0;
        while i < self.lines.len()
            invariant
                i <= self.lines@.len(),
                forall|j: int| 0 <= j < i ==> #[trigger] self.doc()[j].len() + 2 <= u32::MAX,
            decreases self.lines@.len() - i,
        {
            proof {
                assert(self.doc()[i as int] == self.lines@[i as int]@);
            }
            if self.lines[i].buffer.len() > (u32::MAX - 2) as usize {
                return false;
            }
            i = i + 1;
        }
        true
    }

    /// Moves the cursor to the first occurrence of `text` after it, searching the following
    /// rows and wrapping around (see `search_from`), and clears the selection; without an
    /// occurrence nothing changes.
    pub fn find(&mut self, text: &str)
        requires
            old(self).wf(),
        ensures
            final(self).wf(),
            ({
                let (d, cur, sel) = old(self).state();
                match search_from(d, cur, text@, 0) {
                    None => final(self).state() == old(self).state(),
                    Some(p) => final(self).state() == (d, clamp_to_doc(d, p), Range { start: None, end: None }),
                }
            }),
    {
        let pat: Vec<char> = chars_of(text);
        let n = self.lines.len();
        let cy = self.cursor.y as usize;
        let ghost d = self.doc();
        let ghost cur = self.cursor_pos();
        let mut k: usize = 0;
        while k < n
            invariant
                n == d.len(),
                n <= u32::MAX,
                d == self.doc(),
                cur == self.cursor_pos(),
                cy == cur.y,
                cy < n,
                pat@ == text@,
                k <= n,
                self.wf(),
                *self == *old(self),
                search_from(d, cur, text@, k as int) == search_from(d, cur, text@, 0),
            decreases n - k,
        {
            let y = ((cy as u64 + k as u64) % (n as u64)) as usize;
            let start: usize = if k == 0 {
                self.cursor.x as usize
            } else {
                0
            };
            proof {
                assert(d[y as int] == self.lines@[y as int]@);
            }
            let found = first_occurrence(&self.lines[y].buffer, start, &pat);
            match found {
                Some(i) => {
                    proof {
                        assert(search_from(d, cur, text@, k as int) == Some(GridPos { x: i as u32, y: y as u32 }));
                    }
                    self.selection.reset();
                    self.move_cursor(GridPos { x: i as u32, y: y as u32 });
                    return;
                },
                None => {},
            }
            k = k + 1;
        }
    }

    /// Empties the cursor's row, then starts a new row below it (see `new_line_spec`); this
    /// undoes a list continuation. The selection is cleared first.
    pub fn cancel_chip(&mut self) -> (continued: bool)
        requires
            old(self).wf(),
            old(self).lines@.len() < u32::MAX,
            rows_have_room(old(self).doc()),
        ensures
            final(self).wf(),
            ({
                let (d, cur, sel) = old(self).state();
                final(self).state() == new_line_spec((
                    d.update(cur.y as int, Seq::empty()),
                    GridPos { x: 0, y: cur.y },
                    Range { start: None, end: None },
                ))
            }),
    {
        self.selection.reset();
        let cy = self.cursor.y as usize;
        let ghost d = self.doc();
        self.replace_row(cy, Vec::new());
        proof {
            assert forall|i: int| 0 <= i < self.lines@.len() implies #[trigger] self.doc()[i].len() + 2 <= u32::MAX by {
                if i != cy {
                    assert(self.doc()[i] == d[i]);
                }
            }
        }
        self.cursor.move_to(0, cy as u32);
        self.new_line()
    }

    /// Types each character of `text` in turn (see `add_char_spec`), stopping early if a
    /// row has no room left.
    pub fn add_text(&mut self, text: &str)
        requires
            old(self).wf(),
        ensures
            final(self).wf(),
            final(self).state() == add_text_spec(old(self).state(), text@),
    {
        let chars = chars_of(text);
        let mut k: usize = 0;
        let ghost m = self.modifiers;
        proof {
            assert(chars@.skip(0) =~= chars@);
        }
        while k < chars.len()
            invariant
                self.wf(),
                self.modifiers == m,
                m == old(self).modifiers,
                k <= chars@.len(),
                chars@ == text@,
                add_text_spec(self.state(), chars@.skip(k as int)) == add_text_spec(old(self).state(), text@),
            decreases chars@.len() - k,
        {
            proof {
                assert(chars@.skip(k as int).drop_first() =~= chars@.skip(k + 1));
            }
            if !self.has_room() {
                proof {
                    assert(add_text_spec(self.state(), chars@.skip(k as int)) == self.state());
                }
                return;
            }
            proof {
                assert(chars@.skip(k as int)[0] == chars@[k as int]);
            }
            self.add_char(chars[k]);
            k = k + 1;
        }
    }
    /// The number of words and of characters in the document.
    pub fn counts(&self) -> (r: (u64, u64))
        requires
            self.wf(),
        ensures
            r.0 == total_words(self.doc()),
            r.1 == total_chars(self.doc()),
    {
        let mut words: u64 = 0;
        let mut chars: u64 = 0;
        let mut i: usize = 0;
        while i < self.lines.len()
            invariant
                self.wf(),
                i <= self.lines@.len(),
                words == total_words(self.doc().take(i as int)),
                chars == total_chars(self.doc().take(i as int)),
                words <= i * 0x1_0000_0000,
                chars <= i * 0x1_0000_0000,
            decreases self.lines@.len() - i,
        {
            proof {
                assert(self.doc().take(i + 1).drop_last() =~= self.doc().take(i as int));
                assert(self.doc()[i as int] == self.lines@[i as int]@);
            }
            let w = self.lines[i].get_word_count();
            proof {
                assert(w <= self.lines@[i as int]@.len()) by {
                    crate::line::lemma_word_count_bound(self.lines@[i as int]@);
                }
            }
            words = words + w as u64;
            chars = chars + self.lines[i].buffer.len() as u64;
            i = i + 1;
        }
        proof {
            assert(self.doc().take(i as int) =~= self.doc());
        }
        (words, chars)
    }

    /// Redraws every row with symbols (see `format_state`).
    pub fn update_text_layout(&mut self)
        requires
            old(self).wf(),
        ensures
            final(self).wf(),
            final(self).state() == format_state(old(self).state()),
    {
        let ghost d = self.doc();
        let n = self.lines.len();
        let cy = self.cursor.y as usize;
        let mut difference: u32 = 0;
        let mut i: usize = 0;
        while i < n
            invariant
                n == d.len(),
                n == self.lines@.len(),
                i <= n,
                cy < n,
                d == old(self).doc(),
                rows_fit(old(self).lines@),
                forall|j: int| 0 <= j < n ==> #[trigger] self.lines@[j]@ == (if j < i { symbols(d[j]) } else { d[j] }),
                i > cy ==> difference == d[cy as int].len() - symbols(d[cy as int]).len(),
                self.cursor == old(self).cursor,
                self.camera == old(self).camera,
                self.selection == old(self).selection,
                self.padding == old(self).padding,
                self.underline_buffer == old(self).underline_buffer,
                self.bold_buffer == old(self).bold_buffer,
                self.modifiers == old(self).modifiers,
                self.dirty == old(self).dirty,
            decreases n - i,
        {
            proof {
                assert(d[i as int] == old(self).lines@[i as int]@);
                assert(old(self).lines@[i as int]@.len() <= u32::MAX);
            }
            let ghost before = self.lines@;
            let diff = self.lines[i].update_text_layout();
            proof {
                assert forall|j: int| 0 <= j < n && j != i implies self.lines@[j] == before[j] by {}
            }
            if i == cy {
                difference = diff;
            }
            i = i + 1;
        }
        let ghost d2 = Seq::new(d.len(), |k: int| symbols(d[k]));
        proof {
            assert(doc_of(self.lines@) =~= d2);
            assert forall|j: int| 0 <= j < n implies #[trigger] self.lines@[j]@.len() <= u32::MAX by {
                crate::symbols::lemma_symbols_shorter(d[j]);
                assert(d[j] == old(self).lines@[j]@);
            }
        }
        let x = if self.cursor.x >= difference {
            self.cursor.x - difference
        } else {
            0
        };
        let y = self.cursor.y;
        proof {
            crate::symbols::lemma_symbols_shorter(d[y as int]);
        }
        self.cursor.move_to(x, y);
        let s = self.selection.range.start;
        let e = self.selection.range.end;
        match s {
            Some(p) => {
                let q = self.get_valid_cursor_position(p);
                self.selection.range.start = Some(q);
            },
            None => {},
        }
        match e {
            Some(p) => {
                let q = self.get_valid_cursor_position(p);
                self.selection.range.end = Some(q);
            },
            None => {},
        }
    }
}

/// The first column from `from` on where `pat` occurs in `row` (see `first_match`).
fn first_occurrence(row: &Vec<char>, from: usize, pat: &Vec<char>) -> (r: Option<usize>)
    ensures
        r is Some ==> first_match(row@, from as int, pat@) == Some(r.unwrap() as int),
        r is None ==> first_match(row@, from as int, pat@) is None,
        r is Some ==> r.unwrap() <= row@.len(),
{
    let rl = row.len();
    let mut i: usize = from;
    while i <= rl && pat.len() <= rl - i
        invariant
            rl == row@.len(),
            from <= i,
            first_match(row@, i as int, pat@) == first_match(row@, from as int, pat@),
        decreases row@.len() + 1 - i,
    {
        let mut j: usize = 0;
        while j < pat.len() && row[i + j] == pat[j]
            invariant
                rl == row@.len(),
                i + pat@.len() <= row@.len(),
                j <= pat@.len(),
                forall|t: int| 0 <= t < j ==> row@[i + t] == pat@[t],
            decreases pat@.len() - j,
        {
            j = j + 1;
        }
        if j == pat.len() {
            proof {
                assert(row@.subrange(i as int, i + pat@.len()) =~= pat@);
            }
            return Some(i);
        }
        proof {
            assert(row@.subrange(i as int, i + pat@.len())[j as int] != pat@[j as int]);
        }
        i = i + 1;
    }
    None
}

/// Typing each character of `chars` in turn while every row has room.
pub open spec fn add_text_spec(st: EditState, chars: Seq<char>) -> EditState
    decreases chars.len(),
{
    if chars.len() == 0 || !rows_have_room(st.0) {
        st
    } else {
        add_text_spec(add_char_spec(st, chars[0]), chars.drop_first())
    }
}

/// One tick of a tween slot (see `advance`).
pub fn advance_tween(t: Option<Tween>, dt: i64) -> (r: Option<Tween>)
    requires
        t is Some ==> t.unwrap().wf(),
    ensures
        r == advance(t, dt),
        r is Some ==> r.unwrap().wf(),
{
    match t {
        None => None,
        Some(a) => {
            let mut a = a;
            if !a.has_started {
                a.start();
            }
            a.update(dt);
            if a.is_ended {
                None
            } else {
                Some(a)
            }
        },
    }
}


/// Whether `s` is a list item with content, and how many blanks it starts with.
fn list_prefix(s: &Vec<char>) -> (r: (bool, usize))
    ensures
        r.0 == continues_list(s@),
        r.1 == leading_blanks(s@),
        r.1 <= s@.len(),
{
    let mut w: usize = 0;
    while w < s.len() && whitespace(s[w])
        invariant
            w <= s@.len(),
            run_right(s@, w as int, blank_pred()) == run_right(s@, 0, blank_pred()),
        decreases s@.len() - w,
    {
        w = w + 1;
    }
    if w < s.len() && s[w] == '-' {
        let mut j: usize = w + 1;
        while j < s.len() && whitespace(s[j])
            invariant
                w < j <= s@.len(),
                forall|t: int| w < t < j ==> is_blank(#[trigger] s@[t]),
            decreases s@.len() - j,
        {
            j = j + 1;
        }
        proof {
            if j < s@.len() {
                assert(!is_blank(s@[j as int]));
            }
        }
        (j < s.len(), w)
    } else {
        (false, w)
    }

}




/// Removing rows keeps every row's room.
proof fn lemma_prune_room(d: Seq<Seq<char>>, lo: int, hi: int)
    requires
        rows_have_room(d),
    ensures
        rows_have_room(prune(d, lo, hi)),
        prune(d, lo, hi).len() <= d.len(),
    decreases hi - lo + 1,
{
    if hi >= lo {
        let d2 = if 0 < hi < d.len() && d[hi].len() == 0 {
            d.remove(hi)
        } else {
            d
        };
        assert forall|i: int| 0 <= i < d2.len() implies #[trigger] d2[i].len() + 2 <= u32::MAX by {
            if 0 < hi < d.len() && d[hi].len() == 0 {
                if i < hi {
                    assert(d2[i] == d[i]);
                } else {
                    assert(d2[i] == d[i + 1]);
                }
            }
        }
        lemma_prune_room(d2, lo, hi - 1);
    }
}

/// Deleting a selection whose ends lie in the document keeps every row's room.
proof fn lemma_delete_keeps_room(st: EditState)
    requires
        rows_have_room(st.0),
        st.2.valid() ==> pos_in(st.0, st.2.start.unwrap()) && pos_in(st.0, st.2.end.unwrap()),
    ensures
        rows_have_room(delete_sel_state(st).0),
        delete_sel_state(st).0.len() <= st.0.len(),
{
    let (doc, cur, r) = st;
    if r.valid() {
        let dr = drain_rows(doc, r);
        let s = r.real_start_spec();
        let idx = r.lines_index_spec(doc);
        assert forall|i: int| 0 <= i < dr.len() implies #[trigger] dr[i].len() + 2 <= u32::MAX by {
            assert(doc[i].len() + 2 <= u32::MAX);
            if s.y <= i < s.y + idx.len() {
                lemma_index_in_doc(r, doc, i - s.y);
            }
        }
        lemma_prune_room(dr, s.y as int, s.y + idx.len() - 1);
    }
}

/// Each column span of a range whose ends lie in the document fits its row.
proof fn lemma_index_in_doc(r: Range, doc: Seq<Seq<char>>, k: int)
    requires
        r.valid(),
        forall|i: int| 0 <= i < doc.len() ==> #[trigger] doc[i].len() <= u32::MAX,
        pos_in(doc, r.real_start_spec()),
        pos_in(doc, r.real_end_spec()),
        0 <= k < r.lines_index_spec(doc).len(),
    ensures
        ({
            let p = r.lines_index_spec(doc)[k];
            let row = r.real_start_spec().y + k;
            &&& 0 <= row < doc.len()
            &&& p.0 <= doc[row].len()
            &&& p.1 <= doc[row].len()
            &&& p.0 <= p.1
        }),
{
    let row = r.real_start_spec().y + k;
    assert(doc[row].len() <= u32::MAX);
}



/// `row` after a Backspace at column `p`: the character before `p` goes, and the one at `p`
/// too when the two form an opener-closer pair.
fn backspaced(row: &Vec<char>, p: usize) -> (r: Vec<char>)
    requires
        0 < p <= row@.len(),
    ensures
        r@ == (if row@.len() > p && closer_of(row@[p - 1]) == Some(row@[p as int]) {
            row@.remove(p as int).remove(p - 1)
        } else {
            row@.remove(p - 1)
        }),
{
    let prev = row[p - 1];
    let pair = if row.len() > p {
        let next = row[p];
        (prev == '(' && next == ')') || (prev == '[' && next == ']') || (prev == '{' && next == '}')
            || (prev == '"' && next == '"')
    } else {
        false
    };
    let mut out = row.clone();
    if pair {
        out.remove(p);
    }
    out.remove(p - 1);
    out
}

/// `row` without the characters at positions `a..b`.
fn cut_chars(row: &Vec<char>, a: usize, b: usize) -> (r: Vec<char>)
    requires
        a <= b <= row@.len(),
    ensures
        r@ == row@.subrange(0, a as int) + row@.subrange(b as int, row@.len() as int),
{
    let mut out: Vec<char> = Vec::new();
    let mut i: usize = 0;
    while i < a
        invariant
            i <= a <= b <= row@.len(),
            out@ == row@.subrange(0, i as int),
        decreases a - i,
    {
        out.push(row[i]);
        i = i + 1;
        proof {
            assert(out@ =~= row@.subrange(0, i as int));
        }
    }
    let mut j: usize = b;
    while j < row.len()
        invariant
            a <= b <= j <= row@.len(),
            out@ == row@.subrange(0, a as int) + row@.subrange(b as int, j as int),
        decreases row@.len() - j,
    {
        out.push(row[j]);
        j = j + 1;
        proof {
            assert(out@ =~= row@.subrange(0, a as int) + row@.subrange(b as int, j as int));
        }
    }
    out
}









} // verus!
