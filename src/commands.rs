use vstd::prelude::*;

use crate::editor::{
    EditState, Editor, Modifiers, block_rows, clamp_to_doc, delete_char_spec,
    delete_sel_state, duplicate_state, move_rel_spec, new_line_spec, rows_have_room, selected_text,
};
use crate::line::{Alignment, Line, doc_of, word_at_spec};
use crate::range::{GridPos, Range};
use crate::storage::{split_chars, split_on};
use crate::style::toggle_spec;
use crate::text::chars_of;

verus! {

/// The keys that the editor reacts to.
#[derive(Clone, Copy, Debug, PartialEq, Eq, Structural)]
pub enum Key {
    Right,
    Left,
    Up,
    Down,
    Backspace,
    Delete,
    Return,
    Escape,
    Tab,
    Other,
}

/// What the shell around the editor has to do after a key or a shortcut.
#[derive(Clone, Debug, PartialEq)]
pub enum Command {
    Nothing,
    /// Offer to undo the list item just continued.
    OfferUndoChip,
    CloseMenu,
    OpenMenu,
    /// Open the assistant menu over the selection.
    AiMenu,
    Save,
    SavePopup,
    Load,
    /// Put this text on the clipboard.
    Copy(String),
    /// Read the clipboard and paste it.
    Paste,
    Quit,
    NewFilePopup,
    NewFile,
    IncreaseFontSize,
    DecreaseFontSize,
    StatsPopup,
    FindPopup,
    PrintDir,
}

/// The state with the word around the cursor selected.
pub open spec fn word_range(st: (Seq<Seq<char>>, GridPos, Range)) -> (Seq<Seq<char>>, GridPos, Range) {
    let (d, cur, sel) = st;
    let (a, b) = word_at_spec(d[cur.y as int], cur.x as int);
    (d, cur, Range {
        start: Some(GridPos { x: a as u32, y: cur.y }),
        end: Some(GridPos { x: b as u32, y: cur.y }),
    })
}

/// The state with the word around the cursor selected, when nothing is.
pub open spec fn word_selected(st: (Seq<Seq<char>>, GridPos, Range)) -> (Seq<Seq<char>>, GridPos, Range) {
    if st.2.valid() {
        st
    } else {
        word_range(st)
    }
}

/// The state with the whole document selected.
pub open spec fn all_selected(st: EditState) -> EditState {
    let (d, cur, sel) = st;
    (d, cur, Range {
        start: Some(GridPos { x: 0, y: 0 }),
        end: Some(GridPos { x: d.last().len() as u32, y: (d.len() - 1) as u32 }),
    })
}

/// The state with the cursor's row added to the selection and the cursor on the next row.
pub open spec fn line_added(st: EditState) -> EditState {
    let (d, cur, sel) = st;
    let row = Range {
        start: Some(GridPos { x: 0, y: cur.y }),
        end: Some(GridPos { x: d[cur.y as int].len() as u32, y: cur.y }),
    };
    (d, clamp_to_doc(d, GridPos { x: 0, y: (cur.y + 1) as u32 }), sel.add_spec(row))
}

/// The command that a Cmd shortcut hands to the shell.
pub open spec fn shortcut_command(c: char, copied: Seq<char>, has_selection: bool) -> Option<Command> {
    if c == 's' {
        Some(Command::Save)
    } else if c == 'S' {
        Some(Command::SavePopup)
    } else if c == 'o' {
        Some(Command::Load)
    } else if c == 'v' {
        Some(Command::Paste)
    } else if c == 'w' || c == 'q' {
        Some(Command::Quit)
    } else if c == '+' || c == '=' {
        Some(Command::IncreaseFontSize)
    } else if c == '-' {
        Some(Command::DecreaseFontSize)
    } else if c == 'n' {
        Some(Command::NewFilePopup)
    } else if c == 'N' {
        Some(Command::NewFile)
    } else if c == 'i' {
        Some(Command::StatsPopup)
    } else if c == 'r' {
        Some(Command::FindPopup)
    } else if c == 'p' {
        Some(Command::PrintDir)
    } else if c == 'P' {
        Some(Command::AiMenu)
    } else if (c == 'c' || c == 'x') && has_selection {
        None
    } else {
        Some(Command::Nothing)
    }
}

/// The pieces of `pieces` that are not empty, in order.
pub open spec fn non_empty(pieces: Seq<Seq<char>>) -> Seq<Seq<char>>
    decreases pieces.len(),
{
    if pieces.len() == 0 {
        Seq::empty()
    } else {
        let rest = non_empty(pieces.drop_last());
        if pieces.last().len() > 0 {
            rest.push(pieces.last())
        } else {
            rest
        }
    }
}

/// Pasting lines in turn: each is appended to the cursor's row and the cursor moves forward
/// by its length; before each further line an empty row is added at the end of the document
/// and the cursor moves down one row. Pasting stops where a row, or the document, would
/// outgrow its limit.
pub open spec fn paste_steps(st: EditState, m: Modifiers, pieces: Seq<Seq<char>>) -> EditState
    decreases pieces.len(),
{
    if pieces.len() == 0 {
        st
    } else {
        let (d, cur, sel) = st;
        let p = pieces[0];
        if d[cur.y as int].len() + p.len() > u32::MAX || p.len() > i32::MAX || d.len() >= u32::MAX {
            st
        } else {
            let st1 = move_rel_spec((d.update(cur.y as int, d[cur.y as int] + p), cur, sel), m, p.len() as int, 0);
            if pieces.len() > 1 {
                let (d1, c1, s1) = st1;
                paste_steps(move_rel_spec((d1.push(Seq::empty()), c1, s1), m, 0, 1), m, pieces.drop_first())
            } else {
                st1
            }
        }
    }
}

impl Editor {
    /// Starts a new row unless there is no room for one; returns what the shell must do.
    fn enter(&mut self) -> (c: Command)
        requires
            old(self).wf(),
        ensures
            final(self).wf(),
            old(self).lines@.len() < u32::MAX && rows_have_room(old(self).doc()) ==> final(self).state()
                == new_line_spec(old(self).state()),
            !(old(self).lines@.len() < u32::MAX && rows_have_room(old(self).doc())) ==> final(self).state()
                == old(self).state(),
    {
        if self.lines.len() < u32::MAX as usize && self.has_room() {
            if self.new_line() {
                Command::OfferUndoChip
            } else {
                Command::Nothing
            }
        } else {
            Command::Nothing
        }
    }

    /// Dispatches a key: arrows move (Cmd+Alt with Right, Left, Up aligns the row right,
    /// left, center), Backspace and Delete delete, Return starts a new row (Alt+Return asks
    /// for the assistant), Escape and Alt+Tab close and open the menu.
    pub fn handle_key(&mut self, key: Key) -> (c: Command)
        requires
            old(self).wf(),
        ensures
            final(self).wf(),
            ({
                let st = old(self).state();
                let m = old(self).modifiers;
                let ctrl_alt = m.logo && m.alt;
                match key {
                    Key::Right => ctrl_alt || final(self).state() == move_rel_spec(st, m, 1, 0),
                    Key::Left => ctrl_alt || final(self).state() == move_rel_spec(st, m, -1, 0),
                    Key::Up => ctrl_alt || final(self).state() == move_rel_spec(st, m, 0, -1),
                    Key::Down => final(self).state() == move_rel_spec(st, m, 0, 1),
                    Key::Backspace => final(self).state() == delete_char_spec(st, m),
                    Key::Delete => final(self).state() == delete_char_spec(move_rel_spec(st, m, 1, 0), m),
                    Key::Escape => final(self).state() == st && c == Command::CloseMenu,
                    Key::Tab => final(self).state() == st && c == (if m.alt {
                        Command::OpenMenu
                    } else {
                        Command::Nothing
                    }),
                    Key::Other => final(self).state() == st && c == Command::Nothing,
                    Key::Return => if m.alt {
                        c == Command::AiMenu && final(self).state() == word_selected(st)
                    } else if old(self).lines@.len() < u32::MAX && rows_have_room(st.0) {
                        final(self).state() == new_line_spec(st)
                    } else {
                        final(self).state() == st
                    },
                }
            }),
            ({
                let m = old(self).modifiers;
                let a = match key {
                    Key::Right => Alignment::Right,
                    Key::Left => Alignment::Left,
                    _ => Alignment::Center,
                };
                (key == Key::Right || key == Key::Left || key == Key::Up) && m.logo && m.alt ==> {
                    &&& final(self).state() == old(self).state()
                    &&& forall|i: int|
                        block_rows(old(self).cursor_pos(), old(self).selection.range).0 <= i
                            <= block_rows(old(self).cursor_pos(), old(self).selection.range).1
                            ==> #[trigger] final(self).lines@[i].alignment == a
                }
            }),
    {
        let m = self.modifiers;
        let ctrl_alt = m.logo && m.alt;
        match key {
            Key::Right => {
                if ctrl_alt {
                    self.set_line_alignment(Alignment::Right);
                } else {
                    self.move_cursor_relative(1, 0);
                }
                Command::Nothing
            },
            Key::Left => {
                if ctrl_alt {
                    self.set_line_alignment(Alignment::Left);
                } else {
                    self.move_cursor_relative(-1, 0);
                }
                Command::Nothing
            },
            Key::Up => {
                if ctrl_alt {
                    self.set_line_alignment(Alignment::Center);
                } else {
                    self.move_cursor_relative(0, -1);
                }
                Command::Nothing
            },
            Key::Down => {
                self.move_cursor_relative(0, 1);
                Command::Nothing
            },
            Key::Backspace => {
                self.delete_char();
                Command::Nothing
            },
            Key::Delete => {
                self.move_cursor_relative(1, 0);
                self.delete_char();
                Command::Nothing
            },
            Key::Return => {
                if m.alt {
                    if !self.selection.is_valid() {
                        self.select_current_word();
                    }
                    Command::AiMenu
                } else {
                    self.enter()
                }
            },
            Key::Escape => Command::CloseMenu,
            Key::Tab => {
                if m.alt {
                    Command::OpenMenu
                } else {
                    Command::Nothing
                }
            },
            Key::Other => Command::Nothing,
        }
    }

    /// A Cmd shortcut: `u` underlines, `a` selects all, `l` adds the row to the selection,
    /// `L` deletes the row, `d` selects the word, `D` duplicates rows, `c` copies and `x`
    /// cuts the selection; the others are for the shell (see `shortcut_command`).
    pub fn shortcut(&mut self, c: char) -> (r: Command)
        requires
            old(self).wf(),
        ensures
            final(self).wf(),
            ({
                let st = old(self).state();
                let sel = old(self).selection.range;
                let copied = selected_text(st.0, sel);
                match shortcut_command(c, copied, sel.valid()) {
                    Some(cmd) => r == cmd,
                    None => match r {
                        Command::Copy(t) => t@ == copied,
                        _ => false,
                    },
                }
            }),
            c == 'u' ==> final(self).state() == old(self).state() && final(self).underline_buffer@
                == toggle_spec(old(self).underline_buffer@, old(self).selection.range),
            c == 'a' ==> final(self).state() == all_selected(old(self).state()),
            c == 'l' ==> final(self).state() == line_added(old(self).state()),
            c == 'L' ==> final(self).state() == delete_sel_state(line_added(old(self).state())),
            c == 'x' ==> final(self).state() == delete_sel_state(old(self).state()),
            c == 'd' ==> final(self).state() == word_range(old(self).state()),
            c == 'P' ==> final(self).state() == word_selected(old(self).state()),
            c == 'D' ==> final(self).state() == (if old(self).lines@.len() <= u32::MAX / 2 {
                duplicate_state(old(self).state())
            } else {
                old(self).state()
            }),
            c != 'u' && c != 'a' && c != 'l' && c != 'L' && c != 'x' && c != 'd' && c != 'D' && c
                != 'P' ==> final(self).state() == old(self).state(),
    {
        let copied = self.get_selected_text();
        let valid = self.selection.is_valid();
        if c == 'u' {
            self.underline();
            Command::Nothing
        } else if c == 'c' {
            if valid {
                Command::Copy(copied)
            } else {
                Command::Nothing
            }
        } else if c == 'x' {
            self.delete_selection();
            if valid {
                Command::Copy(copied)
            } else {
                Command::Nothing
            }
        } else if c == 'a' {
            self.select_all();
            Command::Nothing
        } else if c == 'l' {
            self.select_current_line();
            Command::Nothing
        } else if c == 'L' {
            self.select_current_line();
            self.delete_selection();
            Command::Nothing
        } else if c == 'd' {
            self.select_current_word();
            Command::Nothing
        } else if c == 'D' {
            if self.lines.len() <= (u32::MAX / 2) as usize {
                self.duplicate_line();
            }
            Command::Nothing
        } else if c == 'P' {
            if !self.selection.is_valid() {
                self.select_current_word();
            }
            Command::AiMenu
        } else if c == 's' {
            Command::Save
        } else if c == 'S' {
            Command::SavePopup
        } else if c == 'o' {
            Command::Load
        } else if c == 'v' {
            Command::Paste
        } else if c == 'w' || c == 'q' {
            Command::Quit
        } else if c == '+' || c == '=' {
            Command::IncreaseFontSize
        } else if c == '-' {
            Command::DecreaseFontSize
        } else if c == 'n' {
            Command::NewFilePopup
        } else if c == 'N' {
            Command::NewFile
        } else if c == 'i' {
            Command::StatsPopup
        } else if c == 'r' {
            Command::FindPopup
        } else if c == 'p' {
            Command::PrintDir
        } else {
            Command::Nothing
        }
    }

    /// Appends `p` to the cursor's row.
    fn append_to_cursor_row(&mut self, p: &Vec<char>)
        requires
            old(self).wf(),
            old(self).doc()[old(self).cursor.y as int].len() + p@.len() <= u32::MAX,
        ensures
            final(self).wf(),
            final(self).state() == (
                old(self).doc().update(old(self).cursor.y as int, old(self).doc()[old(self).cursor.y as int] + p@),
                old(self).cursor_pos(),
                old(self).selection.range,
            ),
            final(self).modifiers == old(self).modifiers,
    {
        let y = self.cursor.y as usize;
        let ghost d = self.doc();
        let ghost before = self.lines@;
        proof {
            assert(d[y as int] == self.lines@[y as int]@);
        }
        let mut buf = self.lines[y].buffer.clone();
        let mut extra = p.clone();
        buf.append(&mut extra);
        self.replace_row(y, buf);
        proof {
            assert forall|i: int| 0 <= i < self.lines@.len() implies #[trigger] self.doc()[i].len() >= d[i].len() by {
                if i != y {
                    assert(self.doc()[i] == d[i]);
                }
            }
            let rs = self.selection.range.start;
            let re = self.selection.range.end;
            if rs is Some {
                assert(self.doc()[rs.unwrap().y as int].len() >= d[rs.unwrap().y as int].len());
            }
            if re is Some {
                assert(self.doc()[re.unwrap().y as int].len() >= d[re.unwrap().y as int].len());
            }
        }
    }

    /// Pastes `content` (see `paste_steps`) after deleting the selection; the document is
    /// marked changed unless `content` is empty.
    pub fn paste(&mut self, content: &str)
        requires
            old(self).wf(),
        ensures
            final(self).wf(),
            content@.len() == 0 ==> final(self).state() == delete_sel_state(old(self).state()),
            content@.len() > 0 ==> final(self).state() == paste_steps(
                delete_sel_state(old(self).state()),
                old(self).modifiers,
                non_empty(split_on(content@, '\n')),
            ) && final(self).dirty,
    {
        self.delete_selection();
        let chars = chars_of(content);
        if chars.len() == 0 {
            return;
        }
        let all = split_chars(&chars, '\n');
        let ghost ps = all@.map_values(|v: Vec<char>| v@);
        let mut pieces: Vec<Vec<char>> = Vec::new();
        let mut i: usize = 0;
        while i < all.len()
            invariant
                ps == all@.map_values(|v: Vec<char>| v@),
                i <= all@.len(),
                pieces@.map_values(|v: Vec<char>| v@) == non_empty(ps.take(i as int)),
            decreases all@.len() - i,
        {
            proof {
                assert(ps.take(i + 1).drop_last() =~= ps.take(i as int));
                assert(ps[i as int] == all@[i as int]@);
            }
            if all[i].len() > 0 {
                let ghost before = pieces@.map_values(|v: Vec<char>| v@);
                pieces.push(all[i].clone());
                proof {
                    assert(pieces@.map_values(|v: Vec<char>| v@) =~= before.push(ps[i as int]));
                }
            }
            i = i + 1;
        }
        proof {
            assert(ps.take(i as int) =~= ps);
        }
        let ghost pv = pieces@.map_values(|v: Vec<char>| v@);
        let ghost m = self.modifiers;
        let mut k: usize = 0;
        proof {
            assert(pv.skip(0) =~= pv);
        }
        while k < pieces.len()
            invariant
                self.wf(),
                self.modifiers == m,
                pv == pieces@.map_values(|v: Vec<char>| v@),
                k <= pieces@.len(),
                paste_steps(self.state(), m, pv.skip(k as int)) == paste_steps(
                    delete_sel_state(old(self).state()),
                    old(self).modifiers,
                    non_empty(split_on(content@, '\n')),
                ),
                m == old(self).modifiers,
                content@.len() > 0,
            decreases pieces@.len() - k,
        {
            let ghost st = self.state();
            proof {
                assert(pv.skip(k as int)[0] == pieces@[k as int]@);
                assert(pv.skip(k as int).drop_first() =~= pv.skip(k + 1));
                assert(self.doc()[self.cursor.y as int] == self.lines@[self.cursor.y as int]@);
            }
            let p = &pieces[k];
            let row_len = self.lines[self.cursor.y as usize].buffer.len();
            if p.len() > i32::MAX as usize || row_len as u64 + p.len() as u64 > u32::MAX as u64
                || self.lines.len() >= u32::MAX as usize {
                self.dirty = true;
                return;
            }
            self.append_to_cursor_row(p);
            self.move_cursor_relative(p.len() as i32, 0);
            if k + 1 < pieces.len() {
                self.push_empty_row();
                self.move_cursor_relative(0, 1);
            }
            k = k + 1;
        }
        self.dirty = true;
    }

    /// Adds an empty row at the end of the document.
    fn push_empty_row(&mut self)
        requires
            old(self).wf(),
            old(self).lines@.len() < u32::MAX,
        ensures
            final(self).wf(),
            final(self).state() == (old(self).doc().push(Seq::empty()), old(self).cursor_pos(), old(self).selection.range),
            final(self).modifiers == old(self).modifiers,
    {
        let ghost before = self.lines@;
        self.lines.push(Line::new());
        proof {
            assert(doc_of(self.lines@) =~= doc_of(before).push(Seq::empty()));
            assert forall|i: int| 0 <= i < self.lines@.len() implies #[trigger] self.lines@[i]@.len() <= u32::MAX by {
                if i < before.len() {
                    assert(self.lines@[i] == before[i]);
                }
            }
            assert forall|i: int| 0 <= i < before.len() implies #[trigger] self.doc()[i] == doc_of(before)[i] by {}
        }
    }
}

} // verus!
