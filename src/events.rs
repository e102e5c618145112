use vstd::prelude::*;

use crate::menu_actions::MenuAction;

verus! {

/// Path of a menu in the menu tree, one index per level; -1 below the menu's own level.
pub type MenuId = [isize; 3];

/// What holds the keyboard focus.
#[derive(PartialEq, Debug, Clone, Copy)]
pub enum FocusElement {
    Editor,
    Menu(MenuId),
    MenuInput(MenuId),
}

/// Messages from the editor to the window shell.
#[derive(PartialEq, Debug, Clone)]
pub enum EditorEvent {
    Update,
    Redraw,
    Focus(FocusElement),
    MenuItemSelected(MenuAction),
    MenuItemUnselected(MenuAction, String),
    SetDirty(String, bool),
    LoadFile(String),
    OAIResponse(MenuId, Vec<String>),
}

/// What a text field of a menu accepts.
#[derive(PartialEq, Debug, Clone, Copy)]
pub enum Validator {
    File,
    Path,
    NoCheck,
}

/// Time spent in the last update and the last draw.
#[derive(Debug)]
pub struct Stats {
    pub update_duration: std::time::Duration,
    pub draw_duration: std::time::Duration,
}

/// The assistant service that corrects or answers about the selected text.
pub struct OpenAIWrapper;

} // verus!
