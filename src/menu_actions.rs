use vstd::prelude::*;

verus! {

/// What a menu entry does when chosen.
#[derive(Clone, Debug, PartialEq)]
pub enum MenuAction {
    Open(String),
    OpenWithInput(String),
    Save(String),
    SaveWithInput(String),
    Separator,
    Void,
    Information,
    Exit,
    CancelChip,
    Underline,
    Copy,
    Cut,
    Paste,
    Bold,
    OpenSubMenu,
    CloseMenu,
    PrintWithInput,
    Print(String),
    NewFile(String),
    NewFileWithInput(String),
    FindAndJumpWithInput,
    FindAndJump(String),
    AICorrect,
    AIQuestion(String),
    AIQuestionWithInput,
}

/// The kind of action that an entry with a text field performs with the text typed in.
#[derive(Clone, Copy, Debug, PartialEq, Eq, Structural)]
pub enum MenuActionFn {
    Open,
    Save,
    Print,
    NewFile,
    FindAndJump,
    AIQuestion,
}

impl MenuActionFn {
    /// The action performed with `text`.
    pub fn apply(self, text: String) -> (r: MenuAction)
        ensures
            self == MenuActionFn::Open ==> r == MenuAction::Open(text),
            self == MenuActionFn::Save ==> r == MenuAction::Save(text),
            self == MenuActionFn::Print ==> r == MenuAction::Print(text),
            self == MenuActionFn::NewFile ==> r == MenuAction::NewFile(text),
            self == MenuActionFn::FindAndJump ==> r == MenuAction::FindAndJump(text),
            self == MenuActionFn::AIQuestion ==> r == MenuAction::AIQuestion(text),
    {
        match self {
            MenuActionFn::Open => MenuAction::Open(text),
            MenuActionFn::Save => MenuAction::Save(text),
            MenuActionFn::Print => MenuAction::Print(text),
            MenuActionFn::NewFile => MenuAction::NewFile(text),
            MenuActionFn::FindAndJump => MenuAction::FindAndJump(text),
            MenuActionFn::AIQuestion => MenuAction::AIQuestion(text),
        }
    }
}

/// What an entry that asks for text does with it; entries of any other kind print it.
pub open spec fn fn_for(action: MenuAction) -> MenuActionFn {
    match action {
        MenuAction::OpenWithInput(_) => MenuActionFn::Open,
        MenuAction::SaveWithInput(_) => MenuActionFn::Save,
        MenuAction::PrintWithInput => MenuActionFn::Print,
        MenuAction::NewFileWithInput(_) => MenuActionFn::NewFile,
        MenuAction::FindAndJumpWithInput => MenuActionFn::FindAndJump,
        MenuAction::AIQuestionWithInput => MenuActionFn::AIQuestion,
        _ => MenuActionFn::Print,
    }
}

impl MenuAction {
    pub fn get_fn(action: &MenuAction) -> (r: MenuActionFn)
        ensures
            r == fn_for(*action),
    {
        match action {
            MenuAction::OpenWithInput(_) => MenuActionFn::Open,
            MenuAction::SaveWithInput(_) => MenuActionFn::Save,
            MenuAction::PrintWithInput => MenuActionFn::Print,
            MenuAction::NewFileWithInput(_) => MenuActionFn::NewFile,
            MenuAction::FindAndJumpWithInput => MenuActionFn::FindAndJump,
            MenuAction::AIQuestionWithInput => MenuActionFn::AIQuestion,
            _ => MenuActionFn::Print,
        }
    }
}

} // verus!
