//! What the user asks for, and how key presses and other terminal events
//! map to it.
use crate::cli::FilePathWithOptionalLocation;
use crate::strings::{push_char, to_owned_string};
use crate::types::MoveTarget;
use vstd::prelude::*;

verus! {

/// What a pane is asked to do.
#[derive(Debug, Clone)]
pub enum PaneAction {
    MoveTo(MoveTarget),
    SpawnMultiCursorTo(MoveTarget),
    SelectTo(MoveTarget),
    SelectAll,
    Insert(String),
    InsertNewline,
    DeleteBackward,
    DeleteForward,
    DeleteWord,
    Indent,
    Dedent,
    MoveLinesUp,
    MoveLinesDown,
    Undo,
    Redo,
    Find(String),
    RepeatFind,
    RepeatFindBackward,
    QuickAddNext,
    ScrollDown(usize),
    ScrollUp(usize),
    Tab,
    BackTab,
    Autocomplete,
    AutocompleteCyclePrevious,
    AutocompleteCycleNext,
    AutocompleteAcceptSuggestion,
}

/// What the editor is asked to do.
#[derive(Debug, Clone)]
pub enum Action {
    Nothing,
    Quit,
    Esc,
    Resize(u16, u16),
    Command(String),
    CommandPrompt,
    CommandPromptEdit(String),
    SetInfo(String),
    HandledByPane(PaneAction),
    Save,
    SaveAs(String),
    Open(FilePathWithOptionalLocation),
    Cut,
    Copy,
    Paste,
    NewPane,
    ClosePane,
    GoToPane(usize),
    NextPane,
    PreviousPane,
}

/// A key, as the terminal reports it.
#[derive(Debug, Clone, Copy, PartialEq, Eq, Structural)]
pub enum KeyCode {
    Char(char),
    Up,
    Down,
    Left,
    Right,
    Home,
    End,
    PageUp,
    PageDown,
    Enter,
    Tab,
    BackTab,
    Backspace,
    Delete,
    F(u8),
    Esc,
    Other,
}

/// A key press: the key, which modifiers were held, and how the terminal
/// describes the event.
#[derive(Debug, Clone)]
pub struct KeyPress {
    pub code: KeyCode,
    pub ctrl: bool,
    pub alt: bool,
    pub shift: bool,
    /// No modifier other than shift was held.
    pub only_shift: bool,
    pub description: String,
}

/// What the mouse did.
#[derive(Debug, Clone, Copy, PartialEq, Eq, Structural)]
pub enum MouseKind {
    ScrollUp,
    ScrollDown,
    Other,
}

/// A terminal event.
#[derive(Debug, Clone)]
pub enum InputEvent {
    FocusGained,
    FocusLost,
    Resize(u16, u16),
    Paste(String),
    Mouse(MouseKind),
    Key(KeyPress),
}

/// A pane action, with its strings as char sequences.
pub enum PaneActionView {
    MoveTo(MoveTarget),
    SpawnMultiCursorTo(MoveTarget),
    SelectTo(MoveTarget),
    SelectAll,
    Insert(Seq<char>),
    InsertNewline,
    DeleteBackward,
    DeleteForward,
    DeleteWord,
    Indent,
    Dedent,
    MoveLinesUp,
    MoveLinesDown,
    Undo,
    Redo,
    Find(Seq<char>),
    RepeatFind,
    RepeatFindBackward,
    QuickAddNext,
    ScrollDown(usize),
    ScrollUp(usize),
    Tab,
    BackTab,
    Autocomplete,
    AutocompleteCyclePrevious,
    AutocompleteCycleNext,
    AutocompleteAcceptSuggestion,
}

/// An action, with its strings as char sequences.
pub enum ActionView {
    Nothing,
    Quit,
    Esc,
    Resize(u16, u16),
    Command(Seq<char>),
    CommandPrompt,
    CommandPromptEdit(Seq<char>),
    SetInfo(Seq<char>),
    HandledByPane(PaneActionView),
    Save,
    SaveAs(Seq<char>),
    Open(Seq<char>, Option<usize>, Option<usize>),
    Cut,
    Copy,
    Paste,
    NewPane,
    ClosePane,
    GoToPane(usize),
    NextPane,
    PreviousPane,
}

impl PaneAction {
    pub open spec fn view(self) -> PaneActionView {
        match self {
            PaneAction::MoveTo(t) => PaneActionView::MoveTo(t),
            PaneAction::SpawnMultiCursorTo(t) => PaneActionView::SpawnMultiCursorTo(t),
            PaneAction::SelectTo(t) => PaneActionView::SelectTo(t),
            PaneAction::SelectAll => PaneActionView::SelectAll,
            PaneAction::Insert(s) => PaneActionView::Insert(s@),
            PaneAction::InsertNewline => PaneActionView::InsertNewline,
            PaneAction::DeleteBackward => PaneActionView::DeleteBackward,
            PaneAction::DeleteForward => PaneActionView::DeleteForward,
            PaneAction::DeleteWord => PaneActionView::DeleteWord,
            PaneAction::Indent => PaneActionView::Indent,
            PaneAction::Dedent => PaneActionView::Dedent,
            PaneAction::MoveLinesUp => PaneActionView::MoveLinesUp,
            PaneAction::MoveLinesDown => PaneActionView::MoveLinesDown,
            PaneAction::Undo => PaneActionView::Undo,
            PaneAction::Redo => PaneActionView::Redo,
            PaneAction::Find(s) => PaneActionView::Find(s@),
            PaneAction::RepeatFind => PaneActionView::RepeatFind,
            PaneAction::RepeatFindBackward => PaneActionView::RepeatFindBackward,
            PaneAction::QuickAddNext => PaneActionView::QuickAddNext,
            PaneAction::ScrollDown(n) => PaneActionView::ScrollDown(n),
            PaneAction::ScrollUp(n) => PaneActionView::ScrollUp(n),
            PaneAction::Tab => PaneActionView::Tab,
            PaneAction::BackTab => PaneActionView::BackTab,
            PaneAction::Autocomplete => PaneActionView::Autocomplete,
            PaneAction::AutocompleteCyclePrevious => PaneActionView::AutocompleteCyclePrevious,
            PaneAction::AutocompleteCycleNext => PaneActionView::AutocompleteCycleNext,
            PaneAction::AutocompleteAcceptSuggestion => PaneActionView::AutocompleteAcceptSuggestion,
        }
    }
}

impl Action {
    pub open spec fn view(self) -> ActionView {
        match self {
            Action::Nothing => ActionView::Nothing,
            Action::Quit => ActionView::Quit,
            Action::Esc => ActionView::Esc,
            Action::Resize(c, r) => ActionView::Resize(c, r),
            Action::Command(s) => ActionView::Command(s@),
            Action::CommandPrompt => ActionView::CommandPrompt,
            Action::CommandPromptEdit(s) => ActionView::CommandPromptEdit(s@),
            Action::SetInfo(s) => ActionView::SetInfo(s@),
            Action::HandledByPane(p) => ActionView::HandledByPane(p.view()),
            Action::Save => ActionView::Save,
            Action::SaveAs(s) => ActionView::SaveAs(s@),
            Action::Open(f) => ActionView::Open(f.path@, f.line, f.column),
            Action::Cut => ActionView::Cut,
            Action::Copy => ActionView::Copy,
            Action::Paste => ActionView::Paste,
            Action::NewPane => ActionView::NewPane,
            Action::ClosePane => ActionView::ClosePane,
            Action::GoToPane(i) => ActionView::GoToPane(i),
            Action::NextPane => ActionView::NextPane,
            Action::PreviousPane => ActionView::PreviousPane,
        }
    }
}

/// An action for the pane.
pub open spec fn pane(a: PaneActionView) -> ActionView {
    ActionView::HandledByPane(a)
}

/// The action bound to a key press.
pub open spec fn key_action(k: KeyPress) -> ActionView {
    let ctrl = k.ctrl;
    let alt = k.alt;
    let shift = k.shift;
    match k.code {
        KeyCode::Char(c) => if ctrl && c == 'q' {
            ActionView::Quit
        } else if ctrl && c == 'w' {
            ActionView::ClosePane
        } else if ctrl && c == 't' {
            ActionView::NewPane
        } else if ctrl && c == 'e' {
            ActionView::CommandPrompt
        } else if ctrl && c == 'o' {
            ActionView::CommandPromptEdit("open "@)
        } else if ctrl && c == 'z' {
            pane(PaneActionView::Undo)
        } else if ctrl && c == 'y' {
            pane(PaneActionView::Redo)
        } else if ctrl && c == 'f' {
            ActionView::CommandPromptEdit("find "@)
        } else if ctrl && c == 'g' {
            ActionView::CommandPromptEdit("goto "@)
        } else if ctrl && c == 'b' {
            pane(PaneActionView::RepeatFindBackward)
        } else if ctrl && c == 'n' {
            pane(PaneActionView::RepeatFind)
        } else if ctrl && c == 'd' {
            pane(PaneActionView::QuickAddNext)
        } else if ctrl && c == 'c' {
            ActionView::Copy
        } else if ctrl && c == 'x' {
            ActionView::Cut
        } else if ctrl && c == 'v' {
            ActionView::Paste
        } else if ctrl && c == 'a' {
            pane(PaneActionView::SelectAll)
        } else if ctrl && c == 's' {
            ActionView::Save
        } else if alt && '1' <= c <= '9' {
            ActionView::GoToPane((c as u32 - '1' as u32) as usize)
        } else if alt && c == 'M' {
            pane(PaneActionView::SelectTo(MoveTarget::MatchingPair))
        } else if alt && c == 'm' {
            pane(PaneActionView::MoveTo(MoveTarget::MatchingPair))
        } else if k.only_shift {
            pane(PaneActionView::Insert(seq![c]))
        } else if ctrl && c == 'h' {
            pane(PaneActionView::DeleteWord)
        } else {
            ActionView::SetInfo(k.description@)
        },
        KeyCode::Up => if alt && shift {
            pane(PaneActionView::SpawnMultiCursorTo(MoveTarget::Up(1)))
        } else if alt {
            pane(PaneActionView::MoveLinesUp)
        } else if shift {
            pane(PaneActionView::SelectTo(MoveTarget::Up(1)))
        } else {
            pane(PaneActionView::MoveTo(MoveTarget::Up(1)))
        },
        KeyCode::Down => if alt && shift {
            pane(PaneActionView::SpawnMultiCursorTo(MoveTarget::Down(1)))
        } else if alt {
            pane(PaneActionView::MoveLinesDown)
        } else if shift {
            pane(PaneActionView::SelectTo(MoveTarget::Down(1)))
        } else {
            pane(PaneActionView::MoveTo(MoveTarget::Down(1)))
        },
        KeyCode::Left => {
            let target = if ctrl {
                MoveTarget::NextWordBoundaryLeft
            } else {
                MoveTarget::Left(1)
            };
            if alt {
                ActionView::PreviousPane
            } else if shift {
                pane(PaneActionView::SelectTo(target))
            } else {
                pane(PaneActionView::MoveTo(target))
            }
        },
        KeyCode::Right => {
            let target = if ctrl {
                MoveTarget::NextWordBoundaryRight
            } else {
                MoveTarget::Right(1)
            };
            if alt {
                ActionView::NextPane
            } else if shift {
                pane(PaneActionView::SelectTo(target))
            } else {
                pane(PaneActionView::MoveTo(target))
            }
        },
        KeyCode::Home => {
            let target = if ctrl {
                MoveTarget::Start
            } else {
                MoveTarget::StartOfLine
            };
            if shift {
                pane(PaneActionView::SelectTo(target))
            } else {
                pane(PaneActionView::MoveTo(target))
            }
        },
        KeyCode::End => {
            let target = if ctrl {
                MoveTarget::End
            } else {
                MoveTarget::EndOfLine
            };
            if shift {
                pane(PaneActionView::SelectTo(target))
            } else {
                pane(PaneActionView::MoveTo(target))
            }
        },
        KeyCode::PageUp => pane(PaneActionView::MoveTo(MoveTarget::Up(25))),
        KeyCode::PageDown => pane(PaneActionView::MoveTo(MoveTarget::Down(25))),
        KeyCode::Enter => if shift {
            pane(PaneActionView::AutocompleteAcceptSuggestion)
        } else {
            pane(PaneActionView::InsertNewline)
        },
        KeyCode::Tab => pane(PaneActionView::Tab),
        KeyCode::BackTab => pane(PaneActionView::BackTab),
        KeyCode::Backspace => if ctrl {
            pane(PaneActionView::DeleteWord)
        } else {
            pane(PaneActionView::DeleteBackward)
        },
        KeyCode::Delete => pane(PaneActionView::DeleteForward),
        KeyCode::F(n) => if n == 5 {
            ActionView::Command("exec"@)
        } else if n == 6 {
            ActionView::Command("lint"@)
        } else {
            ActionView::SetInfo(k.description@)
        },
        KeyCode::Esc => ActionView::Esc,
        KeyCode::Other => ActionView::SetInfo(k.description@),
    }
}

/// The action for a terminal event: focus changes and most mouse events do
/// nothing; pasted text is inserted; a resize is passed on; wheel scrolls
/// one line; keys go by `key_action`.
pub open spec fn event_action(ev: InputEvent) -> ActionView {
    match ev {
        InputEvent::FocusGained => ActionView::Nothing,
        InputEvent::FocusLost => ActionView::Nothing,
        InputEvent::Resize(c, r) => ActionView::Resize(c, r),
        InputEvent::Paste(s) => pane(PaneActionView::Insert(s@)),
        InputEvent::Mouse(m) => match m {
            MouseKind::ScrollUp => pane(PaneActionView::ScrollUp(1)),
            MouseKind::ScrollDown => pane(PaneActionView::ScrollDown(1)),
            MouseKind::Other => ActionView::Nothing,
        },
        InputEvent::Key(k) => key_action(k),
    }
}

fn to_pane(a: PaneAction) -> (r: Action)
    ensures
        r.view() == pane(a.view()),
{
    Action::HandledByPane(a)
}

/// The action bound to a key press: see `key_action`.
pub fn key_press_action(k: &KeyPress) -> (r: Action)
    ensures
        r.view() == key_action(*k),
{
    let ctrl = k.ctrl;
    let alt = k.alt;
    let shift = k.shift;
    match k.code {
        KeyCode::Char(c) => if ctrl && c == 'q' {
            Action::Quit
        } else if ctrl && c == 'w' {
            Action::ClosePane
        } else if ctrl && c == 't' {
            Action::NewPane
        } else if ctrl && c == 'e' {
            Action::CommandPrompt
        } else if ctrl && c == 'o' {
            Action::CommandPromptEdit(to_owned_string("open "))
        } else if ctrl && c == 'z' {
            to_pane(PaneAction::Undo)
        } else if ctrl && c == 'y' {
            to_pane(PaneAction::Redo)
        } else if ctrl && c == 'f' {
            Action::CommandPromptEdit(to_owned_string("find "))
        } else if ctrl && c == 'g' {
            Action::CommandPromptEdit(to_owned_string("goto "))
        } else if ctrl && c == 'b' {
            to_pane(PaneAction::RepeatFindBackward)
        } else if ctrl && c == 'n' {
            to_pane(PaneAction::RepeatFind)
        } else if ctrl && c == 'd' {
            to_pane(PaneAction::QuickAddNext)
        } else if ctrl && c == 'c' {
            Action::Copy
        } else if ctrl && c == 'x' {
            Action::Cut
        } else if ctrl && c == 'v' {
            Action::Paste
        } else if ctrl && c == 'a' {
            to_pane(PaneAction::SelectAll)
        } else if ctrl && c == 's' {
            Action::Save
        } else if alt && '1' <= c && c <= '9' {
            Action::GoToPane(((c as u32) - ('1' as u32)) as usize)
        } else if alt && c == 'M' {
            to_pane(PaneAction::SelectTo(MoveTarget::MatchingPair))
        } else if alt && c == 'm' {
            to_pane(PaneAction::MoveTo(MoveTarget::MatchingPair))
        } else if k.only_shift {
            let mut s = String::new();
            push_char(&mut s, c);
            assert(s@ =~= seq![c]);
            to_pane(PaneAction::Insert(s))
        } else if ctrl && c == 'h' {
            to_pane(PaneAction::DeleteWord)
        } else {
            Action::SetInfo(k.description.clone())
        },
        KeyCode::Up => if alt && shift {
            to_pane(PaneAction::SpawnMultiCursorTo(MoveTarget::Up(1)))
        } else if alt {
            to_pane(PaneAction::MoveLinesUp)
        } else if shift {
            to_pane(PaneAction::SelectTo(MoveTarget::Up(1)))
        } else {
            to_pane(PaneAction::MoveTo(MoveTarget::Up(1)))
        },
        KeyCode::Down => if alt && shift {
            to_pane(PaneAction::SpawnMultiCursorTo(MoveTarget::Down(1)))
        } else if alt {
            to_pane(PaneAction::MoveLinesDown)
        } else if shift {
            to_pane(PaneAction::SelectTo(MoveTarget::Down(1)))
        } else {
            to_pane(PaneAction::MoveTo(MoveTarget::Down(1)))
        },
        KeyCode::Left => {
            let target = if ctrl {
                MoveTarget::NextWordBoundaryLeft
            } else {
                MoveTarget::Left(1)
            };
            if alt {
                Action::PreviousPane
            } else if shift {
                to_pane(PaneAction::SelectTo(target))
            } else {
                to_pane(PaneAction::MoveTo(target))
            }
        },
        KeyCode::Right => {
            let target = if ctrl {
                MoveTarget::NextWordBoundaryRight
            } else {
                MoveTarget::Right(1)
            };
            if alt {
                Action::NextPane
            } else if shift {
                to_pane(PaneAction::SelectTo(target))
            } else {
                to_pane(PaneAction::MoveTo(target))
            }
        },
        KeyCode::Home => {
            let target = if ctrl {
                MoveTarget::Start
            } else {
                MoveTarget::StartOfLine
            };
            if shift {
                to_pane(PaneAction::SelectTo(target))
            } else {
                to_pane(PaneAction::MoveTo(target))
            }
        },
        KeyCode::End => {
            let target = if ctrl {
                MoveTarget::End
            } else {
                MoveTarget::EndOfLine
            };
            if shift {
                to_pane(PaneAction::SelectTo(target))
            } else {
                to_pane(PaneAction::MoveTo(target))
            }
        },
        KeyCode::PageUp => to_pane(PaneAction::MoveTo(MoveTarget::Up(25))),
        KeyCode::PageDown => to_pane(PaneAction::MoveTo(MoveTarget::Down(25))),
        KeyCode::Enter => if shift {
            to_pane(PaneAction::AutocompleteAcceptSuggestion)
        } else {
            to_pane(PaneAction::InsertNewline)
        },
        KeyCode::Tab => to_pane(PaneAction::Tab),
        KeyCode::BackTab => to_pane(PaneAction::BackTab),
        KeyCode::Backspace => if ctrl {
            to_pane(PaneAction::DeleteWord)
        } else {
            to_pane(PaneAction::DeleteBackward)
        },
        KeyCode::Delete => to_pane(PaneAction::DeleteForward),
        KeyCode::F(n) => if n == 5 {
            Action::Command(to_owned_string("exec"))
        } else if n == 6 {
            Action::Command(to_owned_string("lint"))
        } else {
            Action::SetInfo(k.description.clone())
        },
        KeyCode::Esc => Action::Esc,
        KeyCode::Other => Action::SetInfo(k.description.clone()),
    }
}

/// The action for a terminal event: see `event_action`.
pub fn get_action(ev: &InputEvent) -> (r: Action)
    ensures
        r.view() == event_action(*ev),
{
    match ev {
        InputEvent::FocusGained => Action::Nothing,
        InputEvent::FocusLost => Action::Nothing,
        InputEvent::Resize(c, r) => Action::Resize(*c, *r),
        InputEvent::Paste(s) => to_pane(PaneAction::Insert(s.clone())),
        InputEvent::Mouse(m) => match m {
            MouseKind::ScrollUp => to_pane(PaneAction::ScrollUp(1)),
            MouseKind::ScrollDown => to_pane(PaneAction::ScrollDown(1)),
            MouseKind::Other => Action::Nothing,
        },
        InputEvent::Key(k) => key_press_action(k),
    }
}

} // verus!
