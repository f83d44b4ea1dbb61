//! Keyboard dispatch: the decision from a key event to the action the
//! session takes.  The terminal backend delivers events and performs the
//! chosen action; the choice itself is a pure function of the key and the
//! bits of state it may depend on.

use vstd::prelude::*;

use crate::config::DiffMode;

verus! {

/// A key press, reduced to what dispatch looks at.
#[derive(Debug, Clone, Copy, PartialEq, Eq, Structural)]
pub enum Key {
    Char(char),
    Up,
    Down,
    Left,
    Right,
    PageUp,
    PageDown,
    Esc,
    Enter,
    Backspace,
    Other,
}

/// A key press with its modifiers.
#[derive(Debug, Clone, Copy, PartialEq, Eq, Structural)]
pub struct KeyInput {
    pub key: Key,
    pub ctrl: bool,
    pub shift: bool,
}

/// What the session does in response to a key press.
#[derive(Debug, Clone, Copy, PartialEq, Eq, Structural)]
pub enum InputAction {
    Quit,
    ToggleLogPane,
    SetModeSideBySide,
    SetModeInline,
    ScrollDown,
    ScrollUp,
    ScrollLeft,
    ScrollRight,
    NextCommit,
    PreviousCommit,
    NextFile,
    PreviousFile,
    ExpandContext,
    ResetContext,
    ToggleHelp,
    NoOp,
}

/// The dispatch rule.  With the help overlay open only the help toggles
/// and escape do anything; horizontal scrolling applies only in
/// side-by-side mode.
pub open spec fn spec_decide_key(help_visible: bool, diff_mode: DiffMode, k: KeyInput) -> InputAction {
    if help_visible {
        if (k.key == Key::Char('?')) || (k.key == Key::Char('/') && k.shift && !k.ctrl) || (k.key
            == Key::Esc && !k.ctrl && !k.shift) {
            InputAction::ToggleHelp
        } else {
            InputAction::NoOp
        }
    } else if (k.key == Key::Char('q') && !k.ctrl && !k.shift) || (k.key == Key::Char('c')
        && k.ctrl) {
        InputAction::Quit
    } else if k.key == Key::Char(' ') && !k.ctrl && !k.shift {
        InputAction::ToggleLogPane
    } else if (k.key == Key::Char('s') && !k.ctrl && !k.shift) || (k.key == Key::Char('S')
        && k.shift && !k.ctrl) {
        InputAction::SetModeSideBySide
    } else if (k.key == Key::Char('i') && !k.ctrl && !k.shift) || (k.key == Key::Char('I')
        && k.shift && !k.ctrl) {
        InputAction::SetModeInline
    } else if (k.key == Key::Char('j') && !k.ctrl && !k.shift) || (k.key == Key::Down && !k.ctrl
        && !k.shift) {
        InputAction::ScrollDown
    } else if (k.key == Key::Char('k') && !k.ctrl && !k.shift) || (k.key == Key::Up && !k.ctrl
        && !k.shift) {
        InputAction::ScrollUp
    } else if (k.key == Key::Char('h') && !k.ctrl && !k.shift) || (k.key == Key::Left && !k.ctrl
        && !k.shift) {
        if diff_mode == DiffMode::SideBySide {
            InputAction::ScrollLeft
        } else {
            InputAction::NoOp
        }
    } else if (k.key == Key::Char('l') && !k.ctrl && !k.shift) || (k.key == Key::Right && !k.ctrl
        && !k.shift) {
        if diff_mode == DiffMode::SideBySide {
            InputAction::ScrollRight
        } else {
            InputAction::NoOp
        }
    } else if k.key == Key::Char('n') && !k.ctrl && !k.shift {
        InputAction::NextCommit
    } else if k.key == Key::Char('p') && !k.ctrl && !k.shift {
        InputAction::PreviousCommit
    } else if k.key == Key::PageUp && !k.ctrl && !k.shift {
        InputAction::PreviousFile
    } else if k.key == Key::PageDown && !k.ctrl && !k.shift {
        InputAction::NextFile
    } else if (k.key == Key::Char('e') && !k.ctrl && !k.shift) || (k.key == Key::Char('E')
        && k.shift && !k.ctrl) {
        InputAction::ExpandContext
    } else if (k.key == Key::Char('r') && !k.ctrl && !k.shift) || (k.key == Key::Char('R')
        && k.shift && !k.ctrl) {
        InputAction::ResetContext
    } else if (k.key == Key::Char('?')) || (k.key == Key::Char('/') && k.shift && !k.ctrl) {
        InputAction::ToggleHelp
    } else {
        InputAction::NoOp
    }
}

/// Decide the action for a key press in the main view.
pub fn handle_key_event(help_visible: bool, diff_mode: DiffMode, k: KeyInput) -> (r: InputAction)
    ensures
        r == spec_decide_key(help_visible, diff_mode, k),
{
    if help_visible {
        if (k.key == Key::Char('?')) || (k.key == Key::Char('/') && k.shift && !k.ctrl) || (k.key
            == Key::Esc && !k.ctrl && !k.shift) {
            InputAction::ToggleHelp
        } else {
            InputAction::NoOp
        }
    } else if (k.key == Key::Char('q') && !k.ctrl && !k.shift) || (k.key == Key::Char('c')
        && k.ctrl) {
        InputAction::Quit
    } else if k.key == Key::Char(' ') && !k.ctrl && !k.shift {
        InputAction::ToggleLogPane
    } else if (k.key == Key::Char('s') && !k.ctrl && !k.shift) || (k.key == Key::Char('S')
        && k.shift && !k.ctrl) {
        InputAction::SetModeSideBySide
    } else if (k.key == Key::Char('i') && !k.ctrl && !k.shift) || (k.key == Key::Char('I')
        && k.shift && !k.ctrl) {
        InputAction::SetModeInline
    } else if (k.key == Key::Char('j') && !k.ctrl && !k.shift) || (k.key == Key::Down && !k.ctrl
        && !k.shift) {
        InputAction::ScrollDown
    } else if (k.key == Key::Char('k') && !k.ctrl && !k.shift) || (k.key == Key::Up && !k.ctrl
        && !k.shift) {
        InputAction::ScrollUp
    } else if (k.key == Key::Char('h') && !k.ctrl && !k.shift) || (k.key == Key::Left && !k.ctrl
        && !k.shift) {
        if diff_mode == DiffMode::SideBySide {
            InputAction::ScrollLeft
        } else {
            InputAction::NoOp
        }
    } else if (k.key == Key::Char('l') && !k.ctrl && !k.shift) || (k.key == Key::Right && !k.ctrl
        && !k.shift) {
        if diff_mode == DiffMode::SideBySide {
            InputAction::ScrollRight
        } else {
            InputAction::NoOp
        }
    } else if k.key == Key::Char('n') && !k.ctrl && !k.shift {
        InputAction::NextCommit
    } else if k.key == Key::Char('p') && !k.ctrl && !k.shift {
        InputAction::PreviousCommit
    } else if k.key == Key::PageUp && !k.ctrl && !k.shift {
        InputAction::PreviousFile
    } else if k.key == Key::PageDown && !k.ctrl && !k.shift {
        InputAction::NextFile
    } else if (k.key == Key::Char('e') && !k.ctrl && !k.shift) || (k.key == Key::Char('E')
        && k.shift && !k.ctrl) {
        InputAction::ExpandContext
    } else if (k.key == Key::Char('r') && !k.ctrl && !k.shift) || (k.key == Key::Char('R')
        && k.shift && !k.ctrl) {
        InputAction::ResetContext
    } else if (k.key == Key::Char('?')) || (k.key == Key::Char('/') && k.shift && !k.ctrl) {
        InputAction::ToggleHelp
    } else {
        InputAction::NoOp
    }
}

/// What the comment dialog does with a key press.
#[derive(Debug, Clone, Copy, PartialEq, Eq, Structural)]
pub enum DialogAction {
    SaveComment,
    CancelComment,
    AppendChar(char),
    AppendNewline,
    DeleteChar,
    NoOp,
}

pub open spec fn spec_decide_dialog_key(k: KeyInput) -> DialogAction {
    if k.key == Key::Char('s') && k.ctrl {
        DialogAction::SaveComment
    } else if k.key == Key::Esc && !k.ctrl && !k.shift {
        DialogAction::CancelComment
    } else if (k.key matches Key::Char(c) && !k.ctrl) {
        DialogAction::AppendChar(k.key->Char_0)
    } else if k.key == Key::Backspace && !k.ctrl && !k.shift {
        DialogAction::DeleteChar
    } else if k.key == Key::Enter && !k.ctrl && !k.shift {
        DialogAction::AppendNewline
    } else {
        DialogAction::NoOp
    }
}

/// Decide the action for a key press while the comment dialog is open.
pub fn handle_dialog_key(k: KeyInput) -> (r: DialogAction)
    ensures
        r == spec_decide_dialog_key(k),
{
    match k.key {
        Key::Char(c) => {
            if c == 's' && k.ctrl {
                DialogAction::SaveComment
            } else if !k.ctrl {
                DialogAction::AppendChar(c)
            } else {
                DialogAction::NoOp
            }
        }
        Key::Esc => if !k.ctrl && !k.shift {
            DialogAction::CancelComment
        } else {
            DialogAction::NoOp
        },
        Key::Backspace => if !k.ctrl && !k.shift {
            DialogAction::DeleteChar
        } else {
            DialogAction::NoOp
        },
        Key::Enter => if !k.ctrl && !k.shift {
            DialogAction::AppendNewline
        } else {
            DialogAction::NoOp
        },
        _ => DialogAction::NoOp,
    }
}

} // verus!
