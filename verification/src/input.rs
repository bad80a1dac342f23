use vstd::prelude::*;

verus! {

/// What a key press asks the terminal interface to do.
#[derive(Debug, Clone, Copy, PartialEq, Eq, Structural)]
pub enum Action {
    Up,
    Down,
    PageUp,
    PageDown,
    Top,
    Bottom,
    Enter,
    Back,
    Refresh,
    Quit,
    Nothing,
}

/// The key of a key press; keys that no binding uses are `Other`.
#[derive(Debug, Clone, Copy, PartialEq, Eq, Structural)]
pub enum KeyCode {
    Up,
    Down,
    Left,
    Right,
    PageUp,
    PageDown,
    Enter,
    Esc,
    Char(char),
    Other,
}

/// No modifier key held.
pub const NONE: u8 = 0b0000_0000;

/// The Shift modifier bit.
pub const SHIFT: u8 = 0b0000_0001;

/// The Control modifier bit.
pub const CONTROL: u8 = 0b0000_0010;

/// The Alt modifier bit.
pub const ALT: u8 = 0b0000_0100;

/// A key press: the key and the set of modifier bits held with it.
#[derive(Debug, Clone, Copy, PartialEq, Eq, Structural)]
pub struct KeyEvent {
    pub code: KeyCode,
    pub modifiers: u8,
}

impl KeyEvent {
    /// The press of `code` with the modifier bits `modifiers`.
    pub fn new(code: KeyCode, modifiers: u8) -> (k: KeyEvent)
        ensures
            k.code == code,
            k.modifiers == modifiers,
    {
        KeyEvent { code, modifiers }
    }
}

/// The action bound to a key press. Arrows, Page Up/Down, Enter and Esc act whatever the
/// modifiers; letters act only with exactly the modifiers of their binding: `k` up, `j` down,
/// Ctrl+`u` page up, Ctrl+`d` page down, `g` top, Shift+`G` bottom, `l` open, `h` back,
/// `r` refresh, `q` or Ctrl+`c` quit.
pub open spec fn key_action(code: KeyCode, m: u8) -> Action {
    match code {
        KeyCode::Up => Action::Up,
        KeyCode::Down => Action::Down,
        KeyCode::PageUp => Action::PageUp,
        KeyCode::PageDown => Action::PageDown,
        KeyCode::Right | KeyCode::Enter => Action::Enter,
        KeyCode::Left | KeyCode::Esc => Action::Back,
        KeyCode::Char(c) => if c == 'k' && m == NONE {
            Action::Up
        } else if c == 'j' && m == NONE {
            Action::Down
        } else if c == 'u' && m == CONTROL {
            Action::PageUp
        } else if c == 'd' && m == CONTROL {
            Action::PageDown
        } else if c == 'g' && m == NONE {
            Action::Top
        } else if c == 'G' && m == SHIFT {
            Action::Bottom
        } else if c == 'l' && m == NONE {
            Action::Enter
        } else if c == 'h' && m == NONE {
            Action::Back
        } else if c == 'r' && m == NONE {
            Action::Refresh
        } else if (c == 'q' && m == NONE) || (c == 'c' && m == CONTROL) {
            Action::Quit
        } else {
            Action::Nothing
        },
        KeyCode::Other => Action::Nothing,
    }
}

/// The action bound to `key`.
pub fn map_key(key: KeyEvent) -> (a: Action)
    ensures
        a == key_action(key.code, key.modifiers),
{
    let m = key.modifiers;
    match key.code {
        KeyCode::Up => Action::Up,
        KeyCode::Down => Action::Down,
        KeyCode::PageUp => Action::PageUp,
        KeyCode::PageDown => Action::PageDown,
        KeyCode::Right | KeyCode::Enter => Action::Enter,
        KeyCode::Left | KeyCode::Esc => Action::Back,
        KeyCode::Char(c) => if c == 'k' && m == NONE {
            Action::Up
        } else if c == 'j' && m == NONE {
            Action::Down
        } else if c == 'u' && m == CONTROL {
            Action::PageUp
        } else if c == 'd' && m == CONTROL {
            Action::PageDown
        } else if c == 'g' && m == NONE {
            Action::Top
        } else if c == 'G' && m == SHIFT {
            Action::Bottom
        } else if c == 'l' && m == NONE {
            Action::Enter
        } else if c == 'h' && m == NONE {
            Action::Back
        } else if c == 'r' && m == NONE {
            Action::Refresh
        } else if (c == 'q' && m == NONE) || (c == 'c' && m == CONTROL) {
            Action::Quit
        } else {
            Action::Nothing
        },
        KeyCode::Other => Action::Nothing,
    }
}

} // verus!
