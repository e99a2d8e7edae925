//! Keyboard input as the readers and the dashboard see it.
use vstd::prelude::*;

verus! {

/// The key that was pressed.
#[derive(Debug, Clone, Copy, PartialEq, Eq, Structural)]
pub enum KeyCode {
    Char(char),
    Up,
    Down,
    Left,
    Right,
    Enter,
    Esc,
    Tab,
    BackTab,
    Backspace,
    Home,
    End,
    PageUp,
    PageDown,
    Other,
}

/// Modifier keys held down.
#[derive(Debug, Clone, Copy, PartialEq, Eq, Structural)]
pub struct KeyModifiers {
    pub control: bool,
    pub shift: bool,
}

impl KeyModifiers {
    /// No modifier held.
    pub fn none() -> (res: KeyModifiers)
        ensures
            !res.control && !res.shift,
    {
        KeyModifiers { control: false, shift: false }
    }

    /// Control held.
    pub fn control() -> (res: KeyModifiers)
        ensures
            res.control && !res.shift,
    {
        KeyModifiers { control: true, shift: false }
    }

    /// Shift held.
    pub fn shift() -> (res: KeyModifiers)
        ensures
            !res.control && res.shift,
    {
        KeyModifiers { control: false, shift: true }
    }
}

/// A key press.
#[derive(Debug, Clone, Copy, PartialEq, Eq, Structural)]
pub struct KeyEvent {
    pub code: KeyCode,
    pub modifiers: KeyModifiers,
}

impl KeyEvent {
    pub fn new(code: KeyCode, modifiers: KeyModifiers) -> (res: Self)
        ensures
            res.code == code,
            res.modifiers == modifiers,
    {
        KeyEvent { code, modifiers }
    }
}

} // verus!
