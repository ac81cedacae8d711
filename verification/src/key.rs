//! Keys, as every kind of terminal session reports them.
use vstd::prelude::*;

verus! {

#[derive(Debug, Clone, Copy, PartialEq, Eq, Structural)]
pub enum KeyCode {
    Char(char),
    Enter,
    Esc,
    Tab,
    BackTab,
    Backspace,
    Delete,
    Insert,
    Up,
    Down,
    Left,
    Right,
    Home,
    End,
    PageUp,
    PageDown,
}

#[derive(Debug, Clone, Copy, PartialEq, Eq, Structural)]
pub struct KeyModifiers {
    pub shift: bool,
    pub control: bool,
    pub alt: bool,
}

#[derive(Debug, Clone, Copy, PartialEq, Eq, Structural)]
pub struct KeyEvent {
    pub code: KeyCode,
    pub modifiers: KeyModifiers,
}

pub open spec fn unmodified() -> KeyModifiers {
    KeyModifiers { shift: false, control: false, alt: false }
}

pub open spec fn plain_key(code: KeyCode) -> KeyEvent {
    KeyEvent { code, modifiers: unmodified() }
}

pub open spec fn control_key(c: char) -> KeyEvent {
    KeyEvent {
        code: KeyCode::Char(c),
        modifiers: KeyModifiers { shift: false, control: true, alt: false },
    }
}

impl KeyModifiers {
    pub fn none() -> (r: KeyModifiers)
        ensures
            r == unmodified(),
    {
        KeyModifiers { shift: false, control: false, alt: false }
    }
}

impl KeyEvent {
    pub fn new(code: KeyCode, modifiers: KeyModifiers) -> (r: KeyEvent)
        ensures
            r.code == code,
            r.modifiers == modifiers,
    {
        KeyEvent { code, modifiers }
    }

    /// A key on its own.
    pub fn plain(code: KeyCode) -> (r: KeyEvent)
        ensures
            r == plain_key(code),
    {
        KeyEvent { code, modifiers: KeyModifiers::none() }
    }

    /// A character typed with control held down.
    pub fn control(c: char) -> (r: KeyEvent)
        ensures
            r == control_key(c),
    {
        KeyEvent {
            code: KeyCode::Char(c),
            modifiers: KeyModifiers { shift: false, control: true, alt: false },
        }
    }
}

/// A key on its own comes with no modifier, one with control held down with
/// that modifier and no other.
pub proof fn only_what_is_held_down_is_told(code: KeyCode, c: char)
    ensures
        plain_key(code).code == code,
        !plain_key(code).modifiers.shift && !plain_key(code).modifiers.control && !plain_key(
            code,
        ).modifiers.alt,
        control_key(c).code == KeyCode::Char(c),
        !control_key(c).modifiers.shift && control_key(c).modifiers.control && !control_key(
            c,
        ).modifiers.alt,
{
}

} // verus!
