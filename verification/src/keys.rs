//! The key events that the editor and the key map react to.

use vstd::prelude::*;

verus! {

/// The key that was pressed.
#[derive(Clone, Copy, PartialEq, Eq, Structural, Debug)]
pub enum KeyCode {
    Char(char),
    Backspace,
    Delete,
    Enter,
    Left,
    Right,
    Up,
    Down,
    Home,
    End,
    PageUp,
    PageDown,
    Tab,
    Esc,
    /// Any other key (function keys, media keys, ...).
    Other,
}

/// The modifier keys held while a key was pressed.
#[derive(Clone, Copy, PartialEq, Eq, Structural, Debug)]
pub struct KeyModifiers {
    pub shift: bool,
    pub control: bool,
    pub alt: bool,
    /// Super, hyper or meta.
    pub other: bool,
}

impl KeyModifiers {
    /// No modifier is held.
    pub open spec fn spec_is_empty(self) -> bool {
        !self.shift && !self.control && !self.alt && !self.other
    }

    /// No modifier held.
    pub fn none() -> (m: KeyModifiers)
        ensures
            m.spec_is_empty(),
    {
        KeyModifiers { shift: false, control: false, alt: false, other: false }
    }

    /// Only the control key held.
    pub fn control() -> (m: KeyModifiers)
        ensures
            m.control && !m.shift && !m.alt && !m.other,
    {
        KeyModifiers { shift: false, control: true, alt: false, other: false }
    }

    /// Only the alt key held.
    pub fn alt() -> (m: KeyModifiers)
        ensures
            m.alt && !m.shift && !m.control && !m.other,
    {
        KeyModifiers { shift: false, control: false, alt: true, other: false }
    }

    /// Whether no modifier is held.
    pub fn is_empty(&self) -> (b: bool)
        ensures
            b == self.spec_is_empty(),
    {
        !self.shift && !self.control && !self.alt && !self.other
    }
}

/// A key press: the key and the modifiers held with it.
#[derive(Clone, Copy, PartialEq, Eq, Structural, Debug)]
pub struct KeyEvent {
    pub code: KeyCode,
    pub modifiers: KeyModifiers,
}

impl KeyEvent {
    /// A key press with the given modifiers.
    pub fn new(code: KeyCode, modifiers: KeyModifiers) -> (k: KeyEvent)
        ensures
            k.code == code,
            k.modifiers == modifiers,
    {
        KeyEvent { code, modifiers }
    }

    /// A key press without modifiers.
    pub fn from_code(code: KeyCode) -> (k: KeyEvent)
        ensures
            k.code == code,
            k.modifiers.spec_is_empty(),
    {
        KeyEvent { code, modifiers: KeyModifiers::none() }
    }
}

} // verus!
