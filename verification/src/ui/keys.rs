//! Key events, as the menus see them.
use vstd::prelude::*;

verus! {

/// The keys the menus react to
#[derive(Debug, Clone, Copy, PartialEq, Eq, Structural)]
pub enum Key {
    /// A key that types a character
    Char(char),
    Left,
    Right,
    Up,
    Down,
    Home,
    End,
    Enter,
    Esc,
    Backspace,
    Delete,
    /// Any other key
    Other,
}

/// Whether a key went down, is held down (and repeats), or was released
#[derive(Debug, Clone, Copy, PartialEq, Eq, Structural)]
pub enum KeyKind {
    Press,
    Repeat,
    Release,
}

/// One key event: the key, what happened to it, and whether Control and Shift were held
#[derive(Debug, Clone, Copy, PartialEq, Eq, Structural)]
pub struct KeyInput {
    pub key: Key,
    pub kind: KeyKind,
    pub control: bool,
    pub shift: bool,
}

/// The user asked to leave the program
#[derive(Debug, Clone, Copy, PartialEq, Eq, Structural)]
pub struct ExitRequest;

/// Control+C going down: in every menu, a request to leave the program
pub open spec fn is_exit_chord(k: KeyInput) -> bool {
    k.key == Key::Char('c') && k.control && k.kind == KeyKind::Press
}

/// The key went down or repeats while held: the menus act on both
pub open spec fn pressed_or_held(k: KeyInput) -> bool {
    k.kind == KeyKind::Press || k.kind == KeyKind::Repeat
}

impl KeyInput {
    /// Whether this is Control+C going down
    pub fn is_exit_chord(&self) -> (r: bool)
        ensures
            r == is_exit_chord(*self),
    {
        match self.key {
            Key::Char(c) => c == 'c' && self.control && self.kind == KeyKind::Press,
            _ => false,
        }
    }

    /// Whether the key went down or repeats while held
    pub fn pressed_or_held(&self) -> (r: bool)
        ensures
            r == pressed_or_held(*self),
    {
        self.kind == KeyKind::Press || self.kind == KeyKind::Repeat
    }
}

} // verus!
