//! Key events.

use vstd::prelude::*;

verus! {

/// The modifier keys held down.
#[derive(Debug, Clone, Copy, PartialEq, Eq, Structural)]
pub struct ModKeys {
    pub ctrl: bool,
    pub alt: bool,
    pub shift: bool,
}

impl ModKeys {
    /// The modifiers, one by one.
    pub open spec fn of(ctrl: bool, alt: bool, shift: bool) -> ModKeys {
        ModKeys { ctrl, alt, shift }
    }

    pub fn empty() -> (r: Self)
        ensures
            r == ModKeys::of(false, false, false),
    {
        ModKeys { ctrl: false, alt: false, shift: false }
    }

    pub fn ctrl() -> (r: Self)
        ensures
            r == ModKeys::of(true, false, false),
    {
        ModKeys { ctrl: true, alt: false, shift: false }
    }

    pub fn alt() -> (r: Self)
        ensures
            r == ModKeys::of(false, true, false),
    {
        ModKeys { ctrl: false, alt: true, shift: false }
    }

    pub fn shift() -> (r: Self)
        ensures
            r == ModKeys::of(false, false, true),
    {
        ModKeys { ctrl: false, alt: false, shift: true }
    }

    /// Whether no modifier is held down.
    pub fn is_empty(&self) -> (r: bool)
        ensures
            r == (*self == ModKeys::of(false, false, false)),
    {
        !self.ctrl && !self.alt && !self.shift
    }
}

#[derive(Debug)]
pub enum KeyCode {
    Char(char),
    /// A key that produces more than one character.
    Grapheme(String),
    Enter,
    Backspace,
    Tab,
    BackTab,
    Delete,
    Esc,
    Up,
    Down,
    Left,
    Right,
    Home,
    End,
    Insert,
    PageUp,
    PageDown,
    F(u8),
    /// Text to be taken as it is.
    Verbatim(String),
    /// The key that opens the command line.
    ExMode,
    BracketedPasteStart,
    BracketedPasteEnd,
    /// Row and column of the pointer.
    MousePos(usize, usize),
    /// Row and column of a click.
    LeftClick(usize, usize),
    ScrollUp,
    ScrollDown,
    Null,
}

impl Clone for KeyCode {
    fn clone(&self) -> (r: Self)
        ensures
            r == *self,
    {
        match self {
            KeyCode::Char(c) => KeyCode::Char(*c),
            KeyCode::Grapheme(s) => KeyCode::Grapheme(s.clone()),
            KeyCode::Enter => KeyCode::Enter,
            KeyCode::Backspace => KeyCode::Backspace,
            KeyCode::Tab => KeyCode::Tab,
            KeyCode::BackTab => KeyCode::BackTab,
            KeyCode::Delete => KeyCode::Delete,
            KeyCode::Esc => KeyCode::Esc,
            KeyCode::Up => KeyCode::Up,
            KeyCode::Down => KeyCode::Down,
            KeyCode::Left => KeyCode::Left,
            KeyCode::Right => KeyCode::Right,
            KeyCode::Home => KeyCode::Home,
            KeyCode::End => KeyCode::End,
            KeyCode::Insert => KeyCode::Insert,
            KeyCode::PageUp => KeyCode::PageUp,
            KeyCode::PageDown => KeyCode::PageDown,
            KeyCode::F(n) => KeyCode::F(*n),
            KeyCode::Verbatim(s) => KeyCode::Verbatim(s.clone()),
            KeyCode::ExMode => KeyCode::ExMode,
            KeyCode::BracketedPasteStart => KeyCode::BracketedPasteStart,
            KeyCode::BracketedPasteEnd => KeyCode::BracketedPasteEnd,
            KeyCode::MousePos(a, b) => KeyCode::MousePos(*a, *b),
            KeyCode::LeftClick(a, b) => KeyCode::LeftClick(*a, *b),
            KeyCode::ScrollUp => KeyCode::ScrollUp,
            KeyCode::ScrollDown => KeyCode::ScrollDown,
            KeyCode::Null => KeyCode::Null,
        }
    }
}

/// A key with its modifiers.
#[derive(Debug)]
pub struct KeyEvent(pub KeyCode, pub ModKeys);

impl Clone for KeyEvent {
    fn clone(&self) -> (r: Self)
        ensures
            r == *self,
    {
        KeyEvent(self.0.clone(), self.1)
    }
}

} // verus!
