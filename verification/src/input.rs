//! Decoded terminal input.

use vstd::prelude::*;

verus! {

/// One decoded key.
#[derive(Clone, Copy, Debug, PartialEq, Eq, Structural)]
pub enum Key {
    /// A typed character.
    Char(char),
    /// A character with Control.
    Ctrl(char),
    /// A character with Alt.
    Alt(char),
    /// A character with Control and Alt.
    CtrlAlt(char),
    /// A function key.
    Function(u8),
    /// Cursor up.
    Up,
    /// Cursor down.
    Down,
    /// Cursor left.
    Left,
    /// Cursor right.
    Right,
    /// Start of line.
    Home,
    /// End of line.
    End,
    /// One page up.
    PageUp,
    /// One page down.
    PageDown,
    /// Tab.
    Tab,
    /// Enter.
    Enter,
    /// Enter with Shift.
    ShiftEnter,
    /// The space bar.
    Space,
    /// Escape.
    Esc,
    /// Backspace.
    Backspace,
    /// Delete.
    Delete,
    /// Insert.
    Insert,
    /// One word to the left.
    WordLeft,
    /// One word to the right.
    WordRight,
    /// Delete the word to the right.
    WordDelete,
    /// Extend the selection to the left.
    SelectLeft,
    /// Extend the selection to the right.
    SelectRight,
    /// Extend the selection by a word to the left.
    SelectWordLeft,
    /// Extend the selection by a word to the right.
    SelectWordRight,
    /// Extend the selection to the start of the line.
    SelectHome,
    /// Extend the selection to the end of the line.
    SelectEnd,
    /// Extend the selection by a row up.
    SelectUp,
    /// Extend the selection by a row down.
    SelectDown,
    /// Select everything.
    SelectAll,
    /// Copy the selection.
    Copy,
    /// Cut the selection.
    Cut,
}

/// One decoded pointer action.
#[derive(Clone, Copy, Debug, PartialEq, Eq, Structural)]
pub enum Mouse {
    /// Left button pressed.
    Click,
    /// Right button pressed.
    RightClick,
    /// Middle button pressed.
    MiddleClick,
    /// Pointer moved without a button.
    Move,
    /// Pointer moved with a button held.
    Drag,
    /// Button released.
    Release,
    /// Wheel turned up.
    WheelUp,
    /// Wheel turned down.
    WheelDown,
    /// Wheel turned left.
    WheelLeft,
    /// Wheel turned right.
    WheelRight,
}

/// Held modifiers.
#[derive(Clone, Copy, Debug, PartialEq, Eq, Structural)]
pub struct Mods {
    /// Control.
    pub ctrl: bool,
    /// Alt.
    pub alt: bool,
    /// Shift.
    pub shift: bool,
    /// Super.
    pub super_key: bool,
    /// Hyper.
    pub hyper: bool,
    /// Meta.
    pub meta: bool,
}

/// A key together with the modifiers held while it was pressed.
#[derive(Clone, Copy, Debug, PartialEq, Eq, Structural)]
pub struct Chord {
    /// The key.
    pub key: Key,
    /// The modifiers.
    pub mods: Mods,
}

/// No modifier held.
pub open spec fn no_mods() -> Mods {
    Mods { ctrl: false, alt: false, shift: false, super_key: false, hyper: false, meta: false }
}

impl Mods {
    /// No modifier held.
    pub fn free() -> (mods: Self)
        ensures
            mods == no_mods(),
    {
        Mods { ctrl: false, alt: false, shift: false, super_key: false, hyper: false, meta: false }
    }
}

impl Chord {
    /// A key pressed with the given modifiers.
    pub fn new(key: Key, mods: Mods) -> (chord: Self)
        ensures
            chord == (Chord { key, mods }),
    {
        Chord { key, mods }
    }

    /// A key pressed without modifiers.
    pub fn plain(key: Key) -> (chord: Self)
        ensures
            chord == (Chord { key, mods: no_mods() }),
    {
        Chord {
            key,
            mods: Mods {
                ctrl: false,
                alt: false,
                shift: false,
                super_key: false,
                hyper: false,
                meta: false,
            },
        }
    }
}

/// The button of a pointer action.
#[derive(Clone, Copy, Debug, PartialEq, Eq, Structural)]
pub enum MouseButton {
    /// The left button.
    Left,
    /// The right button.
    Right,
    /// The middle button.
    Middle,
    /// No button.
    Free,
    /// The wheel, turned up.
    WheelUp,
    /// The wheel, turned down.
    WheelDown,
    /// The wheel, turned left.
    WheelLeft,
    /// The wheel, turned right.
    WheelRight,
}

/// A pointer action with its position.
#[derive(Clone, Copy, Debug, PartialEq, Eq, Structural)]
pub struct MouseReport {
    /// The action.
    pub kind: Mouse,
    /// The column.
    pub col: u16,
    /// The row.
    pub row: u16,
    /// The button.
    pub button: MouseButton,
    /// The modifiers held.
    pub mods: Mods,
    /// Whether the button is held down.
    pub pressed: bool,
}

} // verus!
