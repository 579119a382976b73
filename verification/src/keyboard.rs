//! Keyboard input events.

use vstd::prelude::*;

verus! {

/// One input event from the terminal.
///
/// A value type: immutable, copyable, compared by structural equality.
#[derive(Clone, Copy, Debug, PartialEq, Eq, Hash, Structural)]
pub enum Key {
    /// A printable character.
    Char(char),
    /// A character typed with the control modifier held.
    Ctrl(char),
    Up,
    Down,
    Left,
    Right,
    Enter,
    Esc,
    Backspace,
}

} // verus!
