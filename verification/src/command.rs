//! The editor actions that key handling resolves to.

use vstd::prelude::*;

use crate::overlay::OverlayType;

verus! {

/// What counts as a word boundary for word-wise movement.
#[derive(Clone, Copy, Debug, PartialEq, Eq, Structural)]
pub enum WordEdgeMatch {
    /// Words are separated by whitespace only.
    Whitespace,
    /// Words end wherever alphabetic and non-alphabetic characters meet.
    Alphabet,
}

/// A cursor movement: its direction, granularity and repeat count.
#[derive(Clone, Copy, Debug, PartialEq, Eq, Structural)]
pub enum Direction {
    Up(usize),
    Down(usize),
    Left(usize),
    Right(usize),
    LeftWord(usize, WordEdgeMatch),
    RightWord(usize, WordEdgeMatch),
}

impl Direction {
    /// The repeat count carried by the movement.
    pub open spec fn count(self) -> usize {
        match self {
            Direction::Up(n) => n,
            Direction::Down(n) => n,
            Direction::Left(n) => n,
            Direction::Right(n) => n,
            Direction::LeftWord(n, _) => n,
            Direction::RightWord(n, _) => n,
        }
    }

    /// A movement is well formed when it moves by at least one step.
    pub open spec fn wf(self) -> bool {
        self.count() >= 1
    }
}

/// An editor action. Produced fresh for every key event and compared by value.
#[derive(Clone, Copy, Debug, PartialEq, Eq, Structural)]
pub enum Command {
    MoveCursor(Direction),
    Delete(Direction),
    LineStart,
    LineEnd,
    Undo,
    Redo,
    SetOverlay(OverlayType),
    /// The key event denotes no action.
    Unknown,
}

impl Command {
    /// A command is well formed when the movement it carries, if any, is.
    pub open spec fn wf(self) -> bool {
        match self {
            Command::MoveCursor(direction) => direction.wf(),
            Command::Delete(direction) => direction.wf(),
            _ => true,
        }
    }
}

} // verus!
