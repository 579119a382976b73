//! Editor modes: each turns key events into commands in its own way.

use vstd::prelude::*;

use crate::command::Command;
use crate::keyboard::Key;

pub mod normal;

verus! {

/// What every mode can do: take one key event and say which command it
/// denotes.
pub trait Mode {
    fn handle_key_event(&mut self, key: Key) -> Command;
}

} // verus!
