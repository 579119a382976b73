//! Normal mode, the editor's default mode, and its binding table.

use vstd::prelude::*;

use crate::command::{Command, Direction, WordEdgeMatch};
use crate::keyboard::Key;
use crate::keymap::{KeyMap, KeyMapState, KeyMapView};
use crate::modes::Mode;
use crate::overlay::OverlayType;

verus! {

/// The command that normal mode binds to `key` typed on its own.
pub open spec fn single_key_command(key: Key) -> Option<Command> {
    if key == Key::Up || key == Key::Char('k') {
        Some(Command::MoveCursor(Direction::Up(1)))
    } else if key == Key::Down || key == Key::Char('j') {
        Some(Command::MoveCursor(Direction::Down(1)))
    } else if key == Key::Left || key == Key::Char('h') {
        Some(Command::MoveCursor(Direction::Left(1)))
    } else if key == Key::Right || key == Key::Char('l') {
        Some(Command::MoveCursor(Direction::Right(1)))
    } else if key == Key::Char('W') {
        Some(Command::MoveCursor(Direction::RightWord(1, WordEdgeMatch::Whitespace)))
    } else if key == Key::Char('B') {
        Some(Command::MoveCursor(Direction::LeftWord(1, WordEdgeMatch::Whitespace)))
    } else if key == Key::Char('w') {
        Some(Command::MoveCursor(Direction::RightWord(1, WordEdgeMatch::Alphabet)))
    } else if key == Key::Char('b') {
        Some(Command::MoveCursor(Direction::LeftWord(1, WordEdgeMatch::Alphabet)))
    } else if key == Key::Char('0') {
        Some(Command::LineStart)
    } else if key == Key::Char('$') {
        Some(Command::LineEnd)
    } else if key == Key::Char('x') {
        Some(Command::Delete(Direction::Right(1)))
    } else if key == Key::Char('X') {
        Some(Command::Delete(Direction::Left(1)))
    } else if key == Key::Char('u') {
        Some(Command::Undo)
    } else if key == Key::Ctrl('r') {
        Some(Command::Redo)
    } else if key == Key::Char(':') {
        Some(Command::SetOverlay(OverlayType::Prompt))
    } else {
        None
    }
}

/// The word movement that `key` stands for after `d`, if it is one.
pub open spec fn delete_motion(key: Key) -> Option<Direction> {
    if key == Key::Char('W') {
        Some(Direction::RightWord(1, WordEdgeMatch::Whitespace))
    } else if key == Key::Char('B') {
        Some(Direction::LeftWord(1, WordEdgeMatch::Whitespace))
    } else if key == Key::Char('w') {
        Some(Direction::RightWord(1, WordEdgeMatch::Alphabet))
    } else if key == Key::Char('b') {
        Some(Direction::LeftWord(1, WordEdgeMatch::Alphabet))
    } else {
        None
    }
}

/// The command that normal mode binds to the key sequence `keys`: a single
/// key, or `d` followed by a word movement.
pub open spec fn default_command(keys: Seq<Key>) -> Option<Command> {
    if keys.len() == 1 {
        single_key_command(keys[0])
    } else if keys.len() == 2 && keys[0] == Key::Char('d') {
        match delete_motion(keys[1]) {
            Some(direction) => Some(Command::Delete(direction)),
            None => None,
        }
    } else {
        None
    }
}

/// Normal mode's binding table.
pub open spec fn default_bindings() -> Map<Seq<Key>, Command> {
    Map::new(
        |keys: Seq<Key>| default_command(keys) is Some,
        |keys: Seq<Key>| default_command(keys)->0,
    )
}

/// Every command of the default bindings moves or deletes by at least one
/// step.
pub proof fn lemma_default_commands_wf(keys: Seq<Key>)
    requires
        default_bindings().dom().contains(keys),
    ensures
        default_bindings()[keys].wf(),
{
}

/// Binds the chord `d`, `motion` to `command`.
fn bind_delete(keymap: &mut KeyMap, motion: Key, command: Command)
    ensures
        final(keymap)@ == old(keymap)@.bind(seq![Key::Char('d'), motion], command),
{
    let keys = [Key::Char('d'), motion];
    assert(keys@ =~= seq![Key::Char('d'), motion]);
    keymap.bind_keys(&keys, command);
}

/// The editor's default mode.
pub struct NormalMode {
    keymap: KeyMap,
}

impl View for NormalMode {
    type V = KeyMapView;

    closed spec fn view(&self) -> KeyMapView {
        self.keymap@
    }
}

impl NormalMode {
    /// What one key event does to a mode whose key map is `view`: the key map
    /// takes the key, and only a complete match yields a command other than
    /// `Unknown`.
    pub open spec fn step(view: KeyMapView, key: Key) -> (KeyMapView, Command) {
        let (next, state) = view.check(key);
        match state {
            KeyMapState::Match(command) => (next, command),
            _ => (next, Command::Unknown),
        }
    }

    /// A normal mode with the default bindings and no sequence in progress.
    pub fn new() -> (mode: NormalMode)
        ensures
            mode@ == (KeyMapView { bindings: default_bindings(), pending: Seq::empty() }),
    {
        NormalMode { keymap: NormalMode::key_defaults() }
    }

    /// The key map that holds normal mode's default bindings.
    pub fn key_defaults() -> (keymap: KeyMap)
        ensures
            keymap@ == (KeyMapView { bindings: default_bindings(), pending: Seq::empty() }),
    {
        let mut keymap = KeyMap::new();

        // movement
        keymap.bind_key(Key::Up, Command::MoveCursor(Direction::Up(1)));
        keymap.bind_key(Key::Down, Command::MoveCursor(Direction::Down(1)));
        keymap.bind_key(Key::Left, Command::MoveCursor(Direction::Left(1)));
        keymap.bind_key(Key::Right, Command::MoveCursor(Direction::Right(1)));
        keymap.bind_key(Key::Char('h'), Command::MoveCursor(Direction::Left(1)));
        keymap.bind_key(Key::Char('j'), Command::MoveCursor(Direction::Down(1)));
        keymap.bind_key(Key::Char('k'), Command::MoveCursor(Direction::Up(1)));
        keymap.bind_key(Key::Char('l'), Command::MoveCursor(Direction::Right(1)));
        keymap.bind_key(
            Key::Char('W'),
            Command::MoveCursor(Direction::RightWord(1, WordEdgeMatch::Whitespace)),
        );
        keymap.bind_key(
            Key::Char('B'),
            Command::MoveCursor(Direction::LeftWord(1, WordEdgeMatch::Whitespace)),
        );
        keymap.bind_key(
            Key::Char('w'),
            Command::MoveCursor(Direction::RightWord(1, WordEdgeMatch::Alphabet)),
        );
        keymap.bind_key(
            Key::Char('b'),
            Command::MoveCursor(Direction::LeftWord(1, WordEdgeMatch::Alphabet)),
        );
        keymap.bind_key(Key::Char('0'), Command::LineStart);
        keymap.bind_key(Key::Char('$'), Command::LineEnd);

        // editing
        bind_delete(
            &mut keymap,
            Key::Char('W'),
            Command::Delete(Direction::RightWord(1, WordEdgeMatch::Whitespace)),
        );
        bind_delete(
            &mut keymap,
            Key::Char('B'),
            Command::Delete(Direction::LeftWord(1, WordEdgeMatch::Whitespace)),
        );
        bind_delete(
            &mut keymap,
            Key::Char('w'),
            Command::Delete(Direction::RightWord(1, WordEdgeMatch::Alphabet)),
        );
        bind_delete(
            &mut keymap,
            Key::Char('b'),
            Command::Delete(Direction::LeftWord(1, WordEdgeMatch::Alphabet)),
        );
        keymap.bind_key(Key::Char('x'), Command::Delete(Direction::Right(1)));
        keymap.bind_key(Key::Char('X'), Command::Delete(Direction::Left(1)));
        keymap.bind_key(Key::Char('u'), Command::Undo);
        keymap.bind_key(Key::Ctrl('r'), Command::Redo);

        // open a prompt to the user
        keymap.bind_key(Key::Char(':'), Command::SetOverlay(OverlayType::Prompt));

        proof {
            let built = keymap@.bindings;
            assert forall|keys: Seq<Key>|
                #![trigger built.dom().contains(keys)]
                #![trigger default_bindings().dom().contains(keys)]
                built.dom().contains(keys) == default_bindings().dom().contains(keys) && (
                built.dom().contains(keys) ==> built[keys] == default_bindings()[keys]) by {
                if keys.len() == 1 {
                    assert(keys =~= seq![keys[0]]);
                }
                if keys.len() == 2 {
                    assert(keys =~= seq![keys[0], keys[1]]);
                }
            }
            assert(built =~= default_bindings());
        }
        keymap
    }
}

impl Mode for NormalMode {
    fn handle_key_event(&mut self, key: Key) -> (command: Command)
        ensures
            (final(self)@, command) == NormalMode::step(old(self)@, key),
    {
        if let KeyMapState::Match(command) = self.keymap.check_key(key) {
            return command;
        }
        Command::Unknown
    }
}

} // verus!
