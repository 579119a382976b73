//! Interactive input handling for a modal text editor.
//!
//! Two pieces sit between raw keyboard events and the editor's actions:
//! a key-sequence resolution engine ([`KeyMap`]) that turns single keys and
//! multi-key chords into [`Command`]s, and a modal text-entry state machine
//! ([`Overlay`]) that captures free-form text one keystroke at a time while
//! tracking a display-accurate cursor column.

pub mod command;
pub mod keyboard;
pub mod keymap;
pub mod modes;
pub mod overlay;
pub mod text;
pub mod width;

pub use command::{Command, Direction, WordEdgeMatch};
pub use keyboard::Key;
pub use keymap::{KeyMap, KeyMapState, KeyMapView};
pub use modes::normal::NormalMode;
pub use modes::Mode;
pub use overlay::{Cell, InputLine, Overlay, OverlayEvent, OverlayType};
