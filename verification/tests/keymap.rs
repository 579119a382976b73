use iota::{Command, Direction, Key, KeyMap, KeyMapState, Mode, NormalMode, OverlayType, WordEdgeMatch};

fn expect_key_command(k: Key, c: Command) {
    let mut mode = NormalMode::new();
    let command = mode.handle_key_event(k);
    assert_eq!(command, c)
}

#[test]
fn test_movement_keybindings() {
    expect_key_command(Key::Char('h'), Command::MoveCursor(Direction::Left(1)));
    expect_key_command(Key::Char('j'), Command::MoveCursor(Direction::Down(1)));
    expect_key_command(Key::Char('k'), Command::MoveCursor(Direction::Up(1)));
    expect_key_command(Key::Char('l'), Command::MoveCursor(Direction::Right(1)));
}

#[test]
fn normal_mode_arrow_and_line_keys() {
    expect_key_command(Key::Up, Command::MoveCursor(Direction::Up(1)));
    expect_key_command(Key::Down, Command::MoveCursor(Direction::Down(1)));
    expect_key_command(Key::Left, Command::MoveCursor(Direction::Left(1)));
    expect_key_command(Key::Right, Command::MoveCursor(Direction::Right(1)));
    expect_key_command(Key::Char('0'), Command::LineStart);
    expect_key_command(Key::Char('$'), Command::LineEnd);
    expect_key_command(Key::Char('u'), Command::Undo);
    expect_key_command(Key::Ctrl('r'), Command::Redo);
    expect_key_command(Key::Char('x'), Command::Delete(Direction::Right(1)));
    expect_key_command(Key::Char('X'), Command::Delete(Direction::Left(1)));
    expect_key_command(Key::Char(':'), Command::SetOverlay(OverlayType::Prompt));
}

#[test]
fn normal_mode_word_motions() {
    expect_key_command(
        Key::Char('w'),
        Command::MoveCursor(Direction::RightWord(1, WordEdgeMatch::Alphabet)),
    );
    expect_key_command(
        Key::Char('b'),
        Command::MoveCursor(Direction::LeftWord(1, WordEdgeMatch::Alphabet)),
    );
    expect_key_command(
        Key::Char('W'),
        Command::MoveCursor(Direction::RightWord(1, WordEdgeMatch::Whitespace)),
    );
    expect_key_command(
        Key::Char('B'),
        Command::MoveCursor(Direction::LeftWord(1, WordEdgeMatch::Whitespace)),
    );
}

#[test]
fn normal_mode_unbound_keys_are_unknown() {
    expect_key_command(Key::Char('q'), Command::Unknown);
    expect_key_command(Key::Enter, Command::Unknown);
    expect_key_command(Key::Ctrl('x'), Command::Unknown);
}

#[test]
fn normal_mode_delete_chords() {
    let mut mode = NormalMode::new();
    assert_eq!(mode.handle_key_event(Key::Char('d')), Command::Unknown);
    assert_eq!(
        mode.handle_key_event(Key::Char('w')),
        Command::Delete(Direction::RightWord(1, WordEdgeMatch::Alphabet))
    );
    assert_eq!(mode.handle_key_event(Key::Char('d')), Command::Unknown);
    assert_eq!(
        mode.handle_key_event(Key::Char('B')),
        Command::Delete(Direction::LeftWord(1, WordEdgeMatch::Whitespace))
    );
    assert_eq!(mode.handle_key_event(Key::Char('d')), Command::Unknown);
    assert_eq!(
        mode.handle_key_event(Key::Char('W')),
        Command::Delete(Direction::RightWord(1, WordEdgeMatch::Whitespace))
    );
    assert_eq!(mode.handle_key_event(Key::Char('d')), Command::Unknown);
    assert_eq!(
        mode.handle_key_event(Key::Char('b')),
        Command::Delete(Direction::LeftWord(1, WordEdgeMatch::Alphabet))
    );
}

#[test]
fn normal_mode_abandoned_chord_does_not_retry_the_key() {
    let mut mode = NormalMode::new();
    assert_eq!(mode.handle_key_event(Key::Char('d')), Command::Unknown);
    // `h` is bound on its own, but here it only ends the failed chord.
    assert_eq!(mode.handle_key_event(Key::Char('h')), Command::Unknown);
    assert_eq!(mode.handle_key_event(Key::Char('h')), Command::MoveCursor(Direction::Left(1)));
}

#[test]
fn bound_key_matches_and_progress_resets() {
    let mut keymap = KeyMap::new();
    keymap.bind_key(Key::Char('a'), Command::Undo);
    keymap.bind_key(Key::Enter, Command::Redo);
    assert_eq!(keymap.check_key(Key::Char('a')), KeyMapState::Match(Command::Undo));
    assert_eq!(keymap.check_key(Key::Enter), KeyMapState::Match(Command::Redo));
    assert_eq!(keymap.check_key(Key::Char('a')), KeyMapState::Match(Command::Undo));
}

#[test]
fn empty_keymap_matches_nothing() {
    let mut keymap = KeyMap::new();
    assert_eq!(keymap.check_key(Key::Char('a')), KeyMapState::NoMatch);
    assert_eq!(keymap.check_key(Key::Esc), KeyMapState::NoMatch);
}

#[test]
fn two_key_chord_is_partial_then_match() {
    let mut keymap = KeyMap::new();
    keymap.bind_keys(&[Key::Char('g'), Key::Char('g')], Command::LineStart);
    assert_eq!(keymap.check_key(Key::Char('g')), KeyMapState::Partial);
    assert_eq!(keymap.check_key(Key::Char('g')), KeyMapState::Match(Command::LineStart));
    assert_eq!(keymap.check_key(Key::Char('g')), KeyMapState::Partial);
}

#[test]
fn chord_broken_by_other_key_is_no_match_and_resets() {
    let mut keymap = KeyMap::new();
    keymap.bind_keys(&[Key::Char('d'), Key::Char('w')], Command::Undo);
    assert_eq!(keymap.check_key(Key::Char('d')), KeyMapState::Partial);
    assert_eq!(keymap.check_key(Key::Char('z')), KeyMapState::NoMatch);
    assert_eq!(keymap.check_key(Key::Char('d')), KeyMapState::Partial);
    assert_eq!(keymap.check_key(Key::Char('w')), KeyMapState::Match(Command::Undo));
}

#[test]
fn three_key_chord() {
    let mut keymap = KeyMap::new();
    keymap.bind_keys(&[Key::Ctrl('x'), Key::Char('a'), Key::Up], Command::Redo);
    assert_eq!(keymap.check_key(Key::Ctrl('x')), KeyMapState::Partial);
    assert_eq!(keymap.check_key(Key::Char('a')), KeyMapState::Partial);
    assert_eq!(keymap.check_key(Key::Up), KeyMapState::Match(Command::Redo));
    assert_eq!(keymap.check_key(Key::Char('a')), KeyMapState::NoMatch);
}

#[test]
fn later_binding_of_same_sequence_wins() {
    let mut keymap = KeyMap::new();
    keymap.bind_key(Key::Char('u'), Command::Undo);
    keymap.bind_key(Key::Char('u'), Command::Redo);
    assert_eq!(keymap.check_key(Key::Char('u')), KeyMapState::Match(Command::Redo));
    keymap.bind_keys(&[Key::Char('d'), Key::Char('d')], Command::LineStart);
    keymap.bind_keys(&[Key::Char('d'), Key::Char('d')], Command::LineEnd);
    assert_eq!(keymap.check_key(Key::Char('d')), KeyMapState::Partial);
    assert_eq!(keymap.check_key(Key::Char('d')), KeyMapState::Match(Command::LineEnd));
}

#[test]
fn exact_match_wins_over_longer_binding() {
    let mut keymap = KeyMap::new();
    keymap.bind_keys(&[Key::Char('d'), Key::Char('w')], Command::Undo);
    keymap.bind_key(Key::Char('d'), Command::Redo);
    assert_eq!(keymap.check_key(Key::Char('d')), KeyMapState::Match(Command::Redo));
    assert_eq!(keymap.check_key(Key::Char('w')), KeyMapState::NoMatch);
}
