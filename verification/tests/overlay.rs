use iota::width::{advance, retreat};
use iota::{Cell, InputLine, Key, Overlay, OverlayEvent};

fn text(overlay: &Overlay) -> String {
    overlay.line().unwrap().data().to_string()
}

fn cursor(overlay: &Overlay) -> usize {
    overlay.line().unwrap().cursor_x()
}

#[test]
fn prompt_starts_empty() {
    let overlay = Overlay::Prompt(InputLine::new(":"));
    assert_eq!(text(&overlay), "");
    assert_eq!(cursor(&overlay), 0);
    assert_eq!(overlay.line().unwrap().prefix(), ":");
}

#[test]
fn overlay_round_trip() {
    let mut overlay = Overlay::Prompt(InputLine::new(":"));
    assert_eq!(overlay.handle_key_event(Key::Char('a')), OverlayEvent::Continue);
    assert_eq!(overlay.handle_key_event(Key::Char('b')), OverlayEvent::Continue);
    assert_eq!(overlay.handle_key_event(Key::Char('c')), OverlayEvent::Continue);
    assert_eq!(text(&overlay), "abc");
    assert_eq!(cursor(&overlay), 3);
    assert_eq!(overlay.handle_key_event(Key::Backspace), OverlayEvent::Continue);
    assert_eq!(text(&overlay), "ab");
    assert_eq!(cursor(&overlay), 2);
    assert_eq!(
        overlay.handle_key_event(Key::Enter),
        OverlayEvent::Finished(Some("ab".to_string()))
    );
    assert_eq!(text(&overlay), "ab");
}

#[test]
fn esc_cancels_whatever_was_typed() {
    let mut overlay = Overlay::Prompt(InputLine::new(":"));
    overlay.handle_key_event(Key::Char('q'));
    overlay.handle_key_event(Key::Char('!'));
    assert_eq!(overlay.handle_key_event(Key::Esc), OverlayEvent::Finished(None));
    let mut empty = Overlay::SavePrompt(InputLine::new("Save as: "));
    assert_eq!(empty.handle_key_event(Key::Esc), OverlayEvent::Finished(None));
}

#[test]
fn enter_on_empty_line_gives_empty_text() {
    let mut overlay = Overlay::SelectFile(InputLine::new("Open: "));
    assert_eq!(
        overlay.handle_key_event(Key::Enter),
        OverlayEvent::Finished(Some(String::new()))
    );
}

#[test]
fn wide_character_moves_cursor_by_two() {
    let mut overlay = Overlay::Prompt(InputLine::new(":"));
    overlay.handle_key_event(Key::Char('a'));
    overlay.handle_key_event(Key::Char('\u{4e2d}'));
    assert_eq!(text(&overlay), "a\u{4e2d}");
    assert_eq!(cursor(&overlay), 3);
    overlay.handle_key_event(Key::Backspace);
    assert_eq!(text(&overlay), "a");
    assert_eq!(cursor(&overlay), 1);
    overlay.handle_key_event(Key::Backspace);
    assert_eq!(cursor(&overlay), 0);
}

#[test]
fn combining_mark_takes_a_slot_but_no_column() {
    let mut overlay = Overlay::Prompt(InputLine::new(":"));
    overlay.handle_key_event(Key::Char('e'));
    overlay.handle_key_event(Key::Char('\u{301}'));
    assert_eq!(text(&overlay), "e\u{301}");
    assert_eq!(cursor(&overlay), 1);
    overlay.handle_key_event(Key::Backspace);
    assert_eq!(text(&overlay), "e");
    assert_eq!(cursor(&overlay), 1);
}

#[test]
fn control_character_is_appended_without_moving_the_cursor() {
    let mut overlay = Overlay::Prompt(InputLine::new(":"));
    overlay.handle_key_event(Key::Char('\u{7}'));
    assert_eq!(text(&overlay), "\u{7}");
    assert_eq!(cursor(&overlay), 0);
    overlay.handle_key_event(Key::Backspace);
    assert_eq!(text(&overlay), "");
    assert_eq!(cursor(&overlay), 0);
}

#[test]
fn backspace_on_empty_line_does_nothing() {
    let mut overlay = Overlay::Prompt(InputLine::new(":"));
    assert_eq!(overlay.handle_key_event(Key::Backspace), OverlayEvent::Continue);
    assert_eq!(text(&overlay), "");
    assert_eq!(cursor(&overlay), 0);
}

#[test]
fn other_keys_do_nothing() {
    let mut overlay = Overlay::Prompt(InputLine::new(":"));
    overlay.handle_key_event(Key::Char('x'));
    for key in [Key::Up, Key::Down, Key::Left, Key::Right, Key::Ctrl('c')] {
        assert_eq!(overlay.handle_key_event(key), OverlayEvent::Continue);
    }
    assert_eq!(text(&overlay), "x");
    assert_eq!(cursor(&overlay), 1);
}

#[test]
fn inactive_overlay_ignores_keys() {
    let mut overlay = Overlay::Inactive;
    assert_eq!(overlay.handle_key_event(Key::Char('a')), OverlayEvent::Continue);
    assert_eq!(overlay.handle_key_event(Key::Enter), OverlayEvent::Continue);
    assert_eq!(overlay.handle_key_event(Key::Esc), OverlayEvent::Continue);
    assert!(overlay.line().is_none());
    assert_eq!(overlay.draw(24), None);
    assert_eq!(overlay.draw_cursor(24), None);
    assert_eq!(overlay.draw(0), None);
}

#[test]
fn try_handle_key_event_takes_ordinary_keys() {
    let mut overlay = Overlay::Prompt(InputLine::new(":"));
    assert!(overlay.accepts_key(Key::Char('a')));
    assert_eq!(overlay.try_handle_key_event(Key::Char('a')), Some(OverlayEvent::Continue));
    assert_eq!(
        overlay.try_handle_key_event(Key::Enter),
        Some(OverlayEvent::Finished(Some("a".to_string())))
    );
    assert_eq!(overlay.try_handle_key_event(Key::Esc), Some(OverlayEvent::Finished(None)));
}

#[test]
fn draw_gives_prefix_then_text_on_the_bottom_row() {
    let mut overlay = Overlay::Prompt(InputLine::new(":"));
    overlay.handle_key_event(Key::Char('w'));
    overlay.handle_key_event(Key::Char('q'));
    let cells = overlay.draw(24).unwrap();
    assert_eq!(
        cells,
        vec![
            Cell { column: 0, row: 23, ch: ':' },
            Cell { column: 1, row: 23, ch: 'w' },
            Cell { column: 2, row: 23, ch: 'q' },
        ]
    );
}

#[test]
fn draw_of_empty_active_overlay_shows_the_prefix() {
    let overlay = Overlay::SavePrompt(InputLine::new("ab"));
    assert_eq!(
        overlay.draw(1),
        Some(vec![Cell { column: 0, row: 0, ch: 'a' }, Cell { column: 1, row: 0, ch: 'b' }])
    );
}

#[test]
fn draw_places_text_after_the_byte_length_of_the_prefix() {
    let mut overlay = Overlay::Prompt(InputLine::new("\u{e9}"));
    overlay.handle_key_event(Key::Char('x'));
    assert_eq!(
        overlay.draw(3),
        Some(vec![Cell { column: 0, row: 2, ch: '\u{e9}' }, Cell { column: 2, row: 2, ch: 'x' }])
    );
}

#[test]
fn draw_cursor_reports_column_and_bottom_row() {
    let mut overlay = Overlay::Prompt(InputLine::new(":"));
    overlay.handle_key_event(Key::Char('a'));
    overlay.handle_key_event(Key::Char('\u{4e2d}'));
    assert_eq!(overlay.draw_cursor(10), Some((3, 9)));
}

#[test]
fn advance_adds_the_width() {
    assert_eq!(advance(3, Some(2)), Some(5));
    assert_eq!(advance(3, Some(0)), Some(3));
    assert_eq!(advance(3, None), Some(3));
    assert_eq!(advance(usize::MAX, Some(1)), None);
    assert_eq!(advance(usize::MAX - 2, Some(2)), Some(usize::MAX));
    assert_eq!(advance(usize::MAX, None), Some(usize::MAX));
}

#[test]
fn retreat_subtracts_the_width_and_stops_at_zero() {
    assert_eq!(retreat(3, Some(2)), 1);
    assert_eq!(retreat(2, Some(2)), 0);
    assert_eq!(retreat(1, Some(2)), 0);
    assert_eq!(retreat(3, None), 3);
    assert_eq!(retreat(0, Some(0)), 0);
}
