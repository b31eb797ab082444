use crossterm::event::{
    Event as CrosstermEvent, KeyCode as CrosstermKeyCode, KeyEvent as CrosstermKeyEvent,
    KeyEventKind, KeyModifiers, MouseButton as CrosstermMouseButton,
    MouseEvent as CrosstermMouseEvent, MouseEventKind as CrosstermMouseEventKind,
};
use hypertile::input::{
    HypertileEvent, KeyChord, KeyCode, Modifiers, MouseButton, MouseEvent, MouseEventKind,
};
use hypertile::terminal::{
    event_from_crossterm, hypertile_event_from_crossterm, hypertile_event_from_input,
    keychord_from_crossterm, keychord_from_parts, modifiers_from_bits, TermInput, TermKeyCode,
    TermKeyKind,
};

#[test]
fn key_adapter_ignores_non_press_events() {
    let press = CrosstermKeyEvent::new(CrosstermKeyCode::Char('s'), KeyModifiers::NONE);
    let release = CrosstermKeyEvent::new_with_kind(
        CrosstermKeyCode::Char('s'),
        KeyModifiers::NONE,
        KeyEventKind::Release,
    );

    assert_eq!(
        keychord_from_crossterm(press),
        Some(KeyChord { code: KeyCode::Char('s'), modifiers: Modifiers::none() })
    );
    assert_eq!(keychord_from_crossterm(release), None);
}

#[test]
fn mouse_adapter_maps_kind_coordinates_and_modifiers() {
    let event = hypertile_event_from_crossterm(CrosstermEvent::Mouse(CrosstermMouseEvent {
        kind: CrosstermMouseEventKind::Down(CrosstermMouseButton::Left),
        column: 7,
        row: 3,
        modifiers: KeyModifiers::CONTROL | KeyModifiers::SHIFT,
    }));
    let Some(HypertileEvent::Mouse(mouse)) = event else {
        panic!("expected a mouse event");
    };

    assert_eq!(mouse.kind, MouseEventKind::Down(MouseButton::Left));
    assert_eq!(mouse.column, 7);
    assert_eq!(mouse.row, 3);
    assert!(mouse.modifiers.contains(Modifiers::ctrl()));
    assert!(mouse.modifiers.contains(Modifiers::shift()));
}

#[test]
fn event_adapter_accepts_mouse_events() {
    let event = hypertile_event_from_crossterm(CrosstermEvent::Mouse(CrosstermMouseEvent {
        kind: CrosstermMouseEventKind::ScrollDown,
        column: 2,
        row: 9,
        modifiers: KeyModifiers::NONE,
    }));

    assert_eq!(
        event,
        Some(HypertileEvent::Mouse(MouseEvent::new(MouseEventKind::ScrollDown, 2, 9)))
    );
}

#[test]
fn key_adapter_maps_codes_and_modifiers() {
    let key = CrosstermKeyEvent::new(CrosstermKeyCode::Esc, KeyModifiers::ALT | KeyModifiers::SUPER);
    assert_eq!(
        keychord_from_crossterm(key),
        Some(KeyChord { code: KeyCode::Escape, modifiers: Modifiers::alt() })
    );
    let f5 = CrosstermKeyEvent::new(CrosstermKeyCode::F(5), KeyModifiers::NONE);
    assert_eq!(event_from_crossterm(f5), Some(HypertileEvent::Key(KeyChord::new(KeyCode::F(5)))));
    let caps = CrosstermKeyEvent::new(CrosstermKeyCode::CapsLock, KeyModifiers::NONE);
    assert_eq!(keychord_from_crossterm(caps), None);
    let repeat = CrosstermKeyEvent::new_with_kind(
        CrosstermKeyCode::Enter,
        KeyModifiers::NONE,
        KeyEventKind::Repeat,
    );
    assert_eq!(keychord_from_crossterm(repeat), None);
}

#[test]
fn other_terminal_events_are_dropped() {
    assert_eq!(hypertile_event_from_crossterm(CrosstermEvent::FocusGained), None);
    assert_eq!(hypertile_event_from_crossterm(CrosstermEvent::Resize(80, 24)), None);
    let key = CrosstermEvent::Key(CrosstermKeyEvent::new(CrosstermKeyCode::Tab, KeyModifiers::SHIFT));
    assert_eq!(
        hypertile_event_from_crossterm(key),
        Some(HypertileEvent::Key(KeyChord::with_modifiers(KeyCode::Tab, Modifiers::shift())))
    );
}

#[test]
fn modifier_bits_keep_shift_ctrl_alt() {
    assert_eq!(modifiers_from_bits(0b0011_1111), Modifiers(7));
    assert_eq!(modifiers_from_bits(0b0000_1010), Modifiers(2));
    assert_eq!(
        keychord_from_parts(TermKeyCode::CapsLock, TermKeyKind::Press, 0),
        None
    );
    assert_eq!(
        keychord_from_parts(TermKeyCode::Char('x'), TermKeyKind::Press, 4),
        Some(KeyChord::with_modifiers(KeyCode::Char('x'), Modifiers::alt()))
    );
}

#[test]
fn terminal_input_maps_to_events() {
    assert_eq!(
        hypertile_event_from_input(TermInput::Mouse {
            kind: MouseEventKind::Drag(MouseButton::Right),
            column: 4,
            row: 6,
            bits: 0b1001,
        }),
        Some(HypertileEvent::Mouse(MouseEvent::with_modifiers(
            MouseEventKind::Drag(MouseButton::Right),
            4,
            6,
            Modifiers::shift()
        )))
    );
    assert_eq!(
        hypertile_event_from_input(TermInput::Key {
            code: TermKeyCode::Home,
            kind: TermKeyKind::Press,
            bits: 2,
        }),
        Some(HypertileEvent::Key(KeyChord::with_modifiers(KeyCode::Home, Modifiers::ctrl())))
    );
    assert_eq!(
        hypertile_event_from_input(TermInput::Key {
            code: TermKeyCode::Home,
            kind: TermKeyKind::Release,
            bits: 0,
        }),
        None
    );
    assert_eq!(hypertile_event_from_input(TermInput::Other), None);
}

#[test]
fn keys_without_a_chord_give_no_event() {
    for code in [
        CrosstermKeyCode::Null,
        CrosstermKeyCode::CapsLock,
        CrosstermKeyCode::ScrollLock,
        CrosstermKeyCode::NumLock,
        CrosstermKeyCode::PrintScreen,
        CrosstermKeyCode::Pause,
        CrosstermKeyCode::Menu,
        CrosstermKeyCode::KeypadBegin,
        CrosstermKeyCode::Media(crossterm::event::MediaKeyCode::Play),
        CrosstermKeyCode::Modifier(crossterm::event::ModifierKeyCode::LeftShift),
    ] {
        let key = CrosstermKeyEvent::new(code, KeyModifiers::CONTROL);
        assert_eq!(keychord_from_crossterm(key), None);
        assert_eq!(event_from_crossterm(key), None);
        assert_eq!(hypertile_event_from_crossterm(CrosstermEvent::Key(key)), None);
    }
}

#[test]
fn known_keys_keep_code_and_modifiers() {
    let key = CrosstermKeyEvent::new(CrosstermKeyCode::F(5), KeyModifiers::ALT | KeyModifiers::SUPER);
    assert_eq!(
        hypertile_event_from_crossterm(CrosstermEvent::Key(key)),
        Some(HypertileEvent::Key(KeyChord { code: KeyCode::F(5), modifiers: Modifiers::alt() }))
    );
    let esc = CrosstermKeyEvent::new(CrosstermKeyCode::Esc, KeyModifiers::NONE);
    assert_eq!(
        event_from_crossterm(esc),
        Some(HypertileEvent::Key(KeyChord { code: KeyCode::Escape, modifiers: Modifiers::none() }))
    );
    assert_eq!(hypertile_event_from_crossterm(CrosstermEvent::FocusGained), None);
}
