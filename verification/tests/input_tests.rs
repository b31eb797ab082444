use hypertile::input::{
    EventOutcome, KeyChord, KeyCode, Modifiers, MouseButton, MouseEvent, MouseEventKind,
};

#[test]
fn modifiers_union_contains_each_part() {
    let combo = Modifiers::shift() | Modifiers::ctrl();
    assert!(combo.contains(Modifiers::shift()));
    assert!(combo.contains(Modifiers::ctrl()));
    assert!(!combo.contains(Modifiers::alt()));
    assert_eq!(combo, Modifiers(3));
}

#[test]
fn modifiers_bitor_assign_accumulates() {
    let mut m = Modifiers::none();
    assert!(m.is_empty());
    m |= Modifiers::alt();
    m |= Modifiers::shift();
    assert_eq!(m.0, 5);
    assert!(!m.is_empty());
    assert!(m.contains(Modifiers::none()));
}

#[test]
fn key_chord_constructors() {
    let plain = KeyChord::new(KeyCode::Char('h'));
    assert_eq!(plain.code, KeyCode::Char('h'));
    assert_eq!(plain.modifiers, Modifiers::none());
    let chord = KeyChord::with_modifiers(KeyCode::Char('h'), Modifiers::ctrl());
    assert_eq!(chord.modifiers, Modifiers::ctrl());
    assert_ne!(plain, chord);
}

#[test]
fn mouse_event_constructors() {
    let click = MouseEvent::new(MouseEventKind::Down(MouseButton::Left), 10, 4);
    assert_eq!(click.kind, MouseEventKind::Down(MouseButton::Left));
    assert_eq!((click.column, click.row), (10, 4));
    assert!(click.modifiers.is_empty());
    let shifted = MouseEvent::with_modifiers(MouseEventKind::Moved, 1, 2, Modifiers::shift());
    assert_eq!(shifted.modifiers, Modifiers::shift());
}

#[test]
fn event_outcome_is_consumed() {
    assert!(EventOutcome::Consumed.is_consumed());
    assert!(!EventOutcome::Ignored.is_consumed());
}

#[test]
fn default_modifiers_hold_nothing() {
    assert_eq!(Modifiers::default(), Modifiers::none());
    assert!(!Modifiers::default().contains(Modifiers::shift()));
}
