//! Adapters from crossterm's terminal events to the backend-agnostic input
//! events of this crate.

use vstd::prelude::*;
use crate::input::{self, HypertileEvent, KeyChord, Modifiers};
use crossterm::event::KeyCode::{
    BackTab, Backspace, CapsLock, Char, Delete, Down, End, Enter, Esc, Home, Insert, KeypadBegin,
    Left, Media, Menu, Modifier, Null, NumLock, PageDown, PageUp, Pause, PrintScreen, Right,
    ScrollLock, Tab, Up, F,
};
use crossterm::event::KeyEventKind as CtKind;
use crossterm::event::MouseButton as CtButton;
use crossterm::event::MouseEventKind as CtMouseKind;

verus! {

#[verifier::external_type_specification]
#[verifier::external_body]
pub struct ExCrosstermKeyEvent(crossterm::event::KeyEvent);

#[verifier::external_type_specification]
#[verifier::external_body]
pub struct ExCrosstermEvent(crossterm::event::Event);

#[verifier::external_type_specification]
#[verifier::external_body]
pub struct ExCrosstermKeyModifiers(crossterm::event::KeyModifiers);

/// The key codes a terminal reports, one for each of crossterm's.
#[derive(Debug, Clone, Copy, PartialEq, Eq, Structural)]
pub enum TermKeyCode {
    Backspace,
    Enter,
    Left,
    Right,
    Up,
    Down,
    Home,
    End,
    PageUp,
    PageDown,
    Tab,
    BackTab,
    Delete,
    Insert,
    F(u8),
    Char(char),
    Null,
    Esc,
    CapsLock,
    ScrollLock,
    NumLock,
    PrintScreen,
    Pause,
    Menu,
    KeypadBegin,
    /// A media key (play, volume, ...); which one is not kept.
    Media,
    /// A lone modifier key (left shift, right alt, ...); which one is not kept.
    Modifier,
}

/// Whether a key went down, repeated or came up.
#[derive(Debug, Clone, Copy, PartialEq, Eq, Structural)]
pub enum TermKeyKind {
    Press,
    Repeat,
    Release,
}

/// The position and modifiers of a terminal mouse event.
#[derive(Debug, Clone, Copy)]
pub struct TermMouse {
    pub column: u16,
    pub row: u16,
    pub modifiers: crossterm::event::KeyModifiers,
}

/// The terminal events this crate reacts to.
pub enum TermEvent {
    Key(crossterm::event::KeyEvent),
    Mouse(TermMouse),
    Other,
}

/// The key a crossterm key event names (its `code` field).
pub uninterp spec fn key_code_of(key: crossterm::event::KeyEvent) -> TermKeyCode;

/// Whether a crossterm key event is a press, a repeat or a release (its
/// `kind` field).
pub uninterp spec fn key_kind_of(key: crossterm::event::KeyEvent) -> TermKeyKind;

/// The modifier flags of a crossterm key event (its `modifiers` field).
pub uninterp spec fn key_modifiers_of(key: crossterm::event::KeyEvent) -> crossterm::event::KeyModifiers;

/// The raw bits of crossterm's modifier flags (`KeyModifiers::bits`).
pub uninterp spec fn modifier_bits_of(modifiers: crossterm::event::KeyModifiers) -> u8;

/// What a crossterm event holds, as far as this crate reads it: for a key
/// event its code, kind and modifier bits, for a mouse event its kind,
/// position and modifier bits, and nothing for any other event.
pub uninterp spec fn term_input_of(event: crossterm::event::Event) -> TermInput;

/// Reads the `code` field of a crossterm key event, each of crossterm's
/// key codes as the variant of the same name. The contract names the
/// result `key_code_of(key)`.
#[verifier::external_body]
fn read_key_code(key: &crossterm::event::KeyEvent) -> (r: TermKeyCode)
    ensures
        r == key_code_of(*key),
{
    match key.code {
        Backspace => TermKeyCode::Backspace, Enter => TermKeyCode::Enter, Left => TermKeyCode::Left,
        Right => TermKeyCode::Right, Up => TermKeyCode::Up, Down => TermKeyCode::Down,
        Home => TermKeyCode::Home, End => TermKeyCode::End, PageUp => TermKeyCode::PageUp,
        PageDown => TermKeyCode::PageDown, Tab => TermKeyCode::Tab, BackTab => TermKeyCode::BackTab,
        Delete => TermKeyCode::Delete, Insert => TermKeyCode::Insert, F(n) => TermKeyCode::F(n),
        Char(c) => TermKeyCode::Char(c), Null => TermKeyCode::Null, Esc => TermKeyCode::Esc,
        CapsLock => TermKeyCode::CapsLock, ScrollLock => TermKeyCode::ScrollLock,
        NumLock => TermKeyCode::NumLock, PrintScreen => TermKeyCode::PrintScreen,
        Pause => TermKeyCode::Pause, Menu => TermKeyCode::Menu, KeypadBegin => TermKeyCode::KeypadBegin,
        Media(_) => TermKeyCode::Media, Modifier(_) => TermKeyCode::Modifier,
    }
}

/// Reads the `kind` and `modifiers` fields of a crossterm key event. The
/// contract names them `key_kind_of(key)` and `key_modifiers_of(key)`.
#[verifier::external_body]
fn read_key_state(key: &crossterm::event::KeyEvent) -> (r: (TermKeyKind, crossterm::event::KeyModifiers))
    ensures
        r.0 == key_kind_of(*key),
        r.1 == key_modifiers_of(*key),
{
    let kind = match key.kind {
        CtKind::Press => TermKeyKind::Press,
        CtKind::Repeat => TermKeyKind::Repeat,
        CtKind::Release => TermKeyKind::Release,
    };
    (kind, key.modifiers)
}

/// Tells key and mouse events apart from the other crossterm events, and
/// reads the position and modifiers of a mouse event. The contract ties
/// what it reads to `term_input_of(event)`: a key event holds the code,
/// kind and modifier bits of its key, a mouse event the position and
/// modifier bits read here, and any other event nothing.
#[verifier::external_body]
fn read_event(event: &crossterm::event::Event) -> (r: TermEvent)
    ensures
        r matches TermEvent::Key(k) ==> term_input_of(*event) == (TermInput::Key {
            code: key_code_of(k),
            kind: key_kind_of(k),
            bits: modifier_bits_of(key_modifiers_of(k)),
        }),
        r matches TermEvent::Mouse(m) ==> term_input_of(*event) matches TermInput::Mouse {
            column,
            row,
            bits,
            ..
        } && column == m.column && row == m.row && bits == modifier_bits_of(m.modifiers),
        r is Other ==> term_input_of(*event) == TermInput::Other,
{
    match event {
        crossterm::event::Event::Key(key) => TermEvent::Key(*key),
        crossterm::event::Event::Mouse(m) => TermEvent::Mouse(
            TermMouse { column: m.column, row: m.row, modifiers: m.modifiers },
        ),
        _ => TermEvent::Other,
    }
}

/// Reads what the mouse did, and with which button, if the crossterm
/// event is a mouse event: the kind that `term_input_of(event)` holds, and
/// none for any other event.
#[verifier::external_body]
fn read_mouse_kind(event: &crossterm::event::Event) -> (r: Option<input::MouseEventKind>)
    ensures
        match term_input_of(*event) {
            TermInput::Mouse { kind, .. } => r == Some(kind),
            _ => r is None,
        },
{
    let button = |b: CtButton| match b {
        CtButton::Left => input::MouseButton::Left, CtButton::Right => input::MouseButton::Right,
        CtButton::Middle => input::MouseButton::Middle,
    };
    let crossterm::event::Event::Mouse(m) = event else { return None };
    Some(match m.kind {
        CtMouseKind::Down(b) => input::MouseEventKind::Down(button(b)),
        CtMouseKind::Up(b) => input::MouseEventKind::Up(button(b)),
        CtMouseKind::Drag(b) => input::MouseEventKind::Drag(button(b)),
        CtMouseKind::Moved => input::MouseEventKind::Moved,
        CtMouseKind::ScrollDown => input::MouseEventKind::ScrollDown,
        CtMouseKind::ScrollUp => input::MouseEventKind::ScrollUp,
        CtMouseKind::ScrollLeft => input::MouseEventKind::ScrollLeft,
        CtMouseKind::ScrollRight => input::MouseEventKind::ScrollRight,
    })
}

/// Calls `KeyModifiers::bits`, the raw flag bits (shift `1`, control `2`,
/// alt `4`, and higher bits for super, hyper and meta). The contract names
/// the result `modifier_bits_of(modifiers)`.
#[verifier::external_body]
fn modifier_bits(modifiers: crossterm::event::KeyModifiers) -> (r: u8)
    ensures
        r == modifier_bits_of(modifiers),
{
    modifiers.bits()
}

/// The shift, control and alt bits of a terminal's modifier flags.
pub fn modifiers_from_bits(bits: u8) -> (r: Modifiers)
    ensures
        r.0 == bits & 7,
{
    Modifiers(bits & 7)
}

/// The key code a terminal key code stands for, if this crate knows it.
pub open spec fn spec_key_code(code: TermKeyCode) -> Option<input::KeyCode> {
    match code {
        TermKeyCode::Char(c) => Some(input::KeyCode::Char(c)),
        TermKeyCode::Enter => Some(input::KeyCode::Enter),
        TermKeyCode::Esc => Some(input::KeyCode::Escape),
        TermKeyCode::Tab => Some(input::KeyCode::Tab),
        TermKeyCode::BackTab => Some(input::KeyCode::BackTab),
        TermKeyCode::Backspace => Some(input::KeyCode::Backspace),
        TermKeyCode::Up => Some(input::KeyCode::Up),
        TermKeyCode::Down => Some(input::KeyCode::Down),
        TermKeyCode::Left => Some(input::KeyCode::Left),
        TermKeyCode::Right => Some(input::KeyCode::Right),
        TermKeyCode::Home => Some(input::KeyCode::Home),
        TermKeyCode::End => Some(input::KeyCode::End),
        TermKeyCode::PageUp => Some(input::KeyCode::PageUp),
        TermKeyCode::PageDown => Some(input::KeyCode::PageDown),
        TermKeyCode::Delete => Some(input::KeyCode::Delete),
        TermKeyCode::Insert => Some(input::KeyCode::Insert),
        TermKeyCode::F(n) => Some(input::KeyCode::F(n)),
        _ => None,
    }
}

/// The chord of a key press with modifier bits `bits`; repeats, releases
/// and unknown keys give none.
pub open spec fn spec_keychord(code: TermKeyCode, kind: TermKeyKind, bits: u8) -> Option<KeyChord> {
    if kind != TermKeyKind::Press {
        None
    } else {
        match spec_key_code(code) {
            Some(c) => Some(KeyChord { code: c, modifiers: Modifiers(bits & 7) }),
            None => None,
        }
    }
}

/// Maps a key code, kind and modifier bits to a chord.
pub fn keychord_from_parts(code: TermKeyCode, kind: TermKeyKind, bits: u8) -> (r: Option<KeyChord>)
    ensures
        r == spec_keychord(code, kind, bits),
{
    if kind != TermKeyKind::Press {
        return None;
    }
    let code = match code {
        TermKeyCode::Char(c) => input::KeyCode::Char(c),
        TermKeyCode::Enter => input::KeyCode::Enter,
        TermKeyCode::Esc => input::KeyCode::Escape,
        TermKeyCode::Tab => input::KeyCode::Tab,
        TermKeyCode::BackTab => input::KeyCode::BackTab,
        TermKeyCode::Backspace => input::KeyCode::Backspace,
        TermKeyCode::Up => input::KeyCode::Up,
        TermKeyCode::Down => input::KeyCode::Down,
        TermKeyCode::Left => input::KeyCode::Left,
        TermKeyCode::Right => input::KeyCode::Right,
        TermKeyCode::Home => input::KeyCode::Home,
        TermKeyCode::End => input::KeyCode::End,
        TermKeyCode::PageUp => input::KeyCode::PageUp,
        TermKeyCode::PageDown => input::KeyCode::PageDown,
        TermKeyCode::Delete => input::KeyCode::Delete,
        TermKeyCode::Insert => input::KeyCode::Insert,
        TermKeyCode::F(n) => input::KeyCode::F(n),
        _ => {
            return None;
        },
    };
    Some(KeyChord { code, modifiers: modifiers_from_bits(bits) })
}

/// The terminal key of the same name as a key code of this crate (the
/// terminal calls `Escape` `Esc`).
pub open spec fn terminal_key_named(code: input::KeyCode) -> TermKeyCode {
    match code {
        input::KeyCode::Char(c) => TermKeyCode::Char(c),
        input::KeyCode::Enter => TermKeyCode::Enter,
        input::KeyCode::Escape => TermKeyCode::Esc,
        input::KeyCode::Tab => TermKeyCode::Tab,
        input::KeyCode::BackTab => TermKeyCode::BackTab,
        input::KeyCode::Backspace => TermKeyCode::Backspace,
        input::KeyCode::Home => TermKeyCode::Home,
        input::KeyCode::End => TermKeyCode::End,
        input::KeyCode::PageUp => TermKeyCode::PageUp,
        input::KeyCode::PageDown => TermKeyCode::PageDown,
        input::KeyCode::Delete => TermKeyCode::Delete,
        input::KeyCode::Insert => TermKeyCode::Insert,
        input::KeyCode::F(n) => TermKeyCode::F(n),
        input::KeyCode::Up => TermKeyCode::Up,
        input::KeyCode::Down => TermKeyCode::Down,
        input::KeyCode::Left => TermKeyCode::Left,
        input::KeyCode::Right => TermKeyCode::Right,
    }
}

/// Key codes keep their names: a press of the terminal key named like a
/// key code gives a chord of that very code, with the shift, control and
/// alt bits of the press; no other terminal key gives that code; and
/// repeats and releases give no chord.
pub proof fn lemma_key_codes_keep_their_names(code: input::KeyCode, term: TermKeyCode, kind: TermKeyKind, bits: u8)
    ensures
        spec_keychord(terminal_key_named(code), TermKeyKind::Press, bits) == Some(
            KeyChord { code, modifiers: Modifiers(bits & 7) },
        ),
        spec_key_code(term) == Some(code) ==> term == terminal_key_named(code),
        kind != TermKeyKind::Press ==> spec_keychord(term, kind, bits) is None,
{
}

/// The chord of a crossterm key press; repeats, releases and keys this
/// crate does not know give none.
pub fn keychord_from_crossterm(key: crossterm::event::KeyEvent) -> (r: Option<KeyChord>)
    ensures
        r == spec_keychord(key_code_of(key), key_kind_of(key), modifier_bits_of(key_modifiers_of(key))),
{
    let code = read_key_code(&key);
    let (kind, modifiers) = read_key_state(&key);
    let bits = modifier_bits(modifiers);
    keychord_from_parts(code, kind, bits)
}

/// A crossterm key press as an event.
pub fn event_from_crossterm(key: crossterm::event::KeyEvent) -> (r: Option<HypertileEvent>)
    ensures
        r == match spec_keychord(key_code_of(key), key_kind_of(key), modifier_bits_of(key_modifiers_of(key))) {
            Some(c) => Some(HypertileEvent::Key(c)),
            None => None,
        },
{
    match keychord_from_crossterm(key) {
        Some(chord) => Some(HypertileEvent::Key(chord)),
        None => None,
    }
}

/// A mouse event from its kind, position and modifier bits.
pub fn mouse_event_from_parts(kind: input::MouseEventKind, column: u16, row: u16, bits: u8) -> (r: input::MouseEvent)
    ensures
        r == (input::MouseEvent { kind, column, row, modifiers: Modifiers(bits & 7) }),
{
    input::MouseEvent { kind, column, row, modifiers: modifiers_from_bits(bits) }
}

/// A terminal event as plain values: a key with its code, kind and
/// modifier bits, a mouse event with its kind, position and modifier bits,
/// or anything else.
#[derive(Debug, Clone, Copy, PartialEq, Eq, Structural)]
pub enum TermInput {
    Key { code: TermKeyCode, kind: TermKeyKind, bits: u8 },
    Mouse { kind: input::MouseEventKind, column: u16, row: u16, bits: u8 },
    Other,
}

/// The event a terminal input stands for: key presses this crate knows
/// become key events, every mouse event becomes a mouse event (keeping the
/// shift, control and alt bits), and nothing else gives an event.
pub open spec fn spec_event_from_input(input: TermInput) -> Option<HypertileEvent> {
    match input {
        TermInput::Key { code, kind, bits } => match spec_keychord(code, kind, bits) {
            Some(c) => Some(HypertileEvent::Key(c)),
            None => None,
        },
        TermInput::Mouse { kind, column, row, bits } => Some(
            HypertileEvent::Mouse(input::MouseEvent { kind, column, row, modifiers: Modifiers(bits & 7) }),
        ),
        TermInput::Other => None,
    }
}

/// The event a terminal input stands for.
pub fn hypertile_event_from_input(event: TermInput) -> (r: Option<HypertileEvent>)
    ensures
        r == spec_event_from_input(event),
{
    match event {
        TermInput::Key { code, kind, bits } => match keychord_from_parts(code, kind, bits) {
            Some(chord) => Some(HypertileEvent::Key(chord)),
            None => None,
        },
        TermInput::Mouse { kind, column, row, bits } => Some(
            HypertileEvent::Mouse(mouse_event_from_parts(kind, column, row, bits)),
        ),
        TermInput::Other => None,
    }
}

/// Key presses and mouse events of crossterm as events; anything else
/// gives none. What the crossterm event holds is `term_input_of(event)`;
/// the mapping of it is `hypertile_event_from_input`.
pub fn hypertile_event_from_crossterm(event: crossterm::event::Event) -> (r: Option<HypertileEvent>)
    ensures
        r == spec_event_from_input(term_input_of(event)),
{
    let input = match read_event(&event) {
        TermEvent::Key(key) => {
            let code = read_key_code(&key);
            let (kind, modifiers) = read_key_state(&key);
            TermInput::Key { code, kind, bits: modifier_bits(modifiers) }
        },
        TermEvent::Mouse(mouse) => match read_mouse_kind(&event) {
            Some(kind) => TermInput::Mouse {
                kind,
                column: mouse.column,
                row: mouse.row,
                bits: modifier_bits(mouse.modifiers),
            },
            None => TermInput::Other,
        },
        TermEvent::Other => TermInput::Other,
    };
    hypertile_event_from_input(input)
}

} // verus!
