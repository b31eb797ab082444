//! Backend-agnostic input events.

use vstd::prelude::*;
use crate::geometry::Direction;
use crate::tree::SplitRatio;

verus! {

/// Backend-agnostic key code.
#[derive(Debug, Clone, Copy, PartialEq, Eq, Hash, Structural)]
pub enum KeyCode {
    Char(char),
    Enter,
    Escape,
    Tab,
    BackTab,
    Backspace,
    Home,
    End,
    PageUp,
    PageDown,
    Delete,
    Insert,
    F(u8),
    Up,
    Down,
    Left,
    Right,
}

/// Modifier keys, held as a set of bits: shift, control and alt.
#[derive(Debug, Clone, Copy, PartialEq, Eq, Hash, Structural)]
pub struct Modifiers(pub u8);

impl Default for Modifiers {
    /// No modifier held.
    fn default() -> (r: Self)
        ensures
            r.0 == 0,
    {
        Modifiers(0)
    }
}

impl Modifiers {
    /// No modifier held.
    pub fn none() -> (r: Self)
        ensures
            r.0 == 0,
    {
        Modifiers(0)
    }

    /// Shift held.
    pub fn shift() -> (r: Self)
        ensures
            r.0 == 1,
    {
        Modifiers(1)
    }

    /// Control held.
    pub fn ctrl() -> (r: Self)
        ensures
            r.0 == 2,
    {
        Modifiers(2)
    }

    /// Alt held.
    pub fn alt() -> (r: Self)
        ensures
            r.0 == 4,
    {
        Modifiers(4)
    }

    /// Every bit of `other` is set in `self`.
    pub fn contains(self, other: Self) -> (r: bool)
        ensures
            r == (self.0 & other.0 == other.0),
    {
        (self.0 & other.0) == other.0
    }

    /// No modifier is held.
    pub fn is_empty(self) -> (r: bool)
        ensures
            r == (self.0 == 0),
    {
        self.0 == 0
    }
}

/// Key code plus modifiers.
#[derive(Debug, Clone, Copy, PartialEq, Eq, Hash, Structural)]
pub struct KeyChord {
    pub code: KeyCode,
    pub modifiers: Modifiers,
}

impl KeyChord {
    /// A chord with no modifier held.
    pub fn new(code: KeyCode) -> (r: Self)
        ensures
            r.code == code,
            r.modifiers.0 == 0,
    {
        KeyChord { code, modifiers: Modifiers::none() }
    }

    pub fn with_modifiers(code: KeyCode, modifiers: Modifiers) -> (r: Self)
        ensures
            r.code == code,
            r.modifiers == modifiers,
    {
        KeyChord { code, modifiers }
    }
}

/// Mouse button.
#[derive(Debug, Clone, Copy, PartialEq, Eq, Hash, Structural)]
pub enum MouseButton {
    Left,
    Right,
    Middle,
}

/// What the mouse did. `Drag` means the mouse moved while the button was
/// held down.
#[derive(Debug, Clone, Copy, PartialEq, Eq, Hash, Structural)]
pub enum MouseEventKind {
    Down(MouseButton),
    Up(MouseButton),
    Drag(MouseButton),
    Moved,
    ScrollUp,
    ScrollDown,
    ScrollLeft,
    ScrollRight,
}

/// Backend-agnostic mouse event. `column` and `row` are absolute terminal
/// coordinates, not pane-local.
#[derive(Debug, Clone, Copy, PartialEq, Eq, Hash, Structural)]
pub struct MouseEvent {
    pub kind: MouseEventKind,
    pub column: u16,
    pub row: u16,
    pub modifiers: Modifiers,
}

impl MouseEvent {
    /// An event with no modifier held.
    pub fn new(kind: MouseEventKind, column: u16, row: u16) -> (r: Self)
        ensures
            r.kind == kind,
            r.column == column,
            r.row == row,
            r.modifiers.0 == 0,
    {
        MouseEvent { kind, column, row, modifiers: Modifiers::none() }
    }

    pub fn with_modifiers(kind: MouseEventKind, column: u16, row: u16, modifiers: Modifiers) -> (r:
        Self)
        ensures
            r.kind == kind,
            r.column == column,
            r.row == row,
            r.modifiers == modifiers,
    {
        MouseEvent { kind, column, row, modifiers }
    }
}

/// `Start` means left or up. `End` means right or down.
#[derive(Debug, Clone, Copy, PartialEq, Eq, Hash, Structural)]
pub enum Towards {
    Start,
    End,
}

/// How pane moves are resolved.
#[derive(Debug, Clone, Copy, PartialEq, Eq, Hash, Structural)]
pub enum MoveScope {
    /// Swap with the nearest pane in that direction (requires layout).
    Window,
    /// Swap inside the nearest ancestor split on that axis.
    Split,
}

/// A signed change of a split's share, carried as the bits of an
/// IEEE-754 single-precision number that the tree logic never computes
/// with.
#[derive(Debug, Clone, Copy, PartialEq, Eq, Hash, Structural)]
pub struct RatioDelta(pub u32);

/// Layout command for the layout engine.
#[derive(Debug, Clone, Copy, PartialEq, Eq, Structural)]
pub enum HypertileAction {
    FocusNext,
    FocusPrev,
    FocusDirection { direction: Direction, towards: Towards },
    SplitFocused { direction: Direction },
    CloseFocused,
    ResizeFocused { delta: RatioDelta },
    SetFocusedRatio { ratio: SplitRatio },
    MoveFocused { direction: Direction, towards: Towards, scope: MoveScope },
}

/// Event delivered to the layout engine or runtime. The core engine only
/// acts on `Action`; key and tick are for higher-level code.
#[derive(Debug, Clone, Copy, PartialEq, Eq, Structural)]
pub enum HypertileEvent {
    Key(KeyChord),
    Mouse(MouseEvent),
    Action(HypertileAction),
    Tick,
}

/// Whether an event handler used an event.
///
/// `Consumed` means the handler acted on the event: it changed state, or it
/// claimed the event during an exclusive interaction like a drag or modal.
/// `Ignored` means the handler did nothing with the event.
#[derive(Debug, Clone, Copy, PartialEq, Eq, Structural)]
pub enum EventOutcome {
    Ignored,
    Consumed,
}

impl EventOutcome {
    pub fn is_consumed(self) -> (r: bool)
        ensures
            r == (self == EventOutcome::Consumed),
    {
        match self {
            EventOutcome::Consumed => true,
            EventOutcome::Ignored => false,
        }
    }
}

impl core::ops::BitOr for Modifiers {
    type Output = Self;

    fn bitor(self, rhs: Self) -> (r: Self) {
        Modifiers(self.0 | rhs.0)
    }
}

impl vstd::std_specs::ops::BitOrSpecImpl for Modifiers {
    open spec fn obeys_bitor_spec() -> bool {
        true
    }

    open spec fn bitor_req(self, rhs: Self) -> bool {
        true
    }

    open spec fn bitor_spec(self, rhs: Self) -> Self {
        Modifiers(self.0 | rhs.0)
    }
}

impl core::ops::BitOrAssign for Modifiers {
    fn bitor_assign(&mut self, rhs: Self)
        ensures
            final(self).0 == old(self).0 | rhs.0,
    {
        self.0 = self.0 | rhs.0;
    }
}

/// A union of modifier sets contains each of its parts.
pub proof fn lemma_union_contains_parts(a: Modifiers, b: Modifiers)
    ensures
        (a.0 | b.0) & a.0 == a.0,
        (a.0 | b.0) & b.0 == b.0,
{
    let (x, y) = (a.0, b.0);
    assert((x | y) & x == x) by (bit_vector);
    assert((x | y) & y == y) by (bit_vector);
}

} // verus!
