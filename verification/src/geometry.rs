//! Screen rectangles and the small computations on them.

use vstd::prelude::*;

verus! {

/// Largest coordinate a terminal cell can have.
pub open spec fn coord_max() -> int {
    0xffff
}

/// `a + b`, saturated at the top of `u16`.
pub open spec fn sat_add(a: int, b: int) -> int {
    if a + b > coord_max() {
        coord_max()
    } else {
        a + b
    }
}

/// `a - b`, saturated at zero.
pub open spec fn sat_sub(a: int, b: int) -> int {
    if a - b < 0 {
        0
    } else {
        a - b
    }
}

pub open spec fn spec_min(a: int, b: int) -> int {
    if a <= b {
        a
    } else {
        b
    }
}

pub open spec fn spec_max(a: int, b: int) -> int {
    if a >= b {
        a
    } else {
        b
    }
}

/// `|a - b|`.
pub open spec fn abs_diff(a: int, b: int) -> int {
    if a >= b {
        a - b
    } else {
        b - a
    }
}

/// The split axis of a node: `Horizontal` places children side by side,
/// `Vertical` stacks them.
#[derive(Debug, Clone, Copy, PartialEq, Eq, Hash, Structural)]
pub enum Direction {
    Horizontal,
    Vertical,
}

/// A rectangle of terminal cells, as a position and a size.
#[derive(Debug, Clone, Copy, PartialEq, Eq, Hash, Structural)]
pub struct Rect {
    pub x: u16,
    pub y: u16,
    pub width: u16,
    pub height: u16,
}

impl Default for Rect {
    /// The empty rectangle at the origin.
    fn default() -> (r: Self)
        ensures
            r == (Rect { x: 0, y: 0, width: 0, height: 0 }),
    {
        Rect { x: 0, y: 0, width: 0, height: 0 }
    }
}

impl Rect {
    /// First column past the right edge (saturating).
    pub open spec fn spec_right(self) -> int {
        sat_add(self.x as int, self.width as int)
    }

    /// First row past the bottom edge (saturating).
    pub open spec fn spec_bottom(self) -> int {
        sat_add(self.y as int, self.height as int)
    }

    /// The cell `(column, row)` lies inside the rectangle.
    pub open spec fn spec_contains(self, column: int, row: int) -> bool {
        &&& self.x <= column < self.spec_right()
        &&& self.y <= row < self.spec_bottom()
    }

    /// The rectangle lies inside `outer`.
    pub open spec fn spec_within(self, outer: Rect) -> bool {
        &&& outer.x <= self.x
        &&& outer.y <= self.y
        &&& self.spec_right() <= outer.spec_right()
        &&& self.spec_bottom() <= outer.spec_bottom()
    }

    /// The rectangle that `new` builds: the size is cut so that the
    /// rectangle ends inside the coordinate space.
    pub open spec fn spec_new(x: u16, y: u16, width: u16, height: u16) -> Rect {
        Rect {
            x,
            y,
            width: if width > 0xffff - x { (0xffff - x) as u16 } else { width },
            height: if height > 0xffff - y { (0xffff - y) as u16 } else { height },
        }
    }

    /// The overlap of two rectangles; empty overlaps have a zero size.
    pub open spec fn spec_intersection(self, other: Rect) -> Rect {
        let x1 = spec_max(self.x as int, other.x as int);
        let y1 = spec_max(self.y as int, other.y as int);
        let x2 = spec_min(self.spec_right(), other.spec_right());
        let y2 = spec_min(self.spec_bottom(), other.spec_bottom());
        Rect {
            x: x1 as u16,
            y: y1 as u16,
            width: sat_sub(x2, x1) as u16,
            height: sat_sub(y2, y1) as u16,
        }
    }

    pub open spec fn spec_area(self) -> int {
        self.width * self.height
    }

    /// Builds a rectangle, cutting a size that would reach past the
    /// coordinate space.
    pub fn new(x: u16, y: u16, width: u16, height: u16) -> (r: Rect)
        ensures
            r == Rect::spec_new(x, y, width, height),
    {
        terminal_rect_new(x, y, width, height)
    }

    /// Number of cells covered.
    pub fn area(self) -> (r: u32)
        ensures
            r == self.spec_area(),
    {
        terminal_rect_area(self)
    }

    /// The overlap of `self` and `other`.
    pub fn intersection(self, other: Rect) -> (r: Rect)
        ensures
            r == self.spec_intersection(other),
    {
        terminal_rect_intersection(self, other)
    }

    /// Whether the cell `(column, row)` lies inside.
    pub fn contains(self, column: u16, row: u16) -> (r: bool)
        ensures
            r == self.spec_contains(column as int, row as int),
    {
        terminal_rect_contains(self, column, row)
    }
}

/// Calls `ratatui::layout::Rect::new`, which keeps `x + width` and
/// `y + height` within `u16` by cutting the size; claims exactly that.
#[verifier::external_body]
fn terminal_rect_new(x: u16, y: u16, width: u16, height: u16) -> (r: Rect)
    ensures
        r == Rect::spec_new(x, y, width, height),
{
    let t = ratatui::layout::Rect::new(x, y, width, height);
    Rect { x: t.x, y: t.y, width: t.width, height: t.height }
}

/// Calls `ratatui::layout::Rect::area`: the product of width and height
/// as a `u32`.
#[verifier::external_body]
fn terminal_rect_area(rect: Rect) -> (r: u32)
    ensures
        r == rect.spec_area(),
{
    let t = ratatui::layout::Rect { x: rect.x, y: rect.y, width: rect.width, height: rect.height };
    t.area()
}

/// Calls `ratatui::layout::Rect::intersection`: the largest top-left
/// corner, the smallest saturated right and bottom edges, and a size that
/// saturates at zero.
#[verifier::external_body]
fn terminal_rect_intersection(a: Rect, b: Rect) -> (r: Rect)
    ensures
        r == a.spec_intersection(b),
{
    let ta = ratatui::layout::Rect { x: a.x, y: a.y, width: a.width, height: a.height };
    let tb = ratatui::layout::Rect { x: b.x, y: b.y, width: b.width, height: b.height };
    let t = ta.intersection(tb);
    Rect { x: t.x, y: t.y, width: t.width, height: t.height }
}

/// Calls `ratatui::layout::Rect::contains` on a `Position`: the column lies
/// in `[x, right)` and the row in `[y, bottom)`, with saturated edges.
#[verifier::external_body]
fn terminal_rect_contains(rect: Rect, column: u16, row: u16) -> (r: bool)
    ensures
        r == rect.spec_contains(column as int, row as int),
{
    let t = ratatui::layout::Rect { x: rect.x, y: rect.y, width: rect.width, height: rect.height };
    t.contains(ratatui::layout::Position { x: column, y: row })
}

/// Whether the cell `(column, row)` lies inside `rect`.
pub fn rect_contains(rect: Rect, column: u16, row: u16) -> (r: bool)
    ensures
        r == rect.spec_contains(column as int, row as int),
{
    rect.contains(column, row)
}

/// Distance between two positions on one axis.
pub fn axis_distance(position: u16, target: u16) -> (r: u16)
    ensures
        r == abs_diff(position as int, target as int),
{
    if position >= target {
        position - target
    } else {
        target - position
    }
}

/// `value` moved by `delta`, clamped to the `u16` range.
pub open spec fn spec_translate(value: int, delta: int) -> int {
    if value + delta < 0 {
        0
    } else if value + delta > coord_max() {
        coord_max()
    } else {
        value + delta
    }
}

/// Moves a coordinate by a signed offset, saturating at both ends.
pub fn translate_u16(value: u16, delta: i32) -> (r: u16)
    ensures
        r == spec_translate(value as int, delta as int),
{
    if delta < 0 {
        let magnitude: u32 = if delta == i32::MIN {
            0x8000_0000u32
        } else {
            (-delta) as u32
        };
        let step: u16 = if magnitude > 0xffff {
            0xffff
        } else {
            magnitude as u16
        };
        value.saturating_sub(step)
    } else {
        let step: u16 = if delta > 0xffff {
            0xffff
        } else {
            delta as u16
        };
        value.saturating_add(step)
    }
}

/// Moves a rectangle by `(dx, dy)`, keeping its size (cut at the edge of
/// the coordinate space as `Rect::new` does).
pub fn translate_rect(rect: Rect, dx: i32, dy: i32) -> (r: Rect)
    ensures
        r == Rect::spec_new(
            spec_translate(rect.x as int, dx as int) as u16,
            spec_translate(rect.y as int, dy as int) as u16,
            rect.width,
            rect.height,
        ),
{
    Rect::new(translate_u16(rect.x, dx), translate_u16(rect.y, dy), rect.width, rect.height)
}

} // verus!
