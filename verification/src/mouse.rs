//! Mouse interaction: what a click, a drag, a release or a move over the
//! layout decides. The runtime that owns the layout carries the decisions
//! out.

use vstd::prelude::*;
use crate::geometry::{abs_diff, sat_sub, spec_translate, translate_rect, Direction, Rect};
use crate::input::{EventOutcome, MouseButton, MouseEvent, MouseEventKind};
use crate::split_hit::{areas_fit, fold_best, hit_fields, snapshot_fields, split_hits, SplitAreas};
use crate::state::{split_hit_at, HypertileState, StateModel};
use crate::layout::{first_hit, lemma_first_hit_holds_cell};
use crate::tree::{pane_at_path, PaneId, SplitRatio};

verus! {

/// How near a split border a press must be to grab it.
const SPLIT_HIT_TOLERANCE: u16 = 1;

/// How far the mouse must travel before a pane drag shows its preview.
const MOVE_DRAG_THRESHOLD: u16 = 2;

/// Where the mouse goes to: the layout itself, or the plugins in the panes.
#[derive(Debug, Clone, Copy, PartialEq, Eq, Structural)]
pub enum InputMode {
    Layout,
    PluginInput,
}

/// The drag in progress.
#[derive(Debug)]
pub enum MouseDragState {
    Idle,
    /// A split border is being dragged.
    Resize { split_path: Vec<usize>, direction: Direction, rect: Rect },
    /// A pane is being dragged onto another.
    Move {
        pane_id: PaneId,
        start_column: u16,
        start_row: u16,
        current_column: u16,
        current_row: u16,
        origin: Rect,
        preview_active: bool,
    },
}

impl Default for MouseDragState {
    fn default() -> (r: Self)
        ensures
            r is Idle,
    {
        MouseDragState::Idle
    }
}

/// The split border under a hovering mouse.
#[derive(Debug, Clone, Copy, PartialEq, Eq, Structural)]
pub struct MouseResizeHover {
    pub direction: Direction,
    pub rect: Rect,
    pub ratio: SplitRatio,
}

/// The pane rectangle moved by the mouse's travel since the press.
pub open spec fn spec_preview(origin: Rect, start_column: u16, start_row: u16, column: u16, row: u16) -> Rect {
    Rect::spec_new(
        spec_translate(origin.x as int, column - start_column) as u16,
        spec_translate(origin.y as int, row - start_row) as u16,
        origin.width,
        origin.height,
    )
}

/// The mouse has travelled at least the drag threshold along some axis.
pub open spec fn spec_threshold_met(start_column: u16, start_row: u16, column: u16, row: u16) -> bool {
    abs_diff(start_column as int, column as int) >= 2 || abs_diff(start_row as int, row as int) >= 2
}

impl MouseDragState {
    pub fn clear(&mut self)
        ensures
            *final(self) is Idle,
    {
        *self = MouseDragState::Idle;
    }

    /// The pane being dragged, once its preview shows.
    pub fn dragged_pane(&self) -> (r: Option<PaneId>)
        ensures
            r == match *self {
                MouseDragState::Move { pane_id, preview_active, .. } => if preview_active {
                    Some(pane_id)
                } else {
                    None
                },
                _ => None,
            },
    {
        match self {
            MouseDragState::Move { pane_id, preview_active, .. } => {
                if *preview_active {
                    Some(*pane_id)
                } else {
                    None
                }
            },
            _ => None,
        }
    }

    /// Where the dragged pane is drawn, once its preview shows.
    pub fn preview_rect(&self) -> (r: Option<Rect>)
        ensures
            r == match *self {
                MouseDragState::Move {
                    start_column,
                    start_row,
                    current_column,
                    current_row,
                    origin,
                    preview_active,
                    ..
                } => if preview_active {
                    Some(spec_preview(origin, start_column, start_row, current_column, current_row))
                } else {
                    None
                },
                _ => None,
            },
    {
        match self {
            MouseDragState::Move {
                start_column,
                start_row,
                current_column,
                current_row,
                origin,
                preview_active,
                ..
            } => {
                if *preview_active {
                    Some(
                        translate_rect(
                            *origin,
                            (*current_column as i32) - (*start_column as i32),
                            (*current_row as i32) - (*start_row as i32),
                        ),
                    )
                } else {
                    None
                }
            },
            _ => None,
        }
    }
}

/// The mouse has travelled at least the drag threshold along some axis.
pub fn drag_threshold_met(start_column: u16, start_row: u16, column: u16, row: u16) -> (r: bool)
    ensures
        r == spec_threshold_met(start_column, start_row, column, row),
{
    let dc = if start_column >= column {
        start_column - column
    } else {
        column - start_column
    };
    let dr = if start_row >= row {
        start_row - row
    } else {
        row - start_row
    };
    let m = if dc >= dr {
        dc
    } else {
        dr
    };
    m >= MOVE_DRAG_THRESHOLD
}

/// The offset of the mouse into `rect` along the split axis (clamped to the
/// extent) and that extent, whose quotient is the new share of the first
/// child; `None` for an empty extent, whose share is one half.
pub fn resize_fraction(direction: Direction, rect: Rect, mouse: MouseEvent) -> (r: Option<(u16, u16)>)
    ensures
        r == match direction {
            Direction::Horizontal => if rect.width == 0 {
                None
            } else {
                Some(
                    (
                        if sat_sub(mouse.column as int, rect.x as int) <= rect.width {
                            sat_sub(mouse.column as int, rect.x as int) as u16
                        } else {
                            rect.width
                        },
                        rect.width,
                    ),
                )
            },
            Direction::Vertical => if rect.height == 0 {
                None
            } else {
                Some(
                    (
                        if sat_sub(mouse.row as int, rect.y as int) <= rect.height {
                            sat_sub(mouse.row as int, rect.y as int) as u16
                        } else {
                            rect.height
                        },
                        rect.height,
                    ),
                )
            },
        },
{
    match direction {
        Direction::Horizontal => {
            if rect.width == 0 {
                return None;
            }
            let offset = mouse.column.saturating_sub(rect.x);
            Some((if offset <= rect.width { offset } else { rect.width }, rect.width))
        },
        Direction::Vertical => {
            if rect.height == 0 {
                return None;
            }
            let offset = mouse.row.saturating_sub(rect.y);
            Some((if offset <= rect.height { offset } else { rect.height }, rect.height))
        },
    }
}

/// How many cells of `preview` the pane rectangle covers.
pub open spec fn overlap(preview: Rect, e: (PaneId, Rect)) -> int {
    preview.spec_intersection(e.1).spec_area()
}

/// A pane other than the dragged one that the preview covers for more than
/// half of the preview's area.
pub open spec fn majority_candidate(preview: Rect, dragged: PaneId, e: (PaneId, Rect)) -> bool {
    e.0 != dragged && 2 * overlap(preview, e) > preview.spec_area()
}

/// The pane that a preview lands on by majority overlap: among the
/// candidates, one with the largest overlap, the last such in list order.
pub open spec fn majority_target(s: Seq<(PaneId, Rect)>, dragged: PaneId, preview: Rect, i: int) -> bool {
    &&& 0 <= i < s.len()
    &&& majority_candidate(preview, dragged, s[i])
    &&& forall|j: int|
        0 <= j < s.len() && majority_candidate(preview, dragged, #[trigger] s[j]) ==> overlap(preview, s[j])
            <= overlap(preview, s[i])
    &&& forall|j: int|
        i < j < s.len() && majority_candidate(preview, dragged, #[trigger] s[j]) ==> overlap(preview, s[j])
            < overlap(preview, s[i])
}

/// The pane the preview covers for most of its area, if any.
pub fn majority_overlap_target(panes: &[(PaneId, Rect)], dragged: PaneId, preview: Rect) -> (r:
    Option<PaneId>)
    ensures
        preview.spec_area() == 0 ==> r is None,
        preview.spec_area() != 0 ==> match r {
            None => forall|j: int| 0 <= j < panes@.len() ==> !majority_candidate(preview, dragged, #[trigger] panes@[j]),
            Some(id) => exists|i: int| majority_target(panes@, dragged, preview, i) && panes@[i].0 == id,
        },
{
    let dragged_area = preview.area();
    if dragged_area == 0 {
        return None;
    }
    let n = panes.len();
    let mut best: Option<(usize, u32)> = None;
    for k in 0..n
        invariant
            n == panes@.len(),
            dragged_area == preview.spec_area(),
            dragged_area != 0,
            best is None ==> forall|j: int| 0 <= j < k ==> !majority_candidate(preview, dragged, #[trigger] panes@[j]),
            best matches Some(b) ==> {
                &&& b.0 < k
                &&& b.1 == overlap(preview, panes@[b.0 as int])
                &&& majority_candidate(preview, dragged, panes@[b.0 as int])
                &&& forall|j: int|
                    0 <= j < k && majority_candidate(preview, dragged, #[trigger] panes@[j]) ==> overlap(preview, panes@[j])
                        <= b.1
                &&& forall|j: int|
                    b.0 < j < k && majority_candidate(preview, dragged, #[trigger] panes@[j]) ==> overlap(preview, panes@[j])
                        < b.1
            },
    {
        let (pane_id, rect) = panes[k];
        if pane_id != dragged {
            let covered = preview.intersection(rect).area();
            proof {
                lemma_overlap_bounded(preview, rect);
            }
            if (covered as u64) * 2 > dragged_area as u64 {
                let replace = match best {
                    None => true,
                    Some(b) => covered >= b.1,
                };
                if replace {
                    best = Some((k, covered));
                }
            }
        }
    }
    match best {
        Some(b) => {
            assert(majority_target(panes@, dragged, preview, b.0 as int));
            Some(panes[b.0].0)
        },
        None => None,
    }
}

/// The overlap never exceeds the preview.
proof fn lemma_overlap_bounded(preview: Rect, rect: Rect)
    ensures
        preview.spec_intersection(rect).spec_area() <= preview.spec_area(),
        preview.spec_area() <= 0xfffe0001,
{
    let i = preview.spec_intersection(rect);
    assert(i.width <= preview.width);
    assert(i.height <= preview.height);
    assert(i.width * i.height <= preview.width * preview.height) by (nonlinear_arith)
        requires
            i.width <= preview.width,
            i.height <= preview.height,
    ;
    assert(preview.width * preview.height <= 0xffff * 0xffff) by (nonlinear_arith)
        requires
            preview.width <= 0xffff,
            preview.height <= 0xffff,
    ;
}

/// The pane a drop lands on: the pane under the cursor when it is not the
/// dragged one, otherwise the pane the preview covers for most of its area.
pub open spec fn drop_target_is(
    m: StateModel,
    dragged: PaneId,
    column: int,
    row: int,
    preview: Rect,
    t: Option<PaneId>,
) -> bool {
    let hit = first_hit(m.layout, column, row);
    if hit is Some && hit->0 != dragged {
        t == hit
    } else if preview.spec_area() == 0 {
        t is None
    } else {
        match t {
            None => forall|j: int| 0 <= j < m.layout.len() ==> !majority_candidate(preview, dragged, #[trigger] m.layout[j]),
            Some(id) => exists|i: int| majority_target(m.layout, dragged, preview, i) && m.layout[i].0 == id,
        }
    }
}

/// Where a dragged pane lands when released.
pub fn drop_target(core: &HypertileState, dragged: PaneId, mouse: MouseEvent, preview: Rect) -> (r:
    Option<PaneId>)
    ensures
        drop_target_is(core@, dragged, mouse.column as int, mouse.row as int, preview, r),
{
    if let Some(target) = core.pane_at(mouse.column, mouse.row) {
        if target != dragged {
            return Some(target);
        }
    }
    majority_overlap_target(core.panes(), dragged, preview)
}

/// What the runtime that owns the layout does after a mouse decision.
#[derive(Debug)]
pub enum MouseEffect {
    Nothing,
    /// A split border was grabbed: stop any running animation.
    StopAnimation,
    /// A pane was grabbed: focus it and stop any running animation.
    FocusPane(PaneId),
    /// Give the split at `path` the share that the mouse position along
    /// `direction` within `rect` makes (see [`resize_fraction`]).
    ResizeSplit { path: Vec<usize>, direction: Direction, rect: Rect },
    /// Swap a dragged pane with the pane it was dropped on.
    SwapPanes { dragged: PaneId, target: PaneId },
    /// Pass the event to the plugin of `pane`, focusing the pane first when
    /// `focus` holds; the event counts as consumed when `focus_changed`,
    /// otherwise the plugin's answer counts.
    ForwardToPane { pane: PaneId, focus: bool, focus_changed: bool },
}

/// The drag and hover state of the mouse over a layout.
#[derive(Debug)]
pub struct MouseController {
    pub drag: MouseDragState,
    pub hover: Option<MouseResizeHover>,
}

/// The hover that a split hit makes.
pub open spec fn hover_of(hit: Option<(Seq<usize>, Rect, Direction, SplitRatio)>) -> Option<MouseResizeHover> {
    match hit {
        Some(h) => Some(MouseResizeHover { direction: h.2, rect: h.1, ratio: h.3 }),
        None => None,
    }
}

/// What a left press decides: a split border under the cursor is
/// grabbed; otherwise a pane under it is grabbed and asked to be focused;
/// otherwise nothing happens. Any hover ends.
pub open spec fn start_decision(
    core: StateModel,
    areas: SplitAreas,
    mouse: MouseEvent,
    drag: MouseDragState,
    hover: Option<MouseResizeHover>,
    r: (EventOutcome, MouseEffect),
) -> bool {
    &&& hover is None
    &&& match split_hit_at(core, areas, mouse.column as int, mouse.row as int, 1) {
        Some(h) => {
            &&& r.0 == EventOutcome::Consumed
            &&& r.1 is StopAnimation
            &&& drag matches MouseDragState::Resize { split_path, direction, rect } && split_path@
                == h.0 && rect == h.1 && direction == h.2
        },
        None => match first_hit(core.layout, mouse.column as int, mouse.row as int) {
            None => r.0 == EventOutcome::Ignored && r.1 is Nothing && drag is Idle,
            Some(id) => {
                &&& r.0 == EventOutcome::Consumed
                &&& r.1 matches MouseEffect::FocusPane(p) && p == id
                &&& drag matches MouseDragState::Move {
                    pane_id,
                    start_column,
                    start_row,
                    current_column,
                    current_row,
                    origin,
                    preview_active,
                } && pane_id == id && start_column == mouse.column && start_row == mouse.row
                    && current_column == mouse.column && current_row == mouse.row && !preview_active
                    && core.layout.contains((id, origin))
                    && forall|q: Rect| #[trigger] core.layout.contains((id, q)) ==> q == origin
            },
        },
    }
}

/// The drag state after mouse travel during a pane drag, with the outcome:
/// the drag follows the cursor and shows its preview once the travel
/// reaches the threshold; without a pane drag nothing changes.
pub open spec fn moved_drag(drag: MouseDragState, mouse: MouseEvent) -> (MouseDragState, EventOutcome) {
    match drag {
        MouseDragState::Move { pane_id, start_column, start_row, origin, preview_active, .. } => (
            MouseDragState::Move {
                pane_id,
                start_column,
                start_row,
                current_column: mouse.column,
                current_row: mouse.row,
                origin,
                preview_active: preview_active || spec_threshold_met(
                    start_column,
                    start_row,
                    mouse.column,
                    mouse.row,
                ),
            },
            EventOutcome::Consumed,
        ),
        _ => (drag, EventOutcome::Ignored),
    }
}

/// What travel with the left button held decides: a grabbed split border
/// asks for a resize at the cursor; otherwise the drag moves as in
/// `moved_drag`.
pub open spec fn drag_decision(
    old_drag: MouseDragState,
    mouse: MouseEvent,
    drag: MouseDragState,
    r: (EventOutcome, MouseEffect),
) -> bool {
    match old_drag {
        MouseDragState::Resize { split_path, direction, rect } => {
            &&& r.0 == EventOutcome::Consumed
            &&& r.1 matches MouseEffect::ResizeSplit { path, direction: d, rect: q } && path@
                == split_path@ && d == direction && q == rect
            &&& drag == old_drag
        },
        _ => r.1 is Nothing && (drag, r.0) == moved_drag(old_drag, mouse),
    }
}

/// What a left release decides: any drag ends; a pane drag that travelled
/// far enough asks to swap the pane with its drop target.
pub open spec fn finish_decision(
    core: StateModel,
    old_drag: MouseDragState,
    mouse: MouseEvent,
    drag: MouseDragState,
    r: (EventOutcome, MouseEffect),
) -> bool {
    &&& drag is Idle
    &&& old_drag is Idle ==> r.0 == EventOutcome::Ignored && r.1 is Nothing
    &&& old_drag is Resize ==> r.0 == EventOutcome::Consumed && r.1 is Nothing
    &&& old_drag matches MouseDragState::Move { pane_id, start_column, start_row, origin, preview_active, .. } ==> {
        &&& r.0 == EventOutcome::Consumed
        &&& !preview_active && !spec_threshold_met(start_column, start_row, mouse.column, mouse.row)
            ==> r.1 is Nothing
        &&& preview_active || spec_threshold_met(start_column, start_row, mouse.column, mouse.row)
            ==> exists|t: Option<PaneId>|
            drop_target_is(
                core,
                pane_id,
                mouse.column as int,
                mouse.row as int,
                spec_preview(origin, start_column, start_row, mouse.column, mouse.row),
                t,
            ) && match t {
                Some(id) => if id == pane_id {
                    r.1 is Nothing
                } else {
                    r.1 matches MouseEffect::SwapPanes { dragged, target } && dragged == pane_id
                        && target == id
                },
                None => r.1 is Nothing,
            }
    }
}

/// What travel with no button held decides: the hover follows the split
/// border under the cursor, and the event counts only if the hover changed,
/// shares compared as numbers; an unchanged hover is kept as it was.
pub open spec fn hover_decision(
    core: StateModel,
    areas: SplitAreas,
    mouse: MouseEvent,
    old_hover: Option<MouseResizeHover>,
    hover: Option<MouseResizeHover>,
    r: EventOutcome,
) -> bool {
    let next = hover_of(split_hit_at(core, areas, mouse.column as int, mouse.row as int, 1));
    if same_hover(old_hover, next) {
        hover == old_hover && r == EventOutcome::Ignored
    } else {
        hover == next && r == EventOutcome::Consumed
    }
}

/// Whether two hover states are the same: both none, or the same border
/// with shares equal as numbers.
pub open spec fn same_hover(a: Option<MouseResizeHover>, b: Option<MouseResizeHover>) -> bool {
    match (a, b) {
        (None, None) => true,
        (Some(x), Some(y)) => x.direction == y.direction && x.rect == y.rect && x.ratio.spec_same_share(y.ratio),
        _ => false,
    }
}

/// Whether two hover states are the same (see the spec of that name).
pub fn hover_unchanged(a: &Option<MouseResizeHover>, b: &Option<MouseResizeHover>) -> (r: bool)
    ensures
        r == same_hover(*a, *b),
{
    match (a, b) {
        (None, None) => true,
        (Some(x), Some(y)) => x.direction == y.direction && x.rect == y.rect && x.ratio.same_share(&y.ratio),
        _ => false,
    }
}

/// What a mouse event decides in plugin mode: it goes to the pane under
/// the cursor; a left press focuses that pane, and counts as consumed when
/// the focus moves.
pub open spec fn plugin_decision(core: StateModel, mouse: MouseEvent, r: MouseEffect) -> bool {
    match first_hit(core.layout, mouse.column as int, mouse.row as int) {
        None => r is Nothing,
        Some(id) => r matches MouseEffect::ForwardToPane { pane, focus, focus_changed } && pane == id
            && focus == (mouse.kind == MouseEventKind::Down(MouseButton::Left)) && focus_changed == (
        focus && pane_at_path(core.root, core.focus) != Some(id)),
    }
}

impl MouseController {
    /// No drag, no hover.
    pub fn new() -> (r: Self)
        ensures
            r.drag is Idle,
            r.hover is None,
    {
        MouseController { drag: MouseDragState::Idle, hover: None }
    }

    /// A left press: grabs the split border under the cursor, or else the
    /// pane under it.
    pub fn start_layout_mouse_drag(&mut self, core: &HypertileState, areas: &SplitAreas, mouse: MouseEvent) -> (r: (
        EventOutcome,
        MouseEffect,
    ))
        requires
            core.wf(),
            areas_fit(core@.root, *areas),
        ensures
            start_decision(core@, *areas, mouse, final(self).drag, final(self).hover, r),
    {
        self.drag.clear();
        self.hover = None;
        if let Some(split) = core.split_at(mouse.column, mouse.row, SPLIT_HIT_TOLERANCE, areas) {
            self.drag = MouseDragState::Resize {
                split_path: split.path,
                direction: split.direction,
                rect: split.rect,
            };
            return (EventOutcome::Consumed, MouseEffect::StopAnimation);
        }
        let pane_id = match core.pane_at(mouse.column, mouse.row) {
            Some(id) => id,
            None => {
                return (EventOutcome::Ignored, MouseEffect::Nothing);
            },
        };
        proof {
            lemma_first_hit_holds_cell(core@.layout, mouse.column as int, mouse.row as int);
        }
        let origin = match core.pane_rect(pane_id) {
            Some(rect) => rect,
            None => {
                proof {
                    let i = choose|i: int| 0 <= i < core@.layout.len() && core@.layout[i].0 == pane_id;
                    assert(crate::layout::ids_of(core@.layout)[i] == pane_id);
                }
                return (EventOutcome::Ignored, MouseEffect::Nothing);
            },
        };
        self.drag = MouseDragState::Move {
            pane_id,
            start_column: mouse.column,
            start_row: mouse.row,
            current_column: mouse.column,
            current_row: mouse.row,
            origin,
            preview_active: false,
        };
        (EventOutcome::Consumed, MouseEffect::FocusPane(pane_id))
    }

    /// Mouse travel during a pane drag: follows the cursor and shows the
    /// preview once the travel reaches the threshold.
    pub fn update_move_drag(&mut self, mouse: MouseEvent) -> (r: EventOutcome)
        ensures
            final(self).hover == old(self).hover,
            (final(self).drag, r) == moved_drag(old(self).drag, mouse),
    {
        match &mut self.drag {
            MouseDragState::Move {
                start_column,
                start_row,
                current_column,
                current_row,
                preview_active,
                ..
            } => {
                *current_column = mouse.column;
                *current_row = mouse.row;
                if drag_threshold_met(*start_column, *start_row, mouse.column, mouse.row) {
                    *preview_active = true;
                }
                EventOutcome::Consumed
            },
            _ => EventOutcome::Ignored,
        }
    }

    /// Mouse travel with the left button held: resizes the grabbed split,
    /// or moves the grabbed pane.
    pub fn update_layout_mouse_drag(&mut self, mouse: MouseEvent) -> (r: (EventOutcome, MouseEffect))
        ensures
            final(self).hover == old(self).hover,
            drag_decision(old(self).drag, mouse, final(self).drag, r),
    {
        if let MouseDragState::Resize { split_path, direction, rect } = &self.drag {
            let path = split_path.clone();
            assert(path@ =~= split_path@);
            return (
                EventOutcome::Consumed,
                MouseEffect::ResizeSplit { path, direction: *direction, rect: *rect },
            );
        }
        let outcome = self.update_move_drag(mouse);
        (outcome, MouseEffect::Nothing)
    }

    /// Mouse travel with no button held: tracks the split border under the
    /// cursor.
    pub fn update_layout_mouse_hover(&mut self, core: &HypertileState, areas: &SplitAreas, mouse: MouseEvent) -> (r:
        EventOutcome)
        requires
            areas_fit(core@.root, *areas),
        ensures
            final(self).drag == old(self).drag,
            hover_decision(core@, *areas, mouse, old(self).hover, final(self).hover, r),
    {
        let next = match core.split_at(mouse.column, mouse.row, SPLIT_HIT_TOLERANCE, areas) {
            Some(split) => Some(
                MouseResizeHover { direction: split.direction, rect: split.rect, ratio: split.ratio },
            ),
            None => None,
        };
        if hover_unchanged(&self.hover, &next) {
            return EventOutcome::Ignored;
        }
        self.hover = next;
        EventOutcome::Consumed
    }

    /// A left release: drops a dragged pane onto its target and asks for
    /// the swap; ends any drag.
    pub fn finish_layout_mouse_drag(&mut self, core: &HypertileState, mouse: MouseEvent) -> (r: (
        EventOutcome,
        MouseEffect,
    ))
        ensures
            final(self).hover == old(self).hover,
            finish_decision(core@, old(self).drag, mouse, final(self).drag, r),
    {
        let mut taken = MouseDragState::Idle;
        std::mem::swap(&mut taken, &mut self.drag);
        let (pane_id, start_column, start_row, origin, preview_active) = match taken {
            MouseDragState::Move {
                pane_id,
                start_column,
                start_row,
                current_column: _,
                current_row: _,
                origin,
                preview_active,
            } => (pane_id, start_column, start_row, origin, preview_active),
            MouseDragState::Resize { .. } => {
                return (EventOutcome::Consumed, MouseEffect::Nothing);
            },
            MouseDragState::Idle => {
                return (EventOutcome::Ignored, MouseEffect::Nothing);
            },
        };
        if !preview_active && !drag_threshold_met(start_column, start_row, mouse.column, mouse.row) {
            return (EventOutcome::Consumed, MouseEffect::Nothing);
        }
        let preview = translate_rect(
            origin,
            (mouse.column as i32) - (start_column as i32),
            (mouse.row as i32) - (start_row as i32),
        );
        let target = drop_target(core, pane_id, mouse, preview);
        let ghost spec_prev = spec_preview(origin, start_column, start_row, mouse.column, mouse.row);
        assert(preview == spec_prev);
        assert(drop_target_is(core@, pane_id, mouse.column as int, mouse.row as int, spec_prev, target));
        let target_id = match target {
            Some(t) => t,
            None => {
                return (EventOutcome::Consumed, MouseEffect::Nothing);
            },
        };
        if target_id == pane_id {
            return (EventOutcome::Consumed, MouseEffect::Nothing);
        }
        (EventOutcome::Consumed, MouseEffect::SwapPanes { dragged: pane_id, target: target_id })
    }

    /// A mouse event in layout mode.
    pub fn handle_layout_mouse(&mut self, core: &HypertileState, areas: &SplitAreas, mouse: MouseEvent) -> (r: (
        EventOutcome,
        MouseEffect,
    ))
        requires
            core.wf(),
            areas_fit(core@.root, *areas),
        ensures
            match mouse.kind {
                MouseEventKind::Down(MouseButton::Left) => start_decision(
                    core@,
                    *areas,
                    mouse,
                    final(self).drag,
                    final(self).hover,
                    r,
                ),
                MouseEventKind::Drag(MouseButton::Left) => final(self).hover == old(self).hover
                    && drag_decision(old(self).drag, mouse, final(self).drag, r),
                MouseEventKind::Up(MouseButton::Left) => final(self).hover == old(self).hover
                    && finish_decision(core@, old(self).drag, mouse, final(self).drag, r),
                MouseEventKind::Moved => final(self).drag == old(self).drag && r.1 is Nothing
                    && hover_decision(core@, *areas, mouse, old(self).hover, final(self).hover, r.0),
                _ => r.0 == EventOutcome::Ignored && r.1 is Nothing && final(self).drag == old(
                    self,
                ).drag && final(self).hover == old(self).hover,
            },
    {
        match mouse.kind {
            MouseEventKind::Down(MouseButton::Left) => self.start_layout_mouse_drag(core, areas, mouse),
            MouseEventKind::Drag(MouseButton::Left) => self.update_layout_mouse_drag(mouse),
            MouseEventKind::Up(MouseButton::Left) => self.finish_layout_mouse_drag(core, mouse),
            MouseEventKind::Moved => (
                self.update_layout_mouse_hover(core, areas, mouse),
                MouseEffect::Nothing,
            ),
            _ => (EventOutcome::Ignored, MouseEffect::Nothing),
        }
    }

    /// A mouse event in plugin mode goes to the pane under the cursor; a
    /// left press there focuses that pane.
    pub fn handle_plugin_mouse(&self, core: &HypertileState, mouse: MouseEvent) -> (r: MouseEffect)
        requires
            core.wf(),
        ensures
            plugin_decision(core@, mouse, r),
    {
        let pane = match core.pane_at(mouse.column, mouse.row) {
            Some(id) => id,
            None => {
                return MouseEffect::Nothing;
            },
        };
        let focus = match mouse.kind {
            MouseEventKind::Down(MouseButton::Left) => true,
            _ => false,
        };
        let focus_changed = focus && match core.focused_pane() {
            Some(f) => f != pane,
            None => true,
        };
        MouseEffect::ForwardToPane { pane, focus, focus_changed }
    }

    /// A mouse event, by input mode. In plugin mode the decision is handed
    /// on in [`MouseEffect::ForwardToPane`], or the event is ignored; the
    /// outcome returned then is the one owed before the plugin is asked,
    /// and [`plugin_mouse_outcome`] gives the final one from the plugin's
    /// answer.
    pub fn handle_mouse_event(&mut self, mode: InputMode, core: &HypertileState, areas: &SplitAreas, mouse: MouseEvent) -> (r: (
        EventOutcome,
        MouseEffect,
    ))
        requires
            core.wf(),
            areas_fit(core@.root, *areas),
        ensures
            mode is Layout ==> match mouse.kind {
                MouseEventKind::Down(MouseButton::Left) => start_decision(
                    core@,
                    *areas,
                    mouse,
                    final(self).drag,
                    final(self).hover,
                    r,
                ),
                MouseEventKind::Drag(MouseButton::Left) => final(self).hover == old(self).hover
                    && drag_decision(old(self).drag, mouse, final(self).drag, r),
                MouseEventKind::Up(MouseButton::Left) => final(self).hover == old(self).hover
                    && finish_decision(core@, old(self).drag, mouse, final(self).drag, r),
                MouseEventKind::Moved => final(self).drag == old(self).drag && r.1 is Nothing
                    && hover_decision(core@, *areas, mouse, old(self).hover, final(self).hover, r.0),
                _ => r.0 == EventOutcome::Ignored && r.1 is Nothing && final(self).drag == old(
                    self,
                ).drag && final(self).hover == old(self).hover,
            },
            mode is PluginInput ==> {
                &&& final(self).drag == old(self).drag
                &&& final(self).hover == old(self).hover
                &&& plugin_decision(core@, mouse, r.1)
                &&& r.0 == if r.1 matches MouseEffect::ForwardToPane { focus_changed, .. } && focus_changed {
                    EventOutcome::Consumed
                } else {
                    EventOutcome::Ignored
                }
            },
    {
        match mode {
            InputMode::Layout => self.handle_layout_mouse(core, areas, mouse),
            InputMode::PluginInput => {
                let effect = self.handle_plugin_mouse(core, mouse);
                let outcome = match &effect {
                    MouseEffect::ForwardToPane { focus_changed, .. } => if *focus_changed {
                        EventOutcome::Consumed
                    } else {
                        EventOutcome::Ignored
                    },
                    _ => EventOutcome::Ignored,
                };
                (outcome, effect)
            },
        }
    }
}

/// The answer to a mouse event in plugin mode once the decision `effect`
/// was carried out and the pane's plugin answered `plugin_answer`: a press
/// that moved the focus counts as consumed whatever the plugin said; an
/// event that reached a pane otherwise gets the plugin's answer; an event
/// over no pane is ignored.
pub fn plugin_mouse_outcome(effect: &MouseEffect, plugin_answer: EventOutcome) -> (r: EventOutcome)
    ensures
        r == match *effect {
            MouseEffect::ForwardToPane { focus_changed, .. } => if focus_changed {
                EventOutcome::Consumed
            } else {
                plugin_answer
            },
            _ => EventOutcome::Ignored,
        },
{
    match effect {
        MouseEffect::ForwardToPane { focus_changed, .. } => if *focus_changed {
            EventOutcome::Consumed
        } else {
            plugin_answer
        },
        _ => EventOutcome::Ignored,
    }
}

/// The hover always names the split border under the cursor: none when
/// there is none, else that border's rectangle and direction, with a share
/// of the same number (its very bits, or a zero of either sign). Moving
/// onto another border, or off every border, or onto one, is consumed;
/// an ignored move leaves the hover as it was.
pub proof fn lemma_hover_names_border_under_cursor(
    core: StateModel,
    areas: SplitAreas,
    mouse: MouseEvent,
    old_hover: Option<MouseResizeHover>,
    hover: Option<MouseResizeHover>,
    r: EventOutcome,
)
    requires
        hover_decision(core, areas, mouse, old_hover, hover, r),
    ensures
        ({
            let hit = split_hit_at(core, areas, mouse.column as int, mouse.row as int, 1);
            &&& hit is None <==> hover is None
            &&& hit matches Some(h) ==> {
                &&& hover is Some
                &&& hover->0.rect == h.1
                &&& hover->0.direction == h.2
                &&& hover->0.ratio == h.3 || (hover->0.ratio.0 as int % 0x8000_0000 == 0 && h.3.0 as int
                    % 0x8000_0000 == 0)
            }
            &&& old_hover is Some != hit is Some ==> r == EventOutcome::Consumed
            &&& (old_hover matches Some(o) && hit matches Some(h) && (o.rect != h.1 || o.direction != h.2))
                ==> r == EventOutcome::Consumed
            &&& r == EventOutcome::Ignored ==> hover == old_hover
            &&& r == EventOutcome::Consumed ==> hover == hover_of(hit)
        }),
{
}

/// A press and release at the same cell is a click, not a drag: the pane
/// stays where it is.
pub proof fn lemma_click_is_not_a_drag(column: u16, row: u16)
    ensures
        !spec_threshold_met(column, row, column, row),
{
}

} // verus!
