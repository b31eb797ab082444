use hypertile::geometry::{Direction, Rect};
use hypertile::input::{EventOutcome, MouseButton, MouseEvent, MouseEventKind};
use hypertile::mouse::{
    drag_threshold_met, drop_target, hover_unchanged, majority_overlap_target, plugin_mouse_outcome,
    resize_fraction,
    InputMode,
    MouseController, MouseDragState, MouseEffect, MouseResizeHover,
};
use hypertile::split_hit::SplitAreas;
use hypertile::state::HypertileState;
use hypertile::tree::{Node, PaneId, SplitRatio};

fn rect(x: u16, y: u16, width: u16, height: u16) -> Rect {
    Rect { x, y, width, height }
}

fn half() -> SplitRatio {
    SplitRatio(0.5f32.to_bits())
}

fn split(direction: Direction, first: Node, second: Node) -> Node {
    Node::Split { direction, ratio: half(), first: Box::new(first), second: Box::new(second) }
}

fn leaf_areas() -> Box<SplitAreas> {
    Box::new(SplitAreas::Pane)
}

const ROOT: PaneId = PaneId(0);
const RIGHT: PaneId = PaneId(1);

/// The root pane split horizontally, laid out in 100x20.
fn two_panes() -> (HypertileState, SplitAreas) {
    let mut state = HypertileState::new();
    state.set_root(split(Direction::Horizontal, Node::Pane(ROOT), Node::Pane(RIGHT))).unwrap();
    state.compute_layout(
        rect(0, 0, 100, 20),
        vec![(ROOT, rect(0, 0, 50, 20)), (RIGHT, rect(50, 0, 50, 20))],
    );
    let areas = SplitAreas::Split {
        first_area: rect(0, 0, 50, 20),
        second_area: rect(50, 0, 50, 20),
        first: leaf_areas(),
        second: leaf_areas(),
    };
    (state, areas)
}

fn down(column: u16, row: u16) -> MouseEvent {
    MouseEvent::new(MouseEventKind::Down(MouseButton::Left), column, row)
}

fn drag(column: u16, row: u16) -> MouseEvent {
    MouseEvent::new(MouseEventKind::Drag(MouseButton::Left), column, row)
}

fn up(column: u16, row: u16) -> MouseEvent {
    MouseEvent::new(MouseEventKind::Up(MouseButton::Left), column, row)
}

fn moved(column: u16, row: u16) -> MouseEvent {
    MouseEvent::new(MouseEventKind::Moved, column, row)
}

#[test]
fn layout_mode_left_click_focuses_hit_pane() {
    let (state, areas) = two_panes();
    let mut mouse = MouseController::new();
    let (outcome, effect) = mouse.handle_layout_mouse(&state, &areas, down(1, 1));
    assert_eq!(outcome, EventOutcome::Consumed);
    assert!(matches!(effect, MouseEffect::FocusPane(ROOT)));
}

#[test]
fn layout_mode_drag_on_split_resizes_panes() {
    let (state, areas) = two_panes();
    let mut mouse = MouseController::new();
    let (down_outcome, down_effect) = mouse.handle_layout_mouse(&state, &areas, down(50, 1));
    let (drag_outcome, drag_effect) = mouse.handle_layout_mouse(&state, &areas, drag(30, 1));
    let (up_outcome, up_effect) = mouse.handle_layout_mouse(&state, &areas, up(30, 1));

    assert_eq!(down_outcome, EventOutcome::Consumed);
    assert!(matches!(down_effect, MouseEffect::StopAnimation));
    assert_eq!(drag_outcome, EventOutcome::Consumed);
    match drag_effect {
        MouseEffect::ResizeSplit { path, direction, rect: r } => {
            assert!(path.is_empty());
            assert_eq!(direction, Direction::Horizontal);
            assert_eq!(r, rect(0, 0, 100, 20));
            assert_eq!(resize_fraction(direction, r, drag(30, 1)), Some((30, 100)));
        },
        other => panic!("unexpected {other:?}"),
    }
    assert_eq!(up_outcome, EventOutcome::Consumed);
    assert!(matches!(up_effect, MouseEffect::Nothing));
    assert!(matches!(mouse.drag, MouseDragState::Idle));
}

#[test]
fn layout_mode_drag_pane_to_pane_swaps_them() {
    let (state, areas) = two_panes();
    let mut mouse = MouseController::new();
    let (down_outcome, _) = mouse.handle_layout_mouse(&state, &areas, down(1, 1));
    let (drag_outcome, _) = mouse.handle_layout_mouse(&state, &areas, drag(75, 1));
    let (up_outcome, effect) = mouse.handle_layout_mouse(&state, &areas, up(75, 1));
    assert_eq!(down_outcome, EventOutcome::Consumed);
    assert_eq!(drag_outcome, EventOutcome::Consumed);
    assert_eq!(up_outcome, EventOutcome::Consumed);
    assert!(matches!(effect, MouseEffect::SwapPanes { dragged: ROOT, target: RIGHT }));
}

#[test]
fn layout_mode_drag_preview_tracks_mouse_before_drop() {
    let (state, areas) = two_panes();
    let mut mouse = MouseController::new();
    mouse.handle_layout_mouse(&state, &areas, down(1, 1));
    assert_eq!(mouse.drag.preview_rect(), None);
    mouse.handle_layout_mouse(&state, &areas, drag(10, 4));
    assert_eq!(mouse.drag.preview_rect(), Some(Rect::new(9, 3, 50, 20)));
    assert_eq!(mouse.drag.dragged_pane(), Some(ROOT));
}

#[test]
fn layout_mode_drag_without_majority_overlap_does_not_swap() {
    let (state, areas) = two_panes();
    let mut mouse = MouseController::new();
    mouse.handle_layout_mouse(&state, &areas, down(1, 1));
    mouse.handle_layout_mouse(&state, &areas, drag(20, 1));
    let (outcome, effect) = mouse.handle_layout_mouse(&state, &areas, up(20, 1));
    assert_eq!(outcome, EventOutcome::Consumed);
    assert!(matches!(effect, MouseEffect::Nothing));
}

#[test]
fn layout_mode_mouse_move_tracks_resize_hover() {
    let (state, areas) = two_panes();
    let mut mouse = MouseController::new();
    let (hover, _) = mouse.handle_layout_mouse(&state, &areas, moved(50, 5));
    assert_eq!(hover, EventOutcome::Consumed);
    assert_eq!(
        mouse.hover,
        Some(MouseResizeHover {
            direction: Direction::Horizontal,
            rect: Rect::new(0, 0, 100, 20),
            ratio: half(),
        })
    );
    let (again, _) = mouse.handle_layout_mouse(&state, &areas, moved(50, 6));
    assert_eq!(again, EventOutcome::Ignored);
    let (clear, _) = mouse.handle_layout_mouse(&state, &areas, moved(10, 5));
    assert_eq!(clear, EventOutcome::Consumed);
    assert_eq!(mouse.hover, None);
}

#[test]
fn layout_mode_large_pane_drops_on_smaller_pane_under_cursor() {
    let logs = PaneId(1);
    let network = PaneId(2);
    let mut state = HypertileState::new();
    state
        .set_root(split(
            Direction::Vertical,
            split(Direction::Horizontal, Node::Pane(ROOT), Node::Pane(network)),
            Node::Pane(logs),
        ))
        .unwrap();
    state.compute_layout(
        rect(0, 0, 100, 40),
        vec![
            (ROOT, rect(0, 0, 50, 20)),
            (network, rect(50, 0, 50, 20)),
            (logs, rect(0, 20, 100, 20)),
        ],
    );
    let areas = SplitAreas::Split {
        first_area: rect(0, 0, 100, 20),
        second_area: rect(0, 20, 100, 20),
        first: Box::new(SplitAreas::Split {
            first_area: rect(0, 0, 50, 20),
            second_area: rect(50, 0, 50, 20),
            first: leaf_areas(),
            second: leaf_areas(),
        }),
        second: leaf_areas(),
    };
    let mut mouse = MouseController::new();
    mouse.handle_layout_mouse(&state, &areas, down(1, 25));
    mouse.handle_layout_mouse(&state, &areas, drag(10, 5));
    let (_, effect) = mouse.handle_layout_mouse(&state, &areas, up(10, 5));
    assert!(matches!(effect, MouseEffect::SwapPanes { dragged, target } if dragged == logs && target == ROOT));
}

#[test]
fn click_without_travel_focuses_but_does_not_swap() {
    let (state, areas) = two_panes();
    let mut mouse = MouseController::new();
    mouse.handle_layout_mouse(&state, &areas, down(60, 3));
    mouse.handle_layout_mouse(&state, &areas, drag(61, 3));
    assert_eq!(mouse.drag.dragged_pane(), None);
    let (outcome, effect) = mouse.handle_layout_mouse(&state, &areas, up(61, 4));
    assert_eq!(outcome, EventOutcome::Consumed);
    assert!(matches!(effect, MouseEffect::Nothing));
}

#[test]
fn release_without_drag_is_ignored() {
    let (state, areas) = two_panes();
    let mut mouse = MouseController::new();
    let (outcome, effect) = mouse.handle_layout_mouse(&state, &areas, up(5, 5));
    assert_eq!(outcome, EventOutcome::Ignored);
    assert!(matches!(effect, MouseEffect::Nothing));
    let (outcome, _) = mouse.handle_layout_mouse(&state, &areas, drag(5, 5));
    assert_eq!(outcome, EventOutcome::Ignored);
    let scroll = MouseEvent::new(MouseEventKind::ScrollUp, 5, 5);
    assert_eq!(mouse.handle_layout_mouse(&state, &areas, scroll).0, EventOutcome::Ignored);
}

#[test]
fn press_outside_every_pane_is_ignored() {
    let (state, areas) = two_panes();
    let mut mouse = MouseController::new();
    let (outcome, effect) = mouse.handle_layout_mouse(&state, &areas, down(120, 30));
    assert_eq!(outcome, EventOutcome::Ignored);
    assert!(matches!(effect, MouseEffect::Nothing));
}

#[test]
fn plugin_input_routes_mouse_to_hit_pane() {
    let (state, areas) = two_panes();
    let mut mouse = MouseController::new();
    let click = down(75, 1);
    let (outcome, effect) = mouse.handle_mouse_event(InputMode::PluginInput, &state, &areas, click);
    assert_eq!(outcome, EventOutcome::Consumed);
    assert!(matches!(
        effect,
        MouseEffect::ForwardToPane { pane: RIGHT, focus: true, focus_changed: true }
    ));
}

#[test]
fn plugin_input_click_focus_change_consumes_even_if_plugin_ignores() {
    let (mut state, areas) = two_panes();
    let mut mouse = MouseController::new();
    let click = down(75, 1);
    let (first, _) = mouse.handle_mouse_event(InputMode::PluginInput, &state, &areas, click);
    assert_eq!(first, EventOutcome::Consumed);
    assert!(state.focus_path_for(RIGHT));
    assert_eq!(state.focused_pane(), Some(RIGHT));
    let (second, effect) = mouse.handle_mouse_event(InputMode::PluginInput, &state, &areas, click);
    assert_eq!(second, EventOutcome::Ignored);
    assert!(matches!(
        effect,
        MouseEffect::ForwardToPane { pane: RIGHT, focus: true, focus_changed: false }
    ));
    let hover = moved(75, 1);
    let (_, effect) = mouse.handle_mouse_event(InputMode::PluginInput, &state, &areas, hover);
    assert!(matches!(
        effect,
        MouseEffect::ForwardToPane { pane: RIGHT, focus: false, focus_changed: false }
    ));
}

#[test]
fn drag_threshold_counts_the_larger_axis() {
    assert!(!drag_threshold_met(10, 10, 11, 11));
    assert!(drag_threshold_met(10, 10, 12, 10));
    assert!(drag_threshold_met(10, 10, 10, 8));
    assert!(!drag_threshold_met(10, 10, 10, 10));
}

#[test]
fn resize_fraction_clamps_and_handles_empty() {
    let r = rect(10, 0, 40, 20);
    assert_eq!(resize_fraction(Direction::Horizontal, r, moved(5, 0)), Some((0, 40)));
    assert_eq!(resize_fraction(Direction::Horizontal, r, moved(90, 0)), Some((40, 40)));
    assert_eq!(resize_fraction(Direction::Vertical, r, moved(0, 7)), Some((7, 20)));
    assert_eq!(resize_fraction(Direction::Vertical, rect(0, 0, 5, 0), moved(0, 7)), None);
}

#[test]
fn majority_overlap_prefers_largest_then_last() {
    let panes = [
        (PaneId(0), rect(0, 0, 10, 10)),
        (PaneId(1), rect(0, 0, 10, 10)),
        (PaneId(2), rect(0, 0, 4, 10)),
    ];
    assert_eq!(majority_overlap_target(&panes, PaneId(9), rect(0, 0, 10, 10)), Some(PaneId(1)));
    assert_eq!(majority_overlap_target(&panes, PaneId(1), rect(0, 0, 10, 10)), Some(PaneId(0)));
    assert_eq!(majority_overlap_target(&panes, PaneId(9), rect(0, 0, 0, 10)), None);
    assert_eq!(majority_overlap_target(&panes, PaneId(9), rect(6, 0, 10, 10)), None);
}

#[test]
fn drop_target_prefers_pane_under_cursor() {
    let (state, _) = two_panes();
    let at = |c, r| MouseEvent::new(MouseEventKind::Up(MouseButton::Left), c, r);
    assert_eq!(drop_target(&state, ROOT, at(75, 1), rect(10, 0, 50, 20)), Some(RIGHT));
    assert_eq!(drop_target(&state, ROOT, at(10, 1), rect(40, 0, 50, 20)), Some(RIGHT));
    assert_eq!(drop_target(&state, ROOT, at(10, 1), rect(10, 0, 50, 20)), None);
}

#[test]
fn plugin_answer_counts_unless_the_focus_moved() {
    let (mut state, areas) = two_panes();
    let mut mouse = MouseController::new();
    let click = down(75, 1);
    let (_, effect) = mouse.handle_mouse_event(InputMode::PluginInput, &state, &areas, click);
    assert_eq!(plugin_mouse_outcome(&effect, EventOutcome::Ignored), EventOutcome::Consumed);
    assert!(state.focus_path_for(RIGHT));
    let (_, effect) = mouse.handle_mouse_event(InputMode::PluginInput, &state, &areas, click);
    assert_eq!(plugin_mouse_outcome(&effect, EventOutcome::Ignored), EventOutcome::Ignored);
    assert_eq!(plugin_mouse_outcome(&effect, EventOutcome::Consumed), EventOutcome::Consumed);
    let (_, effect) = mouse.handle_mouse_event(InputMode::PluginInput, &state, &areas, moved(200, 200));
    assert!(matches!(effect, MouseEffect::Nothing));
    assert_eq!(plugin_mouse_outcome(&effect, EventOutcome::Consumed), EventOutcome::Ignored);
}

#[test]
fn shares_compare_as_numbers() {
    let half = SplitRatio(0.5f32.to_bits());
    let nan = SplitRatio(f32::NAN.to_bits());
    let zero = SplitRatio(0.0f32.to_bits());
    let neg_zero = SplitRatio((-0.0f32).to_bits());
    assert!(half.same_share(&half));
    assert!(!nan.same_share(&nan));
    assert!(zero.same_share(&neg_zero));
    assert!(!half.same_share(&SplitRatio(0.25f32.to_bits())));
    assert!(SplitRatio(f32::INFINITY.to_bits()).same_share(&SplitRatio(f32::INFINITY.to_bits())));

    let hover = |ratio| Some(MouseResizeHover {
        direction: Direction::Horizontal,
        rect: rect(0, 0, 10, 10),
        ratio,
    });
    assert!(hover_unchanged(&hover(zero), &hover(neg_zero)));
    assert!(!hover_unchanged(&hover(nan), &hover(nan)));
    assert!(hover_unchanged(&None, &None));
    assert!(!hover_unchanged(&hover(half), &None));
}
