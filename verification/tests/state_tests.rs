use hypertile::geometry::{Direction, Rect};
use hypertile::split_hit::SplitAreas;
use hypertile::state::HypertileState;
use hypertile::tree::{collect_pane_ids, Node, PaneId, SplitRatio, StateError};

fn rect(x: u16, y: u16, width: u16, height: u16) -> Rect {
    Rect { x, y, width, height }
}

fn half() -> SplitRatio {
    SplitRatio(0.5f32.to_bits())
}

fn split(direction: Direction, first: Node, second: Node) -> Node {
    Node::Split { direction, ratio: half(), first: Box::new(first), second: Box::new(second) }
}

fn pane(id: u64) -> Node {
    Node::Pane(PaneId(id))
}

/// Panes 0 | 1 side by side in a 100x20 area.
fn two_panes() -> HypertileState {
    let mut state = HypertileState::new();
    state.set_root(split(Direction::Horizontal, pane(0), pane(1))).unwrap();
    state.compute_layout(
        rect(0, 0, 100, 20),
        vec![(PaneId(1), rect(50, 0, 50, 20)), (PaneId(0), rect(0, 0, 50, 20))],
    );
    state
}

fn two_pane_areas() -> SplitAreas {
    SplitAreas::Split {
        first_area: rect(0, 0, 50, 20),
        second_area: rect(50, 0, 50, 20),
        first: Box::new(SplitAreas::Pane),
        second: Box::new(SplitAreas::Pane),
    }
}

#[test]
fn new_state_has_one_focused_pane_and_no_layout() {
    let state = HypertileState::new();
    assert!(matches!(state.root(), Node::Pane(PaneId(0))));
    assert_eq!(state.focused_pane(), Some(PaneId::root()));
    assert!(state.pane_ids().is_empty());
    assert!(state.panes().is_empty());
    assert!(state.focus_highlight());
    assert_eq!(state.gap(), 0);
    assert_eq!(state.last_area(), None);
    assert_eq!(state.pane_path(PaneId(0)), Some(vec![]));
    assert_eq!(state.pane_path(PaneId(1)), None);
}

#[test]
fn collect_pane_ids_walks_preorder() {
    let tree = split(
        Direction::Vertical,
        split(Direction::Horizontal, pane(4), pane(2)),
        pane(7),
    );
    assert_eq!(collect_pane_ids(&tree), vec![PaneId(4), PaneId(2), PaneId(7)]);
}

#[test]
fn set_root_rejects_duplicate_ids_and_keeps_state() {
    let mut state = HypertileState::new();
    let tree = split(
        Direction::Horizontal,
        pane(3),
        split(Direction::Vertical, pane(5), pane(3)),
    );
    assert_eq!(state.set_root(tree), Err(StateError::DuplicatePaneId(PaneId(3))));
    assert!(matches!(state.root(), Node::Pane(PaneId(0))));
    assert_eq!(state.allocate_pane_id(), PaneId(1));
}

#[test]
fn set_root_focuses_leftmost_and_continues_ids() {
    let mut state = HypertileState::new();
    let tree = split(
        Direction::Horizontal,
        split(Direction::Vertical, pane(9), pane(2)),
        pane(4),
    );
    assert_eq!(state.set_root(tree), Ok(()));
    assert_eq!(state.focused_pane(), Some(PaneId(9)));
    assert_eq!(state.pane_path(PaneId(2)), Some(vec![0, 1]));
    assert_eq!(state.pane_path(PaneId(4)), Some(vec![1]));
    assert_eq!(state.allocate_pane_id(), PaneId(10));
    assert_eq!(state.allocate_pane_id(), PaneId(11));
}

#[test]
fn allocate_pane_id_saturates() {
    let mut state = HypertileState::new();
    state.set_root(split(Direction::Horizontal, pane(u64::MAX), pane(1))).unwrap();
    assert_eq!(state.allocate_pane_id(), PaneId(u64::MAX));
    assert_eq!(state.allocate_pane_id(), PaneId(u64::MAX));
}

#[test]
fn compute_layout_orders_by_id_and_geometry() {
    let mut state = HypertileState::new();
    state
        .set_root(split(
            Direction::Vertical,
            split(Direction::Horizontal, pane(0), pane(2)),
            pane(1),
        ))
        .unwrap();
    assert!(state.needs_layout(rect(0, 0, 100, 40)));
    state.compute_layout(
        rect(0, 0, 100, 40),
        vec![
            (PaneId(1), rect(0, 20, 100, 20)),
            (PaneId(2), rect(50, 0, 50, 20)),
            (PaneId(0), rect(0, 0, 50, 20)),
        ],
    );
    assert_eq!(state.pane_ids(), vec![PaneId(0), PaneId(1), PaneId(2)]);
    let geometric: Vec<PaneId> = state.panes_geometric_order().iter().map(|e| e.0).collect();
    assert_eq!(geometric, vec![PaneId(0), PaneId(2), PaneId(1)]);
    assert_eq!(state.pane_rect(PaneId(2)), Some(rect(50, 0, 50, 20)));
    assert_eq!(state.pane_rect(PaneId(7)), None);
    assert_eq!(state.pane_at(60, 5), Some(PaneId(2)));
    assert_eq!(state.pane_at(60, 25), Some(PaneId(1)));
    assert_eq!(state.pane_at(100, 5), None);
    assert!(!state.needs_layout(rect(0, 0, 100, 40)));
}

#[test]
fn compute_layout_skips_when_nothing_changed() {
    let mut state = two_panes();
    state.compute_layout(rect(0, 0, 100, 20), vec![]);
    assert_eq!(state.pane_ids(), vec![PaneId(0), PaneId(1)]);
    state.compute_layout(rect(0, 0, 80, 20), vec![(PaneId(0), rect(0, 0, 80, 20))]);
    assert_eq!(state.pane_ids(), vec![PaneId(0)]);
    assert_eq!(state.last_area(), Some(rect(0, 0, 80, 20)));
}

#[test]
fn set_gap_invalidates_only_on_change() {
    let mut state = two_panes();
    state.set_gap(0);
    assert_eq!(state.pane_ids().len(), 2);
    state.set_gap(1);
    assert_eq!(state.gap(), 1);
    assert!(state.pane_ids().is_empty());
    assert!(state.needs_layout(rect(0, 0, 100, 20)));
}

#[test]
fn focus_highlight_toggles() {
    let mut state = HypertileState::new();
    state.set_focus_highlight(false);
    assert!(!state.focus_highlight());
}

#[test]
fn reset_returns_to_single_pane() {
    let mut state = two_panes();
    state.set_gap(2);
    state.reset();
    assert!(matches!(state.root(), Node::Pane(PaneId(0))));
    assert_eq!(state.gap(), 0);
    assert!(state.pane_ids().is_empty());
    assert_eq!(state.allocate_pane_id(), PaneId(1));
}

#[test]
fn walk_preorder_lists_every_node_with_its_path() {
    let mut state = HypertileState::new();
    state
        .set_root(split(Direction::Vertical, split(Direction::Horizontal, pane(0), pane(2)), pane(1)))
        .unwrap();
    let walked = state.walk_preorder();
    let paths: Vec<Vec<usize>> = walked.iter().map(|(p, _)| p.clone()).collect();
    assert_eq!(paths, vec![vec![], vec![0], vec![0, 0], vec![0, 1], vec![1]]);
    assert!(matches!(walked[2].1, Node::Pane(PaneId(0))));
    assert!(matches!(walked[4].1, Node::Pane(PaneId(1))));
    assert!(matches!(walked[1].1, Node::Split { direction: Direction::Horizontal, .. }));
}

#[test]
fn split_at_finds_border_within_tolerance() {
    let state = two_panes();
    let areas = two_pane_areas();
    let hit = state.split_at(50, 5, 1, &areas).unwrap();
    assert_eq!(hit.path, Vec::<usize>::new());
    assert_eq!(hit.rect, rect(0, 0, 100, 20));
    assert_eq!(hit.direction, Direction::Horizontal);
    assert_eq!(hit.ratio, half());
    assert!(state.split_at(49, 5, 1, &areas).is_some());
    assert!(state.split_at(48, 5, 1, &areas).is_none());
    assert!(state.split_at(10, 5, 1, &areas).is_none());
    assert!(state.split_at(50, 25, 1, &areas).is_none());
}

#[test]
fn split_at_prefers_nearer_then_deeper() {
    let mut state = HypertileState::new();
    state
        .set_root(split(Direction::Horizontal, pane(0), split(Direction::Horizontal, pane(1), pane(2))))
        .unwrap();
    state.compute_layout(
        rect(0, 0, 100, 20),
        vec![
            (PaneId(0), rect(0, 0, 50, 20)),
            (PaneId(1), rect(50, 0, 25, 20)),
            (PaneId(2), rect(75, 0, 25, 20)),
        ],
    );
    let areas = SplitAreas::Split {
        first_area: rect(0, 0, 50, 20),
        second_area: rect(50, 0, 50, 20),
        first: Box::new(SplitAreas::Pane),
        second: Box::new(SplitAreas::Split {
            first_area: rect(50, 0, 24, 20),
            second_area: rect(74, 0, 26, 20),
            first: Box::new(SplitAreas::Pane),
            second: Box::new(SplitAreas::Pane),
        }),
    };
    // Nearer wins.
    assert_eq!(state.split_at(73, 5, 30, &areas).unwrap().path, vec![1]);
    // Equally near (12 cells from both borders): the deeper split wins.
    assert_eq!(state.split_at(62, 5, 30, &areas).unwrap().path, vec![1]);
    assert_eq!(state.split_at(55, 5, 30, &areas).unwrap().path, Vec::<usize>::new());
    assert_eq!(state.split_at(55, 5, 2, &areas).map(|s| s.path), None);
}

#[test]
fn split_at_needs_a_layout() {
    let mut state = HypertileState::new();
    state.set_root(split(Direction::Horizontal, pane(0), pane(1))).unwrap();
    assert!(state.split_at(50, 5, 1, &two_pane_areas()).is_none());
}

#[test]
fn clones_keep_tree_and_layout() {
    let tree = split(Direction::Vertical, pane(3), split(Direction::Horizontal, pane(1), pane(2)));
    let copy = tree.clone();
    assert_eq!(collect_pane_ids(&copy), collect_pane_ids(&tree));

    let state = two_panes();
    let copy = state.clone();
    assert_eq!(copy.panes(), state.panes());
    assert_eq!(copy.panes_geometric_order(), state.panes_geometric_order());
    assert_eq!(copy.focused_pane(), state.focused_pane());
}

#[test]
fn same_tree_area_and_rects_give_same_layout() {
    let s = two_panes();
    let mut t = HypertileState::new();
    t.set_root(split(Direction::Horizontal, pane(0), pane(1))).unwrap();
    t.compute_layout(
        rect(0, 0, 100, 20),
        vec![(PaneId(0), rect(0, 0, 50, 20)), (PaneId(1), rect(50, 0, 50, 20))],
    );
    assert_eq!(s.panes(), t.panes());
    assert_eq!(s.panes_geometric_order(), t.panes_geometric_order());

    let before = t.panes().to_vec();
    t.compute_layout(
        rect(0, 0, 100, 20),
        vec![(PaneId(0), rect(0, 0, 10, 20)), (PaneId(1), rect(10, 0, 90, 20))],
    );
    assert_eq!(t.panes(), before.as_slice());
}
