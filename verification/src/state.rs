//! The mutable tree state: the layout tree, the focused pane, the index of
//! pane paths and the cached layout.

use vstd::prelude::*;
use std::collections::HashMap;
use crate::geometry::{abs_diff, Direction, Rect};
use crate::layout::{
    all_within, find_by_id, find_hit, first_hit, ids_of, lemma_distinct_sorted_is_strict,
    lemma_no_duplicates_by_multiset, lemma_within_by_multiset, lemma_sorted_distinct_unique, pane_le, sort_panes, sorted_in, strictly_sorted_in, PaneOrder,
};
use crate::split_hit::{
    areas_fit, better_hit, border_distance, find_split_at, fold_best, hit_fields, lemma_best_hit,
    lemma_hits_name_splits, snapshot_fields, split_hits, SplitAreas, SplitHit, SplitHitCandidate,
};
use crate::tree::{
    first_repeat, lemma_leaf_path_leads_to_leaf, lemma_leaf_paths_len,
    lemma_leftmost_path_leads_to_first_leaf, lemma_max_id_bounds_leaves, leftmost_leaf_path, max_pane_id, no_duplicates,
    validate_unique_pane_ids, prefix_nodes, pane_at_path, pane_at_path_from, Node, PaneId, SplitRatio,
    SplitSnapshot, StateError,
};

verus! {

broadcast use vstd::std_specs::hash::group_hash_axioms;

/// What a [`HypertileState`] holds, as mathematical values.
pub struct StateModel {
    /// The layout tree.
    pub root: Node,
    /// Path of the focused pane.
    pub focus: Seq<usize>,
    /// Pane rectangles of the last layout, by pane id.
    pub layout: Seq<(PaneId, Rect)>,
    /// The same rectangles, top to bottom and left to right.
    pub geometric: Seq<(PaneId, Rect)>,
    /// The tree or its settings changed since the last layout.
    pub dirty: bool,
    /// The area of the last layout.
    pub last_area: Option<Rect>,
    /// Whether the focused pane is drawn highlighted.
    pub highlight: bool,
    /// The id that the next allocated pane gets.
    pub next_id: u64,
    /// Cells left between panes.
    pub gap: u16,
}

/// The state of a fresh layout: one pane, focused, no layout computed.
pub open spec fn initial_model() -> StateModel {
    StateModel {
        root: Node::Pane(PaneId(0)),
        focus: Seq::empty(),
        layout: Seq::empty(),
        geometric: Seq::empty(),
        dirty: true,
        last_area: None,
        highlight: true,
        next_id: 1,
        gap: 0,
    }
}

/// The split whose border lies nearest the cell in the area of the last
/// layout, within `tolerance`: path, rectangle, direction and ratio.
pub open spec fn split_hit_at(
    m: StateModel,
    areas: SplitAreas,
    column: int,
    row: int,
    tolerance: int,
) -> Option<(Seq<usize>, Rect, Direction, SplitRatio)> {
    match m.last_area {
        Some(area) => hit_fields(
            fold_best(None, split_hits(m.root, areas, area, column, row, tolerance, Seq::empty())),
        ),
        None => None,
    }
}

/// Every pane id of `root` is below `next`, unless `next` is saturated.
pub open spec fn ids_below(root: Node, next: u64) -> bool {
    forall|i: int| 0 <= i < root.leaves().len() ==> (#[trigger] root.leaves()[i]).0 < next || next == u64::MAX
}

/// `id + 1`, saturated at the top of `u64`.
pub open spec fn next_after(id: u64) -> u64 {
    if id == u64::MAX {
        u64::MAX
    } else {
        (id + 1) as u64
    }
}

/// The pane of the tree reached by each path, with its path, if any.
pub open spec fn path_of(root: Node, id: PaneId) -> Option<Seq<usize>> {
    if exists|i: int| 0 <= i < root.leaves().len() && root.leaves()[i] == id {
        Some(root.leaf_paths()[leaf_index(root, id)])
    } else {
        None
    }
}

/// A position of `id` among the panes of `root`.
pub open spec fn leaf_index(root: Node, id: PaneId) -> int {
    choose|i: int| 0 <= i < root.leaves().len() && root.leaves()[i] == id
}

/// Mutable tree state.
#[derive(Debug, Clone)]
pub struct HypertileState {
    root: Node,
    focused_path: Vec<usize>,
    pane_paths: HashMap<u64, Vec<usize>>,
    pane_ids_preorder: Vec<PaneId>,
    layout_cache: Vec<(PaneId, Rect)>,
    sorted_panes: Vec<(PaneId, Rect)>,
    dirty: bool,
    last_area: Option<Rect>,
    highlight_focus: bool,
    next_pane_id: u64,
    gap: u16,
}

impl View for HypertileState {
    type V = StateModel;

    closed spec fn view(&self) -> StateModel {
        StateModel {
            root: self.root,
            focus: self.focused_path@,
            layout: self.layout_cache@,
            geometric: self.sorted_panes@,
            dirty: self.dirty,
            last_area: self.last_area,
            highlight: self.highlight_focus,
            next_id: self.next_pane_id,
            gap: self.gap,
        }
    }
}

/// The index maps every pane of `root` to its path, and holds nothing else.
pub open spec fn indexes_paths(root: Node, paths: Map<u64, Vec<usize>>) -> bool {
    &&& forall|k: u64|
        #![trigger paths.contains_key(k)]
        paths.contains_key(k) <==> exists|i: int|
            0 <= i < root.leaves().len() && root.leaves()[i].0 == k
    &&& forall|i: int|
        0 <= i < root.leaves().len() ==> #[trigger] paths[root.leaves()[i].0]@
            == root.leaf_paths()[i]
}

impl Default for HypertileState {
    fn default() -> (r: Self)
        ensures
            r.wf(),
            r@ == initial_model(),
    {
        Self::new()
    }
}

impl HypertileState {
    /// The state is internally consistent.
    pub closed spec fn wf(&self) -> bool {
        &&& self.root.unique_ids()
        &&& self.pane_ids_preorder@ == self.root.leaves()
        &&& indexes_paths(self.root, self.pane_paths@)
        &&& self.root.is_leaf_path(self.focused_path@)
        &&& sorted_in(PaneOrder::ById, self.layout_cache@)
        &&& sorted_in(PaneOrder::Geometric, self.sorted_panes@)
        &&& self.sorted_panes@.to_multiset() == self.layout_cache@.to_multiset()
        &&& ids_of(self.sorted_panes@).to_multiset() == ids_of(self.layout_cache@).to_multiset()
        &&& self.dirty ==> self.layout_cache@.len() == 0 && self.sorted_panes@.len() == 0
        &&& !self.dirty ==> self.last_area is Some
        &&& !self.dirty ==> ids_of(self.layout_cache@).to_multiset() == self.root.leaves().to_multiset()
        &&& !self.dirty ==> all_within(self.layout_cache@, self.last_area->0)
        &&& ids_below(self.root, self.next_pane_id)
    }

    /// A state with a single pane, focused.
    pub fn new() -> (r: Self)
        ensures
            r.wf(),
            r@ == initial_model(),
    {
        let mut pane_paths: HashMap<u64, Vec<usize>> = HashMap::new();
        pane_paths.insert(PaneId::root().get(), Vec::new());
        let mut ids: Vec<PaneId> = Vec::new();
        ids.push(PaneId::root());
        let r = HypertileState {
            root: Node::Pane(PaneId::root()),
            focused_path: Vec::new(),
            pane_paths,
            pane_ids_preorder: ids,
            layout_cache: Vec::new(),
            sorted_panes: Vec::new(),
            dirty: true,
            last_area: None,
            highlight_focus: true,
            next_pane_id: PaneId::root().get() + 1,
            gap: 0,
        };
        proof {
            assert(r.root.leaves() =~= seq![PaneId(0)]);
            assert(r.pane_ids_preorder@ =~= r.root.leaves());
            assert(r.root.leaf_paths()[0] =~= Seq::<usize>::empty());
            assert(r.root.unique_ids());
            assert(r.root.is_leaf_path(r.focused_path@));
            assert forall|k: u64| #[trigger] r.pane_paths@.contains_key(k) <==> exists|i: int|
                0 <= i < r.root.leaves().len() && r.root.leaves()[i].0 == k by {
                if k == 0 {
                    assert(r.root.leaves()[0].0 == k);
                }
            }
            assert(indexes_paths(r.root, r.pane_paths@));
            assert(r.layout_cache@.to_multiset() =~= r.sorted_panes@.to_multiset());
            assert(r@ == initial_model());
        }
        r
    }

    /// Replaces the tree and resets focus to the leftmost pane.
    pub fn set_root(&mut self, root: Node) -> (r: Result<(), StateError>)
        requires
            old(self).wf(),
        ensures
            final(self).wf(),
            r is Ok <==> root.unique_ids(),
            r matches Err(StateError::DuplicatePaneId(id)) ==> first_repeat(root.leaves(), id)
                && final(self)@ == old(self)@,
            r is Ok ==> final(self)@ == (StateModel {
                root,
                focus: root.leftmost_path(),
                layout: Seq::empty(),
                geometric: Seq::empty(),
                dirty: true,
                next_id: next_after(root.max_id()),
                ..old(self)@
            }),
    {
        match validate_unique_pane_ids(&root) {
            Err(e) => {
                return Err(e);
            },
            Ok(()) => {},
        }
        let focus = leftmost_leaf_path(&root);
        let max = max_pane_id(&root);
        proof {
            lemma_leftmost_path_leads_to_first_leaf(root);
            lemma_next_id_is_fresh(root);
        }
        self.root = root;
        self.focused_path = focus;
        self.next_pane_id = max.saturating_add(1);
        self.rebuild_pane_index();
        self.invalidate_layout_cache();
        Ok(())
    }

    /// Hands out the next pane id and moves past it (saturating).
    pub fn allocate_pane_id(&mut self) -> (r: PaneId)
        requires
            old(self).wf(),
        ensures
            final(self).wf(),
            r.0 == old(self)@.next_id,
            final(self)@ == (StateModel { next_id: next_after(old(self)@.next_id), ..old(self)@ }),
    {
        let id = PaneId::new(self.next_pane_id);
        self.next_pane_id = self.next_pane_id.saturating_add(1);
        id
    }

    pub fn root(&self) -> (r: &Node)
        ensures
            *r == self@.root,
    {
        &self.root
    }

    /// Ids of the laid-out panes, by id. Empty until a layout is computed.
    pub fn pane_ids(&self) -> (r: Vec<PaneId>)
        ensures
            r@ == ids_of(self@.layout),
    {
        let mut out: Vec<PaneId> = Vec::new();
        let n = self.layout_cache.len();
        for i in 0..n
            invariant
                n == self@.layout.len(),
                out@ == ids_of(self@.layout).take(i as int),
        {
            out.push(self.layout_cache[i].0);
            assert(ids_of(self@.layout).take(i + 1) =~= ids_of(self@.layout).take(i as int).push(
                self@.layout[i as int].0,
            ));
        }
        assert(ids_of(self@.layout).take(n as int) =~= ids_of(self@.layout));
        out
    }

    pub fn set_focus_highlight(&mut self, enabled: bool)
        requires
            old(self).wf(),
        ensures
            final(self).wf(),
            final(self)@ == (StateModel { highlight: enabled, ..old(self)@ }),
    {
        self.highlight_focus = enabled;
    }

    pub fn focus_highlight(&self) -> (r: bool)
        ensures
            r == self@.highlight,
    {
        self.highlight_focus
    }

    /// The pane that has the focus.
    pub fn focused_pane(&self) -> (r: Option<PaneId>)
        requires
            self.wf(),
        ensures
            r == pane_at_path(self@.root, self@.focus),
            r is Some,
    {
        let r = pane_at_path_from(&self.root, self.focused_path.as_slice(), 0);
        assert(self.focused_path@.skip(0) =~= self.focused_path@);
        r
    }

    /// The area of the last layout.
    pub fn last_area(&self) -> (r: Option<Rect>)
        ensures
            r == self@.last_area,
    {
        self.last_area
    }

    /// A layout for `area` would differ from the cached one.
    pub fn needs_layout(&self, area: Rect) -> (r: bool)
        ensures
            r == (self@.dirty || self@.last_area != Some(area)),
    {
        match self.last_area {
            Some(last) => self.dirty || last != area,
            None => true,
        }
    }

    /// Stores the pane rectangles computed for `area`, in id order and in
    /// geometric order. Skips if the area and tree are unchanged.
    pub fn compute_layout(&mut self, area: Rect, pane_rects: Vec<(PaneId, Rect)>)
        requires
            old(self).wf(),
            old(self)@.dirty || old(self)@.last_area != Some(area) ==> ids_of(pane_rects@).to_multiset()
                == old(self)@.root.leaves().to_multiset() && all_within(pane_rects@, area),
        ensures
            final(self).wf(),
            !old(self)@.dirty && old(self)@.last_area == Some(area) ==> final(self)@ == old(
                self,
            )@,
            old(self)@.dirty || old(self)@.last_area != Some(area) ==> {
                &&& final(self)@ == (StateModel {
                    layout: final(self)@.layout,
                    geometric: final(self)@.geometric,
                    dirty: false,
                    last_area: Some(area),
                    ..old(self)@
                })
                &&& sorted_in(PaneOrder::ById, final(self)@.layout)
                &&& final(self)@.layout.to_multiset() == pane_rects@.to_multiset()
                &&& sorted_in(PaneOrder::Geometric, final(self)@.geometric)
                &&& final(self)@.geometric.to_multiset() == pane_rects@.to_multiset()
                &&& ids_of(final(self)@.layout).to_multiset() == old(self)@.root.leaves().to_multiset()
                &&& strictly_sorted_in(PaneOrder::ById, final(self)@.layout)
                &&& strictly_sorted_in(PaneOrder::Geometric, final(self)@.geometric)
            },
            all_within(final(self)@.layout, area),
            all_within(final(self)@.geometric, area),
            layout_step(old(self)@, area, pane_rects@, final(self)@),
    {
        if !self.needs_layout(area) {
            proof {
                lemma_within_by_multiset(self.sorted_panes@, self.layout_cache@, area);
            }
            return;
        }
        let by_id = sort_panes(&pane_rects, PaneOrder::ById);
        let geometric = sort_panes(&by_id, PaneOrder::Geometric);
        proof {
            lemma_no_duplicates_by_multiset(ids_of(by_id@), self.root.leaves());
            lemma_no_duplicates_by_multiset(ids_of(geometric@), ids_of(by_id@));
            lemma_distinct_sorted_is_strict(PaneOrder::ById, by_id@);
            lemma_distinct_sorted_is_strict(PaneOrder::Geometric, geometric@);
            lemma_within_by_multiset(by_id@, pane_rects@, area);
            lemma_within_by_multiset(geometric@, by_id@, area);
        }
        self.layout_cache = by_id;
        self.sorted_panes = geometric;
        self.last_area = Some(area);
        self.dirty = false;
    }

    /// Marks the layout stale and empties the cached rectangles.
    fn invalidate_layout_cache(&mut self)
        requires
            old(self).root.unique_ids(),
            old(self).pane_ids_preorder@ == old(self).root.leaves(),
            indexes_paths(old(self).root, old(self).pane_paths@),
            old(self).root.is_leaf_path(old(self).focused_path@),
            ids_below(old(self).root, old(self).next_pane_id),
        ensures
            final(self).wf(),
            final(self)@ == (StateModel {
                dirty: true,
                layout: Seq::empty(),
                geometric: Seq::empty(),
                ..old(self)@
            }),
    {
        self.dirty = true;
        self.layout_cache.clear();
        self.sorted_panes.clear();
        proof {
            assert(self.layout_cache@.to_multiset() =~= self.sorted_panes@.to_multiset());
            assert(ids_of(self.layout_cache@) =~= ids_of(self.sorted_panes@));
        }
    }

    /// The rectangle of a laid-out pane.
    pub fn pane_rect(&self, id: PaneId) -> (r: Option<Rect>)
        requires
            self.wf(),
        ensures
            r is Some <==> ids_of(self@.layout).contains(id),
            forall|rect: Rect| r == Some(rect) <==> #[trigger] self@.layout.contains((id, rect)),
    {
        let r = find_by_id(self.layout_cache.as_slice(), id);
        proof {
            self.lemma_layout_ids_distinct();
            assert forall|rect: Rect| r == Some(rect) <==> #[trigger] self@.layout.contains((id, rect)) by {
                if self@.layout.contains((id, rect)) && r is Some {
                    let a = choose|a: int| 0 <= a < self@.layout.len() && self@.layout[a] == (id, rect);
                    let b = choose|b: int| 0 <= b < self@.layout.len() && self@.layout[b] == (id, r->0);
                    if a != b {
                        assert(ids_of(self@.layout)[a] == ids_of(self@.layout)[b]);
                        if a < b {
                            assert(ids_of(self@.layout)[a] != ids_of(self@.layout)[b]);
                        } else {
                            assert(ids_of(self@.layout)[b] != ids_of(self@.layout)[a]);
                        }
                    }
                }
            }
            if r is Some {
                let i = choose|i: int| 0 <= i < self@.layout.len() && (#[trigger] self@.layout[i]).0 == id;
                assert(ids_of(self@.layout)[i] == id);
            }
            if ids_of(self@.layout).contains(id) {
                let i = choose|i: int| 0 <= i < ids_of(self@.layout).len() && ids_of(self@.layout)[i] == id;
                assert(self@.layout[i].0 == id);
            }
        }
        r
    }

    /// The first laid-out pane, by id, whose rectangle holds the cell.
    pub fn pane_at(&self, column: u16, row: u16) -> (r: Option<PaneId>)
        ensures
            r == first_hit(self@.layout, column as int, row as int),
    {
        find_hit(self.layout_cache.as_slice(), column, row)
    }

    /// The split whose border lies nearest the cell, within `tolerance`,
    /// in the area of the last layout; `areas` holds what dividing that
    /// area gives each split. At equal distance the deeper split wins,
    /// and at equal depth the first in preorder.
    pub fn split_at(&self, column: u16, row: u16, tolerance: u16, areas: &SplitAreas) -> (r: Option<
        SplitSnapshot,
    >)
        requires
            areas_fit(self@.root, *areas),
        ensures
            snapshot_fields(r) == split_hit_at(self@, *areas, column as int, row as int, tolerance as int),
    {
        let area = match self.last_area {
            Some(a) => a,
            None => {
                return None;
            },
        };
        let mut path: Vec<usize> = Vec::new();
        let mut best: Option<SplitHitCandidate> = None;
        find_split_at(&self.root, areas, area, column, row, tolerance, &mut path, &mut best);
        match best {
            Some(candidate) => Some(candidate.split),
            None => None,
        }
    }

    /// Laid-out panes with their rectangles, by id.
    pub fn panes(&self) -> (r: &[(PaneId, Rect)])
        ensures
            r@ == self@.layout,
    {
        self.layout_cache.as_slice()
    }

    /// Laid-out panes sorted top to bottom, left to right.
    pub fn panes_geometric_order(&self) -> (r: &[(PaneId, Rect)])
        ensures
            r@ == self@.geometric,
    {
        self.sorted_panes.as_slice()
    }

    /// The path of a pane: `0` means first child, `1` means second.
    pub fn pane_path(&self, pane_id: PaneId) -> (r: Option<Vec<usize>>)
        requires
            self.wf(),
        ensures
            r matches Some(p) ==> path_of(self@.root, pane_id) == Some(p@),
            r is None ==> path_of(self@.root, pane_id) is None,
    {
        match self.pane_paths.get(&pane_id.0) {
            Some(p) => {
                let c = p.clone();
                proof {
                    self.lemma_path_lookup(pane_id);
                    assert(c@ =~= p@);
                }
                Some(c)
            },
            None => {
                proof {
                    self.lemma_path_lookup(pane_id);
                }
                None
            },
        }
    }

    /// Every node of the tree with its path, in preorder (a split before
    /// its first child, the first child's nodes before the second's).
    pub fn walk_preorder(&self) -> (r: Vec<(Vec<usize>, &Node)>)
        ensures
            r@.len() == self@.root.preorder().len(),
            forall|i: int|
                0 <= i < r@.len() ==> (#[trigger] r@[i]).0@ == self@.root.preorder()[i].0 && *r@[i].1
                    == self@.root.preorder()[i].1,
    {
        let mut out: Vec<(Vec<usize>, &Node)> = Vec::new();
        let mut path: Vec<usize> = Vec::new();
        preorder_walk(&self.root, &mut path, &mut out);
        proof {
            assert forall|i: int| 0 <= i < out@.len() implies (#[trigger] out@[i]).0@ == self@.root.preorder()[i].0 && *out@[i].1
                == self@.root.preorder()[i].1 by {
                assert(Seq::<usize>::empty() + self.root.preorder()[i].0 =~= self.root.preorder()[i].0);
                assert(out@[0 + i] == out@[i]);
            }
        }
        out
    }

    pub fn gap(&self) -> (r: u16)
        ensures
            r == self@.gap,
    {
        self.gap
    }

    /// Sets the gap; invalidates the layout cache if the value changed.
    pub fn set_gap(&mut self, gap: u16)
        requires
            old(self).wf(),
        ensures
            final(self).wf(),
            gap == old(self)@.gap ==> final(self)@ == old(self)@,
            gap != old(self)@.gap ==> final(self)@ == (StateModel {
                gap,
                dirty: true,
                layout: Seq::empty(),
                geometric: Seq::empty(),
                ..old(self)@
            }),
    {
        if self.gap != gap {
            self.gap = gap;
            self.invalidate_layout_cache();
        }
    }

    /// Back to a fresh single-pane state.
    pub fn reset(&mut self)
        ensures
            final(self).wf(),
            final(self)@ == initial_model(),
    {
        *self = Self::new();
    }

    /// The cached path of a pane.
    pub(crate) fn pane_path_cached(&self, pane_id: PaneId) -> (r: Option<&[usize]>)
        requires
            self.wf(),
        ensures
            r matches Some(p) ==> path_of(self@.root, pane_id) == Some(p@),
            r is None ==> path_of(self@.root, pane_id) is None,
    {
        proof {
            self.lemma_path_lookup(pane_id);
        }
        match self.pane_paths.get(&pane_id.0) {
            Some(p) => Some(p.as_slice()),
            None => None,
        }
    }

    /// Moves the focus to a pane; reports whether the focus changed.
    pub fn focus_path_for(&mut self, pane_id: PaneId) -> (r: bool)
        requires
            old(self).wf(),
        ensures
            final(self).wf(),
            r == (path_of(old(self)@.root, pane_id) matches Some(p) && p != old(self)@.focus),
            r ==> final(self)@ == (StateModel {
                focus: path_of(old(self)@.root, pane_id)->0,
                ..old(self)@
            }),
            !r ==> final(self)@ == old(self)@,
    {
        proof {
            self.lemma_path_lookup(pane_id);
        }
        let path = match self.pane_paths.get(&pane_id.0) {
            Some(p) => p.clone(),
            None => {
                return false;
            },
        };
        assert(path@ == path_of(self@.root, pane_id)->0);
        if vec_eq(&path, &self.focused_path) {
            return false;
        }
        proof {
            let i = choose|i: int| 0 <= i < self.root.leaves().len() && self.root.leaves()[i] == pane_id;
            lemma_leaf_path_leads_to_leaf(self.root, i);
        }
        self.focused_path = path;
        true
    }

    /// No pane is laid out twice.
    proof fn lemma_layout_ids_distinct(&self)
        requires
            self.wf(),
        ensures
            no_duplicates(ids_of(self.layout_cache@)),
            no_duplicates(ids_of(self.sorted_panes@)),
    {
        if !self.dirty {
            lemma_no_duplicates_by_multiset(ids_of(self.layout_cache@), self.root.leaves());
        }
        lemma_no_duplicates_by_multiset(ids_of(self.sorted_panes@), ids_of(self.layout_cache@));
    }

    /// What the path index says of one pane.
    proof fn lemma_path_lookup(&self, pane_id: PaneId)
        requires
            self.wf(),
        ensures
            self.pane_paths@.contains_key(pane_id.0) <==> path_of(self.root, pane_id) is Some,
            self.pane_paths@.contains_key(pane_id.0) ==> path_of(self.root, pane_id) == Some(
                self.pane_paths@[pane_id.0]@,
            ),
    {
        if self.pane_paths@.contains_key(pane_id.0) {
            let i = choose|i: int| 0 <= i < self.root.leaves().len() && self.root.leaves()[i].0 == pane_id.0;
            assert(self.root.leaves()[i] == pane_id);
            let j = choose|j: int| 0 <= j < self.root.leaves().len() && self.root.leaves()[j] == pane_id;
            assert(i == j) by {
                if i != j {
                    assert(self.root.leaves()[i] == self.root.leaves()[j]);
                }
            }
            assert(self.pane_paths@[self.root.leaves()[i].0]@ == self.root.leaf_paths()[i]);
        } else {
            if exists|i: int| 0 <= i < self.root.leaves().len() && self.root.leaves()[i] == pane_id {
                let i = choose|i: int| 0 <= i < self.root.leaves().len() && self.root.leaves()[i] == pane_id;
                assert(self.pane_paths@.contains_key(self.root.leaves()[i].0));
            }
        }
    }

    /// Rebuilds the path index and the preorder id list from the tree.
    fn rebuild_pane_index(&mut self)
        requires
            old(self).root.unique_ids(),
        ensures
            final(self).root == old(self).root,
            final(self).focused_path == old(self).focused_path,
            final(self).layout_cache == old(self).layout_cache,
            final(self).sorted_panes == old(self).sorted_panes,
            final(self).dirty == old(self).dirty,
            final(self).last_area == old(self).last_area,
            final(self).highlight_focus == old(self).highlight_focus,
            final(self).next_pane_id == old(self).next_pane_id,
            final(self).gap == old(self).gap,
            final(self).pane_ids_preorder@ == final(self).root.leaves(),
            indexes_paths(final(self).root, final(self).pane_paths@),
    {
        self.pane_paths.clear();
        self.pane_ids_preorder.clear();
        let mut path: Vec<usize> = Vec::new();
        index_walk(&self.root, &mut path, &mut self.pane_paths, &mut self.pane_ids_preorder);
        proof {
            assert(self.pane_ids_preorder@ =~= self.root.leaves());
            assert forall|i: int| 0 <= i < self.root.leaves().len() implies #[trigger] self.pane_paths@[self.root.leaves()[i].0]@
                == self.root.leaf_paths()[i] by {
                assert(Seq::<usize>::empty() + self.root.leaf_paths()[i] =~= self.root.leaf_paths()[i]);
            }
        }
    }
}

/// What every state keeps: pane ids are unique, the focus is on a pane,
/// a current layout lists every pane of the tree once, in strictly
/// ascending id order, the geometric list holds the same entries strictly
/// top to bottom and left to right, a stale layout holds nothing, and the
/// next id is above every pane id unless it is saturated.
pub proof fn lemma_state_invariant(s: &HypertileState)
    requires
        s.wf(),
    ensures
        s@.root.unique_ids(),
        s@.root.is_leaf_path(s@.focus),
        sorted_in(PaneOrder::ById, s@.layout),
        sorted_in(PaneOrder::Geometric, s@.geometric),
        s@.geometric.to_multiset() == s@.layout.to_multiset(),
        s@.dirty ==> s@.layout.len() == 0 && s@.geometric.len() == 0,
        !s@.dirty ==> s@.last_area is Some,
        !s@.dirty ==> ids_of(s@.layout).to_multiset() == s@.root.leaves().to_multiset(),
        no_duplicates(ids_of(s@.layout)),
        strictly_sorted_in(PaneOrder::ById, s@.layout),
        strictly_sorted_in(PaneOrder::Geometric, s@.geometric),
        ids_below(s@.root, s@.next_id),
{
    s.lemma_layout_ids_distinct();
    lemma_distinct_sorted_is_strict(PaneOrder::ById, s@.layout);
    lemma_distinct_sorted_is_strict(PaneOrder::Geometric, s@.geometric);
}

/// What `compute_layout(area, rects)` makes of a state: nothing changes
/// when the layout is current for `area`; otherwise the rectangles become
/// the layout, in id order and in geometric order, for `area`.
pub open spec fn layout_step(m: StateModel, area: Rect, rects: Seq<(PaneId, Rect)>, after: StateModel) -> bool {
    if !m.dirty && m.last_area == Some(area) {
        after == m
    } else {
        &&& after == (StateModel {
            layout: after.layout,
            geometric: after.geometric,
            dirty: false,
            last_area: Some(area),
            ..m
        })
        &&& sorted_in(PaneOrder::ById, after.layout)
        &&& sorted_in(PaneOrder::Geometric, after.geometric)
        &&& after.layout.to_multiset() == rects.to_multiset()
        &&& after.geometric.to_multiset() == rects.to_multiset()
    }
}

/// The layout a state holds, if any, is made of the rectangles that `f`
/// gives for its tree, the area it was laid out in and its gap.
pub open spec fn laid_out_by(m: StateModel, f: spec_fn(Node, Rect, u16) -> Seq<(PaneId, Rect)>) -> bool {
    !m.dirty ==> m.layout.to_multiset() == f(m.root, m.last_area->0, m.gap).to_multiset()
}

/// Laying out with the rectangles that `f` gives for the tree, the area
/// and the gap keeps the layout made by `f`; the skip for an unchanged
/// area never keeps a layout made for another area, tree or gap.
pub proof fn lemma_layout_step_follows(
    m: StateModel,
    area: Rect,
    f: spec_fn(Node, Rect, u16) -> Seq<(PaneId, Rect)>,
    after: StateModel,
)
    requires
        laid_out_by(m, f),
        layout_step(m, area, f(m.root, area, m.gap), after),
    ensures
        laid_out_by(after, f),
        !after.dirty,
        after.last_area == Some(area),
        after.layout.to_multiset() == f(m.root, area, m.gap).to_multiset(),
{
}

/// A layout is a function of the tree, the area and the gap: two states
/// with the same tree and gap, each holding a layout made by `f` (or
/// none), hold the same lists once both are laid out in `area` with the
/// rectangles `f` gives, in id order and in geometric order.
pub proof fn lemma_layout_follows_tree_area_gap(
    s: &HypertileState,
    t: &HypertileState,
    s2: &HypertileState,
    t2: &HypertileState,
    area: Rect,
    f: spec_fn(Node, Rect, u16) -> Seq<(PaneId, Rect)>,
)
    requires
        s.wf(),
        t.wf(),
        s2.wf(),
        t2.wf(),
        s@.root == t@.root,
        s@.gap == t@.gap,
        laid_out_by(s@, f),
        laid_out_by(t@, f),
        layout_step(s@, area, f(s@.root, area, s@.gap), s2@),
        layout_step(t@, area, f(t@.root, area, t@.gap), t2@),
    ensures
        s2@.layout == t2@.layout,
        s2@.geometric == t2@.geometric,
{
    lemma_layout_step_follows(s@, area, f, s2@);
    lemma_layout_step_follows(t@, area, f, t2@);
    lemma_layout_is_determined(s2, t2);
}

/// Laying out twice in the same area changes nothing the second time,
/// whatever rectangles are handed in.
pub proof fn lemma_second_layout_changes_nothing(
    m: StateModel,
    area: Rect,
    rects: Seq<(PaneId, Rect)>,
    after: StateModel,
    rects2: Seq<(PaneId, Rect)>,
    after2: StateModel,
)
    requires
        layout_step(m, area, rects, after),
        layout_step(after, area, rects2, after2),
    ensures
        after2 == after,
{
}

/// The two orders of a held layout, stated by the rectangles' corners:
/// by id, each pane's id is below every later one's; geometrically, a pane
/// comes before every pane whose top edge is lower, and among panes whose
/// top edges are level, before every pane further right, and at the same
/// corner before every pane of a larger id.
pub proof fn lemma_layout_orders_by_corner(s: &HypertileState)
    requires
        s.wf(),
    ensures
        forall|i: int, j: int|
            0 <= i < j < s@.layout.len() ==> (#[trigger] s@.layout[i]).0.0 < (#[trigger] s@.layout[j]).0.0,
        forall|i: int, j: int|
            0 <= i < j < s@.geometric.len() ==> {
                let a = #[trigger] s@.geometric[i];
                let b = #[trigger] s@.geometric[j];
                ||| a.1.y < b.1.y
                ||| (a.1.y == b.1.y && a.1.x < b.1.x)
                ||| (a.1.y == b.1.y && a.1.x == b.1.x && a.0.0 < b.0.0)
            },
{
    s.lemma_layout_ids_distinct();
    assert forall|i: int, j: int| 0 <= i < j < s@.geometric.len() implies {
        let a = #[trigger] s@.geometric[i];
        let b = #[trigger] s@.geometric[j];
        ||| a.1.y < b.1.y
        ||| (a.1.y == b.1.y && a.1.x < b.1.x)
        ||| (a.1.y == b.1.y && a.1.x == b.1.x && a.0.0 < b.0.0)
    } by {
        assert(pane_le(PaneOrder::Geometric, s@.geometric[i], s@.geometric[j]));
        assert(ids_of(s@.geometric)[i] != ids_of(s@.geometric)[j]);
    }
    assert forall|i: int, j: int| 0 <= i < j < s@.layout.len() implies (#[trigger] s@.layout[i]).0.0
        < (#[trigger] s@.layout[j]).0.0 by {
        assert(pane_le(PaneOrder::ById, s@.layout[i], s@.layout[j]));
        assert(ids_of(s@.layout)[i] != ids_of(s@.layout)[j]);
    }
}

/// A split's border is the edge its two children's areas share: for a
/// split of two panes whose areas meet (the first ends where the second
/// begins, left to right for a horizontal split, top to bottom for a
/// vertical one), a cell of the split's area is on the border exactly
/// when it is within `tolerance` cells of the second child's first column
/// or row, and then the split is found, with its area, direction and
/// share; a cell on that shared edge is always found.
pub proof fn lemma_border_is_shared_edge(
    m: StateModel,
    areas: SplitAreas,
    area: Rect,
    direction: Direction,
    ratio: SplitRatio,
    a: PaneId,
    b: PaneId,
    first_area: Rect,
    second_area: Rect,
    column: int,
    row: int,
    tolerance: int,
)
    requires
        m.root == (Node::Split { direction, ratio, first: Box::new(Node::Pane(a)), second: Box::new(Node::Pane(b)) }),
        areas == (SplitAreas::Split {
            first_area,
            second_area,
            first: Box::new(SplitAreas::Pane),
            second: Box::new(SplitAreas::Pane),
        }),
        m.last_area == Some(area),
        area.spec_contains(column, row),
        tolerance >= 0,
        direction == Direction::Horizontal ==> first_area.spec_right() == second_area.x,
        direction == Direction::Vertical ==> first_area.spec_bottom() == second_area.y,
    ensures
        ({
            let edge_distance = match direction {
                Direction::Horizontal => abs_diff(column, second_area.x as int),
                Direction::Vertical => abs_diff(row, second_area.y as int),
            };
            &&& edge_distance <= tolerance ==> split_hit_at(m, areas, column, row, tolerance) == Some(
                (Seq::<usize>::empty(), area, direction, ratio),
            )
            &&& edge_distance > tolerance ==> split_hit_at(m, areas, column, row, tolerance) is None
            &&& (direction == Direction::Horizontal && column == second_area.x) || (direction
                == Direction::Vertical && row == second_area.y) ==> split_hit_at(m, areas, column, row, tolerance)
                is Some
        }),
{
    let hits = split_hits(m.root, areas, area, column, row, tolerance, Seq::empty());
    let h1 = split_hits(Node::Pane(a), SplitAreas::Pane, first_area, column, row, tolerance, seq![0usize]);
    let h2 = split_hits(Node::Pane(b), SplitAreas::Pane, second_area, column, row, tolerance, seq![1usize]);
    assert(Seq::<usize>::empty().push(0) =~= seq![0usize]);
    assert(Seq::<usize>::empty().push(1) =~= seq![1usize]);
    assert(h1 =~= Seq::<SplitHit>::empty());
    assert(h2 =~= Seq::<SplitHit>::empty());
    let d = border_distance(area, direction, first_area, column, row);
    if d->0 <= tolerance {
        let own = seq![
            SplitHit {
                path: Seq::empty(),
                rect: area,
                direction,
                ratio,
                distance: d->0,
                depth: 0,
            },
        ];
        assert(hits =~= own);
        assert(own.drop_first() =~= Seq::<SplitHit>::empty());
        assert(fold_best(None, own) == fold_best(Some(own[0]), own.drop_first()));
    } else {
        assert(hits =~= Seq::<SplitHit>::empty());
    }
}

/// An id handed out by `allocate_pane_id` is above every pane id of the
/// tree, unless ids are saturated.
pub proof fn lemma_allocated_id_is_fresh(s: &HypertileState)
    requires
        s.wf(),
    ensures
        s@.next_id < u64::MAX ==> forall|i: int|
            0 <= i < s@.root.leaves().len() ==> (#[trigger] s@.root.leaves()[i]).0 < s@.next_id,
{
}

/// A layout is determined by the rectangles it was computed from: two
/// states holding the same laid-out entries list them in the same orders.
pub proof fn lemma_layout_is_determined(s: &HypertileState, t: &HypertileState)
    requires
        s.wf(),
        t.wf(),
        s@.layout.to_multiset() == t@.layout.to_multiset(),
    ensures
        s@.layout == t@.layout,
        s@.geometric == t@.geometric,
{
    s.lemma_layout_ids_distinct();
    t.lemma_layout_ids_distinct();
    lemma_sorted_distinct_unique(PaneOrder::ById, s@.layout, t@.layout);
    lemma_sorted_distinct_unique(PaneOrder::Geometric, s@.geometric, t@.geometric);
}

/// The path recorded for a pane leads to that pane, and a path is recorded
/// exactly for the panes of the tree.
pub proof fn lemma_path_of_leads_to_pane(root: Node, id: PaneId)
    ensures
        path_of(root, id) is Some <==> root.leaves().contains(id),
        path_of(root, id) matches Some(p) ==> root.subtree_at(p) == Some(Node::Pane(id)),
{
    if path_of(root, id) is Some {
        let i = leaf_index(root, id);
        lemma_leaf_path_leads_to_leaf(root, i);
    }
    if root.leaves().contains(id) {
        let i = choose|i: int| 0 <= i < root.leaves().len() && root.leaves()[i] == id;
        assert(root.leaves()[i] == id);
    }
}

/// After a new tree is set, the next allocated id is above every pane id
/// of the tree, unless the tree already uses the largest id.
pub proof fn lemma_next_id_is_fresh(root: Node)
    ensures
        root.max_id() < u64::MAX ==> forall|i: int|
            0 <= i < root.leaves().len() ==> (#[trigger] root.leaves()[i]).0 < next_after(root.max_id()),
{
    assert forall|i: int| 0 <= i < root.leaves().len() implies (#[trigger] root.leaves()[i]).0 <= root.max_id() by {
        lemma_max_id_bounds_leaves(root, i);
    }
}

/// The split found under the cursor is a split of the tree: its path leads
/// to a split with the reported direction and ratio.
pub proof fn lemma_split_hit_names_a_split(m: StateModel, areas: SplitAreas, column: int, row: int, tolerance: int)
    ensures
        split_hit_at(m, areas, column, row, tolerance) matches Some(h) ==> m.root.subtree_at(h.0) matches Some(
            Node::Split { direction, ratio, .. },
        ) && direction == h.2 && ratio == h.3,
{
    if let Some(area) = m.last_area {
        let hits = split_hits(m.root, areas, area, column, row, tolerance, Seq::empty());
        lemma_best_hit(hits);
        lemma_hits_name_splits(m.root, areas, area, column, row, tolerance, Seq::empty());
        if fold_best(None, hits) is Some {
            let b = fold_best(None, hits)->0;
            let i = choose|i: int|
                0 <= i < hits.len() && hits[i] == b && (forall|j: int| 0 <= j < hits.len() ==> !better_hit(#[trigger] hits[j], b))
                    && (forall|j: int| 0 <= j < i ==> better_hit(b, #[trigger] hits[j]));
            assert(hits[i].path.skip(0) =~= hits[i].path);
        }
    }
}

/// Compares two paths.
fn vec_eq(a: &Vec<usize>, b: &Vec<usize>) -> (r: bool)
    ensures
        r == (a@ == b@),
{
    if a.len() != b.len() {
        return false;
    }
    let n = a.len();
    for i in 0..n
        invariant
            n == a@.len() == b@.len(),
            forall|k: int| 0 <= k < i ==> a@[k] == b@[k],
    {
        if a[i] != b[i] {
            return false;
        }
    }
    assert(a@ =~= b@);
    true
}

/// Records the path of every pane below `node`, whose own path is `path`.
fn index_walk(
    node: &Node,
    path: &mut Vec<usize>,
    paths: &mut HashMap<u64, Vec<usize>>,
    ids: &mut Vec<PaneId>,
)
    requires
        node.unique_ids(),
        forall|i: int| 0 <= i < node.leaves().len() ==> !old(paths)@.contains_key(#[trigger] node.leaves()[i].0),
    ensures
        final(path)@ == old(path)@,
        final(ids)@ == old(ids)@ + node.leaves(),
        forall|k: u64|
            #![trigger final(paths)@.contains_key(k)]
            final(paths)@.contains_key(k) <==> (old(paths)@.contains_key(k) || exists|i: int|
                0 <= i < node.leaves().len() && node.leaves()[i].0 == k),
        forall|k: u64| #[trigger] old(paths)@.contains_key(k) ==> final(paths)@[k] == old(paths)@[k],
        forall|i: int|
            0 <= i < node.leaves().len() ==> #[trigger] final(paths)@[node.leaves()[i].0]@ == old(path)@
                + node.leaf_paths()[i],
    decreases node,
{
    proof {
        lemma_leaf_paths_len(*node);
    }
    match node {
        Node::Pane(id) => {
            let p = path.clone();
            assert(p@ =~= path@);
            paths.insert(id.0, p);
            ids.push(*id);
            proof {
                assert(old(ids)@ + node.leaves() =~= old(ids)@.push(*id));
                assert(node.leaf_paths()[0] =~= Seq::<usize>::empty());
                assert(old(path)@ + node.leaf_paths()[0] =~= old(path)@);
                assert(node.leaves()[0] == *id);
            }
        },
        Node::Split { first, second, .. } => {
            let ghost n1 = first.leaves().len();
            let ghost p0 = paths@;
            proof {
                lemma_leaf_paths_len(**first);
                lemma_leaf_paths_len(**second);
                assert forall|a: int, b: int| 0 <= a < b < first.leaves().len() implies #[trigger] first.leaves()[a]
                    != #[trigger] first.leaves()[b] by {
                    assert(node.leaves()[a] == first.leaves()[a]);
                    assert(node.leaves()[b] == first.leaves()[b]);
                }
                assert forall|i: int| 0 <= i < first.leaves().len() implies !old(paths)@.contains_key(
                    #[trigger] first.leaves()[i].0,
                ) by {
                    assert(node.leaves()[i] == first.leaves()[i]);
                }
            }
            path.push(0);
            index_walk(first, path, paths, ids);
            path.pop();
            let ghost p1 = paths@;
            proof {
                assert forall|a: int, b: int| 0 <= a < b < second.leaves().len() implies #[trigger] second.leaves()[a]
                    != #[trigger] second.leaves()[b] by {
                    assert(node.leaves()[n1 + a] == second.leaves()[a]);
                    assert(node.leaves()[n1 + b] == second.leaves()[b]);
                }
                assert forall|i: int| 0 <= i < second.leaves().len() implies !p1.contains_key(
                    #[trigger] second.leaves()[i].0,
                ) by {
                    assert(node.leaves()[n1 + i] == second.leaves()[i]);
                    assert(!old(paths)@.contains_key(node.leaves()[n1 + i].0));
                    if exists|j: int| 0 <= j < first.leaves().len() && first.leaves()[j].0 == second.leaves()[i].0 {
                        let j = choose|j: int| 0 <= j < first.leaves().len() && first.leaves()[j].0 == second.leaves()[i].0;
                        assert(node.leaves()[j] == first.leaves()[j]);
                        assert(node.leaves()[j] == node.leaves()[n1 + i]);
                    }
                }
            }
            path.push(1);
            index_walk(second, path, paths, ids);
            path.pop();
            proof {
                assert(path@ =~= old(path)@);
                assert(old(ids)@ + node.leaves() =~= old(ids)@ + first.leaves() + second.leaves());
                assert forall|k: u64| #[trigger] paths@.contains_key(k) <==> (old(paths)@.contains_key(k) || exists|i: int|
                    0 <= i < node.leaves().len() && node.leaves()[i].0 == k) by {
                    if exists|i: int| 0 <= i < node.leaves().len() && node.leaves()[i].0 == k {
                        let i = choose|i: int| 0 <= i < node.leaves().len() && node.leaves()[i].0 == k;
                        if i < n1 {
                            assert(first.leaves()[i] == node.leaves()[i]);
                            assert(p1.contains_key(k));
                        } else {
                            assert(second.leaves()[i - n1] == node.leaves()[i]);
                        }
                    }
                    if p1.contains_key(k) && !old(paths)@.contains_key(k) {
                        let j = choose|j: int| 0 <= j < first.leaves().len() && first.leaves()[j].0 == k;
                        assert(node.leaves()[j] == first.leaves()[j]);
                    }
                    if paths@.contains_key(k) && !p1.contains_key(k) {
                        let j = choose|j: int| 0 <= j < second.leaves().len() && second.leaves()[j].0 == k;
                        assert(node.leaves()[n1 + j] == second.leaves()[j]);
                    }
                }
                assert forall|k: u64| #[trigger] old(paths)@.contains_key(k) implies paths@[k] == old(paths)@[k] by {
                    assert(p1.contains_key(k));
                }
                assert forall|i: int| 0 <= i < node.leaves().len() implies #[trigger] paths@[node.leaves()[i].0]@
                    == old(path)@ + node.leaf_paths()[i] by {
                    if i < n1 {
                        assert(node.leaves()[i] == first.leaves()[i]);
                        assert(p1[first.leaves()[i].0]@ == old(path)@.push(0) + first.leaf_paths()[i]);
                        assert(p1.contains_key(first.leaves()[i].0));
                        assert(node.leaf_paths()[i] == seq![0usize] + first.leaf_paths()[i]);
                        assert(old(path)@.push(0) + first.leaf_paths()[i] =~= old(path)@ + node.leaf_paths()[i]);
                    } else {
                        assert(node.leaves()[i] == second.leaves()[i - n1]);
                        assert(node.leaf_paths()[i] == seq![1usize] + second.leaf_paths()[i - n1]);
                        assert(old(path)@.push(1) + second.leaf_paths()[i - n1] =~= old(path)@ + node.leaf_paths()[i]);
                    }
                }
            }
        },
    }
}

/// Appends every node below `node` (whose own path is `path`) in preorder.
fn preorder_walk<'a>(node: &'a Node, path: &mut Vec<usize>, out: &mut Vec<(Vec<usize>, &'a Node)>)
    ensures
        final(path)@ == old(path)@,
        final(out)@.len() == old(out)@.len() + node.preorder().len(),
        forall|i: int| 0 <= i < old(out)@.len() ==> #[trigger] final(out)@[i] == old(out)@[i],
        forall|i: int|
            0 <= i < node.preorder().len() ==> (#[trigger] final(out)@[old(out)@.len() + i]).0@
                == old(path)@ + node.preorder()[i].0 && *final(out)@[old(out)@.len() + i].1
                == node.preorder()[i].1,
    decreases node,
{
    let here = path.clone();
    assert(here@ =~= path@);
    out.push((here, node));
    let ghost o1 = out@;
    match node {
        Node::Pane(_) => {
            proof {
                assert(old(path)@ + node.preorder()[0].0 =~= old(path)@);
            }
        },
        Node::Split { first, second, .. } => {
            path.push(0);
            preorder_walk(first, path, out);
            path.pop();
            let ghost o2 = out@;
            path.push(1);
            preorder_walk(second, path, out);
            path.pop();
            proof {
                assert(path@ =~= old(path)@);
                let n0 = old(out)@.len();
                let f = first.preorder();
                let g = second.preorder();
                let pre = node.preorder();
                assert(pre == seq![(Seq::<usize>::empty(), *node)] + prefix_nodes(0, f) + prefix_nodes(1, g));
                assert(pre.len() == 1 + f.len() + g.len());
                assert forall|i: int| 0 <= i < pre.len() implies (#[trigger] out@[n0 + i]).0@
                    == old(path)@ + pre[i].0 && *out@[n0 + i].1 == pre[i].1 by {
                    if i == 0 {
                        assert(old(path)@ + pre[0].0 =~= old(path)@);
                    } else if i < 1 + f.len() {
                        assert(pre[i] == prefix_nodes(0, f)[i - 1]);
                        assert(pre[i] == (seq![0usize] + f[i - 1].0, f[i - 1].1));
                        assert(out@[n0 + i] == o2[n0 + i]);
                        assert(o1.len() == n0 + 1);
                        assert(o2[o1.len() + (i - 1)].0@ == old(path)@.push(0) + f[i - 1].0);
                        assert(old(path)@.push(0) + f[i - 1].0 =~= old(path)@ + pre[i].0);
                    } else {
                        let k = i - 1 - f.len();
                        assert(pre[i] == prefix_nodes(1, g)[k]);
                        assert(pre[i] == (seq![1usize] + g[k].0, g[k].1));
                        assert(o2.len() == n0 + 1 + f.len());
                        assert(out@[o2.len() + k].0@ == old(path)@.push(1) + g[k].0);
                        assert(old(path)@.push(1) + g[k].0 =~= old(path)@ + pre[i].0);
                    }
                }
            }
        },
    }
}

} // verus!
