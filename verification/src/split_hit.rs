//! Finding the split border under the mouse.

use vstd::prelude::*;
use crate::geometry::{abs_diff, axis_distance, rect_contains, sat_add, Direction, Rect};
use crate::tree::{lemma_subtree_step, Node, SplitRatio, SplitSnapshot};

verus! {

/// For every split of a tree, the areas that dividing its area gives the
/// two children. Computing them is left to the caller (it needs floating point); the search
/// below takes them as they come.
#[derive(Debug)]
pub enum SplitAreas {
    Pane,
    Split { first_area: Rect, second_area: Rect, first: Box<SplitAreas>, second: Box<SplitAreas> },
}

/// `areas` has the shape of `node`.
pub open spec fn areas_fit(node: Node, areas: SplitAreas) -> bool
    decreases node,
{
    match node {
        Node::Pane(_) => areas is Pane,
        Node::Split { first, second, .. } => match areas {
            SplitAreas::Split { first: fa, second: sa, .. } => areas_fit(*first, *fa) && areas_fit(
                *second,
                *sa,
            ),
            SplitAreas::Pane => false,
        },
    }
}

/// How far the cell is from the border between the two children, along
/// the split axis, if the cell lies in the split's area.
pub open spec fn border_distance(
    area: Rect,
    direction: Direction,
    first_area: Rect,
    column: int,
    row: int,
) -> Option<int> {
    if !area.spec_contains(column, row) {
        None
    } else {
        match direction {
            Direction::Horizontal => Some(abs_diff(column, first_area.spec_right())),
            Direction::Vertical => Some(abs_diff(row, first_area.spec_bottom())),
        }
    }
}

/// A split border near the cell.
pub struct SplitHit {
    pub path: Seq<usize>,
    pub rect: Rect,
    pub direction: Direction,
    pub ratio: SplitRatio,
    pub distance: int,
    pub depth: int,
}

/// Every split whose border lies within `tolerance` of the cell, in
/// preorder; `prefix` is the path of `node`.
pub open spec fn split_hits(
    node: Node,
    areas: SplitAreas,
    area: Rect,
    column: int,
    row: int,
    tolerance: int,
    prefix: Seq<usize>,
) -> Seq<SplitHit>
    decreases node,
{
    match node {
        Node::Pane(_) => Seq::empty(),
        Node::Split { direction, ratio, first, second } => match areas {
            SplitAreas::Split { first_area, second_area, first: fa, second: sa } => {
                let d = border_distance(area, direction, first_area, column, row);
                let own = if d is Some && d->0 <= tolerance {
                    seq![
                        SplitHit {
                            path: prefix,
                            rect: area,
                            direction,
                            ratio,
                            distance: d->0,
                            depth: prefix.len() as int,
                        },
                    ]
                } else {
                    Seq::empty()
                };
                own + split_hits(*first, *fa, first_area, column, row, tolerance, prefix.push(0))
                    + split_hits(*second, *sa, second_area, column, row, tolerance, prefix.push(1))
            },
            SplitAreas::Pane => Seq::empty(),
        },
    }
}

/// `a` beats `b`: nearer, or as near and deeper.
pub open spec fn better_hit(a: SplitHit, b: SplitHit) -> bool {
    a.distance < b.distance || (a.distance == b.distance && a.depth > b.depth)
}

/// Scans the hits in order, keeping the current best unless a later hit
/// beats it.
pub open spec fn fold_best(init: Option<SplitHit>, hits: Seq<SplitHit>) -> Option<SplitHit>
    decreases hits.len(),
{
    if hits.len() == 0 {
        init
    } else {
        let next = match init {
            None => Some(hits[0]),
            Some(b) => if better_hit(hits[0], b) {
                Some(hits[0])
            } else {
                Some(b)
            },
        };
        fold_best(next, hits.drop_first())
    }
}

/// Scanning two lists is scanning the first, then the second.
pub proof fn lemma_fold_best_append(init: Option<SplitHit>, a: Seq<SplitHit>, b: Seq<SplitHit>)
    ensures
        fold_best(init, a + b) == fold_best(fold_best(init, a), b),
    decreases a.len(),
{
    if a.len() == 0 {
        assert(a + b =~= b);
    } else {
        assert((a + b).drop_first() =~= a.drop_first() + b);
        assert((a + b)[0] == a[0]);
        let next = match init {
            None => Some(a[0]),
            Some(x) => if better_hit(a[0], x) {
                Some(a[0])
            } else {
                Some(x)
            },
        };
        lemma_fold_best_append(next, a.drop_first(), b);
    }
}

/// What scanning from a current best keeps: nothing scanned beats the
/// result, and the result is either the starting best or the first hit
/// that beats every hit before it and the starting best.
proof fn lemma_fold_best_general(init: Option<SplitHit>, hits: Seq<SplitHit>)
    ensures
        fold_best(init, hits) is None <==> (init is None && hits.len() == 0),
        fold_best(init, hits) matches Some(b) ==> {
            &&& forall|j: int| 0 <= j < hits.len() ==> !better_hit(#[trigger] hits[j], b)
            &&& init matches Some(x) ==> !better_hit(x, b)
            &&& (init matches Some(x) && b == x) || exists|i: int|
                0 <= i < hits.len() && hits[i] == b && (forall|j: int| 0 <= j < i ==> better_hit(b, #[trigger] hits[j]))
                    && (init matches Some(x) ==> better_hit(b, x))
        },
    decreases hits.len(),
{
    if hits.len() > 0 {
        let next = match init {
            None => Some(hits[0]),
            Some(x) => if better_hit(hits[0], x) {
                Some(hits[0])
            } else {
                Some(x)
            },
        };
        let rest = hits.drop_first();
        lemma_fold_best_general(next, rest);
        let b = fold_best(init, hits)->0;
        assert(fold_best(init, hits) == fold_best(next, rest));
        assert forall|j: int| 0 <= j < hits.len() implies !better_hit(#[trigger] hits[j], b) by {
            if j > 0 {
                assert(hits[j] == rest[j - 1]);
            } else {
                assert(!better_hit(next->0, b));
            }
        }
        if b == next->0 {
            if next->0 == hits[0] && !(init matches Some(x) && b == x) {
                assert(hits[0] == b);
            }
        } else {
            let i = choose|i: int|
                0 <= i < rest.len() && rest[i] == b && (forall|j: int| 0 <= j < i ==> better_hit(b, #[trigger] rest[j]))
                    && better_hit(b, next->0);
            assert(hits[i + 1] == b);
            assert forall|j: int| 0 <= j < i + 1 implies better_hit(b, #[trigger] hits[j]) by {
                if j > 0 {
                    assert(hits[j] == rest[j - 1]);
                }
            }
        }
    }
}

/// The split chosen under the cursor is one of the hits; no hit is
/// nearer, nor as near and deeper; and it comes before every hit as good
/// as it in preorder. There is a choice exactly when there is a hit.
pub proof fn lemma_best_hit(hits: Seq<SplitHit>)
    ensures
        fold_best(None, hits) is None <==> hits.len() == 0,
        fold_best(None, hits) matches Some(b) ==> exists|i: int|
            0 <= i < hits.len() && hits[i] == b && (forall|j: int| 0 <= j < hits.len() ==> !better_hit(#[trigger] hits[j], b))
                && (forall|j: int| 0 <= j < i ==> better_hit(b, #[trigger] hits[j])),
{
    lemma_fold_best_general(None, hits);
}

/// Every hit names a split of the tree: its path, after the prefix,
/// leads to a split with the hit's direction and ratio.
pub proof fn lemma_hits_name_splits(
    node: Node,
    areas: SplitAreas,
    area: Rect,
    column: int,
    row: int,
    tolerance: int,
    prefix: Seq<usize>,
)
    ensures
        forall|k: int|
            0 <= k < split_hits(node, areas, area, column, row, tolerance, prefix).len() ==> {
                let h = #[trigger] split_hits(node, areas, area, column, row, tolerance, prefix)[k];
                &&& h.path.len() >= prefix.len()
                &&& h.path.take(prefix.len() as int) == prefix
                &&& node.subtree_at(h.path.skip(prefix.len() as int)) matches Some(
                    Node::Split { direction, ratio, .. },
                ) && direction == h.direction && ratio == h.ratio
            },
    decreases node,
{
    match node {
        Node::Pane(_) => {},
        Node::Split { direction, ratio, first, second } => match areas {
            SplitAreas::Split { first_area, second_area, first: fa, second: sa } => {
                let hits = split_hits(node, areas, area, column, row, tolerance, prefix);
                let p0 = prefix.push(0);
                let p1 = prefix.push(1);
                let hf = split_hits(*first, *fa, first_area, column, row, tolerance, p0);
                let hs = split_hits(*second, *sa, second_area, column, row, tolerance, p1);
                lemma_hits_name_splits(*first, *fa, first_area, column, row, tolerance, p0);
                lemma_hits_name_splits(*second, *sa, second_area, column, row, tolerance, p1);
                let own_len = hits.len() - hf.len() - hs.len();
                assert forall|k: int| 0 <= k < hits.len() implies {
                    let h = #[trigger] hits[k];
                    &&& h.path.len() >= prefix.len()
                    &&& h.path.take(prefix.len() as int) == prefix
                    &&& node.subtree_at(h.path.skip(prefix.len() as int)) matches Some(
                        Node::Split { direction: d, ratio: q, .. },
                    ) && d == h.direction && q == h.ratio
                } by {
                    let h = hits[k];
                    if k < own_len {
                        assert(h.path == prefix);
                        assert(h.path.take(prefix.len() as int) =~= prefix);
                        assert(h.path.skip(prefix.len() as int) =~= Seq::<usize>::empty());
                    } else if k < own_len + hf.len() {
                        let g = hf[k - own_len];
                        assert(h == g);
                        assert(g.path.take(p0.len() as int) == p0);
                        assert(g.path.take(prefix.len() as int) =~= prefix) by {
                            assert(forall|t: int| 0 <= t < prefix.len() ==> g.path[t] == g.path.take(p0.len() as int)[t]);
                        }
                        let rest = g.path.skip(p0.len() as int);
                        assert(g.path.skip(prefix.len() as int) =~= seq![0usize] + rest) by {
                            assert(g.path[prefix.len() as int] == g.path.take(p0.len() as int)[prefix.len() as int]);
                        }
                        lemma_subtree_step(node, 0, rest);
                    } else {
                        let g = hs[k - own_len - hf.len()];
                        assert(h == g);
                        assert(g.path.take(p1.len() as int) == p1);
                        assert(g.path.take(prefix.len() as int) =~= prefix) by {
                            assert(forall|t: int| 0 <= t < prefix.len() ==> g.path[t] == g.path.take(p1.len() as int)[t]);
                        }
                        let rest = g.path.skip(p1.len() as int);
                        assert(g.path.skip(prefix.len() as int) =~= seq![1usize] + rest) by {
                            assert(g.path[prefix.len() as int] == g.path.take(p1.len() as int)[prefix.len() as int]);
                        }
                        lemma_subtree_step(node, 1, rest);
                    }
                }
            },
            SplitAreas::Pane => {},
        },
    }
}

/// The snapshot fields of a hit.
pub open spec fn hit_fields(h: Option<SplitHit>) -> Option<(Seq<usize>, Rect, Direction, SplitRatio)> {
    match h {
        Some(h) => Some((h.path, h.rect, h.direction, h.ratio)),
        None => None,
    }
}

/// The fields of a snapshot.
pub open spec fn snapshot_fields(s: Option<SplitSnapshot>) -> Option<(Seq<usize>, Rect, Direction, SplitRatio)> {
    match s {
        Some(s) => Some((s.path@, s.rect, s.direction, s.ratio)),
        None => None,
    }
}

/// The exec form of a hit.
pub(crate) struct SplitHitCandidate {
    pub(crate) split: SplitSnapshot,
    pub(crate) distance: u16,
    pub(crate) depth: usize,
}

impl SplitHitCandidate {
    pub(crate) open spec fn hit(self) -> SplitHit {
        SplitHit {
            path: self.split.path@,
            rect: self.split.rect,
            direction: self.split.direction,
            ratio: self.split.ratio,
            distance: self.distance as int,
            depth: self.depth as int,
        }
    }
}

pub(crate) open spec fn hit_of(c: Option<SplitHitCandidate>) -> Option<SplitHit> {
    match c {
        Some(c) => Some(c.hit()),
        None => None,
    }
}

/// How far the cell is from the border between the children, if it lies
/// in the split's area.
pub(crate) fn split_border_distance(
    area: Rect,
    direction: Direction,
    first_area: Rect,
    column: u16,
    row: u16,
) -> (r: Option<u16>)
    ensures
        r matches Some(d) ==> border_distance(area, direction, first_area, column as int, row as int)
            == Some(d as int),
        r is None ==> border_distance(area, direction, first_area, column as int, row as int) is None,
{
    if !rect_contains(area, column, row) {
        return None;
    }
    match direction {
        Direction::Horizontal => Some(axis_distance(column, first_area.x.saturating_add(first_area.width))),
        Direction::Vertical => Some(axis_distance(row, first_area.y.saturating_add(first_area.height))),
    }
}

/// Nearer wins; at equal distance, the deeper split wins.
pub(crate) fn is_better_split_hit(candidate: &SplitHitCandidate, current: &SplitHitCandidate) -> (r:
    bool)
    ensures
        r == better_hit(candidate.hit(), current.hit()),
{
    candidate.distance < current.distance || (candidate.distance == current.distance
        && candidate.depth > current.depth)
}

/// Scans the splits below `node` (whose path is `path` and whose area is
/// `area`), keeping in `best` the best hit seen so far.
pub(crate) fn find_split_at(
    node: &Node,
    areas: &SplitAreas,
    area: Rect,
    column: u16,
    row: u16,
    tolerance: u16,
    path: &mut Vec<usize>,
    best: &mut Option<SplitHitCandidate>,
)
    requires
        areas_fit(*node, *areas),
    ensures
        final(path)@ == old(path)@,
        hit_of(*final(best)) == fold_best(
            hit_of(*old(best)),
            split_hits(*node, *areas, area, column as int, row as int, tolerance as int, old(path)@),
        ),
    decreases node,
{
    match node {
        Node::Pane(_) => {
            assert(split_hits(*node, *areas, area, column as int, row as int, tolerance as int, path@)
                == Seq::<SplitHit>::empty());
            assert(fold_best(hit_of(*old(best)), Seq::<SplitHit>::empty()) == hit_of(*old(best)));
            return;
        },
        Node::Split { direction, ratio, first, second } => {
            match areas {
                SplitAreas::Split { first_area, second_area, first: fa, second: sa } => {
                    let ghost b0 = hit_of(*best);
                    let ghost own_d = border_distance(area, *direction, *first_area, column as int, row as int);
                    let ghost own: Seq<SplitHit> = if own_d is Some && own_d->0 <= tolerance {
                        seq![
                            SplitHit {
                                path: path@,
                                rect: area,
                                direction: *direction,
                                ratio: *ratio,
                                distance: own_d->0,
                                depth: path@.len() as int,
                            },
                        ]
                    } else {
                        Seq::empty()
                    };
                    match split_border_distance(area, *direction, *first_area, column, row) {
                        Some(distance) => {
                            if distance <= tolerance {
                                let candidate = SplitHitCandidate {
                                    split: SplitSnapshot {
                                        path: path.clone(),
                                        rect: area,
                                        direction: *direction,
                                        ratio: *ratio,
                                    },
                                    distance,
                                    depth: path.len(),
                                };
                                assert(candidate.split.path@ =~= path@);
                                assert(own.len() == 1 && own[0] == candidate.hit());
                                let replace = match best {
                                    None => true,
                                    Some(current) => is_better_split_hit(&candidate, current),
                                };
                                if replace {
                                    *best = Some(candidate);
                                }
                                assert(hit_of(*best) == fold_best(b0, own)) by {
                                    assert(own.drop_first() =~= Seq::<SplitHit>::empty());
                                    let next = match b0 {
                                        None => Some(own[0]),
                                        Some(b) => if better_hit(own[0], b) {
                                            Some(own[0])
                                        } else {
                                            Some(b)
                                        },
                                    };
                                    assert(fold_best(b0, own) == fold_best(next, own.drop_first()));
                                    assert(fold_best(next, Seq::<SplitHit>::empty()) == next);
                                }
                            } else {
                                assert(own =~= Seq::<SplitHit>::empty());
                            }
                        },
                        None => {
                            assert(own =~= Seq::<SplitHit>::empty());
                        },
                    }
                    let ghost b1 = hit_of(*best);
                    assert(b1 == fold_best(b0, own));
                    let ghost hf = split_hits(**first, **fa, *first_area, column as int, row as int, tolerance as int, path@.push(0));
                    let ghost hs = split_hits(**second, **sa, *second_area, column as int, row as int, tolerance as int, path@.push(1));
                    assert(split_hits(*node, *areas, area, column as int, row as int, tolerance as int, path@) == own + hf + hs);
                    path.push(0);
                    assert(path@ == old(path)@.push(0));
                    find_split_at(first, fa, *first_area, column, row, tolerance, path, best);
                    assert(hit_of(*best) == fold_best(b1, hf));
                    path.pop();
                    path.push(1);
                    assert(path@ == old(path)@.push(1));
                    find_split_at(second, sa, *second_area, column, row, tolerance, path, best);
                    assert(hit_of(*best) == fold_best(fold_best(b1, hf), hs));
                    path.pop();
                    proof {
                        assert(path@ =~= old(path)@);
                        lemma_fold_best_append(b0, own, hf);
                        lemma_fold_best_append(b0, own + hf, hs);
                        assert(own + hf + hs == own + (hf + hs)) by { assert(own + hf + hs =~= own + (hf + hs)); }
                        assert(hit_of(*best) == fold_best(
                            hit_of(*old(best)),
                            split_hits(*node, *areas, area, column as int, row as int, tolerance as int, old(path)@),
                        ));
                    }
                },
                SplitAreas::Pane => {
                    assert(false);
                },
            }
        },
    }
}

} // verus!
