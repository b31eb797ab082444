//! The layout tree: panes at the leaves, binary splits inside.

use vstd::prelude::*;
use crate::geometry::{Direction, Rect};
use std::collections::HashSet;

verus! {

/// Identifies one pane of the tree.
#[derive(Debug, Clone, Copy, PartialEq, Eq, Hash, Structural)]
pub struct PaneId(pub u64);

impl PaneId {
    /// The pane that a fresh layout starts with.
    pub fn root() -> (r: PaneId)
        ensures
            r.0 == 0,
    {
        PaneId(0)
    }

    pub fn new(id: u64) -> (r: PaneId)
        ensures
            r.0 == id,
    {
        PaneId(id)
    }

    pub fn get(&self) -> (r: u64)
        ensures
            r == self.0,
    {
        self.0
    }
}

/// The share of a split that goes to its first child, carried as the bits
/// of an IEEE-754 single-precision number. The tree logic does no
/// arithmetic with it; the code that draws the layout turns it back into a
/// number.
#[derive(Debug, Clone, Copy, PartialEq, Eq, Hash, Structural)]
pub struct SplitRatio(pub u32);

impl SplitRatio {
    /// The bits below the sign bit: the magnitude of the share.
    pub open spec fn spec_magnitude(self) -> int {
        self.0 as int % 0x8000_0000
    }

    /// Whether the share is not a number (all exponent bits set and a
    /// non-zero fraction).
    pub open spec fn spec_is_nan(self) -> bool {
        self.spec_magnitude() > 0x7f80_0000
    }

    /// Whether two shares are equal as numbers: no NaN equals anything,
    /// positive and negative zero are equal, and otherwise equal numbers
    /// have equal bits.
    pub open spec fn spec_same_share(self, other: SplitRatio) -> bool {
        &&& !self.spec_is_nan()
        &&& !other.spec_is_nan()
        &&& (self.0 == other.0 || (self.spec_magnitude() == 0 && other.spec_magnitude() == 0))
    }

    /// Whether two shares are equal as numbers (see `spec_same_share`).
    pub fn same_share(&self, other: &SplitRatio) -> (r: bool)
        ensures
            r == self.spec_same_share(*other),
    {
        let a = self.0 % 0x8000_0000;
        let b = other.0 % 0x8000_0000;
        if a > 0x7f80_0000 || b > 0x7f80_0000 {
            return false;
        }
        self.0 == other.0 || (a == 0 && b == 0)
    }
}

/// A node of the layout tree.
#[derive(Debug)]
pub enum Node {
    Pane(PaneId),
    Split { direction: Direction, ratio: SplitRatio, first: Box<Node>, second: Box<Node> },
}

impl Clone for Node {
    /// A copy of the whole subtree.
    fn clone(&self) -> (r: Self)
        ensures
            r == *self,
        decreases self,
    {
        match self {
            Node::Pane(id) => Node::Pane(*id),
            Node::Split { direction, ratio, first, second } => {
                let first = (**first).clone();
                let second = (**second).clone();
                Node::Split { direction: *direction, ratio: *ratio, first: Box::new(first), second: Box::new(second) }
            },
        }
    }
}

/// Failures of operations on the tree state.
#[derive(Debug, Clone, Copy, PartialEq, Eq, Structural)]
pub enum StateError {
    /// The tree names this pane more than once.
    DuplicatePaneId(PaneId),
}

/// A split found under the mouse: where it sits in the tree and what it
/// divides.
#[derive(Debug, Clone)]
pub struct SplitSnapshot {
    pub path: Vec<usize>,
    pub rect: Rect,
    pub direction: Direction,
    pub ratio: SplitRatio,
}

/// `s` holds no value twice.
pub open spec fn no_duplicates<T>(s: Seq<T>) -> bool {
    forall|i: int, j: int| 0 <= i < j < s.len() ==> s[i] != s[j]
}

/// `id` is the first value of `s` that repeats an earlier one.
pub open spec fn first_repeat<T>(s: Seq<T>, id: T) -> bool {
    exists|i: int|
        0 <= i < s.len() && s[i] == id && #[trigger] s.take(i).contains(id) && no_duplicates(
            s.take(i),
        )
}

/// Prepends one step to every path.
pub open spec fn prefix_all(step: usize, paths: Seq<Seq<usize>>) -> Seq<Seq<usize>> {
    paths.map_values(|p: Seq<usize>| seq![step].add(p))
}

/// Prepends one step to the path of every listed node.
pub open spec fn prefix_nodes(step: usize, s: Seq<(Seq<usize>, Node)>) -> Seq<(Seq<usize>, Node)> {
    s.map_values(|e: (Seq<usize>, Node)| (seq![step].add(e.0), e.1))
}

impl Node {
    /// Pane ids in preorder (first child before second).
    pub open spec fn leaves(self) -> Seq<PaneId>
        decreases self,
    {
        match self {
            Node::Pane(id) => seq![id],
            Node::Split { first, second, .. } => first.leaves() + second.leaves(),
        }
    }

    /// The path of each pane, in the order of `leaves`: `0` steps into the
    /// first child, `1` into the second.
    pub open spec fn leaf_paths(self) -> Seq<Seq<usize>>
        decreases self,
    {
        match self {
            Node::Pane(_) => seq![Seq::<usize>::empty()],
            Node::Split { first, second, .. } => prefix_all(0, first.leaf_paths()) + prefix_all(
                1,
                second.leaf_paths(),
            ),
        }
    }

    /// The subtree that `path` leads to, if it leads anywhere.
    pub open spec fn subtree_at(self, path: Seq<usize>) -> Option<Node>
        decreases path.len(),
    {
        if path.len() == 0 {
            Some(self)
        } else {
            match self {
                Node::Pane(_) => None,
                Node::Split { first, second, .. } => {
                    if path[0] == 0 {
                        first.subtree_at(path.drop_first())
                    } else if path[0] == 1 {
                        second.subtree_at(path.drop_first())
                    } else {
                        None
                    }
                },
            }
        }
    }

    /// `path` leads to a pane.
    pub open spec fn is_leaf_path(self, path: Seq<usize>) -> bool {
        self.subtree_at(path) matches Some(Node::Pane(_))
    }

    /// The path that always takes the first child.
    pub open spec fn leftmost_path(self) -> Seq<usize>
        decreases self,
    {
        match self {
            Node::Pane(_) => Seq::empty(),
            Node::Split { first, .. } => seq![0usize] + first.leftmost_path(),
        }
    }

    /// The largest pane id in the tree.
    pub open spec fn max_id(self) -> u64
        decreases self,
    {
        match self {
            Node::Pane(id) => id.0,
            Node::Split { first, second, .. } => {
                if first.max_id() >= second.max_id() {
                    first.max_id()
                } else {
                    second.max_id()
                }
            },
        }
    }

    /// No pane id occurs twice.
    pub open spec fn unique_ids(self) -> bool {
        no_duplicates(self.leaves())
    }

    /// Every node with its path, in preorder.
    pub open spec fn preorder(self) -> Seq<(Seq<usize>, Node)>
        decreases self,
    {
        match self {
            Node::Pane(_) => seq![(Seq::<usize>::empty(), self)],
            Node::Split { first, second, .. } => seq![(Seq::<usize>::empty(), self)]
                + prefix_nodes(0, first.preorder()) + prefix_nodes(1, second.preorder()),
        }
    }
}

/// There is one path per pane.
pub proof fn lemma_leaf_paths_len(node: Node)
    ensures
        node.leaf_paths().len() == node.leaves().len(),
        node.leaves().len() >= 1,
    decreases node,
{
    match node {
        Node::Pane(_) => {},
        Node::Split { first, second, .. } => {
            lemma_leaf_paths_len(*first);
            lemma_leaf_paths_len(*second);
        },
    }
}

/// Stepping into a split by `step` and following `p` there is following
/// `[step] + p` from the split.
pub proof fn lemma_subtree_step(node: Node, step: usize, p: Seq<usize>)
    requires
        node is Split,
        step == 0 || step == 1,
    ensures
        node.subtree_at(seq![step] + p) == (match node {
            Node::Split { first, second, .. } => if step == 0 {
                first.subtree_at(p)
            } else {
                second.subtree_at(p)
            },
            Node::Pane(_) => None,
        }),
{
    assert((seq![step] + p).drop_first() =~= p);
}

/// The recorded path of each pane leads to that pane.
pub proof fn lemma_leaf_path_leads_to_leaf(node: Node, i: int)
    requires
        0 <= i < node.leaves().len(),
    ensures
        node.leaf_paths().len() == node.leaves().len(),
        node.subtree_at(node.leaf_paths()[i]) == Some(Node::Pane(node.leaves()[i])),
    decreases node,
{
    lemma_leaf_paths_len(node);
    match node {
        Node::Pane(_) => {},
        Node::Split { first, second, .. } => {
            lemma_leaf_paths_len(*first);
            lemma_leaf_paths_len(*second);
            let n1 = first.leaves().len();
            if i < n1 {
                lemma_leaf_path_leads_to_leaf(*first, i);
                lemma_subtree_step(node, 0, first.leaf_paths()[i]);
                assert(node.leaf_paths()[i] == seq![0usize] + first.leaf_paths()[i]);
                assert(node.leaves()[i] == first.leaves()[i]);
            } else {
                lemma_leaf_path_leads_to_leaf(*second, i - n1);
                lemma_subtree_step(node, 1, second.leaf_paths()[i - n1]);
                assert(node.leaf_paths()[i] == seq![1usize] + second.leaf_paths()[i - n1]);
                assert(node.leaves()[i] == second.leaves()[i - n1]);
            }
        },
    }
}

/// The leftmost path leads to the first pane in preorder.
pub proof fn lemma_leftmost_path_leads_to_first_leaf(node: Node)
    ensures
        node.subtree_at(node.leftmost_path()) == Some(Node::Pane(node.leaves()[0])),
    decreases node,
{
    lemma_leaf_paths_len(node);
    match node {
        Node::Pane(_) => {},
        Node::Split { first, second, .. } => {
            lemma_leftmost_path_leads_to_first_leaf(*first);
            lemma_leaf_paths_len(*first);
            lemma_subtree_step(node, 0, first.leftmost_path());
            assert(node.leaves()[0] == first.leaves()[0]);
        },
    }
}

/// No pane id exceeds the tree's largest.
pub proof fn lemma_max_id_bounds_leaves(node: Node, i: int)
    requires
        0 <= i < node.leaves().len(),
    ensures
        node.leaves()[i].0 <= node.max_id(),
        node.leaves().contains(PaneId(node.max_id())),
    decreases node,
{
    lemma_leaf_paths_len(node);
    match node {
        Node::Pane(_) => {
            assert(node.leaves()[0] == PaneId(node.max_id()));
        },
        Node::Split { first, second, .. } => {
            lemma_leaf_paths_len(*first);
            lemma_leaf_paths_len(*second);
            let n1 = first.leaves().len();
            if i < n1 {
                lemma_max_id_bounds_leaves(*first, i);
                lemma_max_id_bounds_leaves(*second, 0);
            } else {
                lemma_max_id_bounds_leaves(*second, i - n1);
                lemma_max_id_bounds_leaves(*first, 0);
            }
            let k1 = choose|k: int| 0 <= k < first.leaves().len() && first.leaves()[k] == PaneId(
                first.max_id(),
            );
            let k2 = choose|k: int| 0 <= k < second.leaves().len() && second.leaves()[k]
                == PaneId(second.max_id());
            assert(node.leaves()[k1] == first.leaves()[k1]);
            assert(node.leaves()[n1 + k2] == second.leaves()[k2]);
        },
    }
}

/// Pushes the pane ids of `node` onto `out`, in preorder.
fn collect_into(node: &Node, out: &mut Vec<PaneId>)
    ensures
        final(out)@ == old(out)@ + node.leaves(),
    decreases node,
{
    match node {
        Node::Pane(id) => {
            out.push(*id);
            assert(old(out)@ + node.leaves() =~= old(out)@.push(*id));
        },
        Node::Split { first, second, .. } => {
            collect_into(first, out);
            collect_into(second, out);
            assert(old(out)@ + node.leaves() =~= old(out)@ + first.leaves() + second.leaves());
        },
    }
}

/// Pane ids of the tree in preorder. Walks the tree directly; needs no
/// layout.
pub fn collect_pane_ids(node: &Node) -> (r: Vec<PaneId>)
    ensures
        r@ == node.leaves(),
{
    let mut out = Vec::new();
    collect_into(node, &mut out);
    assert(out@ =~= node.leaves());
    out
}

/// The largest pane id in the tree.
pub(crate) fn max_pane_id(node: &Node) -> (r: u64)
    ensures
        r == node.max_id(),
    decreases node,
{
    match node {
        Node::Pane(id) => id.0,
        Node::Split { first, second, .. } => {
            let a = max_pane_id(first);
            let b = max_pane_id(second);
            if a >= b {
                a
            } else {
                b
            }
        },
    }
}

fn leftmost_into(node: &Node, out: &mut Vec<usize>)
    ensures
        final(out)@ == old(out)@ + node.leftmost_path(),
    decreases node,
{
    match node {
        Node::Pane(_) => {
            assert(old(out)@ + node.leftmost_path() =~= old(out)@);
        },
        Node::Split { first, .. } => {
            out.push(0);
            leftmost_into(first, out);
            assert(old(out)@ + node.leftmost_path() =~= old(out)@.push(0) + first.leftmost_path());
        },
    }
}

/// The path that always takes the first child.
pub(crate) fn leftmost_leaf_path(node: &Node) -> (r: Vec<usize>)
    ensures
        r@ == node.leftmost_path(),
{
    let mut path: Vec<usize> = Vec::new();
    leftmost_into(node, &mut path);
    assert(path@ =~= node.leftmost_path());
    path
}

/// The pane that `path` leads to, if it leads to one.
pub open spec fn pane_at_path(node: Node, path: Seq<usize>) -> Option<PaneId> {
    match node.subtree_at(path) {
        Some(Node::Pane(id)) => Some(id),
        _ => None,
    }
}

/// Follows `path[i..]` down from `node` to a pane.
pub(crate) fn pane_at_path_from(node: &Node, path: &[usize], i: usize) -> (r: Option<PaneId>)
    requires
        i <= path@.len(),
    ensures
        r == pane_at_path(*node, path@.skip(i as int)),
    decreases path@.len() - i,
{
    if i == path.len() {
        assert(path@.skip(i as int) =~= Seq::<usize>::empty());
        return match node {
            Node::Pane(id) => Some(*id),
            Node::Split { .. } => None,
        };
    }
    assert(path@.skip(i as int)[0] == path@[i as int]);
    assert(path@.skip(i as int).drop_first() =~= path@.skip(i + 1));
    match node {
        Node::Pane(_) => None,
        Node::Split { first, second, .. } => {
            if path[i] == 0 {
                pane_at_path_from(first, path, i + 1)
            } else if path[i] == 1 {
                pane_at_path_from(second, path, i + 1)
            } else {
                None
            }
        },
    }
}

/// Checks that no pane id occurs twice; names the first repeated one.
pub(crate) fn validate_unique_pane_ids(node: &Node) -> (r: Result<(), StateError>)
    ensures
        r is Ok <==> node.unique_ids(),
        r matches Err(StateError::DuplicatePaneId(id)) ==> first_repeat(node.leaves(), id),
{
    broadcast use vstd::std_specs::hash::group_hash_axioms;

    let ids = collect_pane_ids(node);
    let mut seen: HashSet<u64> = HashSet::new();
    let n = ids.len();
    for i in 0..n
        invariant
            n == ids@.len(),
            ids@ == node.leaves(),
            no_duplicates(ids@.take(i as int)),
            forall|k: u64| #[trigger]
                seen@.contains(k) <==> exists|j: int| 0 <= j < i && ids@[j].0 == k,
    {
        let id = ids[i];
        if !seen.insert(id.0) {
            proof {
                let j = choose|j: int| 0 <= j < i && ids@[j].0 == id.0;
                assert(ids@.take(i as int)[j] == id);
                assert(ids@.take(i as int).contains(id));
                assert(ids@[i as int] == id);
                assert(first_repeat(ids@, id));
                assert(!no_duplicates(ids@));
            }
            return Err(StateError::DuplicatePaneId(id));
        }
        proof {
            let t = ids@.take(i + 1);
            assert forall|a: int, b: int| 0 <= a < b < i + 1 implies #[trigger] t[a] != #[trigger] t[b] by {
                if b == i {
                    assert(!(exists|j: int| 0 <= j < i && ids@[j].0 == id.0));
                    assert(t[a] == ids@[a]);
                } else {
                    assert(ids@.take(i as int)[a] != ids@.take(i as int)[b]);
                }
            }
        }
    }
    assert(ids@.take(n as int) =~= ids@);
    Ok(())
}

} // verus!
