//! Lists of pane rectangles: the orders they are kept in, and searching
//! them.

use vstd::prelude::*;
use crate::geometry::Rect;
use crate::tree::{no_duplicates, PaneId};

verus! {

broadcast use vstd::seq_lib::group_to_multiset_ensures;

/// The orders in which pane rectangles are listed.
#[derive(Debug, Clone, Copy, PartialEq, Eq, Structural)]
pub enum PaneOrder {
    /// By pane id.
    ById,
    /// Top to bottom, then left to right, then by pane id.
    Geometric,
}

/// `a` may come before `b` in `order`.
pub open spec fn pane_le(order: PaneOrder, a: (PaneId, Rect), b: (PaneId, Rect)) -> bool {
    match order {
        PaneOrder::ById => a.0.0 <= b.0.0,
        PaneOrder::Geometric => {
            ||| a.1.y < b.1.y
            ||| (a.1.y == b.1.y && a.1.x < b.1.x)
            ||| (a.1.y == b.1.y && a.1.x == b.1.x && a.0.0 <= b.0.0)
        },
    }
}

/// Every entry may come before every later one.
pub open spec fn sorted_in(order: PaneOrder, s: Seq<(PaneId, Rect)>) -> bool {
    forall|i: int, j: int| 0 <= i < j < s.len() ==> pane_le(order, #[trigger] s[i], #[trigger] s[j])
}

/// The pane ids of a list, in its order.
pub open spec fn ids_of(s: Seq<(PaneId, Rect)>) -> Seq<PaneId> {
    s.map_values(|e: (PaneId, Rect)| e.0)
}

/// The first entry whose rectangle holds the cell, if any.
pub open spec fn first_hit(s: Seq<(PaneId, Rect)>, column: int, row: int) -> Option<PaneId>
    decreases s.len(),
{
    if s.len() == 0 {
        None
    } else if s[0].1.spec_contains(column, row) {
        Some(s[0].0)
    } else {
        first_hit(s.drop_first(), column, row)
    }
}

/// The pane found at a cell is the first entry whose rectangle holds the
/// cell; none is found exactly when no rectangle holds it.
pub proof fn lemma_first_hit_holds_cell(s: Seq<(PaneId, Rect)>, column: int, row: int)
    ensures
        first_hit(s, column, row) matches Some(id) ==> exists|i: int|
            0 <= i < s.len() && s[i].0 == id && s[i].1.spec_contains(column, row) && forall|j: int|
                0 <= j < i ==> !(#[trigger] s[j]).1.spec_contains(column, row),
        first_hit(s, column, row) is None ==> forall|j: int|
            0 <= j < s.len() ==> !(#[trigger] s[j]).1.spec_contains(column, row),
    decreases s.len(),
{
    if s.len() > 0 && !s[0].1.spec_contains(column, row) {
        let t = s.drop_first();
        lemma_first_hit_holds_cell(t, column, row);
        if first_hit(s, column, row) is Some {
            let i = choose|i: int|
                0 <= i < t.len() && t[i].0 == first_hit(s, column, row)->0 && t[i].1.spec_contains(column, row)
                    && forall|j: int| 0 <= j < i ==> !(#[trigger] t[j]).1.spec_contains(column, row);
            assert(s[i + 1] == t[i]);
            assert forall|j: int| 0 <= j < i + 1 implies !(#[trigger] s[j]).1.spec_contains(column, row) by {
                if j > 0 {
                    assert(s[j] == t[j - 1]);
                }
            }
        } else {
            assert forall|j: int| 0 <= j < s.len() implies !(#[trigger] s[j]).1.spec_contains(column, row) by {
                if j > 0 {
                    assert(s[j] == t[j - 1]);
                }
            }
        }
    } else if s.len() > 0 {
        assert(s[0].0 == first_hit(s, column, row)->0);
    }
}

/// Every rectangle of the list lies inside `area`.
pub open spec fn all_within(s: Seq<(PaneId, Rect)>, area: Rect) -> bool {
    forall|i: int| 0 <= i < s.len() ==> (#[trigger] s[i]).1.spec_within(area)
}

/// A list holding the same entries as one whose rectangles lie inside
/// `area` has its rectangles inside `area` too.
pub proof fn lemma_within_by_multiset(a: Seq<(PaneId, Rect)>, b: Seq<(PaneId, Rect)>, area: Rect)
    requires
        a.to_multiset() == b.to_multiset(),
        all_within(b, area),
    ensures
        all_within(a, area),
{
    assert forall|i: int| 0 <= i < a.len() implies (#[trigger] a[i]).1.spec_within(area) by {
        assert(a.contains(a[i]));
        assert(a.to_multiset().count(a[i]) > 0);
        assert(b.contains(a[i]));
    }
}

/// Every entry comes strictly before every later one.
pub open spec fn strictly_sorted_in(order: PaneOrder, s: Seq<(PaneId, Rect)>) -> bool {
    forall|i: int, j: int|
        0 <= i < j < s.len() ==> pane_le(order, #[trigger] s[i], #[trigger] s[j]) && !pane_le(order, s[j], s[i])
}

/// A list holding the same values as one without repeats has none either.
pub proof fn lemma_no_duplicates_by_multiset<T>(a: Seq<T>, b: Seq<T>)
    requires
        a.to_multiset() == b.to_multiset(),
        no_duplicates(b),
    ensures
        no_duplicates(a),
{
    assert(b.no_duplicates()) by {
        assert forall|i: int, j: int| 0 <= i < b.len() && 0 <= j < b.len() && i != j implies b[i] != b[j] by {
            if i > j {
                assert(b[j] != b[i]);
            }
        }
    }
    b.lemma_multiset_has_no_duplicates();
    a.lemma_multiset_has_no_duplicates_conv();
}

/// A sorted list whose ids are all different is strictly sorted.
pub proof fn lemma_distinct_sorted_is_strict(order: PaneOrder, s: Seq<(PaneId, Rect)>)
    requires
        sorted_in(order, s),
        no_duplicates(ids_of(s)),
    ensures
        strictly_sorted_in(order, s),
{
    assert forall|i: int, j: int| 0 <= i < j < s.len() implies pane_le(order, #[trigger] s[i], #[trigger] s[j]) && !pane_le(order, s[j], s[i]) by {
        assert(ids_of(s)[i] != ids_of(s)[j]);
    }
}

/// Sorting a list whose ids are all different has one result: two sorted
/// lists with the same entries are the same list.
pub proof fn lemma_sorted_distinct_unique(order: PaneOrder, x: Seq<(PaneId, Rect)>, y: Seq<(PaneId, Rect)>)
    requires
        sorted_in(order, x),
        sorted_in(order, y),
        x.to_multiset() == y.to_multiset(),
        no_duplicates(ids_of(x)),
    ensures
        x == y,
    decreases x.len(),
{
    broadcast use vstd::multiset::group_multiset_axioms;

    vstd::seq_lib::to_multiset_len(x);
    vstd::seq_lib::to_multiset_len(y);
    if x.len() == 0 {
        assert(y.len() == 0);
        assert(x =~= y);
    } else {
        assert(y.len() == x.len());
        assert(x.to_multiset().count(x[0]) > 0);
        assert(y.to_multiset().count(y[0]) > 0);
        assert(y.contains(x[0]));
        assert(x.contains(y[0]));
        let i = choose|i: int| 0 <= i < x.len() && x[i] == y[0];
        let j = choose|j: int| 0 <= j < y.len() && y[j] == x[0];
        if i != 0 {
            assert(pane_le(order, x[0], x[i]));
        }
        if j != 0 {
            assert(pane_le(order, y[0], y[j]));
        }
        assert(x[0].0 == y[0].0);
        if i != 0 {
            assert(ids_of(x)[0] == ids_of(x)[i]);
        }
        assert(x[0] == y[0]);
        let x1 = x.drop_first();
        let y1 = y.drop_first();
        vstd::seq_lib::to_multiset_remove(x, 0);
        vstd::seq_lib::to_multiset_remove(y, 0);
        assert(x.remove(0) =~= x1);
        assert(y.remove(0) =~= y1);
        assert forall|a: int, b: int| 0 <= a < b < x1.len() implies ids_of(x1)[a] != ids_of(x1)[b] by {
            assert(ids_of(x)[a + 1] != ids_of(x)[b + 1]);
        }
        assert forall|a: int, b: int| 0 <= a < b < x1.len() implies pane_le(order, #[trigger] x1[a], #[trigger] x1[b]) by {
            assert(pane_le(order, x[a + 1], x[b + 1]));
        }
        assert forall|a: int, b: int| 0 <= a < b < y1.len() implies pane_le(order, #[trigger] y1[a], #[trigger] y1[b]) by {
            assert(pane_le(order, y[a + 1], y[b + 1]));
        }
        lemma_sorted_distinct_unique(order, x1, y1);
        assert(x =~= y) by {
            assert forall|k: int| 0 <= k < x.len() implies x[k] == y[k] by {
                if k > 0 {
                    assert(x[k] == x1[k - 1]);
                    assert(y[k] == y1[k - 1]);
                }
            }
        }
    }
}

fn pane_le_exec(order: PaneOrder, a: &(PaneId, Rect), b: &(PaneId, Rect)) -> (r: bool)
    ensures
        r == pane_le(order, *a, *b),
{
    match order {
        PaneOrder::ById => a.0.0 <= b.0.0,
        PaneOrder::Geometric => {
            a.1.y < b.1.y || (a.1.y == b.1.y && a.1.x < b.1.x) || (a.1.y == b.1.y && a.1.x
                == b.1.x && a.0.0 <= b.0.0)
        },
    }
}

/// Both orders are total preorders.
pub proof fn lemma_pane_le_total(order: PaneOrder, a: (PaneId, Rect), b: (PaneId, Rect), c: (
    PaneId,
    Rect,
))
    ensures
        pane_le(order, a, a),
        pane_le(order, a, b) || pane_le(order, b, a),
        pane_le(order, a, b) && pane_le(order, b, c) ==> pane_le(order, a, c),
{
}

/// Sorts a list of pane rectangles into `order`.
pub fn sort_panes(entries: &Vec<(PaneId, Rect)>, order: PaneOrder) -> (r: Vec<(PaneId, Rect)>)
    ensures
        sorted_in(order, r@),
        r@.to_multiset() == entries@.to_multiset(),
        ids_of(r@).to_multiset() == ids_of(entries@).to_multiset(),
        r@.len() == entries@.len(),
{
    let mut out: Vec<(PaneId, Rect)> = Vec::new();
    let n = entries.len();
    for i in 0..n
        invariant
            n == entries@.len(),
            sorted_in(order, out@),
            out@.to_multiset() == entries@.take(i as int).to_multiset(),
            ids_of(out@).to_multiset() == ids_of(entries@.take(i as int)).to_multiset(),
            out@.len() == i,
    {
        let e = entries[i];
        let mut p: usize = 0;
        while p < out.len() && pane_le_exec(order, &out[p], &e)
            invariant
                p <= out@.len(),
                forall|k: int| 0 <= k < p ==> pane_le(order, #[trigger] out@[k], e),
            decreases out@.len() - p,
        {
            p = p + 1;
        }
        let ghost old_out = out@;
        out.insert(p, e);
        proof {
            assert(out@ == old_out.insert(p as int, e));
            vstd::seq_lib::to_multiset_insert(old_out, p as int, e);
            assert(entries@.take(i + 1) =~= entries@.take(i as int).push(e));
            vstd::seq_lib::to_multiset_build(entries@.take(i as int), e);
            assert(ids_of(out@) =~= ids_of(old_out).insert(p as int, e.0));
            vstd::seq_lib::to_multiset_insert(ids_of(old_out), p as int, e.0);
            assert(ids_of(entries@.take(i + 1)) =~= ids_of(entries@.take(i as int)).push(e.0));
            vstd::seq_lib::to_multiset_build(ids_of(entries@.take(i as int)), e.0);
            assert forall|a: int, b: int| 0 <= a < b < out@.len() implies pane_le(
                order,
                #[trigger] out@[a],
                #[trigger] out@[b],
            ) by {
                if b < p {
                    assert(out@[a] == old_out[a] && out@[b] == old_out[b]);
                } else if b == p {
                    assert(out@[a] == old_out[a]);
                } else if a == p {
                    assert(out@[b] == old_out[b - 1]);
                    assert(!pane_le(order, old_out[p as int], e));
                    lemma_pane_le_total(order, old_out[p as int], e, e);
                    assert(pane_le(order, old_out[p as int], old_out[b - 1]) || p == b - 1);
                    lemma_pane_le_total(order, e, old_out[p as int], old_out[b - 1]);
                } else if a < p {
                    assert(out@[a] == old_out[a] && out@[b] == old_out[b - 1]);
                } else {
                    assert(out@[a] == old_out[a - 1] && out@[b] == old_out[b - 1]);
                }
            }
        }
    }
    assert(entries@.take(n as int) =~= entries@);
    assert(ids_of(entries@.take(n as int)) =~= ids_of(entries@));
    out
}

/// Looks `id` up in a list ordered by id.
pub fn find_by_id(s: &[(PaneId, Rect)], id: PaneId) -> (r: Option<Rect>)
    requires
        sorted_in(PaneOrder::ById, s@),
    ensures
        r is Some <==> exists|i: int| 0 <= i < s@.len() && (#[trigger] s@[i]).0 == id,
        r matches Some(rect) ==> s@.contains((id, rect)),
{
    let mut lo: usize = 0;
    let mut hi: usize = s.len();
    while lo < hi
        invariant
            lo <= hi <= s@.len(),
            sorted_in(PaneOrder::ById, s@),
            forall|k: int| 0 <= k < lo ==> (#[trigger] s@[k]).0.0 < id.0,
            forall|k: int| hi <= k < s@.len() ==> (#[trigger] s@[k]).0.0 > id.0,
        decreases hi - lo,
    {
        let mid = lo + (hi - lo) / 2;
        let cur = s[mid].0.0;
        if cur == id.0 {
            assert(s@.contains((id, s@[mid as int].1))) by {
                assert(s@[mid as int] == (id, s@[mid as int].1));
            }
            return Some(s[mid].1);
        } else if cur < id.0 {
            lo = mid + 1;
        } else {
            hi = mid;
        }
    }
    None
}

/// The first entry, in list order, whose rectangle holds the cell.
pub fn find_hit(s: &[(PaneId, Rect)], column: u16, row: u16) -> (r: Option<PaneId>)
    ensures
        r == first_hit(s@, column as int, row as int),
{
    let n = s.len();
    let mut i: usize = 0;
    assert(s@.skip(0) =~= s@);
    while i < n
        invariant
            n == s@.len(),
            i <= n,
            first_hit(s@, column as int, row as int) == first_hit(
                s@.skip(i as int),
                column as int,
                row as int,
            ),
        decreases n - i,
    {
        let (id, rect) = s[i];
        assert(s@.skip(i as int)[0] == s@[i as int]);
        if rect.contains(column, row) {
            return Some(id);
        }
        assert(s@.skip(i as int).drop_first() =~= s@.skip(i + 1));
        i = i + 1;
    }
    assert(s@.skip(n as int).len() == 0);
    None
}

} // verus!
