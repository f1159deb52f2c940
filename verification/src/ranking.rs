//! Newest first: the order in which events claim what they address.
use vstd::prelude::*;

use crate::event::{bytes_less, bytes_less_is_an_order, comes_before, same_bytes, CatalogEvent};
use crate::team::{events_of, Candidate};

verus! {

/// Whether each item of a list comes before all that follow it.
pub open spec fn is_sorted<T>(s: Seq<T>, less: spec_fn(T, T) -> bool) -> bool {
    forall|a: int, b: int| 0 <= a < b < s.len() ==> less(#[trigger] s[a], #[trigger] s[b])
}

/// Of an order that is asymmetric, a list that is sorted is fixed by what it
/// holds.
pub proof fn sorted_lists_are_equal<T>(s: Seq<T>, t: Seq<T>, less: spec_fn(T, T) -> bool)
    requires
        is_sorted(s, less),
        is_sorted(t, less),
        forall|x: T, y: T| #[trigger] less(x, y) ==> !less(y, x),
        forall|x: T| s.contains(x) <==> t.contains(x),
    ensures
        s == t,
    decreases s.len(),
{
    if s.len() == 0 {
        if t.len() > 0 {
            assert(t.contains(t[0]));
        }
        assert(s =~= t);
    } else {
        assert(s.contains(s[0]));
        let k = choose|k: int| 0 <= k < t.len() && t[k] == s[0];
        assert(t.contains(t[0]));
        let m = choose|m: int| 0 <= m < s.len() && s[m] == t[0];
        if s[0] != t[0] {
            assert(less(s[0], s[m]));
            assert(less(t[0], t[k]));
        }
        let s1 = s.skip(1);
        let t1 = t.skip(1);
        assert forall|x: T| s1.contains(x) <==> t1.contains(x) by {
            if s1.contains(x) {
                let i = choose|i: int| 0 <= i < s1.len() && s1[i] == x;
                assert(s[i + 1] == x);
                assert(less(s[0], s[i + 1]));
                assert(s.contains(x));
                let j = choose|j: int| 0 <= j < t.len() && t[j] == x;
                if j == 0 {
                    assert(less(x, x));
                }
                assert(t1[j - 1] == x);
            }
            if t1.contains(x) {
                let i = choose|i: int| 0 <= i < t1.len() && t1[i] == x;
                assert(t[i + 1] == x);
                assert(less(t[0], t[i + 1]));
                assert(t.contains(x));
                let j = choose|j: int| 0 <= j < s.len() && s[j] == x;
                if j == 0 {
                    assert(less(x, x));
                }
                assert(s1[j - 1] == x);
            }
        }
        sorted_lists_are_equal(s1, t1, less);
        assert(s =~= seq![s[0]] + s1);
        assert(t =~= seq![t[0]] + t1);
    }
}

/// Whether `a` comes before `b`: it is newer, or as new with the lower
/// identifier.
pub open spec fn precedes(a: CatalogEvent, b: CatalogEvent) -> bool {
    a.created_at > b.created_at || (a.created_at == b.created_at && bytes_less(a.id@, b.id@))
}

/// Whether the event at `i` comes before the one at `j`; of two that neither
/// time nor identifier tells apart, the one that stands first.
pub open spec fn before(events: Seq<CatalogEvent>, i: int, j: int) -> bool {
    precedes(events[i], events[j]) || (!precedes(events[j], events[i]) && i < j)
}

/// The order of events is strict.
pub proof fn precedes_is_an_order(a: CatalogEvent, b: CatalogEvent, c: CatalogEvent)
    ensures
        !precedes(a, a),
        precedes(a, b) ==> !precedes(b, a),
        precedes(a, b) && precedes(b, c) ==> precedes(a, c),
        precedes(a, b) || precedes(b, a) || (a.created_at == b.created_at && a.id@ == b.id@),
{
    bytes_less_is_an_order(a.id@, b.id@, c.id@);
}

/// The order of places is strict and total.
pub proof fn before_is_an_order(events: Seq<CatalogEvent>, i: int, j: int, k: int)
    ensures
        before(events, i, j) ==> !before(events, j, i),
        before(events, i, j) && before(events, j, k) ==> before(events, i, k),
        i != j ==> before(events, i, j) || before(events, j, i),
{
    precedes_is_an_order(events[i], events[j], events[k]);
    precedes_is_an_order(events[j], events[k], events[i]);
    precedes_is_an_order(events[k], events[i], events[j]);
    precedes_is_an_order(events[j], events[i], events[k]);
    precedes_is_an_order(events[k], events[j], events[i]);
}

/// Whether `order` lists every place of `events` in their order.
pub open spec fn is_ranking(events: Seq<CatalogEvent>, order: Seq<int>) -> bool {
    &&& is_sorted(order, |i: int, j: int| before(events, i, j))
    &&& forall|i: int| #[trigger] order.contains(i) <==> 0 <= i < events.len()
}

/// The places of `events` in their order.
pub open spec fn ranking(events: Seq<CatalogEvent>) -> Seq<int> {
    choose|order: Seq<int>| is_ranking(events, order)
}

/// There is one ranking only.
pub proof fn ranking_is_unique(events: Seq<CatalogEvent>, order: Seq<int>)
    requires
        is_ranking(events, order),
    ensures
        order == ranking(events),
        is_ranking(events, ranking(events)),
{
    let less = |i: int, j: int| before(events, i, j);
    assert forall|i: int, j: int| #[trigger] less(i, j) implies !less(j, i) by {
        before_is_an_order(events, i, j, i);
    }
    assert forall|i: int| order.contains(i) <==> ranking(events).contains(i) by {}
    sorted_lists_are_equal(order, ranking(events), less);
}

/// Places as numbers without bounds.
pub open spec fn places(order: Seq<usize>) -> Seq<int> {
    Seq::new(order.len(), |i: int| order[i] as int)
}

fn is_before(candidates: &Vec<Candidate>, i: usize, j: usize) -> (r: bool)
    requires
        i < candidates@.len(),
        j < candidates@.len(),
    ensures
        r == before(events_of(candidates@), i as int, j as int),
{
    proof {
        precedes_is_an_order(events_of(candidates@)[i as int], events_of(candidates@)[j as int], events_of(candidates@)[i as int]);
    }
    let a = &candidates[i].event;
    let b = &candidates[j].event;
    if a.created_at != b.created_at {
        a.created_at > b.created_at
    } else if same_bytes(&a.id, &b.id) {
        i < j
    } else {
        comes_before(&a.id, &b.id)
    }
}

/// Whether `order` lists the places `lo..hi` in the order of their events.
spec fn ranks(events: Seq<CatalogEvent>, order: Seq<usize>, lo: int, hi: int) -> bool {
    &&& is_sorted(order, |i: usize, j: usize| before(events, i as int, j as int))
    &&& forall|i: usize| #[trigger] order.contains(i) <==> lo <= i < hi
}

proof fn contains_after_push(s: Seq<usize>, x: usize)
    ensures
        forall|y: usize| #[trigger] s.push(x).contains(y) <==> s.contains(y) || y == x,
{
    assert forall|y: usize| #[trigger] s.push(x).contains(y) <==> s.contains(y) || y == x by {
        if s.contains(y) {
            let i = choose|i: int| 0 <= i < s.len() && s[i] == y;
            assert(s.push(x)[i] == y);
        }
        if y == x {
            assert(s.push(x)[s.len() as int] == y);
        }
    }
}

/// Merges two rankings of neighbouring ranges.
fn merge(
    candidates: &Vec<Candidate>,
    a: &Vec<usize>,
    b: &Vec<usize>,
    Ghost(lo): Ghost<int>,
    Ghost(mid): Ghost<int>,
    Ghost(hi): Ghost<int>,
) -> (r: Vec<usize>)
    requires
        0 <= lo <= mid <= hi <= candidates@.len(),
        ranks(events_of(candidates@), a@, lo, mid),
        ranks(events_of(candidates@), b@, mid, hi),
    ensures
        ranks(events_of(candidates@), r@, lo, hi),
{
    let ghost less = |i: usize, j: usize| before(events_of(candidates@), i as int, j as int);
    let mut r: Vec<usize> = Vec::new();
    let mut i: usize = 0;
    let mut j: usize = 0;
    while i < a.len() || j < b.len()
        invariant
            0 <= lo <= mid <= hi <= candidates@.len(),
            ranks(events_of(candidates@), a@, lo, mid),
            ranks(events_of(candidates@), b@, mid, hi),
            less == (|i: usize, j: usize| before(events_of(candidates@), i as int, j as int)),
            i <= a@.len(),
            j <= b@.len(),
            is_sorted(r@, less),
            forall|x: usize| #[trigger]
                r@.contains(x) <==> a@.take(i as int).contains(x) || b@.take(j as int).contains(x),
            forall|p: int, q: int|
                0 <= p < r@.len() && i <= q < a@.len() ==> less(#[trigger] r@[p], #[trigger] a@[q]),
            forall|p: int, q: int|
                0 <= p < r@.len() && j <= q < b@.len() ==> less(#[trigger] r@[p], #[trigger] b@[q]),
        decreases a@.len() - i + b@.len() - j,
    {
        let ghost before_push = r@;
        proof {
            assert forall|q: int| 0 <= q < a@.len() implies lo <= #[trigger] a@[q] < mid by {
                assert(a@.contains(a@[q]));
            }
            assert forall|q: int| 0 <= q < b@.len() implies mid <= #[trigger] b@[q] < hi by {
                assert(b@.contains(b@[q]));
            }
        }
        let take_a: bool = if i >= a.len() {
            false
        } else if j >= b.len() {
            true
        } else {
            is_before(candidates, a[i], b[j])
        };
        if take_a {
            let x: usize = a[i];
            proof {
                contains_after_push(a@.take(i as int), x);
                contains_after_push(r@, x);
                assert(a@.take(i + 1) =~= a@.take(i as int).push(x));
                assert forall|q: int| j <= q < b@.len() implies less(x, #[trigger] b@[q]) by {
                    before_is_an_order(events_of(candidates@), x as int, b@[j as int] as int, b@[q] as int);
                    if q > j {
                        assert(less(b@[j as int], b@[q]));
                    }
                }
                assert forall|q: int| i + 1 <= q < a@.len() implies less(x, #[trigger] a@[q]) by {
                    assert(less(a@[i as int], a@[q]));
                }
            }
            r.push(x);
            i = i + 1;
        } else {
            let x: usize = b[j];
            proof {
                contains_after_push(b@.take(j as int), x);
                contains_after_push(r@, x);
                assert(b@.take(j + 1) =~= b@.take(j as int).push(x));
                assert forall|q: int| i <= q < a@.len() implies less(x, #[trigger] a@[q]) by {
                    before_is_an_order(events_of(candidates@), x as int, a@[i as int] as int, a@[q] as int);
                    if q > i {
                        assert(less(a@[i as int], a@[q]));
                    }
                }
                assert forall|q: int| j + 1 <= q < b@.len() implies less(x, #[trigger] b@[q]) by {
                    assert(less(b@[j as int], b@[q]));
                }
            }
            r.push(x);
            j = j + 1;
        }
    }
    assert(a@.take(i as int) =~= a@);
    assert(b@.take(j as int) =~= b@);
    r
}

fn rank_range(candidates: &Vec<Candidate>, lo: usize, hi: usize) -> (r: Vec<usize>)
    requires
        lo <= hi <= candidates@.len(),
    ensures
        ranks(events_of(candidates@), r@, lo as int, hi as int),
    decreases hi - lo,
{
    if hi - lo <= 1 {
        let mut r: Vec<usize> = Vec::new();
        if lo < hi {
            proof {
                contains_after_push(r@, lo);
            }
            r.push(lo);
        }
        r
    } else {
        let mid: usize = lo + (hi - lo) / 2;
        let a = rank_range(candidates, lo, mid);
        let b = rank_range(candidates, mid, hi);
        merge(candidates, &a, &b, Ghost(lo as int), Ghost(mid as int), Ghost(hi as int))
    }
}

/// The places of events in their order: newest first, of equally new ones the
/// lowest identifier first, and of those that nothing tells apart the one that
/// stands first.
pub fn rank(candidates: &Vec<Candidate>) -> (r: Vec<usize>)
    ensures
        places(r@) == ranking(events_of(candidates@)),
        is_ranking(events_of(candidates@), ranking(events_of(candidates@))),
{
    let r = rank_range(candidates, 0, candidates.len());
    proof {
        let order = places(r@);
        assert forall|i: int| #[trigger] order.contains(i) <==> 0 <= i < candidates@.len() by {
            if order.contains(i) {
                let k = choose|k: int| 0 <= k < order.len() && order[k] == i;
                assert(r@.contains(r@[k]));
            }
            if 0 <= i < candidates@.len() {
                assert(r@.contains(i as usize));
                let k = choose|k: int| 0 <= k < r@.len() && r@[k] == i as usize;
                assert(order[k] == i);
            }
        }
        let less = |i: usize, j: usize| before(events_of(candidates@), i as int, j as int);
        assert forall|a: int, b: int| 0 <= a < b < order.len() implies before(
            events_of(candidates@),
            #[trigger] order[a],
            #[trigger] order[b],
        ) by {
            assert(less(r@[a], r@[b]));
        }
        ranking_is_unique(events_of(candidates@), order);
    }
    r
}

} // verus!
