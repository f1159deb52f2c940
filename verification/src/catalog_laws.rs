//! What holds of every catalog.
use vstd::prelude::*;

use crate::catalog_fetch::{
    a_fetch_finds_what_verifies, after_pages, all_events, are_pages, by_id, distinct, lists,
    merged_holds_both, verified_are_those_that_verify, verified_of,
};
use crate::event::{
    a_single_tag_stands_alone, bytes_less, bytes_less_is_an_order, hex, hex_tells_apart,
    single_value, tag_views, CatalogEvent,
};
use crate::ranking::{
    before, before_is_an_order, is_ranking, is_sorted, precedes, precedes_is_an_order, ranking,
    ranking_is_unique, sorted_lists_are_equal,
};
use crate::team::{events_of, shown_team, Candidate, PublicationSpec};
use crate::team_catalog::{
    catalog, is_head, is_shown, ranked, same_coordinate, shown, shown_among, team_tag,
};
use crate::text::views;

verus! {

/// Whether `order` lists the places below `n` in their order.
spec fn ranks_first(events: Seq<CatalogEvent>, order: Seq<int>, n: int) -> bool {
    &&& is_sorted(order, |i: int, j: int| before(events, i, j))
    &&& forall|i: int| #[trigger] order.contains(i) <==> 0 <= i < n
}

/// One more place, put where it belongs.
proof fn rank_one_more(events: Seq<CatalogEvent>, order: Seq<int>, n: int) -> (more: Seq<int>)
    requires
        0 <= n,
        ranks_first(events, order, n),
    ensures
        ranks_first(events, more, n + 1),
{
    let at = place_for(events, order, n, order.len() as int);
    let more = order.insert(at, n);
    let less = |i: int, j: int| before(events, i, j);
    assert forall|a: int, b: int| 0 <= a < b < more.len() implies less(
        #[trigger] more[a],
        #[trigger] more[b],
    ) by {
        if b < at {
            assert(less(order[a], order[b]));
        } else if b == at {
            assert(before(events, order[a], n));
        } else if a < at {
            assert(less(order[a], order[b - 1]));
        } else if a == at {
            assert(before(events, n, order[b - 1]));
        } else {
            assert(less(order[a - 1], order[b - 1]));
        }
    }
    assert forall|i: int| #[trigger] more.contains(i) <==> 0 <= i < n + 1 by {
        if more.contains(i) {
            let k = choose|k: int| 0 <= k < more.len() && more[k] == i;
            if k < at {
                assert(order.contains(order[k]));
            } else if k > at {
                assert(order.contains(order[k - 1]));
            }
        }
        if 0 <= i < n {
            assert(order.contains(i));
            let k = choose|k: int| 0 <= k < order.len() && order[k] == i;
            if k < at {
                assert(more[k] == i);
            } else {
                assert(more[k + 1] == i);
            }
        }
        if i == n {
            assert(more[at] == n);
        }
    }
    more
}

/// The place in a ranking before which all come before `n`, and from which on
/// `n` comes before all, where that is so from `upto` on.
proof fn place_for(events: Seq<CatalogEvent>, order: Seq<int>, n: int, upto: int) -> (at: int)
    requires
        0 <= n,
        ranks_first(events, order, n),
        0 <= upto <= order.len(),
        forall|k: int| upto <= k < order.len() ==> before(events, n, #[trigger] order[k]),
    ensures
        0 <= at <= upto,
        forall|k: int| 0 <= k < at ==> before(events, #[trigger] order[k], n),
        forall|k: int| at <= k < order.len() ==> before(events, n, #[trigger] order[k]),
    decreases upto,
{
    if upto == 0 {
        0
    } else {
        let last = order[upto - 1];
        assert(order.contains(last));
        before_is_an_order(events, last, n, n);
        if before(events, n, last) {
            place_for(events, order, n, upto - 1)
        } else {
            let less = |i: int, j: int| before(events, i, j);
            assert forall|k: int| 0 <= k < upto implies before(events, #[trigger] order[k], n) by {
                if k < upto - 1 {
                    assert(less(order[k], order[upto - 1]));
                    before_is_an_order(events, order[k], last, n);
                }
            }
            upto
        }
    }
}

proof fn rank_first(events: Seq<CatalogEvent>, n: int) -> (order: Seq<int>)
    requires
        0 <= n,
    ensures
        ranks_first(events, order, n),
    decreases n,
{
    if n == 0 {
        Seq::empty()
    } else {
        let less = rank_first(events, n - 1);
        rank_one_more(events, less, n - 1)
    }
}

/// Every list of events has a ranking.
pub proof fn ranking_exists(events: Seq<CatalogEvent>)
    ensures
        is_ranking(events, ranking(events)),
{
    let order = rank_first(events, events.len() as int);
    assert(is_ranking(events, order));
    ranking_is_unique(events, order);
}

/// What is shown is shown for a candidate, and each that is to be is.
proof fn shown_are_the_heads(list: Seq<Candidate>, n: int)
    requires
        0 <= n <= list.len(),
    ensures
        forall|k: int|
            0 <= k < n && is_shown(list, k) ==> shown_among(list, n).contains(
                shown(#[trigger] list[k]),
            ),
        forall|p: PublicationSpec| #[trigger]
            shown_among(list, n).contains(p) ==> exists|k: int|
                0 <= k < n && is_shown(list, k) && p == shown(#[trigger] list[k]),
    decreases n,
{
    if n > 0 {
        shown_are_the_heads(list, n - 1);
        let less = shown_among(list, n - 1);
        let all = shown_among(list, n);
        assert forall|k: int| 0 <= k < n && is_shown(list, k) implies all.contains(
            shown(#[trigger] list[k]),
        ) by {
            if k < n - 1 {
                assert(less.contains(shown(list[k])));
                let i = choose|i: int| 0 <= i < less.len() && less[i] == shown(list[k]);
                assert(all[i] == shown(list[k]));
            } else {
                assert(all[less.len() as int] == shown(list[k]));
            }
        }
        assert forall|p: PublicationSpec| #[trigger] all.contains(p) implies exists|k: int|
            0 <= k < n && is_shown(list, k) && p == shown(#[trigger] list[k]) by {
            let i = choose|i: int| 0 <= i < all.len() && all[i] == p;
            if i < less.len() {
                assert(less[i] == p);
                assert(less.contains(p));
                let k = choose|k: int|
                    0 <= k < n - 1 && is_shown(list, k) && p == shown(#[trigger] list[k]);
                assert(is_shown(list, k) && p == shown(list[k]));
            } else {
                assert(is_shown(list, n - 1) && p == shown(list[n - 1]));
            }
        }
    }
}

/// A ranked list holds the candidates, each at the place of its event.
proof fn ranked_holds(candidates: Seq<Candidate>)
    ensures
        is_ranking(events_of(candidates), ranking(events_of(candidates))),
        ranked(candidates).len() == ranking(events_of(candidates)).len(),
        forall|k: int|
            0 <= k < ranked(candidates).len() ==> {
                let i = #[trigger] ranking(events_of(candidates))[k];
                0 <= i < candidates.len() && ranked(candidates)[k] == candidates[i]
            },
        forall|x: Candidate| #[trigger] ranked(candidates).contains(x) <==> candidates.contains(x),
{
    let order = ranking(events_of(candidates));
    let list = ranked(candidates);
    ranking_exists(events_of(candidates));
    assert forall|k: int| 0 <= k < list.len() implies {
        let i = #[trigger] order[k];
        0 <= i < candidates.len() && list[k] == candidates[i]
    } by {
        assert(order.contains(order[k]));
    }
    assert forall|x: Candidate| #[trigger] list.contains(x) <==> candidates.contains(x) by {
        if list.contains(x) {
            let k = choose|k: int| 0 <= k < list.len() && list[k] == x;
            assert(candidates[order[k]] == x);
        }
        if candidates.contains(x) {
            let i = choose|i: int| 0 <= i < candidates.len() && candidates[i] == x;
            assert(order.contains(i));
            let k = choose|k: int| 0 <= k < order.len() && order[k] == i;
            assert(list[k] == x);
        }
    }
}

/// Whether the candidate at `i` is the head of a coordinate: it addresses a
/// team, and comes before every other that addresses the same.
pub open spec fn heads_coordinate(candidates: Seq<Candidate>, i: int) -> bool {
    &&& 0 <= i < candidates.len()
    &&& team_tag(candidates[i].event) is Some
    &&& forall|j: int|
        0 <= j < candidates.len() && j != i && same_coordinate(
            (#[trigger] candidates[j]).event,
            candidates[i].event,
        ) ==> before(events_of(candidates), i, j)
}

/// A head of the ranked list is the head of its coordinate.
proof fn heads_agree(candidates: Seq<Candidate>, k: int)
    requires
        0 <= k < ranked(candidates).len(),
    ensures
        is_head(ranked(candidates), k) <==> heads_coordinate(
            candidates,
            ranking(events_of(candidates))[k],
        ),
{
    let events = events_of(candidates);
    let order = ranking(events);
    let list = ranked(candidates);
    let less = |i: int, j: int| before(events, i, j);
    let i = order[k];
    ranked_holds(candidates);
    assert(list[k] == candidates[i]);
    if heads_coordinate(candidates, i) {
        assert forall|j: int| 0 <= j < k implies !same_coordinate(
            #[trigger] list[j].event,
            list[k].event,
        ) by {
            let o = order[j];
            assert(list[j] == candidates[o]);
            assert(less(order[j], order[k]));
            before_is_an_order(events, o, i, o);
            if same_coordinate(candidates[o].event, candidates[i].event) {
                assert(before(events, i, o));
            }
        }
    }
    if is_head(list, k) {
        assert forall|j: int|
            0 <= j < candidates.len() && j != i && same_coordinate(
                (#[trigger] candidates[j]).event,
                candidates[i].event,
            ) implies before(events, i, j) by {
            assert(order.contains(j));
            let m = choose|m: int| 0 <= m < order.len() && order[m] == j;
            assert(list[m] == candidates[j]);
            if m < k {
                assert(!same_coordinate(list[m].event, list[k].event));
            } else {
                assert(less(order[k], order[m]));
            }
        }
    }
}

/// Whether the candidate at `i` is shown: it is the head of its coordinate, it
/// is shared, and all of its content is valid.
pub open spec fn shows(candidates: Seq<Candidate>, i: int) -> bool {
    heads_coordinate(candidates, i) && candidates[i].shared && candidates[i].content is Some
}

/// The publications of the candidates at some places.
pub open spec fn shown_at(candidates: Seq<Candidate>, places: Seq<int>) -> Seq<PublicationSpec> {
    Seq::new(places.len(), |k: int| shown(candidates[places[k]]))
}

/// A catalog is made of the heads that are shared and valid, each once, newest
/// first and those of one time by ascending identifier: these are the places
/// of its publications.
pub proof fn catalog_is_newest_first(candidates: Seq<Candidate>) -> (places: Seq<int>)
    ensures
        catalog(candidates) == shown_at(candidates, places),
        is_sorted(places, |i: int, j: int| before(events_of(candidates), i, j)),
        forall|i: int| #[trigger] places.contains(i) <==> shows(candidates, i),
{
    let order = ranking(events_of(candidates));
    let list = ranked(candidates);
    ranked_holds(candidates);
    let places = shown_places(candidates, list.len() as int);
    assert forall|i: int| #[trigger] places.contains(i) <==> shows(candidates, i) by {
        if places.contains(i) {
            let k = choose|k: int| 0 <= k < list.len() && is_shown(list, k) && #[trigger] order[k] == i;
            heads_agree(candidates, k);
        }
        if shows(candidates, i) {
            assert(order.contains(i));
            let k = choose|k: int| 0 <= k < order.len() && order[k] == i;
            heads_agree(candidates, k);
            assert(is_shown(list, k) && order[k] == i);
        }
    }
    places
}

proof fn shown_places(candidates: Seq<Candidate>, n: int) -> (places: Seq<int>)
    requires
        0 <= n <= ranked(candidates).len(),
    ensures
        shown_among(ranked(candidates), n) == shown_at(candidates, places),
        is_sorted(places, |i: int, j: int| before(events_of(candidates), i, j)),
        forall|i: int| #[trigger]
            places.contains(i) <==> exists|k: int|
                0 <= k < n && is_shown(ranked(candidates), k) && #[trigger] ranking(
                    events_of(candidates),
                )[k] == i,
    decreases n,
{
    let events = events_of(candidates);
    let order = ranking(events);
    let list = ranked(candidates);
    let less = |i: int, j: int| before(events, i, j);
    if n == 0 {
        let none = Seq::<int>::empty();
        assert(shown_at(candidates, none) =~= shown_among(list, 0));
        none
    } else {
        ranked_holds(candidates);
        let front = shown_places(candidates, n - 1);
        if is_shown(list, n - 1) {
            let places = front.push(order[n - 1]);
            assert(list[n - 1] == candidates[order[n - 1]]);
            assert(shown_at(candidates, places) =~= shown_among(list, n));
            assert forall|a: int, b: int| 0 <= a < b < places.len() implies less(
                #[trigger] places[a],
                #[trigger] places[b],
            ) by {
                if b < front.len() {
                    assert(less(front[a], front[b]));
                } else {
                    assert(front.contains(front[a]));
                    let k = choose|k: int|
                        0 <= k < n - 1 && is_shown(list, k) && #[trigger] order[k] == front[a];
                    assert(less(order[k], order[n - 1]));
                }
            }
            assert forall|i: int| #[trigger] places.contains(i) <==> exists|k: int|
                0 <= k < n && is_shown(list, k) && #[trigger] order[k] == i by {
                if places.contains(i) {
                    let m = choose|m: int| 0 <= m < places.len() && places[m] == i;
                    if m < front.len() {
                        assert(front[m] == i);
                        assert(front.contains(i));
                    }
                }
                if exists|k: int| 0 <= k < n && is_shown(list, k) && #[trigger] order[k] == i {
                    let k = choose|k: int|
                        0 <= k < n && is_shown(list, k) && #[trigger] order[k] == i;
                    if k < n - 1 {
                        assert(front.contains(i));
                        let m = choose|m: int| 0 <= m < front.len() && front[m] == i;
                        assert(places[m] == i);
                    } else {
                        assert(places[front.len() as int] == i);
                    }
                }
            }
            places
        } else {
            front
        }
    }
}

/// The head of a coordinate alone decides what is shown under it: itself where
/// it is shared and its content valid, and otherwise nothing. No older event
/// comes back.
pub proof fn head_decides(candidates: Seq<Candidate>, i: int)
    requires
        heads_coordinate(candidates, i),
    ensures
        candidates[i].shared && candidates[i].content is Some ==> catalog(candidates).contains(
            shown(candidates[i]),
        ),
        forall|p: PublicationSpec| #[trigger]
            catalog(candidates).contains(p) && p.owner_pubkey == hex(candidates[i].event.pubkey@)
                && Some(p.team_d_tag) == team_tag(candidates[i].event) ==> p == shown(candidates[i])
                && candidates[i].shared && candidates[i].content is Some,
{
    let events = events_of(candidates);
    let places = catalog_is_newest_first(candidates);
    if shows(candidates, i) {
        assert(places.contains(i));
        let k = choose|k: int| 0 <= k < places.len() && places[k] == i;
        assert(catalog(candidates)[k] == shown(candidates[i]));
    }
    assert forall|p: PublicationSpec| #[trigger]
        catalog(candidates).contains(p) && p.owner_pubkey == hex(candidates[i].event.pubkey@)
            && Some(p.team_d_tag) == team_tag(candidates[i].event) implies p == shown(candidates[i])
        && candidates[i].shared && candidates[i].content is Some by {
        let k = choose|k: int| 0 <= k < catalog(candidates).len() && catalog(candidates)[k] == p;
        let j = places[k];
        assert(places.contains(j));
        hex_tells_apart(candidates[j].event.pubkey@, candidates[i].event.pubkey@);
        assert(same_coordinate(candidates[j].event, candidates[i].event));
        assert(same_coordinate(candidates[i].event, candidates[j].event));
        before_is_an_order(events, i, j, i);
    }
}

/// Every publication is that of the head of its coordinate.
pub proof fn publications_are_heads(candidates: Seq<Candidate>, p: PublicationSpec)
    requires
        catalog(candidates).contains(p),
    ensures
        exists|i: int| #[trigger] shows(candidates, i) && p == shown(candidates[i]),
{
    let places = catalog_is_newest_first(candidates);
    let k = choose|k: int| 0 <= k < catalog(candidates).len() && catalog(candidates)[k] == p;
    assert(places.contains(places[k]));
    assert(shows(candidates, places[k]));
}

/// Every coordinate that a candidate addresses has a head, which then decides
/// what is shown under it.
pub proof fn every_coordinate_has_a_head(candidates: Seq<Candidate>, j: int)
    requires
        0 <= j < candidates.len(),
        team_tag(candidates[j].event) is Some,
    ensures
        exists|i: int| #[trigger]
            heads_coordinate(candidates, i) && same_coordinate(
                candidates[i].event,
                candidates[j].event,
            ),
{
    let order = ranking(events_of(candidates));
    let list = ranked(candidates);
    ranked_holds(candidates);
    assert(order.contains(j));
    let k = choose|k: int| 0 <= k < order.len() && order[k] == j;
    assert(list[k] == candidates[j]);
    let m = first_claim(list, k);
    assert(list[m] == candidates[order[m]]);
    heads_agree(candidates, m);
    assert(heads_coordinate(candidates, order[m]));
}

/// The first of a ranked list that addresses what another of it does.
proof fn first_claim(list: Seq<Candidate>, k: int) -> (m: int)
    requires
        0 <= k < list.len(),
        team_tag(list[k].event) is Some,
    ensures
        0 <= m <= k,
        is_head(list, m),
        same_coordinate(list[m].event, list[k].event),
    decreases k,
{
    if is_head(list, k) {
        k
    } else {
        let j = choose|j: int|
            0 <= j < k && same_coordinate(#[trigger] list[j].event, list[k].event);
        first_claim(list, j)
    }
}

/// Whether two candidates are alike in all that a catalog reads of them.
pub open spec fn alike(x: Candidate, y: Candidate) -> bool {
    &&& x.event.id@ == y.event.id@
    &&& x.event.pubkey@ == y.event.pubkey@
    &&& x.event.created_at == y.event.created_at
    &&& team_tag(x.event) == team_tag(y.event)
    &&& x.shared == y.shared
    &&& x.content is Some <==> y.content is Some
    &&& x.content is Some ==> shown(x) == shown(y)
}

/// Whether candidates that neither time nor identifier tells apart are alike:
/// they are the same event, repeated.
pub open spec fn ties_are_alike(candidates: Seq<Candidate>) -> bool {
    forall|i: int, j: int|
        0 <= i < candidates.len() && 0 <= j < candidates.len() && candidates[i].event.id@
            == candidates[j].event.id@ && candidates[i].event.created_at
            == candidates[j].event.created_at ==> #[trigger] alike(candidates[i], candidates[j])
}

/// Whether a list holds a candidate that is like another.
pub open spec fn is_among(x: Candidate, list: Seq<Candidate>) -> bool {
    exists|j: int| 0 <= j < list.len() && #[trigger] alike(x, list[j])
}

/// Whether each candidate of a list has one that is like it in another.
pub open spec fn are_among(a: Seq<Candidate>, b: Seq<Candidate>) -> bool {
    forall|i: int| 0 <= i < a.len() ==> #[trigger] is_among(a[i], b)
}

/// Two shown candidates never tie, where those that tie are alike.
proof fn shown_never_tie(candidates: Seq<Candidate>, i: int, j: int)
    requires
        ties_are_alike(candidates),
        shows(candidates, i),
        shows(candidates, j),
        before(events_of(candidates), i, j),
    ensures
        precedes(candidates[i].event, candidates[j].event),
{
    let events = events_of(candidates);
    let x = candidates[i].event;
    let y = candidates[j].event;
    precedes_is_an_order(x, y, x);
    before_is_an_order(events, i, j, i);
    if !precedes(x, y) {
        assert(alike(candidates[i], candidates[j]));
        assert(same_coordinate(candidates[i].event, candidates[j].event));
        assert(before(events, j, i));
    }
}

/// Whether two candidates tie.
spec fn ties(x: Candidate, y: Candidate) -> bool {
    x.event.id@ == y.event.id@ && x.event.created_at == y.event.created_at
}

/// The first place that ties with another.
proof fn first_of(candidates: Seq<Candidate>, j: int) -> (f: int)
    requires
        0 <= j < candidates.len(),
    ensures
        0 <= f <= j,
        ties(candidates[f], candidates[j]),
        forall|k: int| 0 <= k < f ==> !#[trigger] ties(candidates[k], candidates[j]),
    decreases j,
{
    if exists|k: int| 0 <= k < j && #[trigger] ties(candidates[k], candidates[j]) {
        let k = choose|k: int| 0 <= k < j && #[trigger] ties(candidates[k], candidates[j]);
        let f = first_of(candidates, k);
        assert forall|m: int| 0 <= m < f implies !#[trigger] ties(candidates[m], candidates[j]) by {
            assert(!ties(candidates[m], candidates[k]));
        }
        f
    } else {
        j
    }
}

/// What one list shows, another that holds the same shows too.
proof fn shown_elsewhere(a: Seq<Candidate>, b: Seq<Candidate>, i: int) -> (j: int)
    requires
        ties_are_alike(b),
        are_among(a, b),
        are_among(b, a),
        shows(a, i),
    ensures
        shows(b, j),
        alike(a[i], b[j]),
{
    assert(is_among(a[i], b));
    let some = choose|j: int| 0 <= j < b.len() && #[trigger] alike(a[i], b[j]);
    let j = first_of(b, some);
    assert(alike(b[some], b[j]));
    assert forall|m: int|
        0 <= m < b.len() && m != j && same_coordinate(
            (#[trigger] b[m]).event,
            b[j].event,
        ) implies before(events_of(b), j, m) by {
        assert(is_among(b[m], a));
        let n = choose|n: int| 0 <= n < a.len() && #[trigger] alike(b[m], a[n]);
        assert(same_coordinate(a[n].event, a[i].event));
        precedes_is_an_order(b[j].event, b[m].event, b[j].event);
        precedes_is_an_order(a[i].event, a[n].event, a[i].event);
        if n != i {
            assert(before(events_of(a), i, n));
        }
        if m < j {
            assert(!ties(b[m], b[some]));
        }
    }
    j
}

/// Neither the order in which events arrive nor how often one is repeated
/// changes anything: two lists of the same candidates make the same catalog,
/// in the same order.
pub proof fn arrival_order_is_ignored(a: Seq<Candidate>, b: Seq<Candidate>)
    requires
        ties_are_alike(a),
        are_among(a, b),
        are_among(b, a),
    ensures
        catalog(a) == catalog(b),
{
    assert forall|i: int, j: int|
        0 <= i < b.len() && 0 <= j < b.len() && b[i].event.id@ == b[j].event.id@
            && b[i].event.created_at == b[j].event.created_at implies #[trigger] alike(
        b[i],
        b[j],
    ) by {
        assert(is_among(b[i], a) && is_among(b[j], a));
        let m = choose|m: int| 0 <= m < a.len() && #[trigger] alike(b[i], a[m]);
        let n = choose|n: int| 0 <= n < a.len() && #[trigger] alike(b[j], a[n]);
        assert(alike(a[m], a[n]));
    }
    let less = |p: PublicationSpec, q: PublicationSpec| published_before(a, p, q);
    assert forall|p: PublicationSpec, q: PublicationSpec| #[trigger] less(p, q) implies !less(
        q,
        p,
    ) by {
        if less(q, p) {
            let (i, j) = choose|i: int, j: int| #[trigger] publishes_before(a, i, j, p, q);
            let (m, n) = choose|m: int, n: int| #[trigger] publishes_before(a, m, n, q, p);
            heads_are_one(a, i, n);
            heads_are_one(a, j, m);
            precedes_is_an_order(a[i].event, a[j].event, a[i].event);
        }
    }
    let pa = catalog_is_newest_first(a);
    let pb = catalog_is_newest_first(b);
    assert(is_sorted(catalog(a), less)) by {
        assert forall|k: int, l: int| 0 <= k < l < catalog(a).len() implies less(
            #[trigger] catalog(a)[k],
            #[trigger] catalog(a)[l],
        ) by {
            let before_a = |i: int, j: int| before(events_of(a), i, j);
            assert(before_a(pa[k], pa[l]));
            assert(pa.contains(pa[k]) && pa.contains(pa[l]));
            shown_never_tie(a, pa[k], pa[l]);
            assert(publishes_before(a, pa[k], pa[l], catalog(a)[k], catalog(a)[l]));
        }
    }
    assert(is_sorted(catalog(b), less)) by {
        assert forall|k: int, l: int| 0 <= k < l < catalog(b).len() implies less(
            #[trigger] catalog(b)[k],
            #[trigger] catalog(b)[l],
        ) by {
            let before_b = |i: int, j: int| before(events_of(b), i, j);
            assert(before_b(pb[k], pb[l]));
            assert(pb.contains(pb[k]) && pb.contains(pb[l]));
            shown_never_tie(b, pb[k], pb[l]);
            let m = shown_elsewhere(b, a, pb[k]);
            let n = shown_elsewhere(b, a, pb[l]);
            assert(publishes_before(a, m, n, catalog(b)[k], catalog(b)[l]));
        }
    }
    assert forall|p: PublicationSpec| catalog(a).contains(p) <==> catalog(b).contains(p) by {
        if catalog(a).contains(p) {
            let k = choose|k: int| 0 <= k < catalog(a).len() && catalog(a)[k] == p;
            assert(pa.contains(pa[k]));
            let j = shown_elsewhere(a, b, pa[k]);
            head_decides(b, j);
        }
        if catalog(b).contains(p) {
            let k = choose|k: int| 0 <= k < catalog(b).len() && catalog(b)[k] == p;
            assert(pb.contains(pb[k]));
            let j = shown_elsewhere(b, a, pb[k]);
            head_decides(a, j);
        }
    }
    sorted_lists_are_equal(catalog(a), catalog(b), less);
}

/// Of two candidates that are shown as the same publication there is one.
proof fn heads_are_one(list: Seq<Candidate>, i: int, j: int)
    requires
        shows(list, i),
        shows(list, j),
        shown(list[i]) == shown(list[j]),
    ensures
        i == j,
{
    hex_tells_apart(list[i].event.pubkey@, list[j].event.pubkey@);
    before_is_an_order(events_of(list), i, j, i);
    assert(same_coordinate(list[i].event, list[j].event));
    assert(same_coordinate(list[j].event, list[i].event));
}

/// Whether two publications are those of the candidates at two places, of
/// which the first comes before the second.
spec fn publishes_before(
    list: Seq<Candidate>,
    i: int,
    j: int,
    p: PublicationSpec,
    q: PublicationSpec,
) -> bool {
    &&& shows(list, i)
    &&& shows(list, j)
    &&& p == shown(list[i])
    &&& q == shown(list[j])
    &&& precedes(list[i].event, list[j].event)
}

spec fn published_before(list: Seq<Candidate>, p: PublicationSpec, q: PublicationSpec) -> bool {
    exists|i: int, j: int| #[trigger] publishes_before(list, i, j, p, q)
}

/// No coordinate is shown twice.
pub proof fn coordinates_are_shown_once(candidates: Seq<Candidate>)
    ensures
        forall|a: int, b: int|
            0 <= a < b < catalog(candidates).len() ==> (
            #[trigger] catalog(candidates)[a]).owner_pubkey != (
            #[trigger] catalog(candidates)[b]).owner_pubkey || catalog(candidates)[a].team_d_tag
                != catalog(candidates)[b].team_d_tag,
{
    let list = ranked(candidates);
    shown_once_among(list, list.len() as int);
}

proof fn shown_once_among(list: Seq<Candidate>, n: int)
    requires
        0 <= n <= list.len(),
    ensures
        forall|a: int, b: int|
            0 <= a < b < shown_among(list, n).len() ==> (
            #[trigger] shown_among(list, n)[a]).owner_pubkey != (
            #[trigger] shown_among(list, n)[b]).owner_pubkey || shown_among(list, n)[a].team_d_tag
                != shown_among(list, n)[b].team_d_tag,
    decreases n,
{
    if n > 0 {
        shown_once_among(list, n - 1);
        shown_are_the_heads(list, n - 1);
        let less = shown_among(list, n - 1);
        let all = shown_among(list, n);
        if is_shown(list, n - 1) {
            assert forall|a: int, b: int| 0 <= a < b < all.len() implies (
            #[trigger] all[a]).owner_pubkey != (#[trigger] all[b]).owner_pubkey
                || all[a].team_d_tag != all[b].team_d_tag by {
                assert(all[a] == less[a]);
                if b < less.len() {
                    assert(all[b] == less[b]);
                } else {
                    assert(less.contains(less[a]));
                    let k = choose|k: int|
                        0 <= k < n - 1 && is_shown(list, k) && less[a] == shown(#[trigger] list[k]);
                    hex_tells_apart(list[k].event.pubkey@, list[n - 1].event.pubkey@);
                    assert(!same_coordinate(list[k].event, list[n - 1].event));
                }
            }
        }
    }
}

/// Whether candidates of the same identifier are alike: an identifier is that
/// of one event.
pub open spec fn ids_are_of_one_event(candidates: Seq<Candidate>) -> bool {
    forall|i: int, j: int|
        0 <= i < candidates.len() && 0 <= j < candidates.len() && candidates[i].event.id@
            == candidates[j].event.id@ ==> #[trigger] alike(candidates[i], candidates[j])
}

/// What a whole fetch shows is what all verified events of its pages show.
///
/// `found` is read from the events that the fetch ends with, each identifier
/// once; `all` from every verified event of every page, repeats and all. An
/// event that does not verify is in neither, so that it claims nothing.
pub proof fn a_fetch_shows_what_verifies(
    pages: Seq<Seq<CatalogEvent>>,
    found: Seq<Candidate>,
    all: Seq<Candidate>,
)
    requires
        are_pages(pages),
        distinct(events_of(found)),
        by_id(events_of(found)) == after_pages(pages).index,
        events_of(all) == verified_of(all_events(pages)),
        ids_are_of_one_event(found + all),
    ensures
        catalog(found) == catalog(all),
        forall|i: int| 0 <= i < all.len() ==> (#[trigger] all[i]).event.verifies(),
{
    let index = after_pages(pages).index;
    let events = events_of(found);
    let verified = events_of(all);
    let both = found + all;
    a_fetch_finds_what_verifies(pages);
    merged_holds_both(Map::empty(), verified);
    verified_are_those_that_verify(all_events(pages));
    assert forall|i: int| 0 <= i < all.len() implies (#[trigger] all[i]).event.verifies() by {
        assert(verified[i] == all[i].event);
        assert(verified_of(all_events(pages)).contains(verified[i]));
    }
    assert forall|i: int, j: int|
        0 <= i < found.len() && 0 <= j < found.len() && found[i].event.id@
            == found[j].event.id@ && found[i].event.created_at
            == found[j].event.created_at implies #[trigger] alike(found[i], found[j]) by {
        assert(both[i] == found[i] && both[j] == found[j]);
        assert(alike(both[i], both[j]));
    }
    assert forall|i: int| 0 <= i < found.len() implies #[trigger] is_among(found[i], all) by {
        let id = found[i].event.id@;
        assert(events[i].id@ == id);
        assert(lists(events, id));
        assert(index.contains_key(id));
        let k = choose|k: int| 0 <= k < verified.len() && (#[trigger] verified[k]).id@ == id;
        assert(verified[k] == all[k].event);
        assert(both[i] == found[i] && both[found.len() + k] == all[k]);
        assert(alike(both[i], both[found.len() + k]));
        assert(alike(found[i], all[k]));
    }
    assert forall|k: int| 0 <= k < all.len() implies #[trigger] is_among(all[k], found) by {
        let id = all[k].event.id@;
        assert(verified[k].id@ == id);
        assert(lists(verified, id));
        assert(index.contains_key(id));
        assert(lists(events, id));
        let i = choose|i: int| 0 <= i < events.len() && (#[trigger] events[i]).id@ == id;
        assert(events[i] == found[i].event);
        assert(both[i] == found[i] && both[found.len() + k] == all[k]);
        assert(alike(both[found.len() + k], both[i]));
        assert(alike(all[k], found[i]));
    }
    arrival_order_is_ignored(found, all);
}

/// An event addresses a team exactly if it is of the kind 30178 and a tag `d`
/// with a value that is not empty is its only tag of that name.
pub proof fn a_team_is_addressed_by_its_only_tag(event: CatalogEvent, d: Seq<char>)
    ensures
        team_tag(event) == Some(d) <==> event.kind == 30178 && d.len() > 0 && exists|t: int|
            0 <= t < event.tags@.len() && (#[trigger] event.tags@[t])@.len() >= 2
                && event.tags@[t]@[0]@ == "d"@ && event.tags@[t]@[1]@ == d && forall|u: int|
                0 <= u < event.tags@.len() && u != t && (#[trigger] event.tags@[u])@.len() >= 1
                    ==> event.tags@[u]@[0]@ != "d"@,
{
    let tags = tag_views(event.tags@);
    a_single_tag_stands_alone(tags, "d"@, d);
    assert(tags.len() == event.tags@.len());
    assert forall|t: int| 0 <= t < tags.len() implies (#[trigger] tags[t]) == views(
        event.tags@[t]@,
    ) by {}
    if single_value(tags, "d"@) == Some(d) {
        let t = choose|t: int|
            0 <= t < tags.len() && (#[trigger] tags[t]).len() >= 2 && tags[t][0] == "d"@
                && tags[t][1] == d && forall|u: int|
                0 <= u < tags.len() && u != t && (#[trigger] tags[u]).len() >= 1 ==> tags[u][0]
                    != "d"@;
        assert(event.tags@[t]@.len() >= 2);
        assert forall|u: int| 0 <= u < event.tags@.len() && u != t && (
        #[trigger] event.tags@[u])@.len() >= 1 implies event.tags@[u]@[0]@ != "d"@ by {
            assert(tags[u].len() >= 1);
        }
    }
    if exists|t: int|
        0 <= t < event.tags@.len() && (#[trigger] event.tags@[t])@.len() >= 2
            && event.tags@[t]@[0]@ == "d"@ && event.tags@[t]@[1]@ == d && forall|u: int|
            0 <= u < event.tags@.len() && u != t && (#[trigger] event.tags@[u])@.len() >= 1
                ==> event.tags@[u]@[0]@ != "d"@ {
        let t = choose|t: int|
            0 <= t < event.tags@.len() && (#[trigger] event.tags@[t])@.len() >= 2
                && event.tags@[t]@[0]@ == "d"@ && event.tags@[t]@[1]@ == d && forall|u: int|
                0 <= u < event.tags@.len() && u != t && (#[trigger] event.tags@[u])@.len() >= 1
                    ==> event.tags@[u]@[0]@ != "d"@;
        assert(tags[t].len() >= 2 && tags[t][0] == "d"@ && tags[t][1] == d);
        assert forall|u: int| 0 <= u < tags.len() && u != t && (
        #[trigger] tags[u]).len() >= 1 implies tags[u][0] != "d"@ by {
            assert(event.tags@[u]@.len() >= 1);
        }
    }
}

/// A catalog, by the places of its publications. Each publication carries the
/// identifier, the author and the tag of the candidate at its place. They come
/// newest first, those of one time by ascending identifier, and repeats as they
/// stand. A candidate has a place exactly if it addresses a team, is shared and
/// valid, and every other of the same author and tag comes after it in that
/// order, shared or not.
pub proof fn a_catalog_holds_the_newest_of_each_team(candidates: Seq<Candidate>) -> (places: Seq<
    int,
>)
    ensures
        places.len() == catalog(candidates).len(),
        forall|k: int|
            0 <= k < places.len() ==> {
                let i = #[trigger] places[k];
                &&& 0 <= i < candidates.len()
                &&& catalog(candidates)[k].event_id == hex(candidates[i].event.id@)
                &&& catalog(candidates)[k].owner_pubkey == hex(candidates[i].event.pubkey@)
                &&& team_tag(candidates[i].event) == Some(catalog(candidates)[k].team_d_tag)
                &&& catalog(candidates)[k] == shown_team(
                    hex(candidates[i].event.id@),
                    hex(candidates[i].event.pubkey@),
                    team_tag(candidates[i].event)->0,
                    candidates[i].content->0,
                )
            },
        forall|a: int, b: int|
            0 <= a < b < places.len() ==> {
                let x = candidates[#[trigger] places[a]].event;
                let y = candidates[#[trigger] places[b]].event;
                ||| x.created_at > y.created_at
                ||| x.created_at == y.created_at && bytes_less(x.id@, y.id@)
                ||| x.created_at == y.created_at && x.id@ == y.id@ && places[a] < places[b]
            },
        forall|i: int| #[trigger]
            places.contains(i) <==> {
                &&& 0 <= i < candidates.len()
                &&& team_tag(candidates[i].event) is Some
                &&& candidates[i].shared
                &&& candidates[i].content is Some
                &&& forall|j: int|
                    0 <= j < candidates.len() && j != i && (#[trigger] candidates[j]).event.pubkey@
                        == candidates[i].event.pubkey@ && team_tag(candidates[j].event) == team_tag(
                        candidates[i].event,
                    ) ==> {
                        let x = candidates[i].event;
                        let y = candidates[j].event;
                        ||| x.created_at > y.created_at
                        ||| x.created_at == y.created_at && bytes_less(x.id@, y.id@)
                        ||| x.created_at == y.created_at && x.id@ == y.id@ && i < j
                    }
            },
{
    let events = events_of(candidates);
    let less = |i: int, j: int| before(events, i, j);
    let places = catalog_is_newest_first(candidates);
    assert forall|i: int, j: int|
        0 <= i < candidates.len() && 0 <= j < candidates.len() && i != j implies (
    #[trigger] before(events, i, j) <==> {
        let x = candidates[i].event;
        let y = candidates[j].event;
        ||| x.created_at > y.created_at
        ||| x.created_at == y.created_at && bytes_less(x.id@, y.id@)
        ||| x.created_at == y.created_at && x.id@ == y.id@ && i < j
    }) by {
        assert(events[i] == candidates[i].event && events[j] == candidates[j].event);
        bytes_less_is_an_order(events[i].id@, events[j].id@, events[i].id@);
    }
    assert forall|k: int| 0 <= k < places.len() implies shows(
        candidates,
        #[trigger] places[k],
    ) && catalog(candidates)[k] == shown(candidates[places[k]]) by {
        assert(places.contains(places[k]));
    }
    assert forall|a: int, b: int| 0 <= a < b < places.len() implies {
        let x = candidates[#[trigger] places[a]].event;
        let y = candidates[#[trigger] places[b]].event;
        ||| x.created_at > y.created_at
        ||| x.created_at == y.created_at && bytes_less(x.id@, y.id@)
        ||| x.created_at == y.created_at && x.id@ == y.id@ && places[a] < places[b]
    } by {
        assert(less(places[a], places[b]));
        before_is_an_order(events, places[a], places[b], places[a]);
        assert(before(events, places[a], places[b]));
        assert(shows(candidates, places[a]) && shows(candidates, places[b]));
    }
    assert forall|i: int| #[trigger] places.contains(i) <==> {
        &&& 0 <= i < candidates.len()
        &&& team_tag(candidates[i].event) is Some
        &&& candidates[i].shared
        &&& candidates[i].content is Some
        &&& forall|j: int|
            0 <= j < candidates.len() && j != i && (#[trigger] candidates[j]).event.pubkey@
                == candidates[i].event.pubkey@ && team_tag(candidates[j].event) == team_tag(
                candidates[i].event,
            ) ==> {
                let x = candidates[i].event;
                let y = candidates[j].event;
                ||| x.created_at > y.created_at
                ||| x.created_at == y.created_at && bytes_less(x.id@, y.id@)
                ||| x.created_at == y.created_at && x.id@ == y.id@ && i < j
            }
    } by {
        assert(places.contains(i) <==> shows(candidates, i));
        if 0 <= i < candidates.len() && team_tag(candidates[i].event) is Some {
            assert forall|j: int| 0 <= j < candidates.len() implies (same_coordinate(
                (#[trigger] candidates[j]).event,
                candidates[i].event,
            ) <==> candidates[j].event.pubkey@ == candidates[i].event.pubkey@ && team_tag(
                candidates[j].event,
            ) == team_tag(candidates[i].event)) by {}
            if heads_coordinate(candidates, i) {
                assert forall|j: int|
                    0 <= j < candidates.len() && j != i && (
                    #[trigger] candidates[j]).event.pubkey@ == candidates[i].event.pubkey@
                        && team_tag(candidates[j].event) == team_tag(
                        candidates[i].event,
                    ) implies before(events, i, j) by {
                    assert(same_coordinate(candidates[j].event, candidates[i].event));
                }
            } else {
                let j = choose|j: int|
                    0 <= j < candidates.len() && j != i && same_coordinate(
                        (#[trigger] candidates[j]).event,
                        candidates[i].event,
                    ) && !before(events, i, j);
                assert(candidates[j].event.pubkey@ == candidates[i].event.pubkey@);
            }
        }
    }
    places
}

} // verus!
