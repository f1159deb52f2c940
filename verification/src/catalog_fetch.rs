//! Paging through a relay's catalog, one request at a time.
//!
//! The scope of a fetch, that is, whose it is and from which relay, is taken
//! at its start and held against that at its end, so that what an old
//! community answered late cannot stand as the new one's catalog.
use vstd::prelude::*;

use crate::event::{same_bytes, verify, CatalogEvent};
use crate::team_catalog::KIND_TEAM_CATALOG;
use crate::text::same_text;

verus! {

/// The events asked for in one page.
pub const CATALOG_PAGE_SIZE: usize = 500;

/// The pages asked for in one fetch.
pub const MAX_CATALOG_PAGES: usize = 40;

/// The seconds that one page may take.
pub const PAGE_TIMEOUT_SECS: u64 = 10;

/// Whether no two events of a list have the same identifier.
pub open spec fn distinct(events: Seq<CatalogEvent>) -> bool {
    forall|i: int, j: int|
        0 <= i < j < events.len() ==> (#[trigger] events[i]).id@ != (#[trigger] events[j]).id@
}

/// Whether an identifier is that of an event of a list.
pub open spec fn lists(events: Seq<CatalogEvent>, id: Seq<u8>) -> bool {
    exists|i: int| 0 <= i < events.len() && (#[trigger] events[i]).id@ == id
}

/// The events of a list by their identifiers.
pub open spec fn by_id(events: Seq<CatalogEvent>) -> Map<Seq<u8>, CatalogEvent> {
    Map::new(
        |id: Seq<u8>| lists(events, id),
        |id: Seq<u8>|
            events[choose|i: int| 0 <= i < events.len() && (#[trigger] events[i]).id@ == id],
    )
}

/// Events by their identifiers, each once.
#[derive(Debug)]
pub struct EventIndex {
    events: Vec<CatalogEvent>,
}

impl View for EventIndex {
    type V = Map<Seq<u8>, CatalogEvent>;

    closed spec fn view(&self) -> Map<Seq<u8>, CatalogEvent> {
        by_id(self.events@)
    }
}

/// Distinct events are as many as their identifiers.
proof fn by_id_counts(events: Seq<CatalogEvent>)
    requires
        distinct(events),
    ensures
        by_id(events).dom().finite(),
        by_id(events).dom().len() == events.len(),
    decreases events.len(),
{
    let ids = by_id(events).dom();
    if events.len() == 0 {
        assert(ids =~= Set::empty());
    } else {
        let front = events.drop_last();
        let id = events.last().id@;
        assert(forall|k: int| 0 <= k < front.len() ==> front[k] == #[trigger] events[k]);
        by_id_counts(front);
        assert(!lists(front, id)) by {
            if lists(front, id) {
                let k = choose|k: int| 0 <= k < front.len() && (#[trigger] front[k]).id@ == id;
                assert(events[k].id@ != events[events.len() - 1].id@);
            }
        }
        assert forall|other: Seq<u8>| #[trigger] lists(events, other) <==> lists(front, other)
            || other == id by {
            if lists(events, other) {
                let k = choose|k: int| 0 <= k < events.len() && (#[trigger] events[k]).id@ == other;
                if k < front.len() {
                    assert(front[k].id@ == other);
                }
            }
            if lists(front, other) {
                let k = choose|k: int| 0 <= k < front.len() && (#[trigger] front[k]).id@ == other;
                assert(events[k].id@ == other);
            }
            if other == id {
                assert(events[events.len() - 1].id@ == other);
            }
        }
        assert(ids =~= by_id(front).dom().insert(id));
    }
}

proof fn by_id_finds(events: Seq<CatalogEvent>, i: int)
    requires
        distinct(events),
        0 <= i < events.len(),
    ensures
        by_id(events).contains_key(events[i].id@),
        by_id(events)[events[i].id@] == events[i],
{
    let id = events[i].id@;
    let k = choose|k: int| 0 <= k < events.len() && (#[trigger] events[k]).id@ == id;
    assert(events[k].id@ == id);
    if k < i {
        assert(events[k].id@ != events[i].id@);
    } else if i < k {
        assert(events[i].id@ != events[k].id@);
    }
}

impl EventIndex {
    /// No two events have the same identifier.
    pub closed spec fn wf(self) -> bool {
        distinct(self.events@)
    }

    /// An index without events.
    pub fn new() -> (r: EventIndex)
        ensures
            r.wf(),
            r@ == Map::<Seq<u8>, CatalogEvent>::empty(),
    {
        let r = EventIndex { events: Vec::new() };
        assert(r@ =~= Map::<Seq<u8>, CatalogEvent>::empty());
        r
    }

    /// The number of events.
    pub fn len(&self) -> (r: usize)
        requires
            self.wf(),
        ensures
            self@.dom().finite(),
            r == self@.dom().len(),
    {
        proof {
            by_id_counts(self.events@);
        }
        self.events.len()
    }

    /// Puts an event under its identifier, in place of one that stood there.
    pub fn insert(&mut self, event: CatalogEvent)
        requires
            old(self).wf(),
        ensures
            final(self).wf(),
            final(self)@ == old(self)@.insert(event.id@, event),
    {
        let mut i: usize = 0;
        let n: usize = self.events.len();
        while i < n && !same_bytes(&self.events[i].id, &event.id)
            invariant
                *self == *old(self),
                n == self.events@.len(),
                i <= n,
                forall|k: int| 0 <= k < i ==> (#[trigger] self.events@[k]).id@ != event.id@,
            decreases n - i,
        {
            i = i + 1;
        }
        let ghost was = self.events@;
        if i < n {
            self.events.set(i, event);
        } else {
            self.events.push(event);
        }
        proof {
            let now = self.events@;
            let map = by_id(was).insert(event.id@, event);
            assert(by_id(was).contains_key(event.id@) <==> i < n) by {
                if i < n {
                    assert(was[i as int].id@ == event.id@);
                }
            }
            assert(distinct(now));
            assert(now[i as int] == event);
            assert forall|id: Seq<u8>| #[trigger] lists(now, id) <==> lists(was, id) || id
                == event.id@ by {
                if lists(was, id) {
                    let k = choose|k: int| 0 <= k < was.len() && (#[trigger] was[k]).id@ == id;
                    assert(now[k].id@ == id);
                }
                if id == event.id@ {
                    assert(now[i as int].id@ == id);
                }
                if lists(now, id) {
                    let k = choose|k: int| 0 <= k < now.len() && (#[trigger] now[k]).id@ == id;
                    if k != i {
                        assert(was[k].id@ == id);
                    }
                }
            }
            assert forall|id: Seq<u8>| by_id(now).contains_key(id) implies #[trigger] by_id(now)[id]
                == map[id] by {
                assert(lists(now, id));
                let k = choose|k: int| 0 <= k < now.len() && (#[trigger] now[k]).id@ == id;
                by_id_finds(now, k);
                if k != i {
                    assert(now[k] == was[k]);
                    by_id_finds(was, k);
                    if id == event.id@ {
                        if k < i {
                            assert(now[k].id@ != now[i as int].id@);
                        } else {
                            assert(now[i as int].id@ != now[k].id@);
                        }
                    }
                }
            }
            assert forall|id: Seq<u8>| #[trigger] by_id(now).contains_key(id) <==> map.contains_key(
                id,
            ) by {
                assert(lists(now, id) <==> lists(was, id) || id == event.id@);
            }
            assert(by_id(now) =~= map);
        }
    }

    /// The events, each once.
    pub fn into_events(self) -> (r: Vec<CatalogEvent>)
        requires
            self.wf(),
        ensures
            distinct(r@),
            by_id(r@) == self@,
            forall|i: int, j: int|
                0 <= i < j < r@.len() ==> (#[trigger] r@[i]).id@ != (#[trigger] r@[j]).id@,
            forall|i: int|
                0 <= i < r@.len() ==> self@.contains_key((#[trigger] r@[i]).id@)
                    && self@[r@[i].id@] == r@[i],
            forall|id: Seq<u8>| #[trigger]
                self@.contains_key(id) ==> exists|i: int|
                    0 <= i < r@.len() && (#[trigger] r@[i]).id@ == id,
    {
        proof {
            assert forall|i: int| 0 <= i < self.events@.len() implies self@.contains_key(
                (#[trigger] self.events@[i]).id@,
            ) && self@[self.events@[i].id@] == self.events@[i] by {
                by_id_finds(self.events@, i);
            }
        }
        self.events
    }
}

/// What an index holds once events have been put in one after the other.
pub open spec fn merged(
    index: Map<Seq<u8>, CatalogEvent>,
    events: Seq<CatalogEvent>,
) -> Map<Seq<u8>, CatalogEvent>
    decreases events.len(),
{
    if events.len() == 0 {
        index
    } else {
        merged(index, events.drop_last()).insert(events.last().id@, events.last())
    }
}

/// Whether an event of a list is new to an index.
pub open spec fn brings_new(
    index: Map<Seq<u8>, CatalogEvent>,
    events: Seq<CatalogEvent>,
) -> bool {
    exists|k: int| 0 <= k < events.len() && !index.contains_key((#[trigger] events[k]).id@)
}

/// Whether `at` is the time of the oldest event of a list.
pub open spec fn is_oldest(events: Seq<CatalogEvent>, at: u64) -> bool {
    &&& exists|k: int| 0 <= k < events.len() && (#[trigger] events[k]).created_at == at
    &&& forall|k: int| 0 <= k < events.len() ==> at <= (#[trigger] events[k]).created_at
}

/// An index holds what it held and what was put in.
pub proof fn merged_holds_both(index: Map<Seq<u8>, CatalogEvent>, events: Seq<CatalogEvent>)
    ensures
        forall|id: Seq<u8>| #[trigger]
            merged(index, events).contains_key(id) <==> index.contains_key(id) || lists(events, id),
        forall|id: Seq<u8>|
            index.contains_key(id) && !lists(events, id) ==> #[trigger] merged(index, events)[id]
                == index[id],
        forall|id: Seq<u8>|
            lists(events, id) ==> events.contains(#[trigger] merged(index, events)[id]) && merged(
                index,
                events,
            )[id].id@ == id,
    decreases events.len(),
{
    if events.len() > 0 {
        let front = events.drop_last();
        merged_holds_both(index, front);
        assert(forall|k: int| 0 <= k < front.len() ==> front[k] == #[trigger] events[k]);
        assert forall|id: Seq<u8>| #[trigger] lists(events, id) <==> lists(front, id) || id
            == events.last().id@ by {
            if lists(front, id) {
                let k = choose|k: int| 0 <= k < front.len() && (#[trigger] front[k]).id@ == id;
                assert(events[k].id@ == id);
            }
            if id == events.last().id@ {
                assert(events[events.len() - 1].id@ == id);
            }
            if lists(events, id) {
                let k = choose|k: int| 0 <= k < events.len() && (#[trigger] events[k]).id@ == id;
                if k < front.len() {
                    assert(front[k].id@ == id);
                }
            }
        }
        assert forall|id: Seq<u8>| #[trigger]
            merged(index, events).contains_key(id) <==> index.contains_key(id) || lists(
                events,
                id,
            ) by {
            assert(merged(index, front).contains_key(id) <==> index.contains_key(id) || lists(
                front,
                id,
            ));
            assert(lists(events, id) <==> lists(front, id) || id == events.last().id@);
        }
        assert forall|id: Seq<u8>| index.contains_key(id) && !lists(events, id) implies
            #[trigger] merged(index, events)[id] == index[id] by {
            assert(lists(events, id) <==> lists(front, id) || id == events.last().id@);
            assert(merged(index, front)[id] == index[id]);
        }
        assert forall|id: Seq<u8>| lists(events, id) implies events.contains(
            #[trigger] merged(index, events)[id],
        ) && merged(index, events)[id].id@ == id by {
            if id == events.last().id@ {
                assert(events[events.len() - 1] == merged(index, events)[id]);
            } else {
                assert(lists(front, id));
                let e = merged(index, front)[id];
                assert(front.contains(e));
                let k = choose|k: int| 0 <= k < front.len() && front[k] == e;
                assert(events[k] == e);
            }
        }
    }
}

/// What came last under an identifier stands there.
proof fn merged_keeps_the_last(index: Map<Seq<u8>, CatalogEvent>, events: Seq<CatalogEvent>)
    ensures
        forall|k: int|
            0 <= k < events.len() && (forall|m: int|
                k < m < events.len() ==> (#[trigger] events[m]).id@ != events[k].id@) ==> merged(
                index,
                events,
            )[(#[trigger] events[k]).id@] == events[k],
    decreases events.len(),
{
    if events.len() > 0 {
        let front = events.drop_last();
        merged_keeps_the_last(index, front);
        assert forall|k: int|
            0 <= k < events.len() && (forall|m: int|
                k < m < events.len() ==> (#[trigger] events[m]).id@ != events[k].id@) implies merged(
            index,
            events,
        )[(#[trigger] events[k]).id@] == events[k] by {
            if k < front.len() {
                assert(events[events.len() - 1].id@ != events[k].id@);
                assert(front[k] == events[k]);
                assert forall|m: int| k < m < front.len() implies (#[trigger] front[m]).id@
                    != front[k].id@ by {
                    assert(events[m].id@ != events[k].id@);
                }
            }
        }
    }
}

/// A page that is followed by another has made the index larger, so that a
/// fetch that goes on makes progress.
pub proof fn new_events_grow_the_index(
    index: Map<Seq<u8>, CatalogEvent>,
    events: Seq<CatalogEvent>,
)
    ensures
        brings_new(index, events) <==> merged(index, events).dom() != index.dom(),
        index.dom().subset_of(merged(index, events).dom()),
{
    merged_holds_both(index, events);
    let all = merged(index, events);
    if brings_new(index, events) {
        let k = choose|k: int|
            0 <= k < events.len() && !index.contains_key((#[trigger] events[k]).id@);
        assert(lists(events, events[k].id@));
        assert(all.dom().contains(events[k].id@));
    } else {
        assert forall|id: Seq<u8>| all.dom().contains(id) implies index.dom().contains(id) by {
            if lists(events, id) {
                let k = choose|k: int| 0 <= k < events.len() && (#[trigger] events[k]).id@ == id;
                assert(index.contains_key(events[k].id@));
            }
        }
        assert(all.dom() =~= index.dom());
    }
}

/// What follows a page.
#[derive(Clone, Copy, Debug, PartialEq, Eq, Structural)]
pub enum PageProgress {
    /// No further page.
    Done,
    /// A page of what is not newer than this time.
    Next(u64),
}

/// Whether a page is the last: it is short, or it brings nothing new, so that
/// an inclusive cursor cannot advance past tied timestamps.
pub open spec fn is_last_page(
    index: Map<Seq<u8>, CatalogEvent>,
    wire_page_len: nat,
    verified: Seq<CatalogEvent>,
) -> bool {
    wire_page_len < CATALOG_PAGE_SIZE || !brings_new(index, verified)
}

/// Puts a page's verified events into the index, and decides what follows it.
///
/// `wire_page_len` is the length of the page before verification. The cursor
/// is the oldest verified time: a page of invalid signatures supplies none.
pub fn merge_verified_page(
    by_id: &mut EventIndex,
    wire_page_len: usize,
    verified: Vec<CatalogEvent>,
) -> (r: PageProgress)
    requires
        old(by_id).wf(),
    ensures
        final(by_id).wf(),
        final(by_id)@ == merged(old(by_id)@, verified@),
        match r {
            PageProgress::Done => is_last_page(old(by_id)@, wire_page_len as nat, verified@),
            PageProgress::Next(at) => !is_last_page(old(by_id)@, wire_page_len as nat, verified@)
                && is_oldest(verified@, at),
        },
        // The end is a short page, or one of only repeats.
        r is Done <==> wire_page_len < 500 || forall|k: int|
            0 <= k < verified@.len() ==> old(by_id)@.contains_key((#[trigger] verified@[k]).id@),
        // Otherwise the cursor is the oldest time of the page.
        r matches PageProgress::Next(at) ==> {
            &&& exists|k: int| 0 <= k < verified@.len() && (#[trigger] verified@[k]).created_at == at
            &&& forall|k: int| 0 <= k < verified@.len() ==> at <= (#[trigger] verified@[k]).created_at
        },
        // What was there and what came is there.
        forall|id: Seq<u8>| #[trigger]
            final(by_id)@.contains_key(id) <==> old(by_id)@.contains_key(id) || exists|k: int|
                0 <= k < verified@.len() && (#[trigger] verified@[k]).id@ == id,
        // What did not come again stays.
        forall|id: Seq<u8>|
            old(by_id)@.contains_key(id) && (forall|k: int|
                0 <= k < verified@.len() ==> (#[trigger] verified@[k]).id@ != id) ==> (
            #[trigger] final(by_id)@[id]) == old(by_id)@[id],
        // What came last under an identifier stands there.
        forall|k: int|
            0 <= k < verified@.len() && (forall|m: int|
                k < m < verified@.len() ==> (#[trigger] verified@[m]).id@ != verified@[k].id@)
                ==> final(by_id)@[(#[trigger] verified@[k]).id@] == verified@[k],
{
    let size_before: usize = by_id.len();
    let ghost index = by_id@;
    let ghost events = verified@;
    let mut oldest: Option<u64> = None;
    assert(events.take(0) =~= Seq::empty());
    for event in it: verified
        invariant
            by_id.wf(),
            it.seq() == events,
            by_id@ == merged(index, events.take(it.index() as int)),
            index.dom().finite(),
            by_id@.dom().finite(),
            index.dom().len() == size_before,
            by_id@.dom().len() >= size_before,
            by_id@.dom().len() > size_before <==> brings_new(
                index,
                events.take(it.index() as int),
            ),
            it.index() == 0 <==> oldest is None,
            oldest is Some ==> is_oldest(events.take(it.index() as int), oldest->0),
    {
        let ghost i = it.index() as int;
        let ghost upto = events.take(i);
        let ghost more = events.take(i + 1);
        proof {
            assert(more.drop_last() =~= upto);
            assert(more.last() == event);
            assert(forall|k: int| 0 <= k < i ==> upto[k] == #[trigger] more[k]);
            merged_holds_both(index, upto);
        }
        oldest = match oldest {
            Some(at) => if event.created_at < at {
                Some(event.created_at)
            } else {
                Some(at)
            },
            None => Some(event.created_at),
        };
        proof {
            assert(more[i] == event);
            if oldest->0 != event.created_at {
                let k = choose|k: int|
                    0 <= k < upto.len() && (#[trigger] upto[k]).created_at == oldest->0;
                assert(more[k].created_at == oldest->0);
            }
            assert(is_oldest(more, oldest->0));
            if brings_new(index, upto) {
                let k = choose|k: int|
                    0 <= k < upto.len() && !index.contains_key((#[trigger] upto[k]).id@);
                assert(!index.contains_key(more[k].id@));
            }
            if brings_new(index, more) && !brings_new(index, upto) {
                let k = choose|k: int|
                    0 <= k < more.len() && !index.contains_key((#[trigger] more[k]).id@);
                if k < i {
                    assert(!index.contains_key(upto[k].id@));
                }
                assert(!lists(upto, event.id@)) by {
                    if lists(upto, event.id@) {
                        let m = choose|m: int|
                            0 <= m < upto.len() && (#[trigger] upto[m]).id@ == event.id@;
                        assert(index.contains_key(upto[m].id@));
                    }
                }
            }
            if !index.contains_key(event.id@) {
                assert(!index.contains_key(more[i].id@));
            }
        }
        by_id.insert(event);
    }
    assert(events.take(events.len() as int) =~= events);
    proof {
        merged_holds_both(index, events);
        merged_keeps_the_last(index, events);
        assert(brings_new(index, events) <==> !(forall|k: int|
            0 <= k < events.len() ==> index.contains_key((#[trigger] events[k]).id@)));
        assert forall|id: Seq<u8>| #[trigger] by_id@.contains_key(id) <==> index.contains_key(id)
            || exists|k: int| 0 <= k < events.len() && (#[trigger] events[k]).id@ == id by {
            assert(merged(index, events).contains_key(id) <==> index.contains_key(id) || lists(
                events,
                id,
            ));
        }
        assert forall|id: Seq<u8>|
            index.contains_key(id) && (forall|k: int|
                0 <= k < events.len() ==> (#[trigger] events[k]).id@ != id) implies (
        #[trigger] by_id@[id]) == index[id] by {
            assert(!lists(events, id));
            assert(merged(index, events)[id] == index[id]);
        }
    }
    if wire_page_len < CATALOG_PAGE_SIZE || by_id.len() == size_before {
        return PageProgress::Done;
    }
    match oldest {
        Some(at) => PageProgress::Next(at),
        None => PageProgress::Done,
    }
}

/// Whether every event that an index holds has verified, and lies under its
/// own identifier.
pub open spec fn all_verified(index: Map<Seq<u8>, CatalogEvent>) -> bool {
    forall|id: Seq<u8>| #[trigger]
        index.contains_key(id) ==> index[id].verifies() && index[id].id@ == id
}

/// The events of a page that verify, in order.
pub open spec fn verified_of(page: Seq<CatalogEvent>) -> Seq<CatalogEvent>
    decreases page.len(),
{
    if page.len() == 0 {
        Seq::empty()
    } else if page.last().verifies() {
        verified_of(page.drop_last()).push(page.last())
    } else {
        verified_of(page.drop_last())
    }
}

/// Keeps the events of a page whose identifier and signature are their own.
pub fn verified_events(page: Vec<CatalogEvent>) -> (r: Vec<CatalogEvent>)
    ensures
        r@ == verified_of(page@),
        r@ == page@.filter(|e: CatalogEvent| e.verifies()),
{
    proof {
        verified_is_a_filter(page@);
    }
    let ghost events = page@;
    let mut r: Vec<CatalogEvent> = Vec::new();
    assert(events.take(0) =~= Seq::empty());
    for event in it: page
        invariant
            it.seq() == events,
            r@ == verified_of(events.take(it.index() as int)),
    {
        let ghost i = it.index() as int;
        proof {
            assert(events.take(i + 1).drop_last() =~= events.take(i));
            assert(events.take(i + 1).last() == event);
        }
        if verify(&event) {
            r.push(event);
        }
    }
    assert(events.take(events.len() as int) =~= events);
    r
}

/// What verifies is kept in its order, each as often as it came.
pub proof fn verified_is_a_filter(page: Seq<CatalogEvent>)
    ensures
        verified_of(page) == page.filter(|e: CatalogEvent| e.verifies()),
    decreases page.len(),
{
    reveal(Seq::filter);
    if page.len() > 0 {
        verified_is_a_filter(page.drop_last());
    }
}

/// Only events of the page that verify are kept, and all of them: a forged one
/// is dropped before it can claim anything.
pub proof fn verified_are_those_that_verify(page: Seq<CatalogEvent>)
    ensures
        forall|e: CatalogEvent| #[trigger]
            verified_of(page).contains(e) <==> page.contains(e) && e.verifies(),
    decreases page.len(),
{
    if page.len() > 0 {
        let front = page.drop_last();
        let last = page.last();
        verified_are_those_that_verify(front);
        assert forall|e: CatalogEvent| #[trigger] page.contains(e) <==> front.contains(e) || e
            == last by {
            if front.contains(e) {
                let k = choose|k: int| 0 <= k < front.len() && front[k] == e;
                assert(page[k] == e);
            }
            if e == last {
                assert(page[page.len() - 1] == e);
            }
            if page.contains(e) {
                let k = choose|k: int| 0 <= k < page.len() && page[k] == e;
                if k < front.len() {
                    assert(front[k] == e);
                }
            }
        }
        let kept = verified_of(front);
        assert forall|e: CatalogEvent| #[trigger] verified_of(page).contains(e) <==> page.contains(
            e,
        ) && e.verifies() by {
            assert(kept.contains(e) <==> front.contains(e) && e.verifies());
            assert(page.contains(e) <==> front.contains(e) || e == last);
            if last.verifies() {
                if kept.contains(e) {
                    let k = choose|k: int| 0 <= k < kept.len() && kept[k] == e;
                    assert(kept.push(last)[k] == e);
                }
                if e == last {
                    assert(kept.push(last)[kept.len() as int] == e);
                }
                if verified_of(page).contains(e) {
                    let k = choose|k: int|
                        0 <= k < verified_of(page).len() && verified_of(page)[k] == e;
                    if k < kept.len() {
                        assert(kept[k] == e);
                    }
                }
            }
        }
    }
}

/// Whose catalog is fetched, and from which relay.
#[derive(Debug)]
pub struct Scope {
    /// The author's public key, in hexadecimal.
    pub owner: String,
    pub relay_url: String,
}

impl Scope {
    /// Whether two scopes are the same.
    pub open spec fn is(self, other: Scope) -> bool {
        self.owner@ == other.owner@ && self.relay_url@ == other.relay_url@
    }
}

/// What one page is asked for with.
#[derive(Clone, Copy, Debug, PartialEq, Eq)]
pub struct PageRequest {
    pub kind: u32,
    pub limit: usize,
    /// The newest time to answer with, where there is a limit.
    pub until: Option<u64>,
}

/// The time of the oldest event of a list.
pub open spec fn oldest(events: Seq<CatalogEvent>) -> u64 {
    choose|at: u64| is_oldest(events, at)
}

/// How far a fetch is: what it has found, the newest time to ask for, the
/// number of pages that came, and whether the last of them ended it.
#[verifier::ext_equal]
pub ghost struct Progress {
    pub index: Map<Seq<u8>, CatalogEvent>,
    pub until: Option<u64>,
    pub pages: nat,
    pub done: bool,
}

impl Progress {
    /// Nothing was asked for yet.
    pub open spec fn start() -> Progress {
        Progress { index: Map::empty(), until: None, pages: 0, done: false }
    }

    /// Whether another page is to be asked for.
    pub open spec fn wants_page(self) -> bool {
        !self.done && self.pages < MAX_CATALOG_PAGES
    }

    /// What a page is asked for with.
    pub open spec fn request(self) -> PageRequest {
        PageRequest { kind: KIND_TEAM_CATALOG, limit: CATALOG_PAGE_SIZE, until: self.until }
    }

    /// What a page does: what verifies in it is kept, and the cursor moves to
    /// the oldest of that, unless the page is the last.
    pub open spec fn after(self, page: Seq<CatalogEvent>) -> Progress {
        let kept = verified_of(page);
        let done = is_last_page(self.index, page.len(), kept);
        Progress {
            index: merged(self.index, kept),
            until: if done {
                self.until
            } else {
                Some(oldest(kept))
            },
            pages: self.pages + 1,
            done,
        }
    }
}

/// A fetch that is under way.
#[derive(Debug)]
pub struct CatalogFetch {
    scope: Scope,
    index: EventIndex,
    until: Option<u64>,
    pages: usize,
    done: bool,
}

impl View for CatalogFetch {
    type V = Progress;

    closed spec fn view(&self) -> Progress {
        Progress {
            index: self.index@,
            until: self.until,
            pages: self.pages as nat,
            done: self.done,
        }
    }
}

impl CatalogFetch {
    /// The index is one, all that it holds has verified, and no more pages
    /// have come than may.
    pub closed spec fn wf(self) -> bool {
        self.index.wf() && all_verified(self.index@) && self.pages <= MAX_CATALOG_PAGES
    }

    /// The scope that the fetch was started for.
    pub closed spec fn started_for(self) -> Scope {
        self.scope
    }

    /// A fetch that has not asked for anything.
    pub fn new(scope: Scope) -> (r: CatalogFetch)
        ensures
            r.wf(),
            r.started_for() == scope,
            r@ == Progress::start(),
    {
        CatalogFetch { scope, index: EventIndex::new(), until: None, pages: 0, done: false }
    }

    /// The next page to ask for, if there is one.
    pub fn next_request(&self) -> (r: Option<PageRequest>)
        ensures
            r == (if self@.wants_page() {
                Some(self@.request())
            } else {
                None
            }),
    {
        if self.done || self.pages >= MAX_CATALOG_PAGES {
            return None;
        }
        Some(
            PageRequest { kind: KIND_TEAM_CATALOG, limit: CATALOG_PAGE_SIZE, until: self.until },
        )
    }

    /// Takes a page in: keeps what verifies, and moves the cursor or ends the
    /// fetch.
    pub fn receive(&mut self, page: Vec<CatalogEvent>)
        requires
            old(self).wf(),
            old(self)@.wants_page(),
        ensures
            final(self).wf(),
            final(self).started_for() == old(self).started_for(),
            final(self)@ == old(self)@.after(page@),
    {
        let wire_page_len: usize = page.len();
        let ghost all_of_page = page@;
        let verified = verified_events(page);
        let ghost kept = verified@;
        let progress = merge_verified_page(&mut self.index, wire_page_len, verified);
        proof {
            merged_has_verified(old(self).index@, all_of_page);
        }
        self.pages = self.pages + 1;
        match progress {
            PageProgress::Done => {
                self.done = true;
            },
            PageProgress::Next(at) => {
                proof {
                    oldest_is_one(kept, at);
                }
                self.until = Some(at);
            },
        }
    }

    /// The fetched events, if the scope is still that of the start.
    pub fn finish(self, current: &Scope) -> (r: Result<Vec<CatalogEvent>, String>)
        requires
            self.wf(),
        ensures
            r is Ok <==> self.started_for().is(*current),
            r is Ok <==> self.started_for().owner@ == current.owner@
                && self.started_for().relay_url@ == current.relay_url@,
            r is Ok ==> {
                &&& distinct(r->Ok_0@)
                &&& by_id(r->Ok_0@) == self@.index
                &&& forall|i: int, j: int|
                    0 <= i < j < r->Ok_0@.len() ==> (#[trigger] r->Ok_0@[i]).id@ != (
                    #[trigger] r->Ok_0@[j]).id@
                &&& forall|i: int|
                    0 <= i < r->Ok_0@.len() ==> self@.index.contains_key(
                        (#[trigger] r->Ok_0@[i]).id@,
                    ) && self@.index[r->Ok_0@[i].id@] == r->Ok_0@[i]
                &&& forall|id: Seq<u8>| #[trigger]
                    self@.index.contains_key(id) ==> exists|i: int|
                        0 <= i < r->Ok_0@.len() && (#[trigger] r->Ok_0@[i]).id@ == id
                &&& forall|i: int| 0 <= i < r->Ok_0@.len() ==> (#[trigger] r->Ok_0@[i]).verifies()
            },
            r is Err ==> r->Err_0@ == "team catalog scope changed while fetching"@,
    {
        if !same_text(self.scope.owner.as_str(), current.owner.as_str()) || !same_text(
            self.scope.relay_url.as_str(),
            current.relay_url.as_str(),
        ) {
            return Err("team catalog scope changed while fetching".to_owned());
        }
        let events = self.index.into_events();
        proof {
            assert forall|i: int| 0 <= i < events@.len() implies (
            #[trigger] events@[i]).verifies() by {
                by_id_finds(events@, i);
            }
        }
        Ok(events)
    }
}

proof fn oldest_is_one(events: Seq<CatalogEvent>, at: u64)
    requires
        is_oldest(events, at),
    ensures
        oldest(events) == at,
{
    let other = oldest(events);
    assert(is_oldest(events, other));
    let i = choose|k: int| 0 <= k < events.len() && (#[trigger] events[k]).created_at == at;
    let j = choose|k: int| 0 <= k < events.len() && (#[trigger] events[k]).created_at == other;
    assert(other <= events[i].created_at && at <= events[j].created_at);
}

proof fn merged_has_verified(index: Map<Seq<u8>, CatalogEvent>, page: Seq<CatalogEvent>)
    requires
        all_verified(index),
    ensures
        all_verified(merged(index, verified_of(page))),
{
    let kept = verified_of(page);
    let all = merged(index, kept);
    verified_are_those_that_verify(page);
    merged_holds_both(index, kept);
    assert forall|id: Seq<u8>| #[trigger] all.contains_key(id) implies all[id].verifies()
        && all[id].id@ == id by {
        if lists(kept, id) {
            assert(kept.contains(all[id]));
        } else {
            assert(index.contains_key(id));
        }
    }
}

/// How far a fetch is after some pages.
pub open spec fn after_pages(pages: Seq<Seq<CatalogEvent>>) -> Progress
    decreases pages.len(),
{
    if pages.len() == 0 {
        Progress::start()
    } else {
        after_pages(pages.drop_last()).after(pages.last())
    }
}

/// Whether a list of pages is that of a fetch: each was asked for after those
/// before it.
pub open spec fn are_pages(pages: Seq<Seq<CatalogEvent>>) -> bool {
    forall|i: int| 0 <= i < pages.len() ==> (#[trigger] after_pages(pages.take(i))).wants_page()
}

/// The events of all pages, in the order in which they came.
pub open spec fn all_events(pages: Seq<Seq<CatalogEvent>>) -> Seq<CatalogEvent>
    decreases pages.len(),
{
    if pages.len() == 0 {
        Seq::empty()
    } else {
        all_events(pages.drop_last()) + pages.last()
    }
}

proof fn verified_of_both(a: Seq<CatalogEvent>, b: Seq<CatalogEvent>)
    ensures
        verified_of(a + b) == verified_of(a) + verified_of(b),
    decreases b.len(),
{
    if b.len() == 0 {
        assert(a + b =~= a);
        assert(verified_of(a) + verified_of(b) =~= verified_of(a));
    } else {
        verified_of_both(a, b.drop_last());
        assert((a + b).drop_last() =~= a + b.drop_last());
        assert(verified_of(a + b) =~= verified_of(a) + verified_of(b));
    }
}

proof fn merged_in_turn(
    index: Map<Seq<u8>, CatalogEvent>,
    a: Seq<CatalogEvent>,
    b: Seq<CatalogEvent>,
)
    ensures
        merged(merged(index, a), b) == merged(index, a + b),
    decreases b.len(),
{
    if b.len() == 0 {
        assert(a + b =~= a);
    } else {
        merged_in_turn(index, a, b.drop_last());
        assert((a + b).drop_last() =~= a + b.drop_last());
    }
}

proof fn fetch_merges_all(pages: Seq<Seq<CatalogEvent>>)
    ensures
        after_pages(pages).index == merged(Map::empty(), verified_of(all_events(pages))),
        after_pages(pages).pages == pages.len(),
        all_verified(after_pages(pages).index),
    decreases pages.len(),
{
    if pages.len() > 0 {
        let front = pages.drop_last();
        fetch_merges_all(front);
        verified_of_both(all_events(front), pages.last());
        merged_in_turn(
            Map::empty(),
            verified_of(all_events(front)),
            verified_of(pages.last()),
        );
        merged_has_verified(after_pages(front).index, pages.last());
    }
}

/// A whole fetch. What it has found is what the verified events of all its
/// pages merge to, each under its identifier, and nothing that does not
/// verify. No more pages are asked for than may be. Each asks for the same kind
/// and number of events, the first without a limit of time, and each other up
/// to the oldest verified time of the page before.
pub proof fn a_fetch_finds_what_verifies(pages: Seq<Seq<CatalogEvent>>)
    requires
        are_pages(pages),
    ensures
        after_pages(pages).index == merged(Map::empty(), verified_of(all_events(pages))),
        forall|id: Seq<u8>| #[trigger]
            after_pages(pages).index.contains_key(id) <==> lists(
                verified_of(all_events(pages)),
                id,
            ),
        all_verified(after_pages(pages).index),
        pages.len() <= MAX_CATALOG_PAGES,
        forall|i: int|
            0 <= i < pages.len() ==> (#[trigger] after_pages(pages.take(i))).request() == (
            PageRequest {
                kind: KIND_TEAM_CATALOG,
                limit: CATALOG_PAGE_SIZE,
                until: if i == 0 {
                    None
                } else {
                    Some(oldest(verified_of(pages[i - 1])))
                },
            }),
{
    fetch_merges_all(pages);
    merged_holds_both(Map::empty(), verified_of(all_events(pages)));
    if pages.len() > 0 {
        let last = pages.len() - 1;
        fetch_merges_all(pages.take(last));
        assert(after_pages(pages.take(last)).wants_page());
    }
    assert forall|i: int| 0 <= i < pages.len() implies (#[trigger] after_pages(
        pages.take(i),
    )).request() == (PageRequest {
        kind: KIND_TEAM_CATALOG,
        limit: CATALOG_PAGE_SIZE,
        until: if i == 0 {
            None
        } else {
            Some(oldest(verified_of(pages[i - 1])))
        },
    }) by {
        if i > 0 {
            assert(pages.take(i).drop_last() =~= pages.take(i - 1));
            assert(pages.take(i).last() == pages[i - 1]);
            assert(after_pages(pages.take(i)).wants_page());
        }
    }
}

/// An event is in the list of all exactly if it is in one of the pages.
proof fn all_events_hold(pages: Seq<Seq<CatalogEvent>>)
    ensures
        forall|e: CatalogEvent| #[trigger]
            all_events(pages).contains(e) <==> exists|p: int, m: int|
                0 <= p < pages.len() && 0 <= m < pages[p].len() && #[trigger] pages[p][m] == e,
    decreases pages.len(),
{
    if pages.len() > 0 {
        let front = pages.drop_last();
        let last = pages.last();
        all_events_hold(front);
        assert forall|e: CatalogEvent| #[trigger] all_events(pages).contains(e) <==> exists|
            p: int,
            m: int,
        | 0 <= p < pages.len() && 0 <= m < pages[p].len() && #[trigger] pages[p][m] == e by {
            let before = all_events(front);
            if all_events(pages).contains(e) {
                let i = choose|i: int| 0 <= i < all_events(pages).len() && all_events(pages)[i] == e;
                if i < before.len() {
                    assert(before[i] == e);
                    assert(before.contains(e));
                    let (p, m) = choose|p: int, m: int|
                        0 <= p < front.len() && 0 <= m < front[p].len() && #[trigger] front[p][m]
                            == e;
                    assert(pages[p][m] == e);
                } else {
                    assert(pages[pages.len() - 1][i - before.len()] == e);
                }
            }
            if exists|p: int, m: int|
                0 <= p < pages.len() && 0 <= m < pages[p].len() && #[trigger] pages[p][m] == e {
                let (p, m) = choose|p: int, m: int|
                    0 <= p < pages.len() && 0 <= m < pages[p].len() && #[trigger] pages[p][m] == e;
                if p < front.len() {
                    assert(front[p][m] == e);
                    assert(before.contains(e));
                    let i = choose|i: int| 0 <= i < before.len() && before[i] == e;
                    assert(all_events(pages)[i] == e);
                } else {
                    assert(all_events(pages)[before.len() + m] == e);
                }
            }
        }
    }
}

/// What a fetch has found is there for an event that verified in one of its
/// pages, and for no other reason.
pub proof fn a_fetch_holds_the_verified(pages: Seq<Seq<CatalogEvent>>)
    ensures
        forall|p: int, m: int|
            0 <= p < pages.len() && 0 <= m < pages[p].len() && (
            #[trigger] pages[p][m]).verifies() ==> after_pages(pages).index.contains_key(
                pages[p][m].id@,
            ),
        forall|id: Seq<u8>| #[trigger]
            after_pages(pages).index.contains_key(id) ==> exists|p: int, m: int|
                0 <= p < pages.len() && 0 <= m < pages[p].len() && (
                #[trigger] pages[p][m]).verifies() && pages[p][m].id@ == id && pages[p][m]
                    == after_pages(pages).index[id],
{
    let all = all_events(pages);
    let kept = verified_of(all);
    fetch_merges_all(pages);
    merged_holds_both(Map::empty(), kept);
    verified_are_those_that_verify(all);
    all_events_hold(pages);
    assert forall|p: int, m: int|
        0 <= p < pages.len() && 0 <= m < pages[p].len() && (
        #[trigger] pages[p][m]).verifies() implies after_pages(pages).index.contains_key(
        pages[p][m].id@,
    ) by {
        let e = pages[p][m];
        assert(all.contains(e));
        assert(kept.contains(e));
        let k = choose|k: int| 0 <= k < kept.len() && kept[k] == e;
        assert(kept[k].id@ == e.id@);
        assert(lists(kept, e.id@));
    }
    assert forall|id: Seq<u8>| #[trigger]
        after_pages(pages).index.contains_key(id) implies exists|p: int, m: int|
        0 <= p < pages.len() && 0 <= m < pages[p].len() && (#[trigger] pages[p][m]).verifies()
            && pages[p][m].id@ == id && pages[p][m] == after_pages(pages).index[id] by {
        let e = after_pages(pages).index[id];
        assert(lists(kept, id));
        assert(kept.contains(e) && e.id@ == id);
        assert(all.contains(e) && e.verifies());
        let (p, m) = choose|p: int, m: int|
            0 <= p < pages.len() && 0 <= m < pages[p].len() && #[trigger] pages[p][m] == e;
        assert(pages[p][m].verifies());
    }
}

/// A fetch ends on a page of fewer than 500 events, or on one whose verified
/// events all came before; however many of a page's events are repeats, one
/// that is new keeps the fetch going.
pub proof fn a_fetch_ends_on_a_short_page_or_on_repeats(pages: Seq<Seq<CatalogEvent>>)
    requires
        pages.len() > 0,
    ensures
        after_pages(pages).done <==> pages.last().len() < 500 || forall|k: int|
            0 <= k < pages.last().len() && (#[trigger] pages.last()[k]).verifies() ==> exists|
                p: int,
                m: int,
            |
                0 <= p < pages.len() - 1 && 0 <= m < pages[p].len() && (
                #[trigger] pages[p][m]).verifies() && pages[p][m].id@ == pages.last()[k].id@,
{
    let front = pages.drop_last();
    let last = pages.last();
    let index = after_pages(front).index;
    let kept = verified_of(last);
    a_fetch_holds_the_verified(front);
    verified_are_those_that_verify(last);
    assert(forall|p: int| 0 <= p < front.len() ==> front[p] == #[trigger] pages[p]);
    assert forall|k: int| 0 <= k < last.len() implies (index.contains_key(
        (#[trigger] last[k]).id@,
    ) <==> exists|p: int, m: int|
        0 <= p < pages.len() - 1 && 0 <= m < pages[p].len() && (#[trigger] pages[p][m]).verifies()
            && pages[p][m].id@ == last[k].id@) by {
        let id = last[k].id@;
        if index.contains_key(id) {
            let (p, m) = choose|p: int, m: int|
                0 <= p < front.len() && 0 <= m < front[p].len() && (
                #[trigger] front[p][m]).verifies() && front[p][m].id@ == id && front[p][m]
                    == index[id];
            assert(pages[p][m].verifies() && pages[p][m].id@ == id);
        }
        if exists|p: int, m: int|
            0 <= p < pages.len() - 1 && 0 <= m < pages[p].len() && (
            #[trigger] pages[p][m]).verifies() && pages[p][m].id@ == id {
            let (p, m) = choose|p: int, m: int|
                0 <= p < pages.len() - 1 && 0 <= m < pages[p].len() && (
                #[trigger] pages[p][m]).verifies() && pages[p][m].id@ == id;
            assert(front[p][m].verifies());
        }
    }
    if brings_new(index, kept) {
        let j = choose|j: int| 0 <= j < kept.len() && !index.contains_key((#[trigger] kept[j]).id@);
        assert(kept.contains(kept[j]));
        assert(last.contains(kept[j]));
        let k = choose|k: int| 0 <= k < last.len() && last[k] == kept[j];
        assert(last[k].verifies() && !index.contains_key(last[k].id@));
    } else {
        assert forall|k: int| 0 <= k < last.len() && (
        #[trigger] last[k]).verifies() implies index.contains_key(last[k].id@) by {
            assert(last.contains(last[k]));
            assert(kept.contains(last[k]));
            let j = choose|j: int| 0 <= j < kept.len() && kept[j] == last[k];
            assert(index.contains_key(kept[j].id@));
        }
    }
}

/// A fetch asks for its first page without a limit of time. It asks for another
/// as long as no page ended it and fewer than 40 have come, and then up to the
/// oldest verified time of the last.
pub proof fn a_fetch_goes_on_from_the_oldest(pages: Seq<Seq<CatalogEvent>>)
    ensures
        after_pages(pages).pages == pages.len(),
        after_pages(pages).request().kind == 30178,
        after_pages(pages).request().limit == 500,
        pages.len() == 0 ==> after_pages(pages).wants_page() && after_pages(
            pages,
        ).request().until is None,
        pages.len() > 0 ==> (after_pages(pages).wants_page() <==> pages.len() < 40 && !after_pages(
            pages,
        ).done),
        pages.len() > 0 && !after_pages(pages).done ==> {
            &&& after_pages(pages).request().until is Some
            &&& exists|k: int|
                0 <= k < pages.last().len() && (#[trigger] pages.last()[k]).verifies()
                    && pages.last()[k].created_at == after_pages(pages).request().until->0
            &&& forall|k: int|
                0 <= k < pages.last().len() && (#[trigger] pages.last()[k]).verifies()
                    ==> after_pages(pages).request().until->0 <= pages.last()[k].created_at
        },
{
    fetch_merges_all(pages);
    if pages.len() > 0 && !after_pages(pages).done {
        let last = pages.last();
        let kept = verified_of(last);
        verified_are_those_that_verify(last);
        let index = after_pages(pages.drop_last()).index;
        let j = choose|j: int| 0 <= j < kept.len() && !index.contains_key((#[trigger] kept[j]).id@);
        let at = some_oldest(kept);
        oldest_is_one(kept, at);
        let n = choose|n: int| 0 <= n < kept.len() && (#[trigger] kept[n]).created_at == at;
        assert(kept.contains(kept[n]));
        let k = choose|k: int| 0 <= k < last.len() && last[k] == kept[n];
        assert(last[k].verifies() && last[k].created_at == at);
        assert forall|k: int| 0 <= k < last.len() && (#[trigger] last[k]).verifies() implies at
            <= last[k].created_at by {
            assert(last.contains(last[k]));
            assert(kept.contains(last[k]));
            let m = choose|m: int| 0 <= m < kept.len() && kept[m] == last[k];
            assert(at <= kept[m].created_at);
        }
    }
}

proof fn some_oldest(events: Seq<CatalogEvent>) -> (at: u64)
    requires
        events.len() > 0,
    ensures
        is_oldest(events, at),
    decreases events.len(),
{
    let last = events.last();
    if events.len() == 1 {
        assert(events[0].created_at == last.created_at);
        last.created_at
    } else {
        let front = events.drop_last();
        let at = some_oldest(front);
        assert(forall|k: int| 0 <= k < front.len() ==> front[k] == #[trigger] events[k]);
        if last.created_at < at {
            assert(events[events.len() - 1].created_at == last.created_at);
            assert forall|k: int| 0 <= k < events.len() implies last.created_at <= (
            #[trigger] events[k]).created_at by {
                if k < front.len() {
                    assert(at <= front[k].created_at);
                }
            }
            last.created_at
        } else {
            let k = choose|k: int| 0 <= k < front.len() && (#[trigger] front[k]).created_at == at;
            assert(events[k].created_at == at);
            assert forall|k: int| 0 <= k < events.len() implies at <= (
            #[trigger] events[k]).created_at by {
                if k < front.len() {
                    assert(at <= front[k].created_at);
                }
            }
            at
        }
    }
}

} // verus!
