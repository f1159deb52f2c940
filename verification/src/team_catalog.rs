//! The team catalog: which of a relay's events are shown as teams.
//!
//! The newest event of a coordinate, that is, of an author and a `d` tag, is
//! the head of that coordinate. It claims the coordinate before anything is
//! read of it: a newest head that is not shared, or is malformed, does not
//! bring back an older shared definition.
use vstd::prelude::*;

use crate::event::{hex, same_bytes, single_tag, single_value, tag_views, to_hex, CatalogEvent};
use crate::ranking::{is_ranking, places, rank, ranking};
use crate::team::{
    events_of, publication, publication_views, shown_team, Candidate, PublicationSpec,
    TeamCatalogPublication,
};
use crate::text::same_text;

verus! {

/// The kind of event that publishes a team.
pub const KIND_TEAM_CATALOG: u32 = 30178;

/// The `d` tag that an event addresses a team by: it is of the right kind and
/// carries exactly one such tag, which is not empty.
pub open spec fn team_tag(event: CatalogEvent) -> Option<Seq<char>> {
    match single_value(tag_views(event.tags@), "d"@) {
        Some(d) => if event.kind == KIND_TEAM_CATALOG && d.len() > 0 {
            Some(d)
        } else {
            None
        },
        None => None,
    }
}

/// Whether two events address the same team: the same author and `d` tag.
pub open spec fn same_coordinate(a: CatalogEvent, b: CatalogEvent) -> bool {
    team_tag(a) is Some && team_tag(a) == team_tag(b) && a.pubkey@ == b.pubkey@
}

/// Whether the candidate at `k` of a ranked list is the head of what it
/// addresses: it addresses a team, and none before it addresses the same.
pub open spec fn is_head(ranked: Seq<Candidate>, k: int) -> bool {
    &&& team_tag(ranked[k].event) is Some
    &&& forall|j: int|
        0 <= j < k ==> !same_coordinate(#[trigger] ranked[j].event, ranked[k].event)
}

/// Whether the candidate at `k` of a ranked list is shown: it is a head, it is
/// shared, and all of its content is valid.
pub open spec fn is_shown(ranked: Seq<Candidate>, k: int) -> bool {
    is_head(ranked, k) && ranked[k].shared && ranked[k].content is Some
}

/// What is shown of a candidate.
pub open spec fn shown(candidate: Candidate) -> PublicationSpec {
    shown_team(
        hex(candidate.event.id@),
        hex(candidate.event.pubkey@),
        team_tag(candidate.event)->0,
        candidate.content->0,
    )
}

/// What is shown of the first `n` of a ranked list.
pub open spec fn shown_among(ranked: Seq<Candidate>, n: int) -> Seq<PublicationSpec>
    decreases n,
{
    if n <= 0 {
        Seq::empty()
    } else if is_shown(ranked, n - 1) {
        shown_among(ranked, n - 1).push(shown(ranked[n - 1]))
    } else {
        shown_among(ranked, n - 1)
    }
}

/// The candidates in the order of their events.
pub open spec fn ranked(candidates: Seq<Candidate>) -> Seq<Candidate> {
    let order = ranking(events_of(candidates));
    Seq::new(order.len(), |k: int| candidates[order[k]])
}

/// The catalog of a list of candidates.
pub open spec fn catalog(candidates: Seq<Candidate>) -> Seq<PublicationSpec> {
    shown_among(ranked(candidates), ranked(candidates).len() as int)
}

/// A coordinate that is claimed: the place of the candidate that claims it,
/// and its `d` tag.
struct Claim {
    place: usize,
    tag: String,
}

/// Whether a list of claims is that of the heads among the first `n`.
spec fn claims_are(
    candidates: Seq<Candidate>,
    list: Seq<Candidate>,
    claims: Seq<Claim>,
    n: int,
) -> bool {
    &&& forall|c: int|
        0 <= c < claims.len() ==> {
            &&& (#[trigger] claims[c]).place < candidates.len()
            &&& team_tag(candidates[claims[c].place as int].event) == Some(claims[c].tag@)
            &&& exists|j: int| 0 <= j < n && #[trigger] list[j] == candidates[claims[c].place as int]
        }
    &&& forall|j: int|
        0 <= j < n && team_tag(list[j].event) is Some ==> exists|c: int|
            0 <= c < claims.len() && same_coordinate(
                candidates[(#[trigger] claims[c]).place as int].event,
                (#[trigger] list[j]).event,
            )
}

fn is_claimed(
    candidates: &Vec<Candidate>,
    claims: &Vec<Claim>,
    pubkey: &[u8; 32],
    tag: &String,
) -> (r: bool)
    requires
        forall|c: int| 0 <= c < claims@.len() ==> (#[trigger] claims@[c]).place < candidates@.len(),
    ensures
        r <==> exists|c: int|
            0 <= c < claims@.len() && (#[trigger] claims@[c]).tag@ == tag@
                && candidates@[claims@[c].place as int].event.pubkey@ == pubkey@,
{
    let mut c: usize = 0;
    while c < claims.len()
        invariant
            forall|c: int|
                0 <= c < claims@.len() ==> (#[trigger] claims@[c]).place < candidates@.len(),
            c <= claims@.len(),
            forall|k: int|
                0 <= k < c ==> !((#[trigger] claims@[k]).tag@ == tag@
                    && candidates@[claims@[k].place as int].event.pubkey@ == pubkey@),
        decreases claims@.len() - c,
    {
        let claim = &claims[c];
        if same_bytes(&candidates[claim.place].event.pubkey, pubkey) && same_text(
            claim.tag.as_str(),
            tag.as_str(),
        ) {
            return true;
        }
        c = c + 1;
    }
    false
}

/// Decides what a catalog shows of verified events.
pub fn publications_from_verified_events(candidates: &Vec<Candidate>) -> (r: Vec<
    TeamCatalogPublication,
>)
    ensures
        publication_views(r@) == catalog(candidates@),
        r@.len() == catalog(candidates@).len(),
        forall|k: int| 0 <= k < r@.len() ==> (#[trigger] r@[k])@ == catalog(candidates@)[k],
        // Each publication shows one shared, valid candidate, field by field.
        forall|k: int|
            0 <= k < r@.len() ==> exists|i: int| {
                let c = #[trigger] candidates@[i];
                &&& 0 <= i < candidates@.len()
                &&& c.shared && c.content is Some
                &&& (#[trigger] r@[k]).event_id@ == hex(c.event.id@)
                &&& r@[k].owner_pubkey@ == hex(c.event.pubkey@)
                &&& team_tag(c.event) == Some(r@[k].team_d_tag@)
                &&& r@[k].name@ == c.content->0.name@
                &&& r@[k].description.deep_view() == c.content->0.description.deep_view()
                &&& r@[k].instructions.deep_view() == c.content->0.instructions.deep_view()
                &&& r@[k].members@.len() == c.content->0.members@.len()
                &&& forall|m: int|
                    0 <= m < c.content->0.members@.len() ==> {
                        let shown = #[trigger] r@[k].members@[m];
                        let member = c.content->0.members@[m];
                        &&& shown.member_key@ == member.member_key@
                        &&& shown.display_name@ == member.display_name@
                        &&& member.system_prompt is Some ==> shown.system_prompt@
                            == member.system_prompt->0@
                        &&& member.system_prompt is None ==> shown.system_prompt@.len() == 0
                        &&& shown.avatar_url.deep_view() == member.avatar_url.deep_view()
                        &&& shown.runtime.deep_view() == member.runtime.deep_view()
                        &&& shown.model.deep_view() == member.model.deep_view()
                        &&& shown.provider.deep_view() == member.provider.deep_view()
                    }
            },
{
    let order = rank(candidates);
    let ghost list = ranked(candidates@);
    let mut claims: Vec<Claim> = Vec::new();
    let mut publications: Vec<TeamCatalogPublication> = Vec::new();
    let mut n: usize = 0;
    assert(publication_views(publications@) =~= shown_among(list, 0));
    while n < order.len()
        invariant
            list == ranked(candidates@),
            places(order@) == ranking(events_of(candidates@)),
            is_ranking(events_of(candidates@), ranking(events_of(candidates@))),
            n <= order@.len(),
            claims_are(candidates@, list, claims@, n as int),
            publication_views(publications@) == shown_among(list, n as int),
            forall|k: int|
                0 <= k < publications@.len() ==> exists|i: int| {
                    let c = #[trigger] candidates@[i];
                    &&& 0 <= i < candidates@.len()
                    &&& c.shared && c.content is Some
                    &&& (#[trigger] publications@[k]).event_id@ == hex(c.event.id@)
                    &&& publications@[k].owner_pubkey@ == hex(c.event.pubkey@)
                    &&& team_tag(c.event) == Some(publications@[k].team_d_tag@)
                    &&& publications@[k].name@ == c.content->0.name@
                    &&& publications@[k].description.deep_view() == c.content->0.description.deep_view()
                    &&& publications@[k].instructions.deep_view() == c.content->0.instructions.deep_view()
                    &&& publications@[k].members@.len() == c.content->0.members@.len()
                    &&& forall|m: int|
                        0 <= m < c.content->0.members@.len() ==> {
                            let shown = #[trigger] publications@[k].members@[m];
                            let member = c.content->0.members@[m];
                            &&& shown.member_key@ == member.member_key@
                            &&& shown.display_name@ == member.display_name@
                            &&& member.system_prompt is Some ==> shown.system_prompt@
                                == member.system_prompt->0@
                            &&& member.system_prompt is None ==> shown.system_prompt@.len() == 0
                            &&& shown.avatar_url.deep_view() == member.avatar_url.deep_view()
                            &&& shown.runtime.deep_view() == member.runtime.deep_view()
                            &&& shown.model.deep_view() == member.model.deep_view()
                            &&& shown.provider.deep_view() == member.provider.deep_view()
                        }
                },
        decreases order@.len() - n,
    {
        let place: usize = order[n];
        proof {
            let ranks = ranking(events_of(candidates@));
            assert(ranks[n as int] == place);
            assert(ranks.contains(ranks[n as int]));
            assert(list[n as int] == candidates@[place as int]);
        }
        let candidate = &candidates[place];
        let event = &candidate.event;
        let tag: Option<String> = if event.kind as u32 != KIND_TEAM_CATALOG {
            None
        } else {
            single_tag(event, "d")
        };
        match tag {
            Some(tag) => {
                if !tag.as_str().is_empty() {
                    let ghost claimed_before = claims@;
                    if !is_claimed(candidates, &claims, &event.pubkey, &tag) {
                        assert(is_head(list, n as int)) by {
                            assert forall|j: int| 0 <= j < n implies !same_coordinate(
                                #[trigger] list[j].event,
                                list[n as int].event,
                            ) by {
                                if same_coordinate(list[j].event, list[n as int].event) {
                                    let c = choose|c: int|
                                        0 <= c < claims@.len() && same_coordinate(
                                            candidates@[(#[trigger] claims@[c]).place as int].event,
                                            list[j].event,
                                        );
                                    assert(claims@[c].tag@ == tag@);
                                }
                            }
                        }
                        claims.push(Claim { place, tag: tag.clone() });
                        proof {
                            claim_is_added(candidates@, list, claimed_before, claims@, n as int);
                        }
                        match &candidate.content {
                            Some(content) => {
                                if candidate.shared {
                                    let shown_now = publication(
                                        to_hex(&event.id),
                                        to_hex(&event.pubkey),
                                        tag,
                                        content,
                                    );
                                    assert(publication_views(publications@.push(shown_now))
                                        =~= publication_views(publications@).push(shown_now@));
                                    assert(candidates@[place as int].content == Some(*content));
                                    publications.push(shown_now);
                                }
                            },
                            None => {},
                        }
                    } else {
                        proof {
                            let c = choose|c: int|
                                0 <= c < claims@.len() && (#[trigger] claims@[c]).tag@ == tag@
                                    && candidates@[claims@[c].place as int].event.pubkey@
                                    == event.pubkey@;
                            let earlier = choose|j: int|
                                0 <= j < n && #[trigger] list[j]
                                    == candidates@[claims@[c].place as int];
                            assert(same_coordinate(list[earlier].event, list[n as int].event));
                            claim_stands(candidates@, list, claims@, n as int, c);
                        }
                    }
                } else {
                    proof {
                        no_claim_is_needed(candidates@, list, claims@, n as int);
                    }
                }
            },
            None => {
                proof {
                    no_claim_is_needed(candidates@, list, claims@, n as int);
                }
            },
        }
        n = n + 1;
    }
    proof {
        assert(publication_views(publications@).len() == publications@.len());
        assert forall|k: int| 0 <= k < publications@.len() implies (#[trigger] publications@[k])@
            == catalog(candidates@)[k] by {
            assert(publication_views(publications@)[k] == publications@[k]@);
        }
    }
    publications
}

proof fn no_claim_is_needed(
    candidates: Seq<Candidate>,
    list: Seq<Candidate>,
    claims: Seq<Claim>,
    n: int,
)
    requires
        0 <= n,
        claims_are(candidates, list, claims, n),
        team_tag(list[n].event) is None,
    ensures
        claims_are(candidates, list, claims, n + 1),
{
}

proof fn claim_stands(
    candidates: Seq<Candidate>,
    list: Seq<Candidate>,
    claims: Seq<Claim>,
    n: int,
    c: int,
)
    requires
        0 <= n,
        claims_are(candidates, list, claims, n),
        0 <= c < claims.len(),
        same_coordinate(candidates[claims[c].place as int].event, list[n].event),
    ensures
        claims_are(candidates, list, claims, n + 1),
{
}

proof fn claim_is_added(
    candidates: Seq<Candidate>,
    list: Seq<Candidate>,
    claims: Seq<Claim>,
    more: Seq<Claim>,
    n: int,
)
    requires
        0 <= n,
        claims_are(candidates, list, claims, n),
        more.len() == claims.len() + 1,
        forall|c: int| 0 <= c < claims.len() ==> more[c] == claims[c],
        more.last().place < candidates.len(),
        candidates[more.last().place as int] == list[n],
        team_tag(list[n].event) == Some(more.last().tag@),
    ensures
        claims_are(candidates, list, more, n + 1),
{
    assert forall|c: int| 0 <= c < more.len() implies {
        &&& (#[trigger] more[c]).place < candidates.len()
        &&& team_tag(candidates[more[c].place as int].event) == Some(more[c].tag@)
        &&& exists|j: int|
            0 <= j < n + 1 && #[trigger] list[j] == candidates[more[c].place as int]
    } by {
        if c < claims.len() {
            assert(more[c] == claims[c]);
            let j = choose|j: int|
                0 <= j < n && #[trigger] list[j] == candidates[claims[c].place as int];
            assert(list[j] == candidates[more[c].place as int]);
        } else {
            assert(list[n] == candidates[more[c].place as int]);
        }
    }
    assert forall|j: int| 0 <= j < n + 1 && team_tag(list[j].event) is Some implies exists|c: int|
        0 <= c < more.len() && same_coordinate(
            candidates[(#[trigger] more[c]).place as int].event,
            (#[trigger] list[j]).event,
        ) by {
        if j < n {
            let c = choose|c: int|
                0 <= c < claims.len() && same_coordinate(
                    candidates[(#[trigger] claims[c]).place as int].event,
                    list[j].event,
                );
            assert(same_coordinate(candidates[more[c].place as int].event, list[j].event));
        } else {
            assert(same_coordinate(
                candidates[more[more.len() - 1].place as int].event,
                list[j].event,
            ));
        }
    }
}

} // verus!
