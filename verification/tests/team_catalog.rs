//! The team catalog, on events that are signed as a relay's are.
use buzz_relay::catalog_fetch::{
    merge_verified_page, verified_events, CatalogFetch, EventIndex, PageProgress, PageRequest,
    Scope, CATALOG_PAGE_SIZE, MAX_CATALOG_PAGES,
};
use buzz_relay::event::{single_tag, to_hex, verify, CatalogEvent};
use buzz_relay::ranking::rank;
use buzz_relay::team::{publication, Candidate, TeamCatalogContent, TeamCatalogPublication, TeamMember};
use buzz_relay::team_catalog::{publications_from_verified_events, KIND_TEAM_CATALOG};
use nostr::{Event, EventBuilder, Keys, Kind, Tag, Timestamp};
use serde_json::Value;

fn signed(keys: &Keys, created_at: u64, tags: Vec<Tag>, content: &str) -> Event {
    EventBuilder::new(Kind::Custom(KIND_TEAM_CATALOG as u16), content)
        .tags(tags)
        .custom_created_at(Timestamp::from(created_at))
        .sign_with_keys(keys)
        .unwrap()
}

fn event(keys: &Keys, created_at: u64, d_tag: &str, shared: bool, content: &str) -> Event {
    let mut tags = vec![Tag::parse(["d", d_tag]).unwrap()];
    if shared {
        tags.push(Tag::parse(["shared", "true"]).unwrap());
    }
    signed(keys, created_at, tags, content)
}

fn content_with(name: &str, prompt: &str, parallelism: u32) -> String {
    let key = "a".repeat(64);
    format!(
        "{{\"v\": 1, \"name\": \"{name}\", \"description\": \"A crew.\", \
         \"instructions\": \"Ship it.\", \"members\": [{{ \
         \"member_key\": \"{key}\", \"display_name\": \"Navigator\", {prompt} \
         \"avatar_url\": \"https://relay.example/avatar.png\", \"runtime\": \"goose\", \
         \"model\": \"opaline\", \"name_pool\": [\"Navigator\"], \
         \"respond_to\": \"owner-only\", \"parallelism\": {parallelism} }}]}}"
    )
}

fn valid_content(name: &str) -> String {
    content_with(name, "\"system_prompt\": \"Review changes.\",", 4)
}

/// The values of an event, as the library takes them.
fn plain(event: &Event) -> CatalogEvent {
    CatalogEvent {
        id: event.id.to_bytes(),
        pubkey: event.pubkey.to_bytes(),
        created_at: event.created_at.as_secs(),
        kind: event.kind.as_u16(),
        tags: event.tags.iter().map(|tag| tag.as_slice().to_vec()).collect(),
        content: event.content.clone(),
        sig: event.sig.serialize(),
    }
}

fn text(value: &Value, key: &str) -> Option<String> {
    value.get(key).and_then(Value::as_str).map(str::to_owned)
}

/// All or nothing: a member without a key or a name, or with a parallelism out
/// of range, makes the whole content invalid.
fn read_content(content: &str) -> Option<TeamCatalogContent> {
    let value: Value = serde_json::from_str(content).ok()?;
    let mut members = Vec::new();
    for member in value.get("members")?.as_array()? {
        let parallelism = member.get("parallelism")?.as_u64()?;
        if !(1..=32).contains(&parallelism) {
            return None;
        }
        members.push(TeamMember {
            member_key: text(member, "member_key")?,
            display_name: text(member, "display_name")?,
            system_prompt: text(member, "system_prompt"),
            avatar_url: text(member, "avatar_url"),
            runtime: text(member, "runtime"),
            model: text(member, "model"),
            provider: text(member, "provider"),
        });
    }
    Some(TeamCatalogContent {
        name: text(&value, "name")?,
        description: text(&value, "description"),
        instructions: text(&value, "instructions"),
        members,
    })
}

fn candidate(event: &Event) -> Candidate {
    let plain = plain(event);
    let shared = single_tag(&plain, "shared").as_deref() == Some("true");
    let content = read_content(&event.content);
    Candidate { event: plain, shared, content }
}

fn shown(events: &[Event]) -> Vec<TeamCatalogPublication> {
    publications_from_verified_events(&events.iter().map(candidate).collect())
}

#[test]
fn paging_uses_oldest_verified_cursor_and_stops_on_ties_or_short_pages() {
    let keys = Keys::generate();
    let newest = event(&keys, 9, "newest", true, &valid_content("Newest"));
    let oldest = event(&keys, 4, "oldest", true, &valid_content("Oldest"));
    let mut by_id = EventIndex::new();

    assert_eq!(
        merge_verified_page(
            &mut by_id,
            CATALOG_PAGE_SIZE,
            vec![plain(&newest), plain(&oldest)]
        ),
        PageProgress::Next(4)
    );
    assert_eq!(
        merge_verified_page(
            &mut by_id,
            CATALOG_PAGE_SIZE,
            vec![plain(&newest), plain(&oldest)]
        ),
        PageProgress::Done
    );

    let short = event(&keys, 1, "short", true, &valid_content("Short"));
    assert_eq!(
        merge_verified_page(&mut by_id, CATALOG_PAGE_SIZE - 1, vec![plain(&short)]),
        PageProgress::Done
    );
    assert_eq!(by_id.len(), 3);
    assert_eq!(
        merge_verified_page(&mut EventIndex::new(), CATALOG_PAGE_SIZE, Vec::new()),
        PageProgress::Done
    );
}

#[test]
fn forged_newest_head_is_dropped_before_it_can_claim_the_coordinate() {
    let keys = Keys::generate();
    let older = event(&keys, 1, "crew", true, &valid_content("Older"));
    let mut forged = event(&keys, 2, "crew", true, &valid_content("Forged"));
    forged.content = valid_content("Tampered");

    let verified = verified_events(vec![plain(&older), plain(&forged)]);
    assert_eq!(verified.len(), 1);
    let candidates: Vec<Candidate> = verified
        .into_iter()
        .map(|event| {
            let content = read_content(&event.content);
            let shared = single_tag(&event, "shared").as_deref() == Some("true");
            Candidate { event, shared, content }
        })
        .collect();
    let publications = publications_from_verified_events(&candidates);
    assert_eq!(publications.len(), 1);
    assert_eq!(publications[0].event_id, older.id.to_hex());
    assert_eq!(publications[0].name, "Older");
}

#[test]
fn valid_newest_head_claims_before_visibility_and_content_parsing() {
    let keys = Keys::generate();
    for newest in [
        event(&keys, 2, "crew", false, &valid_content("Unshared")),
        event(&keys, 2, "crew", true, "{\"v\": 1}"),
    ] {
        let older = event(&keys, 1, "crew", true, &valid_content("Older"));
        assert!(shown(&[older, newest]).is_empty());
    }
}

#[test]
fn equal_heads_use_lowest_event_id_and_authors_are_independent() {
    let alice = Keys::generate();
    let bob = Keys::generate();
    let shared = event(&alice, 1, "crew", true, &valid_content("Shared"));
    let unshared = event(&alice, 1, "crew", false, &valid_content("Hidden"));
    let bob_head = event(&bob, 1, "crew", true, &valid_content("Bob"));
    let expected_alice = if shared.id < unshared.id { 1 } else { 0 };

    let publications = shown(&[shared, unshared, bob_head]);
    assert_eq!(publications.len(), expected_alice + 1);
}

#[test]
fn all_or_nothing_parse_drops_a_team_with_any_invalid_member() {
    let keys = Keys::generate();
    // A parallelism of 999 is out of range, so the whole projection fails to
    // parse and the team is not offered.
    let invalid = content_with("Broken", "\"system_prompt\": \"Review changes.\",", 999);
    let head = event(&keys, 1, "crew", true, &invalid);
    assert!(shown(&[head]).is_empty());
}

#[test]
fn projection_flattens_members_and_defaults_absent_system_prompt() {
    let keys = Keys::generate();
    // A member whose system_prompt is absent must project as an empty string,
    // not be dropped.
    let content = content_with("Crew", "", 4);
    let head = event(&keys, 1, "crew", true, &content);

    let publications = shown(&[head]);
    assert_eq!(publications.len(), 1);
    let member = &publications[0].members[0];
    assert_eq!(member.display_name, "Navigator");
    assert_eq!(member.system_prompt, "");
    assert_eq!(member.model.as_deref(), Some("opaline"));
}

#[test]
fn multi_d_and_empty_d_heads_are_rejected() {
    let keys = Keys::generate();
    let empty_d = event(&keys, 1, "", true, &valid_content("Empty"));
    assert!(shown(&[empty_d]).is_empty());

    let multi_d = signed(
        &keys,
        1,
        vec![
            Tag::parse(["d", "crew"]).unwrap(),
            Tag::parse(["d", "other"]).unwrap(),
            Tag::parse(["shared", "true"]).unwrap(),
        ],
        &valid_content("Multi"),
    );
    assert!(shown(&[multi_d]).is_empty());
}

#[test]
fn an_event_verifies_only_as_it_was_signed() {
    let keys = Keys::generate();
    let good = event(&keys, 7, "crew", true, "text");
    assert!(verify(&plain(&good)));
    let mut other = plain(&good);
    other.content = "texts".to_owned();
    assert!(!verify(&other));
    let mut other = plain(&good);
    other.created_at = 8;
    assert!(!verify(&other));
    let mut other = plain(&good);
    other.kind = 1;
    assert!(!verify(&other));
    let mut other = plain(&good);
    other.tags[0][1] = "crew2".to_owned();
    assert!(!verify(&other));
    let mut other = plain(&good);
    other.tags.push(Vec::new());
    assert!(!verify(&other));
    let mut other = plain(&good);
    other.sig[5] ^= 1;
    assert!(!verify(&other));
    let mut other = plain(&good);
    other.id[0] ^= 1;
    assert!(!verify(&other));
    let mut other = plain(&good);
    other.pubkey = Keys::generate().public_key().to_bytes();
    assert!(!verify(&other));
}

#[test]
fn identifiers_are_written_as_the_events_write_them() {
    let keys = Keys::generate();
    let some = event(&keys, 1, "crew", true, &valid_content("Crew"));
    assert_eq!(to_hex(&some.id.to_bytes()), some.id.to_hex());
    assert_eq!(to_hex(&some.pubkey.to_bytes()), some.pubkey.to_hex());
    let publications = shown(std::slice::from_ref(&some));
    assert_eq!(publications[0].event_id, some.id.to_hex());
    assert_eq!(publications[0].owner_pubkey, some.pubkey.to_hex());
    assert_eq!(publications[0].team_d_tag, "crew");
    assert_eq!(publications[0].description.as_deref(), Some("A crew."));
    assert_eq!(publications[0].instructions.as_deref(), Some("Ship it."));
}

#[test]
fn ambiguity_of_a_tag_is_absence() {
    let keys = Keys::generate();
    let some = event(&keys, 1, "crew", true, "");
    assert_eq!(single_tag(&plain(&some), "d").as_deref(), Some("crew"));
    assert_eq!(single_tag(&plain(&some), "e"), None);
    for other in [vec!["d"], vec!["d", "crew"], vec!["d", "other"]] {
        let mut with_two = plain(&some);
        with_two.tags.push(other.iter().map(|s| s.to_string()).collect());
        assert_eq!(single_tag(&with_two, "d"), None, "{other:?}");
        with_two.tags.swap(0, 2);
        assert_eq!(single_tag(&with_two, "d"), None, "{other:?}");
    }
    let mut valueless = plain(&some);
    valueless.tags = vec![vec!["d".to_owned()], Vec::new()];
    assert_eq!(single_tag(&valueless, "d"), None);
    let mut longer = plain(&some);
    longer.tags = vec![Vec::new(), vec!["d".to_owned(), "x".to_owned(), "y".to_owned()]];
    assert_eq!(single_tag(&longer, "d").as_deref(), Some("x"));
}

#[test]
fn a_bare_tag_beside_a_valued_one_claims_nothing() {
    let keys = Keys::generate();
    let ambiguous = signed(
        &keys,
        2,
        vec![
            Tag::parse(["d"]).unwrap(),
            Tag::parse(["d", "crew"]).unwrap(),
            Tag::parse(["shared", "true"]).unwrap(),
        ],
        &valid_content("Ambiguous"),
    );
    let older = event(&keys, 1, "crew", true, &valid_content("Older"));
    let publications = shown(&[ambiguous, older]);
    assert_eq!(publications.len(), 1);
    assert_eq!(publications[0].name, "Older");
}

fn bare(id: u8, author: u8, created_at: u64, d: &str, name: Option<&str>) -> Candidate {
    Candidate {
        event: CatalogEvent {
            id: [id; 32],
            pubkey: [author; 32],
            created_at,
            kind: KIND_TEAM_CATALOG as u16,
            tags: vec![vec!["d".to_owned(), d.to_owned()]],
            content: String::new(),
            sig: [0; 64],
        },
        shared: true,
        content: name.map(|name| TeamCatalogContent {
            name: name.to_owned(),
            description: None,
            instructions: None,
            members: Vec::new(),
        }),
    }
}

fn names(list: Vec<Candidate>) -> Vec<String> {
    publications_from_verified_events(&list)
        .into_iter()
        .map(|p| p.name)
        .collect()
}

#[test]
fn the_newest_comes_first_and_ties_go_to_the_lower_identifier() {
    let list = vec![
        bare(9, 1, 5, "a", None),
        bare(3, 1, 5, "b", None),
        bare(1, 1, 4, "c", None),
        bare(7, 1, 6, "d", None),
    ];
    assert_eq!(rank(&list), vec![3, 1, 0, 2]);
    assert_eq!(rank(&Vec::new()), Vec::<usize>::new());
}

#[test]
fn the_order_of_arrival_changes_nothing() {
    let make = |k: usize| match k {
        0 => bare(1, 1, 3, "a", Some("a3")),
        1 => bare(2, 1, 9, "a", Some("a9")),
        2 => bare(3, 2, 9, "a", Some("other author")),
        3 => bare(4, 1, 5, "b", Some("b5")),
        _ => bare(5, 1, 5, "b", Some("b5 later identifier")),
    };
    let expected = vec!["a9", "other author", "b5"];
    for order in [
        vec![0, 1, 2, 3, 4],
        vec![4, 3, 2, 1, 0],
        vec![2, 4, 0, 3, 1],
        vec![0, 0, 1, 4, 2, 1, 3, 3, 2, 0, 4],
    ] {
        assert_eq!(names(order.into_iter().map(make).collect()), expected);
    }
}

#[test]
fn another_kind_claims_nothing() {
    let mut newer = bare(1, 1, 9, "a", Some("newer"));
    newer.event.kind = 1;
    assert_eq!(names(vec![newer, bare(2, 1, 1, "a", Some("older"))]), vec!["older"]);
}

#[test]
fn a_publication_keeps_every_member_in_order() {
    let member = |key: &str, prompt: Option<&str>| TeamMember {
        member_key: key.to_owned(),
        display_name: format!("name {key}"),
        system_prompt: prompt.map(str::to_owned),
        avatar_url: Some("u".to_owned()),
        runtime: None,
        model: None,
        provider: Some("p".to_owned()),
    };
    let content = TeamCatalogContent {
        name: "Crew".to_owned(),
        description: None,
        instructions: Some("go".to_owned()),
        members: vec![member("k1", Some("x")), member("k2", None)],
    };
    let shown = publication("id".to_owned(), "owner".to_owned(), "d".to_owned(), &content);
    assert_eq!(shown.event_id, "id");
    assert_eq!(shown.owner_pubkey, "owner");
    assert_eq!(shown.team_d_tag, "d");
    assert_eq!(shown.name, "Crew");
    assert_eq!(shown.description, None);
    assert_eq!(shown.instructions.as_deref(), Some("go"));
    assert_eq!(shown.members.len(), 2);
    assert_eq!(shown.members[0].member_key, "k1");
    assert_eq!(shown.members[0].system_prompt, "x");
    assert_eq!(shown.members[1].display_name, "name k2");
    assert_eq!(shown.members[1].system_prompt, "");
    assert_eq!(shown.members[1].avatar_url.as_deref(), Some("u"));
    assert_eq!(shown.members[1].runtime, None);
    assert_eq!(shown.members[1].provider.as_deref(), Some("p"));
}

fn scope(owner: &str, relay_url: &str) -> Scope {
    Scope { owner: owner.to_owned(), relay_url: relay_url.to_owned() }
}

#[test]
fn a_fetch_ends_on_a_short_page_and_keeps_what_verifies() {
    let keys = Keys::generate();
    let mut fetch = CatalogFetch::new(scope("me", "wss://r"));
    assert_eq!(
        fetch.next_request(),
        Some(PageRequest { kind: 30178, limit: 500, until: None })
    );
    let good = event(&keys, 3, "a", true, "");
    let mut forged = event(&keys, 2, "b", true, "");
    forged.content = "x".to_owned();
    fetch.receive(vec![plain(&good), plain(&forged)]);
    assert_eq!(fetch.next_request(), None);
    let events = fetch.finish(&scope("me", "wss://r")).unwrap();
    assert_eq!(events.len(), 1);
    assert_eq!(events[0].id, good.id.to_bytes());
}

#[test]
fn a_fetch_moves_its_cursor_and_stops_when_nothing_is_new() {
    let keys = Keys::generate();
    let page: Vec<Event> = (0..CATALOG_PAGE_SIZE as u64)
        .map(|k| event(&keys, 100 + k, "a", true, &format!("{k}")))
        .collect();
    let mut fetch = CatalogFetch::new(scope("me", "wss://r"));
    fetch.receive(page.iter().map(plain).collect());
    assert_eq!(
        fetch.next_request(),
        Some(PageRequest { kind: 30178, limit: 500, until: Some(100) })
    );
    fetch.receive(page.iter().map(plain).collect());
    assert_eq!(fetch.next_request(), None);
    assert_eq!(fetch.finish(&scope("me", "wss://r")).unwrap().len(), CATALOG_PAGE_SIZE);
}

#[test]
fn a_fetch_asks_for_no_more_than_its_pages() {
    let keys = Keys::generate();
    let mut fetch = CatalogFetch::new(scope("me", "wss://r"));
    let mut forged = event(&keys, 1, "a", true, "");
    forged.content = "forged".to_owned();
    for asked in 0..MAX_CATALOG_PAGES as u64 {
        let until = if asked == 0 { None } else { Some(1_000 - asked + 1) };
        assert_eq!(
            fetch.next_request(),
            Some(PageRequest { kind: 30178, limit: 500, until })
        );
        // A full page, of which one event verifies and is new.
        let mut page: Vec<CatalogEvent> =
            (1..CATALOG_PAGE_SIZE).map(|_| plain(&forged)).collect();
        page.push(plain(&event(&keys, 1_000 - asked, "a", true, "")));
        fetch.receive(page);
    }
    assert_eq!(fetch.next_request(), None);
    let events = fetch.finish(&scope("me", "wss://r")).unwrap();
    assert_eq!(events.len(), MAX_CATALOG_PAGES);
}

#[test]
fn a_whole_fetch_shows_what_all_its_verified_events_show() {
    let keys = Keys::generate();
    let first: Vec<Event> = (0..CATALOG_PAGE_SIZE as u64)
        .map(|k| event(&keys, 50 + k, &format!("team {}", k % 7), true, &valid_content("Crew")))
        .collect();
    let mut second = vec![
        first[3].clone(),
        event(&keys, 9, "late", true, &valid_content("Late")),
    ];
    let mut forged = event(&keys, 9_999, "late", true, &valid_content("Forged"));
    forged.content = valid_content("Tampered");
    second.push(forged);

    let mut fetch = CatalogFetch::new(scope("me", "wss://r"));
    fetch.receive(first.iter().map(plain).collect());
    fetch.receive(second.iter().map(plain).collect());
    let found: Vec<Candidate> = fetch
        .finish(&scope("me", "wss://r"))
        .unwrap()
        .into_iter()
        .map(|event| {
            let content = read_content(&event.content);
            let shared = single_tag(&event, "shared").as_deref() == Some("true");
            Candidate { event, shared, content }
        })
        .collect();
    assert_eq!(found.len(), CATALOG_PAGE_SIZE + 1);
    let verified: Vec<Event> = first
        .into_iter()
        .chain(second)
        .filter(|event| event.verify().is_ok())
        .collect();
    let ids = |list: Vec<TeamCatalogPublication>| -> Vec<String> {
        list.into_iter().map(|p| p.event_id).collect()
    };
    let fetched = ids(publications_from_verified_events(&found));
    assert_eq!(fetched.len(), 8);
    assert_eq!(fetched, ids(shown(&verified)));
}

#[test]
fn a_scope_that_changed_discards_the_fetch() {
    for other in [scope("you", "wss://r"), scope("me", "wss://s")] {
        let fetch = CatalogFetch::new(scope("me", "wss://r"));
        assert_eq!(
            fetch.finish(&other).err().as_deref(),
            Some("team catalog scope changed while fetching")
        );
    }
}
