//! Signed events, as far as a catalog reads them.
use vstd::prelude::*;

use crate::text::{same_text, views};

verus! {

/// A signed event of a relay.
#[derive(Debug)]
pub struct CatalogEvent {
    pub id: [u8; 32],
    pub pubkey: [u8; 32],
    /// Seconds since the epoch.
    pub created_at: u64,
    pub kind: u16,
    pub tags: Vec<Vec<String>>,
    pub content: String,
    pub sig: [u8; 64],
}

/// What each tag of a list holds.
pub open spec fn tag_views(tags: Seq<Vec<String>>) -> Seq<Seq<Seq<char>>> {
    Seq::new(tags.len(), |i: int| views(tags[i]@))
}

/// Whether an event with these values has the identifier and the signature
/// that it should.
pub uninterp spec fn event_verifies(
    id: Seq<u8>,
    pubkey: Seq<u8>,
    created_at: u64,
    kind: u16,
    tags: Seq<Seq<Seq<char>>>,
    content: Seq<char>,
    sig: Seq<u8>,
) -> bool;

impl CatalogEvent {
    /// Whether the event's identifier and signature are its own.
    pub open spec fn verifies(self) -> bool {
        event_verifies(
            self.id@,
            self.pubkey@,
            self.created_at,
            self.kind,
            tag_views(self.tags@),
            self.content@,
            self.sig@,
        )
    }
}

/// `Event::verify` of the `nostr` crate on an event with these values: the
/// identifier is the digest of the other values, and the signature is one of
/// the author over the identifier. An event that the crate cannot hold, with
/// a tag that is empty, does not verify. Which values verify is left to the
/// crate.
#[verifier::external_body]
fn nostr_verifies(event: &CatalogEvent) -> (r: bool)
    ensures
        r == event_verifies(
            event.id@,
            event.pubkey@,
            event.created_at,
            event.kind,
            tag_views(event.tags@),
            event.content@,
            event.sig@,
        ),
{
    let tags: Result<Vec<nostr::Tag>, _> = event.tags.iter().map(nostr::Tag::parse).collect();
    let sig = nostr::secp256k1::schnorr::Signature::from_slice(&event.sig);
    let id = nostr::EventId::from_byte_array(event.id);
    let author = nostr::PublicKey::from_byte_array(event.pubkey);
    let at = nostr::Timestamp::from(event.created_at);
    let kind = nostr::Kind::from(event.kind);
    match (tags, sig) {
        (Ok(tags), Ok(sig)) => nostr::Event::new(id, author, at, kind, tags, &event.content, sig)
            .verify()
            .is_ok(),
        _ => false,
    }
}

/// Whether an event's identifier and signature are its own.
pub fn verify(event: &CatalogEvent) -> (r: bool)
    ensures
        r == event.verifies(),
        r == event_verifies(
            event.id@,
            event.pubkey@,
            event.created_at,
            event.kind,
            Seq::new(event.tags@.len(), |i: int| views(event.tags@[i]@)),
            event.content@,
            event.sig@,
        ),
{
    assert(tag_views(event.tags@) =~= Seq::new(
        event.tags@.len(),
        |i: int| views(event.tags@[i]@),
    ));
    nostr_verifies(event)
}

/// Whether `a` comes before `b` byte by byte.
pub open spec fn bytes_less(a: Seq<u8>, b: Seq<u8>) -> bool
    decreases a.len(),
{
    if b.len() == 0 {
        false
    } else if a.len() == 0 {
        true
    } else {
        a[0] < b[0] || (a[0] == b[0] && bytes_less(a.skip(1), b.skip(1)))
    }
}

/// The order of byte strings is a strict total order.
pub proof fn bytes_less_is_an_order(a: Seq<u8>, b: Seq<u8>, c: Seq<u8>)
    ensures
        !bytes_less(a, a),
        bytes_less(a, b) ==> !bytes_less(b, a),
        bytes_less(a, b) && bytes_less(b, c) ==> bytes_less(a, c),
        bytes_less(a, b) || bytes_less(b, a) || a == b,
    decreases a.len() + b.len() + c.len(),
{
    if a.len() > 0 && b.len() > 0 {
        let c1 = if c.len() > 0 {
            c.skip(1)
        } else {
            c
        };
        bytes_less_is_an_order(a.skip(1), b.skip(1), c1);
        if a[0] == b[0] && a.skip(1) == b.skip(1) {
            assert(a =~= seq![a[0]] + a.skip(1));
            assert(b =~= seq![b[0]] + b.skip(1));
        }
    } else if a.len() > 0 {
        bytes_less_is_an_order(a.skip(1), b, c);
    } else if b.len() == 0 {
        assert(a =~= b);
    }
}

/// Of two strings of one length the lesser is the one that has the lesser byte
/// where they first differ.
pub proof fn the_first_difference_decides(a: Seq<u8>, b: Seq<u8>)
    requires
        a.len() == b.len(),
    ensures
        bytes_less(a, b) <==> exists|k: int|
            0 <= k < a.len() && #[trigger] a[k] < b[k] && forall|m: int|
                0 <= m < k ==> #[trigger] a[m] == b[m],
    decreases a.len(),
{
    if a.len() > 0 {
        let x = a.skip(1);
        let y = b.skip(1);
        the_first_difference_decides(x, y);
        if bytes_less(a, b) {
            if a[0] < b[0] {
                assert(a[0] < b[0]);
            } else {
                let k = choose|k: int|
                    0 <= k < x.len() && #[trigger] x[k] < y[k] && forall|m: int|
                        0 <= m < k ==> #[trigger] x[m] == y[m];
                assert(a[k + 1] < b[k + 1]);
                assert forall|m: int| 0 <= m < k + 1 implies #[trigger] a[m] == b[m] by {
                    if m > 0 {
                        assert(x[m - 1] == y[m - 1]);
                    }
                }
            }
        }
        if exists|k: int|
            0 <= k < a.len() && #[trigger] a[k] < b[k] && forall|m: int|
                0 <= m < k ==> #[trigger] a[m] == b[m] {
            let k = choose|k: int|
                0 <= k < a.len() && #[trigger] a[k] < b[k] && forall|m: int|
                    0 <= m < k ==> #[trigger] a[m] == b[m];
            if k > 0 {
                assert(a[0] == b[0]);
                assert(x[k - 1] < y[k - 1]);
                assert forall|m: int| 0 <= m < k - 1 implies #[trigger] x[m] == y[m] by {
                    assert(a[m + 1] == b[m + 1]);
                }
            }
        }
    }
}

/// Whether two identifiers are the same.
pub fn same_bytes(a: &[u8; 32], b: &[u8; 32]) -> (r: bool)
    ensures
        r == (a@ == b@),
{
    let mut i: usize = 0;
    while i < 32
        invariant
            i <= 32,
            forall|k: int| 0 <= k < i ==> a@[k] == b@[k],
        decreases 32 - i,
    {
        if a[i] != b[i] {
            return false;
        }
        i = i + 1;
    }
    assert(a@ =~= b@);
    true
}

/// Whether one identifier comes before another.
pub fn comes_before(a: &[u8; 32], b: &[u8; 32]) -> (r: bool)
    ensures
        r == bytes_less(a@, b@),
{
    let mut i: usize = 0;
    assert(a@.skip(0) =~= a@);
    assert(b@.skip(0) =~= b@);
    while i < 32
        invariant
            i <= 32,
            bytes_less(a@, b@) == bytes_less(a@.skip(i as int), b@.skip(i as int)),
        decreases 32 - i,
    {
        assert(a@.skip(i as int).skip(1) =~= a@.skip(i + 1));
        assert(b@.skip(i as int).skip(1) =~= b@.skip(i + 1));
        if a[i] < b[i] {
            return true;
        }
        if a[i] > b[i] {
            return false;
        }
        i = i + 1;
    }
    false
}

/// The lower-case hexadecimal digit of a value below sixteen.
pub open spec fn hex_digit(value: int) -> char {
    if value < 10 {
        (value + '0' as int) as char
    } else {
        (value - 10 + 'a' as int) as char
    }
}

/// Bytes in lower-case hexadecimal, two digits each.
pub open spec fn hex(bytes: Seq<u8>) -> Seq<char> {
    Seq::new(
        2 * bytes.len(),
        |i: int|
            hex_digit(
                if i % 2 == 0 {
                    bytes[i / 2] as int / 16
                } else {
                    bytes[i / 2] as int % 16
                },
            ),
    )
}

fn to_hex_digit(value: u8) -> (r: char)
    requires
        value < 16,
    ensures
        r == hex_digit(value as int),
{
    if value < 10 {
        (value + '0' as u8) as char
    } else {
        (value - 10 + 'a' as u8) as char
    }
}

/// Writes an identifier or a key in lower-case hexadecimal, as `to_hex` of the
/// `nostr` crate does for both.
pub fn to_hex(bytes: &[u8; 32]) -> (r: String)
    ensures
        r@ == hex(bytes@),
{
    let mut r: String = String::new();
    let mut i: usize = 0;
    while i < 32
        invariant
            i <= 32,
            r@ == hex(bytes@).take(2 * i),
        decreases 32 - i,
    {
        let b: u8 = bytes[i];
        r.push(to_hex_digit(b / 16));
        r.push(to_hex_digit(b % 16));
        assert(hex(bytes@).take(2 * (i + 1)) =~= hex(bytes@).take(2 * i).push(
            hex(bytes@)[2 * i],
        ).push(hex(bytes@)[2 * i + 1]));
        i = i + 1;
    }
    assert(hex(bytes@).take(64) =~= hex(bytes@));
    r
}

/// Different bytes are written differently, and always in lower case.
pub proof fn hex_tells_apart(a: Seq<u8>, b: Seq<u8>)
    ensures
        hex(a) == hex(b) <==> a == b,
        crate::text::lower(hex(a)) == hex(a),
{
    if hex(a) == hex(b) {
        assert(hex(a).len() == 2 * a.len());
        assert(hex(b).len() == 2 * b.len());
        assert forall|i: int| 0 <= i < a.len() implies a[i] == b[i] by {
            assert(hex(a)[2 * i] == hex(b)[2 * i]);
            assert(hex(a)[2 * i + 1] == hex(b)[2 * i + 1]);
            assert((2 * i + 1) / 2 == i);
        }
        assert(a =~= b);
    }
    assert(crate::text::lower(hex(a)) =~= hex(a));
}

/// The tags with a name: those whose first entry it is, with or without a
/// value behind it.
pub open spec fn tags_named(tags: Seq<Seq<Seq<char>>>, name: Seq<char>) -> Seq<Seq<Seq<char>>>
    decreases tags.len(),
{
    if tags.len() == 0 {
        Seq::empty()
    } else {
        let before = tags_named(tags.drop_last(), name);
        let tag = tags.last();
        if tag.len() >= 1 && tag[0] == name {
            before.push(tag)
        } else {
            before
        }
    }
}

/// A tag's value, but only where there is exactly one such tag.
pub open spec fn single_value(tags: Seq<Seq<Seq<char>>>, name: Seq<char>) -> Option<Seq<char>> {
    let named = tags_named(tags, name);
    if named.len() == 1 && named[0].len() >= 2 {
        Some(named[0][1])
    } else {
        None
    }
}

/// A tag's value, but only when the event carries exactly one of that tag.
///
/// Ambiguity is absence: a relay admits exactly one bounded `d` tag, so an
/// event with several is malformed, and picking the first would resolve
/// another coordinate than the publisher addressed.
pub fn single_tag(event: &CatalogEvent, name: &str) -> (r: Option<String>)
    ensures
        match r {
            Some(value) => single_value(tag_views(event.tags@), name@) == Some(value@),
            None => single_value(tag_views(event.tags@), name@) is None,
        },
{
    let ghost tags = tag_views(event.tags@);
    let mut found: Option<usize> = None;
    let mut i: usize = 0;
    assert(tags_named(tags.take(0), name@) =~= Seq::empty());
    while i < event.tags.len()
        invariant
            i <= event.tags@.len(),
            tags == tag_views(event.tags@),
            match found {
                Some(at) => at < i && tags_named(tags.take(i as int), name@) == seq![
                    tags[at as int],
                ],
                None => tags_named(tags.take(i as int), name@) == Seq::<Seq<Seq<char>>>::empty(),
            },
        decreases event.tags@.len() - i,
    {
        let tag = &event.tags[i];
        proof {
            assert(tags.take(i + 1).drop_last() =~= tags.take(i as int));
            assert(tags.take(i + 1).last() == views(tag@));
        }
        if tag.len() >= 1 && same_text(tag[0].as_str(), name) {
            if found.is_some() {
                proof {
                    named_tags_stay(tags, name@, i + 1);
                }
                return None;
            }
            found = Some(i);
            assert(tags_named(tags.take(i + 1), name@) =~= seq![tags[i as int]]);
        }
        i = i + 1;
    }
    assert(tags.take(i as int) =~= tags);
    match found {
        Some(at) => {
            let tag = &event.tags[at];
            assert(tags[at as int] == views(tag@));
            if tag.len() >= 2 {
                Some(tag[1].clone())
            } else {
                None
            }
        },
        None => None,
    }
}

proof fn named_tags_stay(tags: Seq<Seq<Seq<char>>>, name: Seq<char>, n: int)
    requires
        0 <= n <= tags.len(),
    ensures
        tags_named(tags, name).len() >= tags_named(tags.take(n), name).len(),
    decreases tags.len() - n,
{
    if n < tags.len() {
        named_tags_stay(tags, name, n + 1);
        assert(tags.take(n + 1).drop_last() =~= tags.take(n));
    } else {
        assert(tags.take(n) =~= tags);
    }
}

/// A byte is written as the digits of its two halves, the higher first.
pub proof fn hex_is_two_digits_a_byte(bytes: Seq<u8>, i: int)
    requires
        0 <= i < bytes.len(),
    ensures
        hex(bytes).len() == 2 * bytes.len(),
        hex(bytes)[2 * i] == "0123456789abcdef"@[bytes[i] as int / 16],
        hex(bytes)[2 * i + 1] == "0123456789abcdef"@[bytes[i] as int % 16],
{
    reveal_strlit("0123456789abcdef");
    assert((2 * i) / 2 == i && (2 * i) % 2 == 0);
    assert((2 * i + 1) / 2 == i && (2 * i + 1) % 2 == 1);
    hex_digits(bytes[i] as int / 16);
    hex_digits(bytes[i] as int % 16);
}

proof fn hex_digits(v: int)
    requires
        0 <= v < 16,
    ensures
        hex_digit(v) == "0123456789abcdef"@[v],
{
    reveal_strlit("0123456789abcdef");
}

/// A tag has a value exactly if it is the only one of its name and carries one:
/// a second one, even without a value or with the same, leaves none.
pub proof fn a_single_tag_stands_alone(tags: Seq<Seq<Seq<char>>>, name: Seq<char>, value: Seq<char>)
    ensures
        single_value(tags, name) == Some(value) <==> exists|t: int|
            0 <= t < tags.len() && (#[trigger] tags[t]).len() >= 2 && tags[t][0] == name
                && tags[t][1] == value && forall|u: int|
                0 <= u < tags.len() && u != t && (#[trigger] tags[u]).len() >= 1 ==> tags[u][0]
                    != name,
{
    let named = tags_named(tags, name);
    named_tags_are(tags, name);
    if single_value(tags, name) == Some(value) {
        let t = choose|t: int|
            0 <= t < tags.len() && (#[trigger] tags[t]) == named[0] && tags[t].len() >= 1
                && tags[t][0] == name && forall|u: int|
                0 <= u < tags.len() && u != t && (#[trigger] tags[u]).len() >= 1 ==> tags[u][0]
                    != name;
        assert(tags[t].len() >= 2 && tags[t][1] == value);
    }
    if exists|t: int|
        0 <= t < tags.len() && (#[trigger] tags[t]).len() >= 2 && tags[t][0] == name && tags[t][1]
            == value && forall|u: int|
            0 <= u < tags.len() && u != t && (#[trigger] tags[u]).len() >= 1 ==> tags[u][0]
                != name {
        let t = choose|t: int|
            0 <= t < tags.len() && (#[trigger] tags[t]).len() >= 2 && tags[t][0] == name
                && tags[t][1] == value && forall|u: int|
                0 <= u < tags.len() && u != t && (#[trigger] tags[u]).len() >= 1 ==> tags[u][0]
                    != name;
        one_named_tag(tags, name, t);
    }
}

proof fn named_tags_are(tags: Seq<Seq<Seq<char>>>, name: Seq<char>)
    ensures
        tags_named(tags, name).len() == 0 <==> forall|u: int|
            0 <= u < tags.len() && (#[trigger] tags[u]).len() >= 1 ==> tags[u][0] != name,
        tags_named(tags, name).len() == 1 ==> exists|t: int|
            0 <= t < tags.len() && (#[trigger] tags[t]) == tags_named(tags, name)[0]
                && tags[t].len() >= 1 && tags[t][0] == name && forall|u: int|
                0 <= u < tags.len() && u != t && (#[trigger] tags[u]).len() >= 1 ==> tags[u][0]
                    != name,
    decreases tags.len(),
{
    if tags.len() > 0 {
        let front = tags.drop_last();
        let last = tags.len() - 1;
        named_tags_are(front, name);
        assert(forall|u: int| 0 <= u < front.len() ==> front[u] == #[trigger] tags[u]);
        let is_named = tags.last().len() >= 1 && tags.last()[0] == name;
        if tags_named(tags, name).len() == 0 {
            assert forall|u: int| 0 <= u < tags.len() && (
            #[trigger] tags[u]).len() >= 1 implies tags[u][0] != name by {
                if u < front.len() {
                    assert(front[u].len() >= 1 ==> front[u][0] != name);
                }
            }
        } else if is_named {
            assert(tags[last].len() >= 1 && tags[last][0] == name);
            if tags_named(tags, name).len() == 1 {
                assert(tags[last] == tags_named(tags, name)[0]);
                assert forall|u: int| 0 <= u < tags.len() && u != last && (
                #[trigger] tags[u]).len() >= 1 implies tags[u][0] != name by {
                    assert(front[u].len() >= 1 ==> front[u][0] != name);
                }
            }
        } else {
            let u = choose|u: int|
                0 <= u < front.len() && (#[trigger] front[u]).len() >= 1 && front[u][0] == name;
            assert(tags[u].len() >= 1 && tags[u][0] == name);
            if tags_named(tags, name).len() == 1 {
                let t = choose|t: int|
                    0 <= t < front.len() && (#[trigger] front[t]) == tags_named(front, name)[0]
                        && front[t].len() >= 1 && front[t][0] == name && forall|u: int|
                        0 <= u < front.len() && u != t && (#[trigger] front[u]).len() >= 1
                            ==> front[u][0] != name;
                assert(tags[t] == tags_named(tags, name)[0]);
                assert forall|u: int| 0 <= u < tags.len() && u != t && (
                #[trigger] tags[u]).len() >= 1 implies tags[u][0] != name by {
                    if u < front.len() {
                        assert(front[u].len() >= 1 ==> front[u][0] != name);
                    }
                }
            }
        }
    }
}

proof fn one_named_tag(tags: Seq<Seq<Seq<char>>>, name: Seq<char>, t: int)
    requires
        0 <= t < tags.len(),
        tags[t].len() >= 1 && tags[t][0] == name,
        forall|u: int|
            0 <= u < tags.len() && u != t && (#[trigger] tags[u]).len() >= 1 ==> tags[u][0] != name,
    ensures
        tags_named(tags, name) == seq![tags[t]],
    decreases tags.len(),
{
    let front = tags.drop_last();
    assert(forall|u: int| 0 <= u < front.len() ==> front[u] == #[trigger] tags[u]);
    if t == tags.len() - 1 {
        named_tags_are(front, name);
        assert forall|u: int| 0 <= u < front.len() && (
        #[trigger] front[u]).len() >= 1 implies front[u][0] != name by {
            assert(tags[u].len() >= 1 ==> tags[u][0] != name);
        }
        assert(tags_named(tags, name) =~= seq![tags[t]]);
    } else {
        assert forall|u: int| 0 <= u < front.len() && u != t && (
        #[trigger] front[u]).len() >= 1 implies front[u][0] != name by {
            assert(tags[u].len() >= 1 ==> tags[u][0] != name);
        }
        one_named_tag(front, name, t);
        assert(tags[tags.len() - 1].len() >= 1 ==> tags[tags.len() - 1][0] != name);
    }
}

/// Whether an event verifies rests on all of its values, each as it is, and on
/// nothing else.
pub proof fn an_event_verifies_by_all_its_values(e: CatalogEvent)
    ensures
        e.verifies() == event_verifies(
            e.id@,
            e.pubkey@,
            e.created_at,
            e.kind,
            Seq::new(e.tags@.len(), |i: int| views(e.tags@[i]@)),
            e.content@,
            e.sig@,
        ),
{
    assert(tag_views(e.tags@) =~= Seq::new(e.tags@.len(), |i: int| views(e.tags@[i]@)));
}

} // verus!
