//! Which requests are upgraded, in terms of the bytes of their headers.
use vstd::prelude::*;

use crate::header::{is_header_value, is_text_byte, text_of};
use crate::text::{contains, lower, stands_at};
use crate::upgrade::{can_upgrade, header_contains, upgrades, UpgradeRequest};

verus! {

/// Whether two bytes are the same, or the same letter in two cases.
pub open spec fn same_letter(a: u8, b: u8) -> bool {
    ||| a == b
    ||| 65 <= a <= 90 && b == a + 32
    ||| 65 <= b <= 90 && a == b + 32
}

/// Whether two headers differ in letter case at the most.
pub open spec fn same_letters(a: Option<Vec<u8>>, b: Option<Vec<u8>>) -> bool {
    match (a, b) {
        (Some(x), Some(y)) => x@.len() == y@.len() && forall|i: int|
            0 <= i < x@.len() ==> same_letter(#[trigger] x@[i], y@[i]),
        (None, None) => true,
        _ => false,
    }
}

/// A value is text exactly if it is visible ASCII, spaces and tabs throughout,
/// and then it is the text of those characters.
pub proof fn a_value_is_text_byte_by_byte(value: Seq<u8>)
    ensures
        text_of(value) is Some <==> forall|i: int|
            0 <= i < value.len() ==> 32 <= (#[trigger] value[i]) <= 126 || value[i] == 9,
        text_of(value) is Some ==> text_of(value)->0.len() == value.len() && forall|i: int|
            0 <= i < value.len() ==> (#[trigger] text_of(value)->0[i]) as int == value[i] as int,
{
    assert forall|i: int| 0 <= i < value.len() implies (is_text_byte(#[trigger] value[i]) <==> 32
        <= value[i] <= 126 || value[i] == 9) by {}
    if text_of(value) is Some {
        assert forall|i: int| 0 <= i < value.len() implies (#[trigger] text_of(value)->0[i]) as int
            == value[i] as int by {
            assert(is_text_byte(value[i]));
        }
    }
}

/// A header names a word exactly if it is text and the word's letters, in
/// either case, stand in a row somewhere in it: what stands before and behind
/// changes nothing.
pub proof fn a_header_names_a_word_in_any_case(value: Option<Vec<u8>>, word: Seq<char>)
    requires
        forall|k: int| 0 <= k < word.len() ==> 'a' <= (#[trigger] word[k]) <= 'z',
    ensures
        header_contains(value, word) <==> {
            &&& value is Some
            &&& forall|i: int|
                0 <= i < value->0@.len() ==> 32 <= (#[trigger] value->0@[i]) <= 126 || value->0@[i]
                    == 9
            &&& exists|at: int|
                0 <= at && at + word.len() <= value->0@.len() && #[trigger] spells(
                    value->0@,
                    word,
                    at,
                )
        },
{
    if value is Some {
        let bytes = value->0@;
        a_value_is_text_byte_by_byte(bytes);
        if text_of(bytes) is Some {
            let text = text_of(bytes)->0;
            assert forall|at: int| 0 <= at && at + word.len() <= bytes.len() implies (
            #[trigger] spells(bytes, word, at) <==> stands_at(lower(text), word, at)) by {
                assert forall|k: int| 0 <= k < word.len() implies (lower(text)[at + k]
                    == #[trigger] word[k] <==> {
                    ||| bytes[at + k] as int == word[k] as int
                    ||| bytes[at + k] as int + 32 == word[k] as int
                }) by {
                    assert(text[at + k] as int == bytes[at + k] as int);
                    assert('a' <= word[k] <= 'z');
                }
                let there = lower(text).subrange(at, at + word.len());
                if spells(bytes, word, at) {
                    assert forall|k: int| 0 <= k < word.len() implies there[k] == word[k] by {
                        assert(lower(text)[at + k] == word[k]);
                    }
                    assert(there =~= word);
                }
                if stands_at(lower(text), word, at) {
                    assert forall|k: int| 0 <= k < word.len() implies {
                        ||| bytes[at + k] as int == (#[trigger] word[k]) as int
                        ||| bytes[at + k] as int + 32 == word[k] as int
                    } by {
                        assert(there[k] == word[k]);
                        assert(lower(text)[at + k] == word[k]);
                    }
                }
            }
            if contains(lower(text), word) {
                let at = choose|at: int| stands_at(lower(text), word, at);
                assert(spells(bytes, word, at));
            }
            if exists|at: int|
                0 <= at && at + word.len() <= bytes.len() && #[trigger] spells(bytes, word, at) {
                let at = choose|at: int|
                    0 <= at && at + word.len() <= bytes.len() && #[trigger] spells(bytes, word, at);
                assert(stands_at(lower(text), word, at));
            }
        }
    }
}

/// Whether the letters of a word, each in lower or upper case, stand at `at`.
pub open spec fn spells(bytes: Seq<u8>, word: Seq<char>, at: int) -> bool {
    forall|k: int|
        0 <= k < word.len() ==> {
            ||| bytes[at + k] as int == (#[trigger] word[k]) as int
            ||| bytes[at + k] as int + 32 == word[k] as int
        }
}

/// A request is upgraded exactly if it is a GET whose `Connection` spells
/// "upgrade" and whose `Upgrade` spells "websocket", in any letter case and with
/// anything around, whose version is 13, and which has a key.
pub proof fn an_upgrade_is_asked_for_by_its_headers(req: UpgradeRequest)
    ensures
        upgrades(req) <==> {
            &&& req.method@ == "GET"@
            &&& req.connection is Some
            &&& forall|i: int|
                0 <= i < req.connection->0@.len() ==> 32 <= (#[trigger] req.connection->0@[i]) <= 126
                    || req.connection->0@[i] == 9
            &&& exists|at: int|
                0 <= at && at + 7 <= req.connection->0@.len() && #[trigger] spells(
                    req.connection->0@,
                    "upgrade"@,
                    at,
                )
            &&& req.upgrade is Some
            &&& forall|i: int|
                0 <= i < req.upgrade->0@.len() ==> 32 <= (#[trigger] req.upgrade->0@[i]) <= 126
                    || req.upgrade->0@[i] == 9
            &&& exists|at: int|
                0 <= at && at + 9 <= req.upgrade->0@.len() && #[trigger] spells(
                    req.upgrade->0@,
                    "websocket"@,
                    at,
                )
            &&& req.version is Some
            &&& req.version->0@.len() == 2
            &&& req.version->0@[0] as int == '1' as int
            &&& req.version->0@[1] as int == '3' as int
            &&& req.key is Some
        },
{
    reveal_strlit("upgrade");
    reveal_strlit("websocket");
    assert("upgrade"@ =~= seq!['u', 'p', 'g', 'r', 'a', 'd', 'e']);
    assert("websocket"@ =~= seq!['w', 'e', 'b', 's', 'o', 'c', 'k', 'e', 't']);
    a_header_names_a_word_in_any_case(req.connection, "upgrade"@);
    a_header_names_a_word_in_any_case(req.upgrade, "websocket"@);
    if req.version is Some {
        let v = req.version->0@;
        if v.len() == 2 && v[0] == 49 && v[1] == 51 {
            assert(v =~= seq![49u8, 51u8]);
        }
    }
}

/// The letter case of the `Connection` and `Upgrade` headers changes nothing:
/// two requests that differ in it at the most are upgraded both or neither.
pub proof fn letter_case_of_the_upgrade_is_ignored(a: UpgradeRequest, b: UpgradeRequest)
    requires
        a.method@ == b.method@,
        same_letters(a.connection, b.connection),
        same_letters(a.upgrade, b.upgrade),
        a.version.deep_view() == b.version.deep_view(),
        a.key is Some <==> b.key is Some,
    ensures
        upgrades(a) <==> upgrades(b),
{
    reveal_strlit("upgrade");
    reveal_strlit("websocket");
    same_letters_name_the_same(a.connection, b.connection, "upgrade"@);
    same_letters_name_the_same(a.upgrade, b.upgrade, "websocket"@);
    if a.version is Some {
        let x = a.version->0@;
        let y = b.version->0@;
        assert(a.version->0.deep_view() == b.version->0.deep_view());
        assert(x.len() == y.len());
        assert forall|i: int| 0 <= i < x.len() implies x[i] == y[i] by {
            assert(a.version->0.deep_view()[i] == x[i]);
            assert(b.version->0.deep_view()[i] == y[i]);
        }
        assert(x =~= y);
    }
}

proof fn same_letters_name_the_same(a: Option<Vec<u8>>, b: Option<Vec<u8>>, word: Seq<char>)
    requires
        same_letters(a, b),
    ensures
        header_contains(a, word) == header_contains(b, word),
{
    if a is Some {
        let x = a->0@;
        let y = b->0@;
        assert forall|i: int| 0 <= i < x.len() implies (is_text_byte(#[trigger] x[i])
            <==> is_text_byte(y[i])) by {
            assert(same_letter(x[i], y[i]));
        }
        if text_of(x) is Some {
            assert forall|i: int| 0 <= i < y.len() implies is_text_byte(#[trigger] y[i]) by {
                assert(is_text_byte(x[i]));
            }
            let s = text_of(x)->0;
            let t = text_of(y)->0;
            assert forall|i: int| 0 <= i < s.len() implies lower(s)[i] == lower(t)[i] by {
                assert(same_letter(x[i], y[i]));
                assert(is_text_byte(x[i]) && is_text_byte(y[i]));
                assert(s[i] as int == x[i] as int && t[i] as int == y[i] as int);
            }
            assert(lower(s) =~= lower(t));
        } else {
            let i = choose|i: int| 0 <= i < x.len() && !is_text_byte(#[trigger] x[i]);
            assert(!is_text_byte(y[i]));
        }
    }
}

/// The handshake that browsers send is upgraded: a GET whose `Connection` is
/// "upgrade" and whose `Upgrade` is "websocket", in whatever letter case, of
/// version 13 and with any key.
pub proof fn the_plain_handshake_is_upgraded(req: UpgradeRequest, response: Seq<char>)
    requires
        req.method@ == "GET"@,
        req.connection is Some && req.connection->0@.len() == 7 && spells(
            req.connection->0@,
            "upgrade"@,
            0,
        ),
        req.upgrade is Some && req.upgrade->0@.len() == 9 && spells(
            req.upgrade->0@,
            "websocket"@,
            0,
        ),
        req.version is Some && req.version->0@ == seq![49u8, 51u8],
        req.key is Some,
        is_header_value(response),
    ensures
        upgrades(req),
        can_upgrade(req, response, true),
        !can_upgrade(req, response, false),
{
    reveal_strlit("upgrade");
    reveal_strlit("websocket");
    let c = "upgrade"@;
    let w = "websocket"@;
    assert forall|i: int| 0 <= i < 7 implies 32 <= (#[trigger] req.connection->0@[i]) <= 126 by {
        assert('a' <= c[i] <= 'z');
        assert(req.connection->0@[0 + i] as int == c[i] as int || req.connection->0@[0 + i] as int
            + 32 == c[i] as int);
    }
    assert forall|i: int| 0 <= i < 9 implies 32 <= (#[trigger] req.upgrade->0@[i]) <= 126 by {
        assert('a' <= w[i] <= 'z');
        assert(req.upgrade->0@[0 + i] as int == w[i] as int || req.upgrade->0@[0 + i] as int + 32
            == w[i] as int);
    }
    an_upgrade_is_asked_for_by_its_headers(req);
}

/// An upgrade that is asked for is completed exactly if its extensions may
/// stand in a header and the connection can be taken over.
pub proof fn an_upgrade_fails_for_its_own_reasons_only(
    req: UpgradeRequest,
    response: Seq<char>,
    can_take_over: bool,
)
    ensures
        can_upgrade(req, response, can_take_over) <==> upgrades(req) && is_header_value(response)
            && can_take_over,
{
}

} // verus!
