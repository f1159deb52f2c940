//! What a negotiation comes to, in terms of the header that was sent.
use vstd::prelude::*;

use crate::decimal::{decimal, parse};
use crate::deflate_laws::{
    can_be_honoured, every_parameter_is_honoured, extensions_of_both, the_names, window_asked,
    windows_differ,
};
use crate::offer::{
    extension_of, extensions_of, offers_of, param_of, params_of, split_is_nonempty, OfferSpec,
    ParamSpec,
};
use crate::text::{
    find_is_unique, lower, split, split_of_concatenation, split_without_separator, trim,
    trim_class, trim_end, trim_start, CharClass,
};
use crate::text_laws::trimming_takes_the_ends_only;
use crate::ws_deflate::{
    answer_to, commitment_of, first_terms, response_of, terms_for,
};

verus! {

/// An offer is accepted exactly if each of its parameters is a takeover flag
/// without a value, the client's window with any value or none, or a window of
/// the server's from 9 to 15, and no two ask for different windows.
pub proof fn an_offer_is_accepted_for_its_parameters(params: Seq<ParamSpec>)
    ensures
        commitment_of(params) is Some <==> {
            &&& forall|i: int|
                0 <= i < params.len() ==> {
                    let key = lower((#[trigger] params[i]).key);
                    let value = params[i].value;
                    ||| key == "server_no_context_takeover"@ && value is None
                    ||| key == "client_no_context_takeover"@ && value is None
                    ||| key == "client_max_window_bits"@
                    ||| key == "server_max_window_bits"@ && value is Some && parse(
                        value->0,
                        255,
                    ) is Some && 9 <= parse(value->0, 255)->0 <= 15
                }
            &&& forall|i: int, j: int|
                0 <= i < params.len() && 0 <= j < params.len() && lower((#[trigger] params[i]).key)
                    == "server_max_window_bits"@ && lower((#[trigger] params[j]).key)
                    == "server_max_window_bits"@ ==> parse(params[i].value->0, 255) == parse(
                    params[j].value->0,
                    255,
                )
        },
{
    the_names();
    every_parameter_is_honoured(params);
    assert forall|i: int| 0 <= i < params.len() implies (can_be_honoured(#[trigger] params[i]) <==> {
        let key = lower(params[i].key);
        let value = params[i].value;
        ||| key == "server_no_context_takeover"@ && value is None
        ||| key == "client_no_context_takeover"@ && value is None
        ||| key == "client_max_window_bits"@
        ||| key == "server_max_window_bits"@ && value is Some && parse(value->0, 255) is Some && 9
            <= parse(value->0, 255)->0 <= 15
    }) by {}
    if commitment_of(params) is Some {
        assert forall|i: int, j: int|
            0 <= i < params.len() && 0 <= j < params.len() && lower((#[trigger] params[i]).key)
                == "server_max_window_bits"@ && lower((#[trigger] params[j]).key)
                == "server_max_window_bits"@ implies parse(params[i].value->0, 255) == parse(
            params[j].value->0,
            255,
        ) by {
            assert(can_be_honoured(params[i]) && can_be_honoured(params[j]));
            assert(i < j ==> window_asked(params[i]) == window_asked(params[j]));
            assert(j < i ==> window_asked(params[j]) == window_asked(params[i]));
        }
    } else if windows_differ(params) && forall|i: int|
        0 <= i < params.len() ==> can_be_honoured(#[trigger] params[i]) {
        let (i, j) = choose|i: int, j: int|
            0 <= i < j < params.len() && crate::deflate_laws::asks_for_window(#[trigger] params[i])
                && crate::deflate_laws::asks_for_window(#[trigger] params[j]) && window_asked(
                params[i],
            ) != window_asked(params[j]);
        assert(can_be_honoured(params[i]) && can_be_honoured(params[j]));
        assert(parse(params[i].value->0, 255) != parse(params[j].value->0, 255));
    }
}

/// What an accepted offer asks for is done and said. The echo is the offered
/// parameters in their order, without the client's window, a flag by its name
/// and a window by its number. A side's flag is set exactly if a parameter asks
/// for it. The server's window is the one that is asked for, and the widest
/// where none is; the client's is always the widest.
pub proof fn an_accepted_offer_is_honoured(params: Seq<ParamSpec>)
    requires
        commitment_of(params) is Some,
    ensures
        commitment_of(params)->0.echo == params.filter(
            |p: ParamSpec| lower(p.key) != "client_max_window_bits"@,
        ).map_values(
            |p: ParamSpec|
                if lower(p.key) == "server_max_window_bits"@ {
                    "server_max_window_bits="@ + decimal(parse(p.value->0, 255)->0)
                } else {
                    lower(p.key)
                },
        ),
        commitment_of(params)->0.deflate.server_no_context_takeover <==> exists|i: int|
            0 <= i < params.len() && lower((#[trigger] params[i]).key)
                == "server_no_context_takeover"@,
        commitment_of(params)->0.deflate.client_no_context_takeover <==> exists|i: int|
            0 <= i < params.len() && lower((#[trigger] params[i]).key)
                == "client_no_context_takeover"@,
        forall|i: int|
            0 <= i < params.len() && lower((#[trigger] params[i]).key) == "server_max_window_bits"@
                ==> parse(params[i].value->0, 255) == Some(
                commitment_of(params)->0.deflate.server_window.bits as nat,
            ),
        (forall|i: int|
            0 <= i < params.len() ==> lower((#[trigger] params[i]).key)
                != "server_max_window_bits"@) ==> commitment_of(
            params,
        )->0.deflate.server_window.bits == 15,
        commitment_of(params)->0.deflate.client_window.bits == 15,
    decreases params.len(),
{
    let keep = |p: ParamSpec| lower(p.key) != "client_max_window_bits"@;
    let plain = |p: ParamSpec|
        if lower(p.key) == "server_max_window_bits"@ {
            "server_max_window_bits="@ + decimal(parse(p.value->0, 255)->0)
        } else {
            lower(p.key)
        };
    reveal(Seq::filter);
    let done = commitment_of(params)->0;
    if params.len() == 0 {
        assert(params.filter(keep).map_values(plain) =~= Seq::empty());
    } else {
        let front = params.drop_last();
        let last = params.last();
        let before = commitment_of(front)->0;
        an_accepted_offer_is_honoured(front);
        the_names();
        assert(forall|i: int| 0 <= i < front.len() ==> front[i] == #[trigger] params[i]);
        assert(params[params.len() - 1] == last);
        if keep(last) {
            assert(params.filter(keep) =~= front.filter(keep).push(last));
            assert(params.filter(keep).map_values(plain) =~= front.filter(keep).map_values(
                plain,
            ).push(plain(last)));
            assert(done.echo =~= before.echo.push(plain(last)));
        } else {
            assert(params.filter(keep) =~= front.filter(keep));
        }
        if before.deflate.server_no_context_takeover {
            let i = choose|i: int|
                0 <= i < front.len() && lower((#[trigger] front[i]).key)
                    == "server_no_context_takeover"@;
            assert(lower(params[i].key) == "server_no_context_takeover"@);
        }
        if before.deflate.client_no_context_takeover {
            let i = choose|i: int|
                0 <= i < front.len() && lower((#[trigger] front[i]).key)
                    == "client_no_context_takeover"@;
            assert(lower(params[i].key) == "client_no_context_takeover"@);
        }
        assert forall|i: int| 0 <= i < params.len() implies {
            let key = lower((#[trigger] params[i]).key);
            &&& key == "server_no_context_takeover"@ ==> done.deflate.server_no_context_takeover
            &&& key == "client_no_context_takeover"@ ==> done.deflate.client_no_context_takeover
        } by {
            if i < front.len() {
                assert(front[i] == params[i]);
            }
        }
        crate::deflate_laws::windowed_if_asked(params);
        crate::deflate_laws::windowed_if_asked(front);
        assert forall|i: int|
            0 <= i < params.len() && lower((#[trigger] params[i]).key)
                == "server_max_window_bits"@ implies parse(params[i].value->0, 255) == Some(
            done.deflate.server_window.bits as nat,
        ) by {
            assert(crate::deflate_laws::asks_for_window(params[i]));
            assert(window_asked(params[i]) == Some(done.deflate.server_window.bits as nat));
        }
        if forall|i: int|
            0 <= i < params.len() ==> lower((#[trigger] params[i]).key)
                != "server_max_window_bits"@ {
            assert forall|i: int| 0 <= i < front.len() implies lower((#[trigger] front[i]).key)
                != "server_max_window_bits"@ by {
                assert(lower(params[i].key) != "server_max_window_bits"@);
            }
            assert(lower(params[params.len() - 1].key) != "server_max_window_bits"@);
        }
    }
}

/// A response is the extension's name, and behind it each parameter after a
/// semicolon and a space.
pub proof fn a_response_lists_its_parameters(echo: Seq<Seq<char>>, one: Seq<char>)
    ensures
        response_of(Seq::empty()) == "permessage-deflate"@,
        response_of(echo.push(one)) == response_of(echo) + "; "@ + one,
{
    let name = seq!["permessage-deflate"@];
    assert(name + Seq::<Seq<char>>::empty() =~= name);
    assert(name + echo.push(one) =~= (name + echo).push(one));
    crate::text_laws::joining_adds_at_the_end(name + echo, "; "@, one);
    crate::text_laws::joining_adds_at_the_end(name, "; "@, "permessage-deflate"@);
}

/// An offer is answered with the response and the configuration that its
/// parameters come to.
pub proof fn an_offer_is_answered_by_its_parameters(offer: OfferSpec)
    ensures
        terms_for(offer) is Some <==> commitment_of(offer.params) is Some,
        terms_for(offer) is Some ==> terms_for(offer)->0.response == response_of(
            commitment_of(offer.params)->0.echo,
        ) && terms_for(offer)->0.deflate == commitment_of(offer.params)->0.deflate,
{
}

/// Of the offers of `permessage-deflate`, in any letter case, the first that
/// can be accepted is answered; where there is none, nothing is.
#[verifier::rlimit(40)]
pub proof fn the_first_acceptable_offer_wins(offers: Seq<OfferSpec>)
    ensures
        forall|i: int|
            0 <= i < offers.len() && lower((#[trigger] offers[i]).name) == "permessage-deflate"@
                && terms_for(offers[i]) is Some && (forall|j: int|
                0 <= j < i ==> lower((#[trigger] offers[j]).name) != "permessage-deflate"@
                    || terms_for(offers[j]) is None) ==> first_terms(offers) == terms_for(offers[i]),
        (forall|i: int|
            0 <= i < offers.len() ==> lower((#[trigger] offers[i]).name) != "permessage-deflate"@
                || terms_for(offers[i]) is None) ==> first_terms(offers) is None,
    decreases offers.len(),
{
    crate::deflate_laws::names_stay_lower();
    if offers.len() > 0 {
        let rest = offers.skip(1);
        the_first_acceptable_offer_wins(rest);
        assert(forall|j: int| 0 <= j < rest.len() ==> (#[trigger] rest[j]) == offers[j + 1]);
        assert forall|i: int|
            0 <= i < offers.len() && lower((#[trigger] offers[i]).name) == "permessage-deflate"@
                && terms_for(offers[i]) is Some && (forall|j: int|
                0 <= j < i ==> lower((#[trigger] offers[j]).name) != "permessage-deflate"@
                    || terms_for(offers[j]) is None) implies first_terms(offers) == terms_for(
            offers[i],
        ) by {
            if i > 0 {
                assert(lower(offers[0].name) != "permessage-deflate"@ || terms_for(
                    offers[0],
                ) is None);
                assert(rest[i - 1] == offers[i]);
                assert forall|j: int| 0 <= j < i - 1 implies lower((#[trigger] rest[j]).name)
                    != "permessage-deflate"@ || terms_for(rest[j]) is None by {
                    assert(rest[j] == offers[j + 1]);
                }
            }
        }
        if forall|i: int|
            0 <= i < offers.len() ==> lower((#[trigger] offers[i]).name) != "permessage-deflate"@
                || terms_for(offers[i]) is None {
            assert(lower(offers[0].name) != "permessage-deflate"@ || terms_for(offers[0]) is None);
            assert forall|j: int| 0 <= j < rest.len() implies lower((#[trigger] rest[j]).name)
                != "permessage-deflate"@ || terms_for(rest[j]) is None by {
                assert(rest[j] == offers[j + 1]);
            }
        }
    }
}

/// A header is answered for its offers, and no header is not answered.
pub proof fn a_header_is_answered_for_its_offers(header: Seq<char>)
    ensures
        answer_to(Some(header)) == first_terms(offers_of(header)),
        answer_to(None) is None,
{
}

/// A comma parts the offers of a header.
pub proof fn a_comma_parts_offers(a: Seq<char>, b: Seq<char>)
    ensures
        offers_of(a + seq![','] + b) == offers_of(a) + offers_of(b),
{
    split_of_concatenation(a, b, ',');
    extensions_of_both(split(a, ','), split(b, ','));
}

/// What holds neither a comma nor a semicolon offers the extension that it
/// names, without parameters; white space names none.
pub proof fn a_name_is_an_offer(name: Seq<char>)
    requires
        !name.contains(','),
        !name.contains(';'),
    ensures
        trim(name).len() == 0 ==> offers_of(name).len() == 0,
        trim(name).len() > 0 ==> offers_of(name) == seq![
            OfferSpec { name: trim(name), params: Seq::empty() },
        ],
{
    split_without_separator(name, ',');
    split_without_separator(name, ';');
    assert(seq![name].skip(1) =~= Seq::empty());
    assert(params_of(Seq::empty()) =~= Seq::empty());
    one_piece(name);
}

proof fn one_piece(text: Seq<char>)
    ensures
        extensions_of(seq![text]) == (match extension_of(text) {
            Some(offer) => seq![offer],
            None => Seq::empty(),
        }),
{
    assert(seq![text].drop_last() =~= Seq::empty());
    assert(extensions_of(Seq::empty()) =~= Seq::empty());
    if let Some(offer) = extension_of(text) {
        assert(Seq::empty().push(offer) =~= seq![offer]);
    }
}

/// A semicolon adds a parameter to an offer, behind those before it. White
/// space behind it adds none, and what names no extension gets none.
pub proof fn a_semicolon_adds_a_parameter(text: Seq<char>, piece: Seq<char>)
    requires
        !text.contains(','),
        !piece.contains(','),
        !piece.contains(';'),
    ensures
        offers_of(text).len() <= 1,
        offers_of(text).len() == 0 ==> offers_of(text + seq![';'] + piece).len() == 0,
        offers_of(text).len() == 1 ==> offers_of(text + seq![';'] + piece).len() == 1 && offers_of(
            text + seq![';'] + piece,
        )[0].name == offers_of(text)[0].name,
        offers_of(text).len() == 1 && trim(piece).len() == 0 ==> offers_of(
            text + seq![';'] + piece,
        )[0].params == offers_of(text)[0].params,
        offers_of(text).len() == 1 && trim(piece).len() > 0 ==> offers_of(
            text + seq![';'] + piece,
        )[0].params == offers_of(text)[0].params.push(param_of(trim(piece))),
{
    let whole = text + seq![';'] + piece;
    assert(!whole.contains(',')) by {
        if whole.contains(',') {
            let i = choose|i: int| 0 <= i < whole.len() && whole[i] == ',';
            if i < text.len() {
                assert(text[i] == ',');
            } else if i > text.len() {
                assert(piece[i - text.len() - 1] == ',');
            }
        }
    }
    split_without_separator(whole, ',');
    split_without_separator(text, ',');
    split_of_concatenation(text, piece, ';');
    split_without_separator(piece, ';');
    split_is_nonempty(text, ';');
    one_piece(whole);
    one_piece(text);
    let pieces = split(text, ';');
    let more = split(whole, ';');
    assert(more =~= pieces.push(piece));
    assert(more.skip(1).drop_last() =~= pieces.skip(1));
    assert(more.skip(1).last() == piece);
}

/// A parameter without an equals sign is a name alone.
pub proof fn a_bare_parameter_is_a_name(piece: Seq<char>)
    requires
        !piece.contains('='),
    ensures
        param_of(trim(piece)) == (ParamSpec { key: trim(piece), value: None }),
{
    let ends = trimming_takes_the_ends_only(piece, CharClass::Whitespace);
    let text = trim(piece);
    assert forall|k: int| 0 <= k < text.len() implies text[k] != '=' by {
        assert(text[k] == piece[ends.0 + k]);
    }
    find_is_unique(text, '=', text.len() as int);
}

/// The first equals sign of a parameter parts its name from its value. Neither
/// keeps the white space around it, nor the value the quotes.
pub proof fn an_equals_sign_parts_name_and_value(key: Seq<char>, value: Seq<char>)
    requires
        !key.contains('='),
    ensures
        param_of(trim(key + seq!['='] + value)) == (ParamSpec {
            key: trim(key),
            value: Some(trim_class(trim(value), CharClass::Quote)),
        }),
{
    let ws = CharClass::Whitespace;
    let k = trim_start(key, ws);
    let v = trim_end(value, ws);
    start_stops_at_a_sign(key, value);
    end_stops_at_a_sign(k, value);
    let text = k + seq!['='] + v;
    assert(trim(key + seq!['='] + value) == text);
    assert forall|i: int| 0 <= i < k.len() implies text[i] != '=' by {
        starts_within(key, ws);
        assert(key.contains(k[i]));
    }
    find_is_unique(text, '=', k.len() as int);
    assert(text.take(k.len() as int) =~= k);
    assert(text.skip(k.len() as int + 1) =~= v);
    trimming_start_first(key);
    trimming_end_first(value);
}

proof fn starts_within(s: Seq<char>, class: CharClass)
    ensures
        forall|i: int| 0 <= i < trim_start(s, class).len() ==> s.contains(
            #[trigger] trim_start(s, class)[i],
        ),
    decreases s.len(),
{
    let t = trim_start(s, class);
    if s.len() > 0 && class.has(s[0]) {
        let rest = s.skip(1);
        starts_within(rest, class);
        assert forall|i: int| 0 <= i < t.len() implies s.contains(#[trigger] t[i]) by {
            assert(rest.contains(trim_start(rest, class)[i]));
            let k = choose|k: int| 0 <= k < rest.len() && rest[k] == t[i];
            assert(s[k + 1] == t[i]);
        }
    } else {
        assert forall|i: int| 0 <= i < t.len() implies s.contains(#[trigger] t[i]) by {
            assert(s[i] == t[i]);
        }
    }
}

proof fn start_stops_at_a_sign(key: Seq<char>, value: Seq<char>)
    ensures
        trim_start(key + seq!['='] + value, CharClass::Whitespace) == trim_start(
            key,
            CharClass::Whitespace,
        ) + seq!['='] + value,
    decreases key.len(),
{
    let ws = CharClass::Whitespace;
    let whole = key + seq!['='] + value;
    if key.len() > 0 && ws.has(key[0]) {
        assert(whole.skip(1) =~= key.skip(1) + seq!['='] + value);
        start_stops_at_a_sign(key.skip(1), value);
    } else if key.len() == 0 {
        assert(whole[0] == '=');
    } else {
        assert(whole[0] == key[0]);
    }
}

proof fn end_stops_at_a_sign(key: Seq<char>, value: Seq<char>)
    ensures
        trim_end(key + seq!['='] + value, CharClass::Whitespace) == key + seq!['='] + trim_end(
            value,
            CharClass::Whitespace,
        ),
    decreases value.len(),
{
    let ws = CharClass::Whitespace;
    let whole = key + seq!['='] + value;
    if value.len() > 0 && ws.has(value.last()) {
        assert(whole.last() == value.last());
        assert(whole.drop_last() =~= key + seq!['='] + value.drop_last());
        end_stops_at_a_sign(key, value.drop_last());
    } else if value.len() == 0 {
        assert(whole.last() == '=');
    } else {
        assert(whole.last() == value.last());
    }
}

/// Where a trimmed text stands is fixed by what stands around it.
proof fn trimmed_between(s: Seq<char>, i: int, j: int)
    requires
        0 <= i < j <= s.len(),
        forall|k: int| 0 <= k < i ==> CharClass::Whitespace.has(#[trigger] s[k]),
        forall|k: int| j <= k < s.len() ==> CharClass::Whitespace.has(#[trigger] s[k]),
        !CharClass::Whitespace.has(s[i]),
        !CharClass::Whitespace.has(s[j - 1]),
    ensures
        trim(s) == s.subrange(i, j),
{
    let e = trimming_takes_the_ends_only(s, CharClass::Whitespace);
    if e.0 == e.1 {
        assert(CharClass::Whitespace.has(s[i]));
    }
    if e.0 < i {
        assert(CharClass::Whitespace.has(s[e.0]));
    }
    if i < e.0 {
        assert(CharClass::Whitespace.has(s[i]));
    }
    if e.1 < j {
        assert(CharClass::Whitespace.has(s[j - 1]));
    }
    if j < e.1 {
        assert(CharClass::Whitespace.has(s[e.1 - 1]));
    }
}

proof fn blank_trims_to_nothing(s: Seq<char>)
    requires
        forall|k: int| 0 <= k < s.len() ==> CharClass::Whitespace.has(#[trigger] s[k]),
    ensures
        trim(s).len() == 0,
{
    let e = trimming_takes_the_ends_only(s, CharClass::Whitespace);
    if e.0 < e.1 {
        assert(CharClass::Whitespace.has(s[e.0]));
    }
}

proof fn trimming_start_first(s: Seq<char>)
    ensures
        trim(trim_start(s, CharClass::Whitespace)) == trim(s),
    decreases s.len(),
{
    let ws = CharClass::Whitespace;
    if s.len() > 0 && ws.has(s[0]) {
        trimming_start_first(s.skip(1));
    }
}

proof fn trimming_end_first(s: Seq<char>)
    ensures
        trim(trim_end(s, CharClass::Whitespace)) == trim(s),
    decreases s.len(),
{
    let ws = CharClass::Whitespace;
    if s.len() > 0 && ws.has(s.last()) {
        let front = s.drop_last();
        trimming_end_first(front);
        let e = trimming_takes_the_ends_only(front, ws);
        if e.0 < e.1 {
            assert forall|k: int| 0 <= k < e.0 implies ws.has(#[trigger] s[k]) by {
                assert(ws.has(front[k]));
            }
            assert forall|k: int| e.1 <= k < s.len() implies ws.has(#[trigger] s[k]) by {
                if k < front.len() {
                    assert(ws.has(front[k]));
                }
            }
            trimmed_between(s, e.0, e.1);
            assert(s.subrange(e.0, e.1) =~= front.subrange(e.0, e.1));
        } else {
            assert forall|k: int| 0 <= k < s.len() implies ws.has(#[trigger] s[k]) by {
                if k < front.len() {
                    assert(ws.has(front[k]));
                }
            }
            blank_trims_to_nothing(s);
            assert(trim(front) =~= trim(s));
        }
    }
}

} // verus!
