//! What holds of every negotiation.
use vstd::prelude::*;
use vstd::utf8::{encode_scalar, encode_utf8, leading_byte_width_1};

use crate::decimal::{all_digits, decimal, decimal_reads_back, parse, without_plus};
use crate::deflate::{DeflateConfig, MAX_WINDOW_BITS};
use crate::header::{is_header_byte, is_header_value};
use crate::offer::{
    extension_of, extensions_of, offers_of, param_of, params_of, OfferSpec, ParamSpec,
};
use crate::text::{
    find, find_in_lower, find_is_unique, join, lower, lower_is_idempotent, split,
    split_of_concatenation, split_of_lower, split_without_separator, trim, trim_drops_first,
    trim_keeps, trim_of_lower, CharClass,
};
use crate::upgrade::{can_upgrade, upgrades, UpgradeRequest};
use crate::ws_deflate::{
    answer_to, commit, commitment_of, first_terms, is_deflate, no_commitment, response_of,
    terms_for, window_echo,
};

verus! {

/// Whether a parameter can be honoured at all.
pub open spec fn can_be_honoured(param: ParamSpec) -> bool {
    commit(no_commitment(), param) is Some
}

/// Whether a parameter asks for a window of the server's.
pub open spec fn asks_for_window(param: ParamSpec) -> bool {
    lower(param.key) == "server_max_window_bits"@
}

/// The window that a parameter asks for, where its value writes a number.
pub open spec fn window_asked(param: ParamSpec) -> Option<nat> {
    match param.value {
        Some(v) => parse(v, u8::MAX as nat),
        None => None,
    }
}

/// Whether two parameters ask for different windows of the server's.
pub open spec fn windows_differ(params: Seq<ParamSpec>) -> bool {
    exists|i: int, j: int|
        0 <= i < j < params.len() && asks_for_window(#[trigger] params[i]) && asks_for_window(
            #[trigger] params[j],
        ) && window_asked(params[i]) != window_asked(params[j])
}

/// A window is set exactly if one is asked for, and then to each one that is.
pub proof fn windowed_if_asked(params: Seq<ParamSpec>)
    requires
        commitment_of(params) is Some,
    ensures
        commitment_of(params)->0.windowed <==> exists|i: int|
            0 <= i < params.len() && asks_for_window(#[trigger] params[i]),
        forall|i: int|
            0 <= i < params.len() && asks_for_window(#[trigger] params[i]) ==> window_asked(
                params[i],
            ) == Some(commitment_of(params)->0.deflate.server_window.bits as nat),
    decreases params.len(),
{
    if params.len() > 0 {
        let before = params.drop_last();
        windowed_if_asked(before);
        the_names();
        assert(forall|i: int| 0 <= i < before.len() ==> before[i] == #[trigger] params[i]);
        if commitment_of(params)->0.windowed {
            if asks_for_window(params.last()) {
                assert(asks_for_window(params[params.len() - 1]));
            } else {
                let i = choose|i: int| 0 <= i < before.len() && asks_for_window(#[trigger] before[i]);
                assert(asks_for_window(params[i]));
            }
        } else {
            assert forall|i: int| 0 <= i < params.len() implies !asks_for_window(
                #[trigger] params[i],
            ) by {
                if i < before.len() {
                    assert(!asks_for_window(before[i]));
                }
            }
        }
        assert forall|i: int| 0 <= i < params.len() && asks_for_window(
            #[trigger] params[i],
        ) implies window_asked(params[i]) == Some(
            commitment_of(params)->0.deflate.server_window.bits as nat,
        ) by {
            if i < before.len() {
                assert(asks_for_window(before[i]));
            }
        }
    }
}

/// An offer is accepted exactly if each of its parameters can be honoured and
/// no two ask for different windows of the server's: an unknown or malformed
/// parameter, wherever it stands, declines the offer.
pub proof fn every_parameter_is_honoured(params: Seq<ParamSpec>)
    ensures
        commitment_of(params) is Some <==> !windows_differ(params) && forall|i: int|
            0 <= i < params.len() ==> can_be_honoured(#[trigger] params[i]),
    decreases params.len(),
{
    if params.len() > 0 {
        let before = params.drop_last();
        let last = params.len() - 1;
        every_parameter_is_honoured(before);
        assert(forall|i: int| 0 <= i < before.len() ==> before[i] == #[trigger] params[i]);
        if windows_differ(before) {
            let (i, j) = choose|i: int, j: int|
                0 <= i < j < before.len() && asks_for_window(#[trigger] before[i])
                    && asks_for_window(#[trigger] before[j]) && window_asked(before[i])
                    != window_asked(before[j]);
            assert(asks_for_window(params[i]) && asks_for_window(params[j]));
        }
        if commitment_of(before) is Some {
            windowed_if_asked(before);
            the_names();
            if commitment_of(params) is Some {
                windowed_if_asked(params);
                assert(can_be_honoured(params[last]));
                assert forall|i: int| 0 <= i < params.len() implies can_be_honoured(
                    #[trigger] params[i],
                ) by {
                    if i < before.len() {
                        assert(can_be_honoured(before[i]));
                    }
                }
            } else if can_be_honoured(params[last]) {
                assert(commitment_of(before)->0.windowed && asks_for_window(params[last]));
                let i = choose|i: int| 0 <= i < before.len() && asks_for_window(#[trigger] before[i]);
                assert(asks_for_window(params[i]) && asks_for_window(params[last]));
                assert(window_asked(params[i]) != window_asked(params[last]));
            }
        } else if !windows_differ(before) {
            let i = choose|i: int| 0 <= i < before.len() && !can_be_honoured(#[trigger] before[i]);
            assert(!can_be_honoured(params[i]));
        }
    }
}

/// What stands before an offer, once declined, does not shadow it: the answer
/// to a list is the answer to its first part, or else to its second.
pub proof fn offers_do_not_shadow(a: Seq<OfferSpec>, b: Seq<OfferSpec>)
    ensures
        first_terms(a + b) == (if first_terms(a) is Some {
            first_terms(a)
        } else {
            first_terms(b)
        }),
    decreases a.len(),
{
    if a.len() == 0 {
        assert(a + b =~= b);
    } else {
        assert((a + b).skip(1) =~= a.skip(1) + b);
        offers_do_not_shadow(a.skip(1), b);
    }
}

/// The offers of two runs of pieces are those of the first and then those of
/// the second.
pub proof fn extensions_of_both(a: Seq<Seq<char>>, b: Seq<Seq<char>>)
    ensures
        extensions_of(a + b) == extensions_of(a) + extensions_of(b),
    decreases b.len(),
{
    if b.len() == 0 {
        assert(a + b =~= a);
        assert(extensions_of(a) + extensions_of(b) =~= extensions_of(a));
    } else {
        extensions_of_both(a, b.drop_last());
        assert((a + b).drop_last() =~= a + b.drop_last());
        assert(extensions_of(a + b) =~= extensions_of(a) + extensions_of(b));
    }
}

/// A header that lists two others after each other is answered as the first,
/// or, where that one is declined, as the second.
pub proof fn headers_do_not_shadow(a: Seq<char>, b: Seq<char>)
    ensures
        answer_to(Some(a + seq![','] + b)) == (if answer_to(Some(a)) is Some {
            answer_to(Some(a))
        } else {
            answer_to(Some(b))
        }),
{
    split_of_concatenation(a, b, ',');
    extensions_of_both(split(a, ','), split(b, ','));
    offers_do_not_shadow(offers_of(a), offers_of(b));
}

/// The characters that names of extensions and parameters are made of.
pub open spec fn is_name_char(c: char) -> bool {
    'a' <= c <= 'z' || c == '_' || c == '-'
}

spec fn starts_as_name(s: Seq<char>, n: nat) -> bool
    decreases n,
{
    n == 0 || is_name_char(s[n - 1]) && starts_as_name(s, (n - 1) as nat)
}

proof fn starts_as_name_means(s: Seq<char>, n: nat)
    requires
        starts_as_name(s, n),
    ensures
        forall|i: int| 0 <= i < n ==> is_name_char(#[trigger] s[i]),
    decreases n,
{
    if n > 0 {
        starts_as_name_means(s, (n - 1) as nat);
    }
}

/// A text of such characters and no others.
pub open spec fn is_name(s: Seq<char>) -> bool {
    s.len() > 0 && forall|i: int| 0 <= i < s.len() ==> is_name_char(#[trigger] s[i])
}

/// The names that a negotiation knows are such texts, and all different.
pub proof fn the_names()
    ensures
        is_name("permessage-deflate"@),
        is_name("server_no_context_takeover"@),
        is_name("client_no_context_takeover"@),
        is_name("client_max_window_bits"@),
        is_name("server_max_window_bits"@),
        "server_no_context_takeover"@.len() == 26,
        "client_no_context_takeover"@.len() == 26,
        "client_max_window_bits"@.len() == 22,
        "server_max_window_bits"@.len() == 22,
        "server_no_context_takeover"@ != "client_no_context_takeover"@,
        "client_max_window_bits"@ != "server_max_window_bits"@,
        "server_max_window_bits="@ == "server_max_window_bits"@.push('='),
        "; "@ == seq![';', ' '],
{
    reveal_strlit("permessage-deflate");
    reveal_strlit("server_no_context_takeover");
    reveal_strlit("client_no_context_takeover");
    reveal_strlit("client_max_window_bits");
    reveal_strlit("server_max_window_bits");
    reveal_strlit("server_max_window_bits=");
    reveal_strlit("; ");
    reveal_with_fuel(starts_as_name, 27);
    starts_as_name_means("permessage-deflate"@, 18);
    starts_as_name_means("server_no_context_takeover"@, 26);
    starts_as_name_means("client_no_context_takeover"@, 26);
    starts_as_name_means("client_max_window_bits"@, 22);
    starts_as_name_means("server_max_window_bits"@, 22);
    assert("server_no_context_takeover"@[0] != "client_no_context_takeover"@[0]);
    assert("client_max_window_bits"@[0] != "server_max_window_bits"@[0]);
    assert("server_max_window_bits="@ =~= "server_max_window_bits"@.push('='));
    assert("; "@ =~= seq![';', ' ']);
}

/// The extension's name is in lower case.
pub proof fn names_stay_lower()
    ensures
        lower("permessage-deflate"@) == "permessage-deflate"@,
{
    the_names();
    names_stay("permessage-deflate"@);
}

/// A name stays as it is when it is trimmed, lowered or read as a parameter.
proof fn names_stay(s: Seq<char>)
    requires
        is_name(s),
    ensures
        lower(s) == s,
        param_of(s) == (ParamSpec { key: s, value: None }),
        trim(s) == s,
{
    assert(lower(s) =~= s);
    find_is_unique(s, '=', s.len() as int);
    trim_keeps(s, CharClass::Whitespace);
}

/// The window parameter is read back as it was written.
proof fn window_echo_reads_back(bits: nat)
    ensures
        param_of(window_echo(bits)) == (ParamSpec {
            key: "server_max_window_bits"@,
            value: Some(decimal(bits)),
        }),
{
    the_names();
    decimal_reads_back(bits);
    let name = "server_max_window_bits"@;
    let text = window_echo(bits);
    let at = name.len() as int;
    find_is_unique(text, '=', at);
    assert(text.take(at) =~= name);
    assert(text.skip(at + 1) =~= decimal(bits));
    names_stay(name);
    trim_keeps(decimal(bits), CharClass::Whitespace);
    trim_keeps(decimal(bits), CharClass::Quote);
}

/// A text that can stand between the separators of a response.
spec fn is_token(s: Seq<char>) -> bool {
    s.len() > 0 && forall|i: int|
        0 <= i < s.len() ==> #[trigger] s[i] != ',' && s[i] != ';'
            && !CharClass::Whitespace.has(s[i])
}

/// What is echoed, read as parameters.
pub open spec fn echoed_params(echo: Seq<Seq<char>>) -> Seq<ParamSpec> {
    Seq::new(echo.len(), |i: int| param_of(echo[i]))
}

/// What is echoed, offered again, comes to the same commitment.
proof fn echo_commits_again(params: Seq<ParamSpec>)
    requires
        commitment_of(params) is Some,
    ensures
        commitment_of(echoed_params(commitment_of(params)->0.echo)) == commitment_of(params),
        forall|i: int|
            0 <= i < commitment_of(params)->0.echo.len() ==> is_token(
                #[trigger] commitment_of(params)->0.echo[i],
            ),
    decreases params.len(),
{
    let done = commitment_of(params)->0;
    if params.len() == 0 {
        assert(echoed_params(done.echo) =~= Seq::empty());
    } else {
        let before = commitment_of(params.drop_last())->0;
        let param = params.last();
        echo_commits_again(params.drop_last());
        the_names();
        if lower(param.key) != "client_max_window_bits"@ {
            let added = done.echo.last();
            assert(done.echo.drop_last() =~= before.echo);
            assert(echoed_params(done.echo).drop_last() =~= echoed_params(before.echo));
            if lower(param.key) == "server_max_window_bits"@ {
                let bits = parse(param.value->0, u8::MAX as nat)->0;
                window_echo_reads_back(bits);
                decimal_reads_back(bits);
                names_stay("server_max_window_bits"@);
                assert(added == window_echo(bits));
                assert forall|i: int| 0 <= i < added.len() implies #[trigger] added[i] != ','
                    && added[i] != ';' && !CharClass::Whitespace.has(added[i]) by {
                    if i > 22 {
                        assert(added[i] == decimal(bits)[i - 23]);
                    }
                }
            } else {
                names_stay(added);
            }
            assert(is_token(added));
            assert(echoed_params(done.echo).last() == param_of(added));
            assert(commit(before, param_of(added)) == Some(done));
        }
    }
}

/// The pieces of a response: the name, then each parameter behind a space.
spec fn response_pieces(list: Seq<Seq<char>>) -> Seq<Seq<char>> {
    Seq::new(
        list.len(),
        |i: int|
            if i == 0 {
                list[0]
            } else {
                seq![' '] + list[i]
            },
    )
}

proof fn response_splits(list: Seq<Seq<char>>)
    requires
        list.len() > 0,
        forall|i: int| 0 <= i < list.len() ==> is_token(#[trigger] list[i]),
    ensures
        split(join(list, "; "@), ';') == response_pieces(list),
        !join(list, "; "@).contains(','),
    decreases list.len(),
{
    the_names();
    let whole = join(list, "; "@);
    if list.len() == 1 {
        assert(is_token(list[0]));
        assert(!list[0].contains(';')) by {
            if list[0].contains(';') {
                let i = choose|i: int| 0 <= i < list[0].len() && list[0][i] == ';';
                assert(list[0][i] != ';');
            }
        }
        split_without_separator(list[0], ';');
        assert(response_pieces(list) =~= seq![list[0]]);
        assert(forall|i: int| 0 <= i < whole.len() ==> whole[i] != ',');
    } else {
        let front = list.drop_last();
        let last = list.last();
        assert(forall|i: int| 0 <= i < front.len() ==> front[i] == #[trigger] list[i]);
        assert forall|i: int| 0 <= i < front.len() implies is_token(#[trigger] front[i]) by {
            assert(is_token(list[i]));
        }
        response_splits(front);
        let head = join(front, "; "@);
        let tail = seq![' '] + last;
        assert(is_token(list[list.len() - 1]));
        assert(whole =~= head + seq![';'] + tail);
        split_of_concatenation(head, tail, ';');
        assert(forall|i: int| 0 <= i < tail.len() ==> tail[i] != ';' && tail[i] != ',');
        split_without_separator(tail, ';');
        assert(response_pieces(list) =~= response_pieces(front) + seq![tail]);
        assert forall|i: int| 0 <= i < whole.len() implies whole[i] != ',' by {
            if i < head.len() {
                if head[i] == ',' {
                    assert(head.contains(head[i]));
                }
            } else if i > head.len() {
                assert(whole[i] == tail[i - head.len() - 1]);
            }
        }
    }
}

proof fn params_of_pieces(echo: Seq<Seq<char>>, n: int)
    requires
        0 <= n <= echo.len(),
        forall|i: int| 0 <= i < echo.len() ==> is_token(#[trigger] echo[i]),
    ensures
        params_of(Seq::new(n as nat, |i: int| seq![' '] + echo[i])) == echoed_params(echo).take(n),
    decreases n,
{
    let pieces = Seq::new(n as nat, |i: int| seq![' '] + echo[i]);
    if n == 0 {
        assert(echoed_params(echo).take(0) =~= Seq::empty());
    } else {
        params_of_pieces(echo, n - 1);
        assert(pieces.drop_last() =~= Seq::new((n - 1) as nat, |i: int| seq![' '] + echo[i]));
        let last = echo[n - 1];
        assert(is_token(last));
        assert(!CharClass::Whitespace.has(last[0]));
        assert(!CharClass::Whitespace.has(last[last.len() - 1]));
        trim_drops_first(last, CharClass::Whitespace, ' ');
        assert(echoed_params(echo).take(n) =~= echoed_params(echo).take(n - 1).push(
            param_of(last),
        ));
    }
}

/// The answer to a list of offers is the terms of one of them.
proof fn first_terms_come_from_an_offer(offers: Seq<OfferSpec>) -> (offer: OfferSpec)
    requires
        first_terms(offers) is Some,
    ensures
        terms_for(offer) == first_terms(offers),
    decreases offers.len(),
{
    if is_deflate(offers[0]) && terms_for(offers[0]) is Some {
        offers[0]
    } else {
        first_terms_come_from_an_offer(offers.skip(1))
    }
}

/// A response says what the relay does: read as a header of its own, it is
/// answered with itself, on the very terms that it was sent for.
pub proof fn response_describes_the_configuration(header: Seq<char>)
    requires
        answer_to(Some(header)) is Some,
    ensures
        answer_to(Some(answer_to(Some(header))->0.response)) == answer_to(Some(header)),
{
    let offer = first_terms_come_from_an_offer(offers_of(header));
    response_reads_back(offer);
}

/// The response to an offer is accepted on the terms of that offer.
proof fn response_reads_back(offer: OfferSpec)
    requires
        terms_for(offer) is Some,
    ensures
        answer_to(Some(terms_for(offer)->0.response)) == terms_for(offer),
{
    the_names();
    let done = commitment_of(offer.params)->0;
    let name = "permessage-deflate"@;
    let list = seq![name] + done.echo;
    let response = response_of(done.echo);
    echo_commits_again(offer.params);
    names_stay(name);
    assert(is_token(name)) by {
        assert forall|i: int| 0 <= i < name.len() implies #[trigger] name[i] != ',' && name[i]
            != ';' && !CharClass::Whitespace.has(name[i]) by {
            assert(is_name_char(name[i]));
        }
    }
    assert forall|i: int| 0 <= i < list.len() implies is_token(#[trigger] list[i]) by {
        if i > 0 {
            assert(list[i] == done.echo[i - 1]);
        }
    }
    response_splits(list);
    split_without_separator(response, ',');
    let pieces = split(response, ';');
    assert(pieces[0] == name);
    assert(pieces.skip(1) =~= Seq::new(done.echo.len(), |i: int| seq![' '] + done.echo[i]));
    params_of_pieces(done.echo, done.echo.len() as int);
    assert(echoed_params(done.echo).take(done.echo.len() as int) =~= echoed_params(done.echo));
    let read = OfferSpec { name, params: echoed_params(done.echo) };
    assert(extension_of(response) == Some(read));
    assert(seq![response].drop_last() =~= Seq::empty());
    assert(extensions_of(Seq::empty()) =~= Seq::empty());
    assert(extensions_of(seq![response]) =~= seq![read]);
    assert(is_deflate(read));
    assert(terms_for(read) == terms_for(offer));
}

/// A window that is echoed says which window it is, and is no flag.
proof fn window_echo_is_unique(a: nat, b: nat)
    requires
        window_echo(a) == window_echo(b),
    ensures
        a == b,
{
    window_echo_reads_back(a);
    window_echo_reads_back(b);
    decimal_reads_back(a);
    decimal_reads_back(b);
    assert(param_of(window_echo(a)).value == Some(decimal(b)));
}

/// What a connection is configured with is what its response says: a takeover
/// flag is set exactly if it is echoed, the server's window is the one that is
/// echoed, or the default where none is, and the client's window is never moved.
pub proof fn only_what_is_echoed_is_configured(params: Seq<ParamSpec>)
    requires
        commitment_of(params) is Some,
    ensures
        ({
            let done = commitment_of(params)->0;
            &&& done.deflate.server_no_context_takeover <==> done.echo.contains(
                "server_no_context_takeover"@,
            )
            &&& done.deflate.client_no_context_takeover <==> done.echo.contains(
                "client_no_context_takeover"@,
            )
            &&& forall|bits: nat| #[trigger]
                done.echo.contains(window_echo(bits)) ==> bits == done.deflate.server_window.bits
            &&& done.windowed ==> done.echo.contains(
                window_echo(done.deflate.server_window.bits as nat),
            )
            &&& !done.windowed ==> done.deflate.server_window.bits == MAX_WINDOW_BITS
                && forall|bits: nat| !#[trigger] done.echo.contains(window_echo(bits))
            &&& done.deflate.client_window == DeflateConfig::initial().client_window
            &&& done.deflate.wf()
        }),
    decreases params.len(),
{
    let done = commitment_of(params)->0;
    if params.len() > 0 {
        let before = commitment_of(params.drop_last())->0;
        only_what_is_echoed_is_configured(params.drop_last());
        the_names();
        if lower(params.last().key) != "client_max_window_bits"@ {
            let added = done.echo.last();
            assert(done.echo =~= before.echo.push(added));
            assert forall|x: Seq<char>| #[trigger] done.echo.contains(x) <==> before.echo.contains(x)
                || x == added by {
                if before.echo.contains(x) {
                    let i = choose|i: int| 0 <= i < before.echo.len() && before.echo[i] == x;
                    assert(done.echo[i] == x);
                }
                if x == added {
                    assert(done.echo[before.echo.len() as int] == x);
                }
            }
            assert(is_name_char("server_no_context_takeover"@[22]));
            assert(is_name_char("client_no_context_takeover"@[22]));
            assert(forall|bits: nat| (#[trigger] window_echo(bits))[22] == '=');
            if lower(params.last().key) == "server_max_window_bits"@ {
                let bits = parse(params.last().value->0, u8::MAX as nat)->0;
                assert(added == window_echo(bits));
                assert forall|b: nat| #[trigger] done.echo.contains(window_echo(b)) implies b
                    == done.deflate.server_window.bits by {
                    if window_echo(b) == added {
                        window_echo_is_unique(b, bits);
                    }
                }
            } else {
                assert forall|b: nat| #[trigger] done.echo.contains(window_echo(b)) implies
                    before.echo.contains(window_echo(b)) by {
                    assert(window_echo(b)[22] == '=');
                    assert(window_echo(b) != added);
                }
            }
        }
    }
}

/// A response never speaks of the client's window.
pub proof fn client_window_is_never_echoed(params: Seq<ParamSpec>)
    requires
        commitment_of(params) is Some,
    ensures
        forall|i: int|
            0 <= i < commitment_of(params)->0.echo.len() ==> lower(
                param_of(#[trigger] commitment_of(params)->0.echo[i]).key,
            ) != "client_max_window_bits"@,
    decreases params.len(),
{
    let done = commitment_of(params)->0;
    if params.len() > 0 {
        let before = commitment_of(params.drop_last())->0;
        client_window_is_never_echoed(params.drop_last());
        the_names();
        if lower(params.last().key) != "client_max_window_bits"@ {
            let added = done.echo.last();
            if lower(params.last().key) == "server_max_window_bits"@ {
                window_echo_reads_back(parse(params.last().value->0, u8::MAX as nat)->0);
                names_stay("server_max_window_bits"@);
            } else {
                names_stay(added);
            }
            assert forall|i: int| 0 <= i < done.echo.len() implies lower(
                param_of(#[trigger] done.echo[i]).key,
            ) != "client_max_window_bits"@ by {
                if i < before.echo.len() {
                    assert(done.echo[i] == before.echo[i]);
                }
            }
        }
    }
}

proof fn parse_of_lower(s: Seq<char>, max: nat)
    ensures
        parse(lower(s), max) == parse(s, max),
{
    let a = without_plus(s);
    let b = without_plus(lower(s));
    assert(b =~= lower(a));
    if all_digits(a) {
        assert(b =~= a);
    } else {
        let i = choose|i: int| 0 <= i < a.len() && !crate::decimal::is_digit(#[trigger] a[i]);
        assert(!crate::decimal::is_digit(b[i]));
    }
}

/// A parameter in lower case.
spec fn lower_param(param: ParamSpec) -> ParamSpec {
    ParamSpec {
        key: lower(param.key),
        value: match param.value {
            Some(v) => Some(lower(v)),
            None => None,
        },
    }
}

proof fn param_of_lower(s: Seq<char>)
    ensures
        param_of(lower(s)) == lower_param(param_of(s)),
{
    find_in_lower(s, '=');
    let at = find(s, '=') as int;
    if at < s.len() {
        assert(lower(s).take(at) =~= lower(s.take(at)));
        assert(lower(s).skip(at + 1) =~= lower(s.skip(at + 1)));
        trim_of_lower(s.take(at), CharClass::Whitespace);
        trim_of_lower(s.skip(at + 1), CharClass::Whitespace);
        trim_of_lower(trim(s.skip(at + 1)), CharClass::Quote);
    }
}

spec fn lower_all(pieces: Seq<Seq<char>>) -> Seq<Seq<char>> {
    Seq::new(pieces.len(), |i: int| lower(pieces[i]))
}

spec fn lower_params(params: Seq<ParamSpec>) -> Seq<ParamSpec> {
    Seq::new(params.len(), |i: int| lower_param(params[i]))
}

spec fn lower_offer(offer: OfferSpec) -> OfferSpec {
    OfferSpec { name: lower(offer.name), params: lower_params(offer.params) }
}

proof fn params_of_lower(pieces: Seq<Seq<char>>)
    ensures
        params_of(lower_all(pieces)) == lower_params(params_of(pieces)),
    decreases pieces.len(),
{
    if pieces.len() > 0 {
        params_of_lower(pieces.drop_last());
        assert(lower_all(pieces).drop_last() =~= lower_all(pieces.drop_last()));
        trim_of_lower(pieces.last(), CharClass::Whitespace);
        param_of_lower(trim(pieces.last()));
    }
    assert(params_of(lower_all(pieces)) =~= lower_params(params_of(pieces)));
}

proof fn extension_of_lower(s: Seq<char>)
    ensures
        extension_of(lower(s)) == (match extension_of(s) {
            Some(offer) => Some(lower_offer(offer)),
            None => None,
        }),
{
    split_of_lower(s, ';');
    let pieces = split(s, ';');
    crate::offer::split_is_nonempty(s, ';');
    assert(split(lower(s), ';') =~= lower_all(pieces));
    trim_of_lower(pieces[0], CharClass::Whitespace);
    params_of_lower(pieces.skip(1));
    assert(lower_all(pieces).skip(1) =~= lower_all(pieces.skip(1)));
}

proof fn commitment_of_lower(params: Seq<ParamSpec>)
    ensures
        commitment_of(lower_params(params)) == commitment_of(params),
    decreases params.len(),
{
    if params.len() > 0 {
        commitment_of_lower(params.drop_last());
        assert(lower_params(params).drop_last() =~= lower_params(params.drop_last()));
        lower_is_idempotent(params.last().key);
        if params.last().value is Some {
            parse_of_lower(params.last().value->0, u8::MAX as nat);
        }
    } else {
        assert(lower_params(params) =~= params);
    }
}

proof fn first_terms_of_lower(pieces: Seq<Seq<char>>)
    ensures
        first_terms(extensions_of(lower_all(pieces))) == first_terms(extensions_of(pieces)),
    decreases pieces.len(),
{
    if pieces.len() == 0 {
        assert(lower_all(pieces) =~= pieces);
    } else {
        let front = pieces.drop_last();
        first_terms_of_lower(front);
        assert(lower_all(pieces).drop_last() =~= lower_all(front));
        extension_of_lower(pieces.last());
        if let Some(offer) = extension_of(pieces.last()) {
            commitment_of_lower(offer.params);
            lower_is_idempotent(offer.name);
            let one = seq![offer];
            let low = seq![lower_offer(offer)];
            assert(terms_for(lower_offer(offer)) == terms_for(offer));
            assert(one.skip(1) =~= Seq::empty() && low.skip(1) =~= Seq::empty());
            assert(first_terms(one) == first_terms(low));
            assert(extensions_of(pieces) =~= extensions_of(front) + one);
            assert(extensions_of(lower_all(pieces)) =~= extensions_of(lower_all(front)) + low);
            offers_do_not_shadow(extensions_of(front), one);
            offers_do_not_shadow(extensions_of(lower_all(front)), low);
        }
    }
}

/// The letter case of a header changes nothing in its answer.
pub proof fn letter_case_is_ignored(header: Seq<char>)
    ensures
        answer_to(Some(lower(header))) == answer_to(Some(header)),
{
    split_of_lower(header, ',');
    assert(split(lower(header), ',') =~= lower_all(split(header, ',')));
    first_terms_of_lower(split(header, ','));
}

/// A text of visible ASCII and spaces.
spec fn is_visible(s: Seq<char>) -> bool {
    forall|i: int| 0 <= i < s.len() ==> ' ' <= #[trigger] s[i] <= '~'
}

proof fn visible_stands_in_a_header(s: Seq<char>)
    requires
        is_visible(s),
    ensures
        is_header_value(s),
    decreases s.len(),
{
    if s.len() > 0 {
        let rest = s.drop_first();
        assert forall|i: int| 0 <= i < rest.len() implies ' ' <= #[trigger] rest[i] <= '~' by {
            assert(rest[i] == s[i + 1]);
        }
        visible_stands_in_a_header(rest);
        let first = encode_scalar(s[0] as u32);
        let c = s[0] as u32;
        assert(32 <= c <= 126);
        assert(first =~= seq![leading_byte_width_1(c)]);
        assert((c & 0x7F) as u8 == c as u8) by (bit_vector)
            requires
                32 <= c <= 126,
        ;
        let all = encode_utf8(s);
        assert forall|i: int| 0 <= i < all.len() implies is_header_byte(#[trigger] all[i]) by {
            if i > 0 {
                assert(all[i] == encode_utf8(rest)[i - 1]);
            }
        }
    }
}

proof fn names_are_visible(s: Seq<char>)
    requires
        is_name(s),
    ensures
        is_visible(s),
{
    assert forall|i: int| 0 <= i < s.len() implies ' ' <= #[trigger] s[i] <= '~' by {
        assert(is_name_char(s[i]));
    }
}

proof fn echoes_are_visible(params: Seq<ParamSpec>)
    requires
        commitment_of(params) is Some,
    ensures
        forall|i: int|
            0 <= i < commitment_of(params)->0.echo.len() ==> is_visible(
                #[trigger] commitment_of(params)->0.echo[i],
            ),
    decreases params.len(),
{
    let done = commitment_of(params)->0;
    if params.len() > 0 {
        let before = commitment_of(params.drop_last())->0;
        echoes_are_visible(params.drop_last());
        the_names();
        if lower(params.last().key) != "client_max_window_bits"@ {
            let added = done.echo.last();
            if lower(params.last().key) == "server_max_window_bits"@ {
                let bits = parse(params.last().value->0, u8::MAX as nat)->0;
                decimal_reads_back(bits);
                names_are_visible("server_max_window_bits"@);
                assert forall|i: int| 0 <= i < added.len() implies ' ' <= #[trigger] added[i]
                    <= '~' by {
                    if i < 22 {
                        assert(added[i] == "server_max_window_bits"@[i]);
                    } else if i > 22 {
                        assert(added[i] == decimal(bits)[i - 23]);
                    }
                }
            } else {
                names_are_visible(added);
            }
            assert forall|i: int| 0 <= i < done.echo.len() implies is_visible(
                #[trigger] done.echo[i],
            ) by {
                if i < before.echo.len() {
                    assert(done.echo[i] == before.echo[i]);
                }
            }
        }
    }
}

proof fn join_is_visible(list: Seq<Seq<char>>)
    requires
        forall|i: int| 0 <= i < list.len() ==> is_visible(#[trigger] list[i]),
    ensures
        is_visible(join(list, "; "@)),
    decreases list.len(),
{
    the_names();
    if list.len() == 1 {
        assert(is_visible(list[0]));
    } else if list.len() > 1 {
        let front = list.drop_last();
        assert forall|i: int| 0 <= i < front.len() implies is_visible(#[trigger] front[i]) by {
            assert(front[i] == list[i]);
        }
        join_is_visible(front);
        assert(is_visible(list[list.len() - 1]));
        let head = join(front, "; "@);
        let whole = join(list, "; "@);
        assert forall|i: int| 0 <= i < whole.len() implies ' ' <= #[trigger] whole[i] <= '~' by {
            if i < head.len() {
                assert(whole[i] == head[i]);
            } else if i >= head.len() + 2 {
                assert(whole[i] == list.last()[i - head.len() - 2]);
            }
        }
    }
}

/// Every offer that is accepted can be answered: the response may stand in a
/// header, so that the upgrade then fails on the request alone.
pub proof fn accepted_offers_can_be_answered(
    header: Seq<char>,
    req: UpgradeRequest,
    can_take_over: bool,
)
    requires
        answer_to(Some(header)) is Some,
    ensures
        is_header_value(answer_to(Some(header))->0.response),
        can_upgrade(req, answer_to(Some(header))->0.response, can_take_over) <==> upgrades(req)
            && can_take_over,
{
    let offer = first_terms_come_from_an_offer(offers_of(header));
    let done = commitment_of(offer.params)->0;
    let list = seq!["permessage-deflate"@] + done.echo;
    the_names();
    names_are_visible("permessage-deflate"@);
    echoes_are_visible(offer.params);
    assert forall|i: int| 0 <= i < list.len() implies is_visible(#[trigger] list[i]) by {
        if i > 0 {
            assert(list[i] == done.echo[i - 1]);
        }
    }
    join_is_visible(list);
    visible_stands_in_a_header(response_of(done.echo));
}

} // verus!
