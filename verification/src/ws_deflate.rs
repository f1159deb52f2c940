//! `permessage-deflate` (RFC 7692) negotiation for the relay's client socket.
//!
//! The response describes what the relay will do. What it cannot configure is
//! declined and never passed over in silence, because a client that sees a
//! parameter accepted and a stream that does not honour it fails at the first
//! compressed frame and not at the handshake.
use vstd::prelude::*;
use vstd::string::StringExecFns;

use crate::decimal::{decimal, parse, parse_number, to_decimal};
use crate::deflate::{
    DeflateConfig, Extensions, Role, WebSocketConfig, MAX_WINDOW_BITS, MIN_WINDOW_BITS,
};
use crate::offer::{
    offer_views, offers_of, param_views, parse_offers, Offer, OfferSpec, ParamSpec,
};
use crate::text::{join, joined, lower, lowercase, same_text, view_of, views};

verus! {

/// What an accepted offer comes to: the parameters to echo, in order, the
/// configuration that they commit the relay to, and whether one of them has
/// set the server's window.
#[verifier::ext_equal]
pub struct Commitment {
    pub echo: Seq<Seq<char>>,
    pub deflate: DeflateConfig,
    pub windowed: bool,
}

/// The outcome of accepting an offer: what to send back, and what to do.
#[verifier::ext_equal]
pub struct Terms {
    pub response: Seq<char>,
    pub deflate: DeflateConfig,
}

/// The outcome of accepting an offer: what to echo, and what the relay will
/// do.
#[derive(Debug)]
pub struct Negotiated {
    /// Value for the `Sec-WebSocket-Extensions` response header.
    pub response_value: String,
    /// Parameters the response commits the relay to.
    pub deflate: DeflateConfig,
}

impl View for Negotiated {
    type V = Terms;

    open spec fn view(&self) -> Terms {
        Terms { response: self.response_value@, deflate: self.deflate }
    }
}

/// The terms of an answer, where there is one.
pub open spec fn terms_of(answer: Option<Negotiated>) -> Option<Terms> {
    match answer {
        Some(n) => Some(n@),
        None => None,
    }
}

/// Nothing to echo yet, nothing committed to.
pub open spec fn no_commitment() -> Commitment {
    Commitment { echo: Seq::empty(), deflate: DeflateConfig::initial(), windowed: false }
}

/// The parameter that asks for a server window of `bits`.
pub open spec fn window_echo(bits: nat) -> Seq<char> {
    "server_max_window_bits="@ + decimal(bits)
}

/// What one more parameter does to a commitment, or `None` where it cannot be
/// honoured.
///
/// The takeover flags are honoured and echoed; a value behind one is
/// malformed. The client's own window needs nothing: leaving it out of the
/// response tells the client to use the default, which is what is configured.
/// A limit on the server's window is honoured and echoed where the compressor
/// can work with it; one that differs from an earlier one is not, since a
/// response that names both would name one that is not kept to. Anything else
/// makes the offer one that cannot be claimed.
pub open spec fn commit(done: Commitment, param: ParamSpec) -> Option<Commitment> {
    let key = lower(param.key);
    if key == "server_no_context_takeover"@ && param.value is None {
        Some(
            Commitment {
                echo: done.echo.push("server_no_context_takeover"@),
                deflate: done.deflate.with_no_context_takeover(Role::Server, true),
                windowed: done.windowed,
            },
        )
    } else if key == "client_no_context_takeover"@ && param.value is None {
        Some(
            Commitment {
                echo: done.echo.push("client_no_context_takeover"@),
                deflate: done.deflate.with_no_context_takeover(Role::Client, true),
                windowed: done.windowed,
            },
        )
    } else if key == "client_max_window_bits"@ {
        Some(done)
    } else if key == "server_max_window_bits"@ && param.value is Some {
        match parse(param.value->0, u8::MAX as nat) {
            Some(bits) => if MIN_WINDOW_BITS <= bits <= MAX_WINDOW_BITS && (!done.windowed || bits
                == done.deflate.server_window.bits) {
                Some(
                    Commitment {
                        echo: done.echo.push(window_echo(bits)),
                        deflate: done.deflate.with_window(Role::Server, bits as u8),
                        windowed: true,
                    },
                )
            } else {
                None
            },
            None => None,
        }
    } else {
        None
    }
}

/// What a list of parameters comes to, or `None` where one of them cannot be
/// honoured.
pub open spec fn commitment_of(params: Seq<ParamSpec>) -> Option<Commitment>
    decreases params.len(),
{
    if params.len() == 0 {
        Some(no_commitment())
    } else {
        match commitment_of(params.drop_last()) {
            Some(done) => commit(done, params.last()),
            None => None,
        }
    }
}

/// The response that carries a commitment.
pub open spec fn response_of(echo: Seq<Seq<char>>) -> Seq<char> {
    join(seq!["permessage-deflate"@] + echo, "; "@)
}

/// The terms on which an offer is accepted.
pub open spec fn terms_for(offer: OfferSpec) -> Option<Terms> {
    match commitment_of(offer.params) {
        Some(done) => Some(Terms { response: response_of(done.echo), deflate: done.deflate }),
        None => None,
    }
}

/// Whether an offer is one of `permessage-deflate`, in any letter case.
pub open spec fn is_deflate(offer: OfferSpec) -> bool {
    lower(offer.name) == lower("permessage-deflate"@)
}

/// The terms of the first `permessage-deflate` offer that can be accepted.
pub open spec fn first_terms(offers: Seq<OfferSpec>) -> Option<Terms>
    decreases offers.len(),
{
    if offers.len() == 0 {
        None
    } else if is_deflate(offers[0]) && terms_for(offers[0]) is Some {
        terms_for(offers[0])
    } else {
        first_terms(offers.skip(1))
    }
}

/// The answer to an extension header.
pub open spec fn answer_to(header: Option<Seq<char>>) -> Option<Terms> {
    match header {
        Some(h) => first_terms(offers_of(h)),
        None => None,
    }
}

/// The commitment for one offer.
pub fn accept_offer(offer: &Offer) -> (r: Option<Negotiated>)
    ensures
        terms_of(r) == terms_for(offer@),
        r is Some <==> terms_for(offer@) is Some,
        r is Some ==> r->0.response_value@ == terms_for(offer@)->0.response,
        r is Some ==> r->0.deflate == terms_for(offer@)->0.deflate,
        r is Some ==> r->0.deflate.wf(),
{
    let mut deflate = DeflateConfig::default();
    let mut windowed: bool = false;
    let mut echo: Vec<String> = Vec::new();
    echo.push("permessage-deflate".to_owned());
    let ghost params = offer@.params;
    let mut i: usize = 0;
    assert(views(echo@) =~= seq!["permessage-deflate"@] + no_commitment().echo);
    while i < offer.params.len()
        invariant
            i <= offer.params@.len(),
            params == offer@.params,
            params == param_views(offer.params@),
            commitment_of(params.take(i as int)) is Some,
            views(echo@) == seq!["permessage-deflate"@] + commitment_of(
                params.take(i as int),
            )->0.echo,
            deflate == commitment_of(params.take(i as int))->0.deflate,
            windowed == commitment_of(params.take(i as int))->0.windowed,
            deflate.wf(),
        decreases offer.params@.len() - i,
    {
        let param = &offer.params[i];
        let ghost done = commitment_of(params.take(i as int))->0;
        let ghost before = echo@;
        proof {
            assert(params.take(i + 1).drop_last() =~= params.take(i as int));
            assert(params.take(i + 1).last() == param@);
            commitment_needs_every_parameter(params, i + 1);
        }
        let key = lowercase(param.key.as_str());
        if same_text(key.as_str(), "server_no_context_takeover") && param.value.is_none() {
            deflate = deflate.set_no_context_takeover(Role::Server, true);
            echo.push("server_no_context_takeover".to_owned());
        } else if same_text(key.as_str(), "client_no_context_takeover") && param.value.is_none() {
            deflate = deflate.set_no_context_takeover(Role::Client, true);
            echo.push("client_no_context_takeover".to_owned());
        } else if same_text(key.as_str(), "client_max_window_bits") {
        } else if same_text(key.as_str(), "server_max_window_bits") {
            let bits: u64 = match &param.value {
                Some(value) => match parse_number(value.as_str(), 255) {
                    Some(bits) => bits,
                    None => {
                        return None;
                    },
                },
                None => {
                    return None;
                },
            };
            if windowed && bits != deflate.server_window.bits as u64 {
                return None;
            }
            match deflate.set_max_window_bits(Role::Server, bits as u8) {
                Ok(config) => {
                    deflate = config;
                },
                Err(_) => {
                    return None;
                },
            }
            let mut text = "server_max_window_bits=".to_owned();
            text.append(to_decimal(bits).as_str());
            echo.push(text);
            windowed = true;
        } else {
            return None;
        }
        proof {
            let now = commitment_of(params.take(i + 1))->0;
            if echo@ != before {
                assert(views(echo@) =~= views(before).push(echo@.last()@));
            }
            assert(views(echo@) =~= seq!["permessage-deflate"@] + now.echo);
        }
        i = i + 1;
    }
    assert(params.take(i as int) =~= params);
    let response_value = joined(&echo, "; ");
    Some(Negotiated { response_value, deflate })
}

/// An offer is accepted only if every parameter can be honoured after those
/// before it.
pub proof fn commitment_needs_every_parameter(params: Seq<ParamSpec>, n: int)
    requires
        0 <= n <= params.len(),
    ensures
        commitment_of(params) is Some ==> commitment_of(params.take(n)) is Some,
    decreases params.len() - n,
{
    if n < params.len() {
        commitment_needs_every_parameter(params, n + 1);
        assert(params.take(n + 1).drop_last() =~= params.take(n));
    } else {
        assert(params.take(n) =~= params);
    }
}

/// Decides the response to an extension offer.
///
/// `None` declines every offer, which is always valid and leaves the
/// connection uncompressed. The first `permessage-deflate` that can be
/// accepted wins, per RFC 7692 section 5.1: the server picks one offer and
/// ignores the rest.
pub fn negotiate(header: Option<&str>) -> (r: Option<Negotiated>)
    ensures
        terms_of(r) == answer_to(view_of(header)),
        header is None ==> r is None,
        header is Some ==> (r is Some <==> answer_to(Some(header->0@)) is Some),
        r is Some ==> r->0.response_value@ == answer_to(Some(header->0@))->0.response,
        r is Some ==> r->0.deflate == answer_to(Some(header->0@))->0.deflate,
        r is Some ==> r->0.deflate.wf(),
{
    let offers: Vec<Offer> = match header {
        Some(h) => parse_offers(h),
        None => {
            return None;
        },
    };
    let ghost all = offer_views(offers@);
    let mut i: usize = 0;
    assert(all.skip(0) =~= all);
    while i < offers.len()
        invariant
            i <= offers@.len(),
            all == offer_views(offers@),
            answer_to(view_of(header)) == first_terms(all.skip(i as int)),
        decreases offers@.len() - i,
    {
        let offer = &offers[i];
        proof {
            assert(all.skip(i as int)[0] == offer@);
            assert(all.skip(i as int).skip(1) =~= all.skip(i + 1));
        }
        let name = lowercase(offer.name.as_str());
        if same_text(name.as_str(), lowercase("permessage-deflate").as_str()) {
            let accepted = accept_offer(offer);
            if accepted.is_some() {
                return accepted;
            }
        }
        i = i + 1;
    }
    assert(all.skip(i as int).len() == 0);
    None
}

/// Builds the socket configuration for a negotiated connection.
pub fn socket_config(max_frame_bytes: usize, deflate: DeflateConfig) -> (r: WebSocketConfig)
    ensures
        r.max_message_size == Some(max_frame_bytes),
        r.max_frame_size == Some(max_frame_bytes),
        r.extensions.permessage_deflate == Some(deflate),
{
    WebSocketConfig {
        max_message_size: Some(max_frame_bytes),
        max_frame_size: Some(max_frame_bytes),
        extensions: Extensions { permessage_deflate: Some(deflate) },
    }
}

} // verus!
