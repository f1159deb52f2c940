//! The grammar of a `Sec-WebSocket-Extensions` header.
//!
//! Lenient about what it keeps and strict about what it claims: a parameter
//! that means nothing is kept as it stands, so that an answer can be refused
//! on it, and is never dropped from an offer that then looks acceptable.
use vstd::prelude::*;

use crate::text::{
    chars_of, find, find_is_unique, split, split_at, string_of, trim, trim_class,
    trimmed, views, CharClass,
};

verus! {

/// What a parameter says: its name, and its value where it has one.
#[verifier::ext_equal]
pub struct ParamSpec {
    pub key: Seq<char>,
    pub value: Option<Seq<char>>,
}

/// What an offer says: an extension's name and its parameters in order.
#[verifier::ext_equal]
pub struct OfferSpec {
    pub name: Seq<char>,
    pub params: Seq<ParamSpec>,
}

/// One parameter of an offer.
#[derive(Debug)]
pub struct Param {
    pub key: String,
    pub value: Option<String>,
}

/// One extension in an offer: a name and its parameters.
#[derive(Debug)]
pub struct Offer {
    pub name: String,
    pub params: Vec<Param>,
}

impl View for Param {
    type V = ParamSpec;

    open spec fn view(&self) -> ParamSpec {
        ParamSpec {
            key: self.key@,
            value: match self.value {
                Some(v) => Some(v@),
                None => None,
            },
        }
    }
}

/// What each parameter of a list says.
pub open spec fn param_views(params: Seq<Param>) -> Seq<ParamSpec> {
    Seq::new(params.len(), |i: int| params[i]@)
}

impl View for Offer {
    type V = OfferSpec;

    open spec fn view(&self) -> OfferSpec {
        OfferSpec { name: self.name@, params: param_views(self.params@) }
    }
}

/// What each offer of a list says.
pub open spec fn offer_views(offers: Seq<Offer>) -> Seq<OfferSpec> {
    Seq::new(offers.len(), |i: int| offers[i]@)
}

/// A trimmed parameter: up to the first `=` its name, behind it its value
/// without quotes around it; without `=`, a name alone.
pub open spec fn param_of(text: Seq<char>) -> ParamSpec {
    let at = find(text, '=') as int;
    if at < text.len() {
        ParamSpec {
            key: trim(text.take(at)),
            value: Some(trim_class(trim(text.skip(at + 1)), CharClass::Quote)),
        }
    } else {
        ParamSpec { key: text, value: None }
    }
}

/// The parameters in the pieces of an extension, without the empty pieces.
pub open spec fn params_of(pieces: Seq<Seq<char>>) -> Seq<ParamSpec>
    decreases pieces.len(),
{
    if pieces.len() == 0 {
        Seq::empty()
    } else if trim(pieces.last()).len() == 0 {
        params_of(pieces.drop_last())
    } else {
        params_of(pieces.drop_last()).push(param_of(trim(pieces.last())))
    }
}

/// One extension: a name, and parameters behind semicolons. An extension
/// without a name is none.
pub open spec fn extension_of(text: Seq<char>) -> Option<OfferSpec> {
    let pieces = split(text, ';');
    if trim(pieces[0]).len() == 0 {
        None
    } else {
        Some(OfferSpec { name: trim(pieces[0]), params: params_of(pieces.skip(1)) })
    }
}

/// The offers in the pieces of a header.
pub open spec fn extensions_of(pieces: Seq<Seq<char>>) -> Seq<OfferSpec>
    decreases pieces.len(),
{
    if pieces.len() == 0 {
        Seq::empty()
    } else {
        match extension_of(pieces.last()) {
            Some(offer) => extensions_of(pieces.drop_last()).push(offer),
            None => extensions_of(pieces.drop_last()),
        }
    }
}

/// The offers that a header makes, in order.
pub open spec fn offers_of(header: Seq<char>) -> Seq<OfferSpec> {
    extensions_of(split(header, ','))
}

/// Every text has a first piece.
pub proof fn split_is_nonempty(s: Seq<char>, sep: char)
    ensures
        split(s, sep).len() >= 1,
{
}

fn parse_param(text: &str) -> (r: Param)
    ensures
        r@ == param_of(text@),
{
    let chars = chars_of(text);
    let mut at: usize = 0;
    while at < chars.len() && chars[at] != '='
        invariant
            chars@ == text@,
            at <= chars@.len(),
            forall|k: int| 0 <= k < at ==> text@[k] != '=',
        decreases chars@.len() - at,
    {
        at = at + 1;
    }
    proof {
        find_is_unique(text@, '=', at as int);
    }
    if at < chars.len() {
        let key = string_of(&chars, 0, at);
        let value = string_of(&chars, at + 1, chars.len());
        assert(text@.take(at as int) =~= key@);
        assert(text@.skip(at + 1) =~= value@);
        let key = trimmed(key.as_str(), CharClass::Whitespace);
        let value = trimmed(value.as_str(), CharClass::Whitespace);
        Param { key, value: Some(trimmed(value.as_str(), CharClass::Quote)) }
    } else {
        Param { key: text.to_owned(), value: None }
    }
}

fn parse_extension(text: &str) -> (r: Option<Offer>)
    ensures
        match r {
            Some(offer) => extension_of(text@) == Some(offer@),
            None => extension_of(text@) is None,
        },
{
    let pieces = split_at(text, ';');
    proof {
        split_is_nonempty(text@, ';');
        assert(views(pieces@)[0] == pieces@[0]@);
    }
    let name = trimmed(pieces[0].as_str(), CharClass::Whitespace);
    if name.as_str().is_empty() {
        return None;
    }
    let ghost rest = views(pieces@).skip(1);
    let mut params: Vec<Param> = Vec::new();
    let mut i: usize = 1;
    assert(param_views(params@) =~= params_of(rest.take(0)));
    while i < pieces.len()
        invariant
            1 <= i <= pieces@.len(),
            rest == views(pieces@).skip(1),
            param_views(params@) == params_of(rest.take(i - 1)),
        decreases pieces@.len() - i,
    {
        let piece = trimmed(pieces[i].as_str(), CharClass::Whitespace);
        proof {
            assert(rest.take(i as int).drop_last() =~= rest.take(i - 1));
            assert(rest.take(i as int).last() == pieces@[i as int]@);
        }
        if !piece.as_str().is_empty() {
            let param = parse_param(piece.as_str());
            assert(param_views(params@.push(param)) =~= param_views(params@).push(param@));
            params.push(param);
        }
        i = i + 1;
    }
    assert(rest.take(i - 1) =~= rest);
    Some(Offer { name, params })
}

/// Reads the offers of a header.
pub fn parse_offers(header: &str) -> (r: Vec<Offer>)
    ensures
        offer_views(r@) == offers_of(header@),
        r@.len() == offers_of(header@).len(),
        forall|i: int|
            0 <= i < r@.len() ==> {
                let offer = offers_of(header@)[i];
                &&& (#[trigger] r@[i]).name@ == offer.name
                &&& r@[i].params@.len() == offer.params.len()
                &&& forall|j: int|
                    0 <= j < offer.params.len() ==> (#[trigger] r@[i].params@[j]).key@
                        == offer.params[j].key && r@[i].params@[j].value.deep_view()
                        == offer.params[j].value
            },
{
    let pieces = split_at(header, ',');
    let mut offers: Vec<Offer> = Vec::new();
    let mut i: usize = 0;
    assert(offer_views(offers@) =~= extensions_of(views(pieces@).take(0)));
    while i < pieces.len()
        invariant
            i <= pieces@.len(),
            offer_views(offers@) == extensions_of(views(pieces@).take(i as int)),
        decreases pieces@.len() - i,
    {
        proof {
            assert(views(pieces@).take(i + 1).drop_last() =~= views(pieces@).take(i as int));
            assert(views(pieces@).take(i + 1).last() == pieces@[i as int]@);
        }
        match parse_extension(pieces[i].as_str()) {
            Some(offer) => {
                assert(offer_views(offers@.push(offer)) =~= offer_views(offers@).push(offer@));
                offers.push(offer);
            },
            None => {},
        }
        i = i + 1;
    }
    assert(views(pieces@).take(i as int) =~= views(pieces@));
    assert forall|i: int| 0 <= i < offers@.len() implies {
        let offer = offers_of(header@)[i];
        &&& (#[trigger] offers@[i]).name@ == offer.name
        &&& offers@[i].params@.len() == offer.params.len()
        &&& forall|j: int|
            0 <= j < offer.params.len() ==> (#[trigger] offers@[i].params@[j]).key@
                == offer.params[j].key && offers@[i].params@[j].value.deep_view()
                == offer.params[j].value
    } by {
        assert(offer_views(offers@)[i] == offers@[i]@);
        assert forall|j: int| 0 <= j < offers@[i].params@.len() implies (
        #[trigger] offers@[i].params@[j]).key@ == offers_of(header@)[i].params[j].key
            && offers@[i].params@[j].value.deep_view() == offers_of(header@)[i].params[j].value by {
            assert(param_views(offers@[i].params@)[j] == offers@[i].params@[j]@);
        }
    }
    offers
}

} // verus!
