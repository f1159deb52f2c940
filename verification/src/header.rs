//! HTTP header values.
use vstd::prelude::*;
use vstd::utf8::encode_utf8;

verus! {

/// The bytes that may stand in a header value that is made from text.
pub open spec fn is_header_byte(b: u8) -> bool {
    (b >= 32 && b != 127) || b == 9
}

/// Whether a text may stand as a header value.
pub open spec fn is_header_value(text: Seq<char>) -> bool {
    forall|i: int| 0 <= i < encode_utf8(text).len() ==> is_header_byte(#[trigger] encode_utf8(text)[i])
}

/// Whether `HeaderValue::from_str` of the `http` crate accepts a text: it does
/// if each byte of the text's UTF-8 form is a tab, or at least 32 and not 127.
#[verifier::external_body]
pub(crate) fn header_value_accepts(text: &str) -> (r: bool)
    ensures
        r == is_header_value(text@),
{
    axum::http::HeaderValue::from_str(text).is_ok()
}

/// The bytes that a header value may hold and still be text: visible ASCII,
/// space and tab.
pub open spec fn is_text_byte(b: u8) -> bool {
    32 <= b < 127 || b == 9
}

/// A header value as text, if it is visible ASCII throughout.
pub open spec fn text_of(value: Seq<u8>) -> Option<Seq<char>> {
    if forall|i: int| 0 <= i < value.len() ==> is_text_byte(#[trigger] value[i]) {
        Some(Seq::new(value.len(), |i: int| value[i] as char))
    } else {
        None
    }
}

/// The text of a header, where it is there and is text.
pub open spec fn text_of_header(value: Option<Vec<u8>>) -> Option<Seq<char>> {
    match value {
        Some(v) => text_of(v@),
        None => None,
    }
}

/// Reads a header value as text, as `HeaderValue::to_str` does.
pub fn to_text(value: &Vec<u8>) -> (r: Option<String>)
    ensures
        match r {
            Some(t) => text_of(value@) == Some(t@),
            None => text_of(value@) is None,
        },
{
    let mut r: String = String::new();
    let mut i: usize = 0;
    while i < value.len()
        invariant
            i <= value@.len(),
            forall|k: int| 0 <= k < i ==> is_text_byte(#[trigger] value@[k]),
            r@ == Seq::new(i as nat, |k: int| value@[k] as char),
        decreases value@.len() - i,
    {
        let b: u8 = value[i];
        if !((32 <= b && b < 127) || b == 9) {
            assert(!is_text_byte(value@[i as int]));
            return None;
        }
        r.push(b as char);
        i = i + 1;
        assert(r@ =~= Seq::new(i as nat, |k: int| value@[k] as char));
    }
    Some(r)
}

/// Reads a header as text, where it is there and is text.
pub fn header_to_text(value: &Option<Vec<u8>>) -> (r: Option<String>)
    ensures
        match r {
            Some(t) => text_of_header(*value) == Some(t@),
            None => text_of_header(*value) is None,
        },
{
    match value {
        Some(v) => to_text(v),
        None => None,
    }
}

} // verus!
