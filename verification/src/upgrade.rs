//! The relay's own half of the WebSocket upgrade, so that the 101 can carry an
//! extension header.
use vstd::prelude::*;

use crate::deflate::WebSocketConfig;
use crate::header::{
    header_to_text, header_value_accepts, is_header_value, text_of_header,
};
use crate::text::{contains, has_text, lower, lowercase, same_text};
use crate::ws_deflate::{socket_config, Negotiated};

verus! {

/// What an upgrade reads of a request: the method, and the first value of
/// each header, where it is there.
#[derive(Debug)]
pub struct UpgradeRequest {
    pub method: String,
    /// `Connection`.
    pub connection: Option<Vec<u8>>,
    /// `Upgrade`.
    pub upgrade: Option<Vec<u8>>,
    /// `Sec-WebSocket-Version`.
    pub version: Option<Vec<u8>>,
    /// `Sec-WebSocket-Key`.
    pub key: Option<Vec<u8>>,
}

/// Whether a header is text and holds `needle`, in any letter case.
pub open spec fn header_contains(value: Option<Vec<u8>>, needle: Seq<char>) -> bool {
    text_of_header(value) is Some && contains(lower(text_of_header(value)->0), needle)
}

/// The preconditions of RFC 6455 section 4.2.1.
pub open spec fn upgrades(req: UpgradeRequest) -> bool {
    &&& req.method@ == "GET"@
    &&& header_contains(req.connection, "upgrade"@)
    &&& header_contains(req.upgrade, "websocket"@)
    &&& req.version is Some && req.version->0@ == seq![49u8, 51u8]
    &&& req.key is Some
}

fn has_token(value: &Option<Vec<u8>>, needle: &str) -> (r: bool)
    ensures
        r == header_contains(*value, needle@),
{
    match header_to_text(value) {
        Some(text) => has_text(lowercase(text.as_str()).as_str(), needle),
        None => false,
    }
}

/// The RFC 6455 section 4.2.1 preconditions for an upgrade: a GET that names
/// the upgrade, the protocol, version 13 and a key.
pub fn is_websocket_upgrade(req: &UpgradeRequest) -> (r: bool)
    ensures
        r == upgrades(*req),
{
    let version_13: bool = match &req.version {
        Some(v) => {
            let same = v.len() == 2 && v[0] == 49 && v[1] == 51;
            assert(same ==> v@ =~= seq![49u8, 51u8]);
            same
        },
        None => false,
    };
    same_text(req.method.as_str(), "GET") && has_token(&req.connection, "upgrade") && has_token(
        &req.upgrade,
        "websocket",
    ) && version_13 && req.key.is_some()
}

/// The `Sec-WebSocket-Accept` value that answers a `Sec-WebSocket-Key`.
pub uninterp spec fn accept_key(request_key: Seq<u8>) -> Seq<char>;

/// `derive_accept_key` of the `tungstenite` crate: the base64 form of a SHA-1
/// digest over the key and a fixed suffix, so that it may stand in a header.
/// What the digest is for a given key is left to the crate.
#[verifier::external_body]
fn derive_accept_key(request_key: &Vec<u8>) -> (r: String)
    ensures
        r@ == accept_key(request_key@),
        is_header_value(r@),
{
    tungstenite::handshake::derive_accept_key(request_key)
}

/// One header of a response.
#[derive(Debug)]
pub struct ResponseHeader {
    pub name: String,
    pub value: String,
}

/// A response and the socket that follows it.
#[derive(Debug)]
pub struct Upgrade {
    pub status: u16,
    pub headers: Vec<ResponseHeader>,
    pub config: WebSocketConfig,
}

/// The status of a response that switches protocols.
pub const SWITCHING_PROTOCOLS: u16 = 101;

/// What each header of a list says: name and value.
pub open spec fn header_views(headers: Seq<ResponseHeader>) -> Seq<(Seq<char>, Seq<char>)> {
    Seq::new(headers.len(), |i: int| (headers[i].name@, headers[i].value@))
}

/// The headers of the 101.
pub open spec fn upgrade_headers(accept: Seq<char>, extensions: Seq<char>) -> Seq<
    (Seq<char>, Seq<char>),
> {
    seq![
        ("connection"@, "upgrade"@),
        ("upgrade"@, "websocket"@),
        ("sec-websocket-accept"@, accept),
        ("sec-websocket-extensions"@, extensions),
    ]
}

/// Whether an upgrade can be completed: the request is one, the extensions may
/// stand in a header, and the connection can be taken over.
pub open spec fn can_upgrade(
    req: UpgradeRequest,
    response: Seq<char>,
    can_take_over: bool,
) -> bool {
    &&& upgrades(req)
    &&& is_header_value(response)
    &&& can_take_over
}

fn response_header(name: &str, value: &str) -> (r: ResponseHeader)
    ensures
        r.name@ == name@,
        r.value@ == value@,
{
    ResponseHeader { name: name.to_owned(), value: value.to_owned() }
}

/// Answers the upgrade with the response that carries the extension header and
/// the configuration of the socket behind it.
///
/// `None` where this is not an upgrade that can be completed, which leaves the
/// request to another path. `can_take_over` says whether the request still
/// holds the connection.
pub fn try_upgrade(
    req: &UpgradeRequest,
    negotiated: &Negotiated,
    max_frame_bytes: usize,
    can_take_over: bool,
) -> (r: Option<Upgrade>)
    ensures
        r is Some <==> can_upgrade(*req, negotiated.response_value@, can_take_over),
        r is Some ==> {
            &&& r->0.status == SWITCHING_PROTOCOLS
            &&& r->0.status == 101
            &&& r->0.headers@.len() == 4
            &&& r->0.headers@[0].name@ == "connection"@ && r->0.headers@[0].value@ == "upgrade"@
            &&& r->0.headers@[1].name@ == "upgrade"@ && r->0.headers@[1].value@ == "websocket"@
            &&& r->0.headers@[2].name@ == "sec-websocket-accept"@ && r->0.headers@[2].value@
                == accept_key(req.key->0@)
            &&& r->0.headers@[3].name@ == "sec-websocket-extensions"@ && r->0.headers@[3].value@
                == negotiated.response_value@
            &&& header_views(r->0.headers@) == upgrade_headers(
                accept_key(req.key->0@),
                negotiated.response_value@,
            )
            &&& is_header_value(accept_key(req.key->0@))
            &&& r->0.config.max_message_size == Some(max_frame_bytes)
            &&& r->0.config.max_frame_size == Some(max_frame_bytes)
            &&& r->0.config.extensions.permessage_deflate == Some(negotiated.deflate)
        },
{
    if !is_websocket_upgrade(req) {
        return None;
    }
    let accept: String = match &req.key {
        Some(key) => derive_accept_key(key),
        None => {
            return None;
        },
    };
    if !header_value_accepts(negotiated.response_value.as_str()) || !can_take_over {
        return None;
    }
    let mut headers: Vec<ResponseHeader> = Vec::new();
    headers.push(response_header("connection", "upgrade"));
    headers.push(response_header("upgrade", "websocket"));
    headers.push(response_header("sec-websocket-accept", accept.as_str()));
    headers.push(
        response_header("sec-websocket-extensions", negotiated.response_value.as_str()),
    );
    assert(header_views(headers@) =~= upgrade_headers(
        accept_key(req.key->0@),
        negotiated.response_value@,
    ));
    Some(
        Upgrade {
            status: SWITCHING_PROTOCOLS,
            headers,
            config: socket_config(max_frame_bytes, negotiated.deflate),
        },
    )
}

} // verus!
