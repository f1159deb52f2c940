//! WebSocket messages as the socket yields them and as the relay handles them.
use vstd::prelude::*;

verus! {

/// Why a connection closes.
#[derive(Debug)]
pub struct CloseFrame {
    pub code: u16,
    pub reason: String,
}

/// A message as the socket reads and writes it.
#[derive(Debug)]
pub enum SocketMessage {
    Text(String),
    Binary(Vec<u8>),
    Ping(Vec<u8>),
    Pong(Vec<u8>),
    Close(Option<CloseFrame>),
    /// A raw frame, which only the low-level interface yields.
    Frame(Vec<u8>),
}

/// A message as the relay's connection handler takes and gives it.
#[derive(Debug)]
pub enum RelayMessage {
    Text(String),
    Binary(Vec<u8>),
    Ping(Vec<u8>),
    Pong(Vec<u8>),
    Close(Option<CloseFrame>),
}

/// The message for the relay; none for a raw frame.
pub open spec fn for_relay(msg: SocketMessage) -> Option<RelayMessage> {
    match msg {
        SocketMessage::Text(t) => Some(RelayMessage::Text(t)),
        SocketMessage::Binary(b) => Some(RelayMessage::Binary(b)),
        SocketMessage::Ping(b) => Some(RelayMessage::Ping(b)),
        SocketMessage::Pong(b) => Some(RelayMessage::Pong(b)),
        SocketMessage::Close(f) => Some(RelayMessage::Close(f)),
        SocketMessage::Frame(_) => None,
    }
}

/// The message for the socket.
pub open spec fn for_socket(msg: RelayMessage) -> SocketMessage {
    match msg {
        RelayMessage::Text(t) => SocketMessage::Text(t),
        RelayMessage::Binary(b) => SocketMessage::Binary(b),
        RelayMessage::Ping(b) => SocketMessage::Ping(b),
        RelayMessage::Pong(b) => SocketMessage::Pong(b),
        RelayMessage::Close(f) => SocketMessage::Close(f),
    }
}

/// `None` for a raw frame, which is skipped and never made into a message.
pub fn into_axum(msg: SocketMessage) -> (r: Option<RelayMessage>)
    ensures
        r == for_relay(msg),
{
    match msg {
        SocketMessage::Text(t) => Some(RelayMessage::Text(t)),
        SocketMessage::Binary(b) => Some(RelayMessage::Binary(b)),
        SocketMessage::Ping(b) => Some(RelayMessage::Ping(b)),
        SocketMessage::Pong(b) => Some(RelayMessage::Pong(b)),
        SocketMessage::Close(f) => Some(RelayMessage::Close(f)),
        SocketMessage::Frame(_) => None,
    }
}

/// The relay's message as the socket writes it.
pub fn from_axum(msg: RelayMessage) -> (r: SocketMessage)
    ensures
        r == for_socket(msg),
{
    match msg {
        RelayMessage::Text(t) => SocketMessage::Text(t),
        RelayMessage::Binary(b) => SocketMessage::Binary(b),
        RelayMessage::Ping(b) => SocketMessage::Ping(b),
        RelayMessage::Pong(b) => SocketMessage::Pong(b),
        RelayMessage::Close(f) => SocketMessage::Close(f),
    }
}

/// What the relay sends, read back, is what it sent; what the socket yields
/// and the relay sends back is what was yielded.
pub proof fn messages_survive(sent: RelayMessage, yielded: SocketMessage)
    ensures
        for_relay(for_socket(sent)) == Some(sent),
        for_relay(yielded) is Some ==> for_socket(for_relay(yielded)->0) == yielded,
        for_relay(yielded) is None <==> yielded is Frame,
{
}

/// A message keeps its kind and what it holds in both directions; only a raw
/// frame is passed over.
pub proof fn messages_keep_their_kind(
    text: String,
    bytes: Vec<u8>,
    close: Option<CloseFrame>,
)
    ensures
        for_relay(SocketMessage::Text(text)) == Some(RelayMessage::Text(text)),
        for_relay(SocketMessage::Binary(bytes)) == Some(RelayMessage::Binary(bytes)),
        for_relay(SocketMessage::Ping(bytes)) == Some(RelayMessage::Ping(bytes)),
        for_relay(SocketMessage::Pong(bytes)) == Some(RelayMessage::Pong(bytes)),
        for_relay(SocketMessage::Close(close)) == Some(RelayMessage::Close(close)),
        for_relay(SocketMessage::Frame(bytes)) is None,
        for_socket(RelayMessage::Text(text)) == SocketMessage::Text(text),
        for_socket(RelayMessage::Binary(bytes)) == SocketMessage::Binary(bytes),
        for_socket(RelayMessage::Ping(bytes)) == SocketMessage::Ping(bytes),
        for_socket(RelayMessage::Pong(bytes)) == SocketMessage::Pong(bytes),
        for_socket(RelayMessage::Close(close)) == SocketMessage::Close(close),
{
}

} // verus!
