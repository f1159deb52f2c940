//! The relay's own half of an upgrade, and the messages behind it.
use buzz_relay::header::{header_to_text, to_text};
use buzz_relay::message::{from_axum, into_axum, CloseFrame, RelayMessage, SocketMessage};
use buzz_relay::upgrade::{is_websocket_upgrade, try_upgrade, UpgradeRequest};
use buzz_relay::ws_deflate::{negotiate, Negotiated};

fn bytes(s: &str) -> Option<Vec<u8>> {
    Some(s.as_bytes().to_vec())
}

fn request() -> UpgradeRequest {
    UpgradeRequest {
        method: "GET".to_owned(),
        connection: bytes("keep-alive, Upgrade"),
        upgrade: bytes("WebSocket"),
        version: bytes("13"),
        key: bytes("dGhlIHNhbXBsZSBub25jZQ=="),
    }
}

fn offer() -> Negotiated {
    negotiate(Some("permessage-deflate; server_max_window_bits=11")).unwrap()
}

#[test]
fn an_upgrade_needs_every_precondition() {
    assert!(is_websocket_upgrade(&request()));
    let mut req = request();
    req.method = "POST".to_owned();
    assert!(!is_websocket_upgrade(&req));
    let mut req = request();
    req.connection = bytes("keep-alive");
    assert!(!is_websocket_upgrade(&req));
    let mut req = request();
    req.upgrade = bytes("h2c");
    assert!(!is_websocket_upgrade(&req));
    for version in [None, bytes("12"), bytes("013"), bytes("")] {
        let mut req = request();
        req.version = version;
        assert!(!is_websocket_upgrade(&req));
    }
    let mut req = request();
    req.key = None;
    assert!(!is_websocket_upgrade(&req));
    let mut req = request();
    req.connection = Some(vec![0xff]);
    assert!(!is_websocket_upgrade(&req));
}

#[test]
fn the_switch_carries_the_accept_key_and_the_extension() {
    let answer = try_upgrade(&request(), &offer(), 1024, true).unwrap();
    assert_eq!(answer.status, 101);
    let headers: Vec<(&str, &str)> = answer
        .headers
        .iter()
        .map(|h| (h.name.as_str(), h.value.as_str()))
        .collect();
    assert_eq!(
        headers,
        vec![
            ("connection", "upgrade"),
            ("upgrade", "websocket"),
            ("sec-websocket-accept", "s3pPLMBiTxaQ9kYGzzhZRbK+xOo="),
            (
                "sec-websocket-extensions",
                "permessage-deflate; server_max_window_bits=11"
            ),
        ]
    );
    assert_eq!(answer.config.max_message_size, Some(1024));
    assert_eq!(answer.config.max_frame_size, Some(1024));
    let deflate = answer.config.extensions.permessage_deflate.unwrap();
    assert_eq!(deflate.server_max_window_bits().get(), 11);
}

#[test]
fn what_cannot_be_completed_is_left_to_another_path() {
    assert!(try_upgrade(&request(), &offer(), 1024, false).is_none());
    let mut req = request();
    req.key = None;
    assert!(try_upgrade(&req, &offer(), 1024, true).is_none());
    for bad in ["a\nb", "a\u{7f}", "\0"] {
        let mut negotiated = offer();
        negotiated.response_value = bad.to_owned();
        assert!(try_upgrade(&request(), &negotiated, 1024, true).is_none(), "{bad:?}");
    }
    for good in ["", "a\tb", "caf\u{e9}"] {
        let mut negotiated = offer();
        negotiated.response_value = good.to_owned();
        assert!(try_upgrade(&request(), &negotiated, 1024, true).is_some(), "{good:?}");
    }
}

#[test]
fn header_values_are_text_as_the_http_crate_says() {
    for b in 0..=255u8 {
        let value = vec![b'a', b];
        let outside = axum::http::HeaderValue::from_bytes(&value)
            .ok()
            .and_then(|v| v.to_str().ok().map(str::to_owned));
        // A value that the crate cannot hold never reaches the relay.
        if axum::http::HeaderValue::from_bytes(&value).is_ok() {
            assert_eq!(to_text(&value), outside, "{b}");
        }
    }
    assert_eq!(header_to_text(&None), None);
    assert_eq!(header_to_text(&bytes("x y")), Some("x y".to_owned()));
}

#[test]
fn messages_cross_in_both_directions() {
    assert!(matches!(
        into_axum(SocketMessage::Text("a".to_owned())),
        Some(RelayMessage::Text(t)) if t == "a"
    ));
    assert!(matches!(
        into_axum(SocketMessage::Binary(vec![1])),
        Some(RelayMessage::Binary(b)) if b == vec![1]
    ));
    assert!(matches!(
        into_axum(SocketMessage::Ping(vec![2])),
        Some(RelayMessage::Ping(b)) if b == vec![2]
    ));
    assert!(matches!(
        into_axum(SocketMessage::Pong(vec![3])),
        Some(RelayMessage::Pong(b)) if b == vec![3]
    ));
    assert!(into_axum(SocketMessage::Frame(vec![4])).is_none());
    let close = RelayMessage::Close(Some(CloseFrame {
        code: 1001,
        reason: "bye".to_owned(),
    }));
    match into_axum(from_axum(close)) {
        Some(RelayMessage::Close(Some(f))) => {
            assert_eq!(f.code, 1001);
            assert_eq!(f.reason, "bye");
        }
        other => panic!("{other:?}"),
    }
    assert!(matches!(
        from_axum(RelayMessage::Close(None)),
        SocketMessage::Close(None)
    ));
}
