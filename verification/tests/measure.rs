//! Captured frames, the counting proxy, and the raw handshake.
use buzz_relay::measure::{
    captured_frames, check_frame, corpus, pump, raw_bytes, read_step, FrameCheck, PumpAction,
    PumpEvent, ReadStep,
};
use buzz_relay::message::SocketMessage;
use buzz_relay::probe::{handshake_request, head_end, negotiated_extension, NotSwitched};

#[test]
fn a_capture_holds_one_frame_to_a_line() {
    for text in [
        "",
        "\n",
        "a",
        "a\n",
        "a\r\nb\n\n  \t\nc",
        "a\rb\r\n",
        "last\r",
        "\r\n\r",
        "  padded  \r\r\nx\u{a0}\n\u{a0}\n",
    ] {
        let expected: Vec<String> = text
            .lines()
            .filter(|line| !line.trim().is_empty())
            .map(str::to_owned)
            .collect();
        assert_eq!(corpus(text), expected, "{text:?}");
        let (frames, raw) = captured_frames(text);
        assert_eq!(raw, frames.iter().map(String::len).sum::<usize>());
        assert_eq!(frames, expected);
        assert!(raw <= text.len());
    }
}

#[test]
fn sizes_are_in_bytes() {
    assert_eq!(raw_bytes(&[]), 0);
    assert_eq!(
        raw_bytes(&["abc".to_owned(), "\u{e9}".to_owned(), "\u{1f41d}".to_owned()]),
        3 + 2 + 4
    );
}

#[test]
fn a_message_is_held_against_the_frame_that_is_due() {
    let frames = ["a".to_owned(), "b".to_owned()];
    let b = SocketMessage::Text("b".to_owned());
    assert_eq!(check_frame(&frames, 1, &b), FrameCheck::Same);
    assert_eq!(check_frame(&frames, 0, &b), FrameCheck::Differs);
    assert_eq!(check_frame(&frames, 0, &SocketMessage::Ping(vec![])), FrameCheck::NotText);
    assert_eq!(check_frame(&frames, 0, &SocketMessage::Binary(vec![97])), FrameCheck::NotText);
}

#[test]
fn a_reader_advances_skips_ends_or_fails() {
    let frames = ["a".to_owned(), "b".to_owned()];
    let text = |s: &str| SocketMessage::Text(s.to_owned());
    let ping = SocketMessage::Ping(vec![]);
    for strict in [false, true] {
        assert_eq!(read_step(&frames, 0, &text("a"), strict), ReadStep::Next(1));
        assert_eq!(read_step(&frames, 1, &text("b"), strict), ReadStep::Done);
        let differs = ReadStep::Failed(FrameCheck::Differs);
        assert_eq!(read_step(&frames, 1, &text("a"), strict), differs);
    }
    assert_eq!(read_step(&frames, 1, &ping, false), ReadStep::Next(1));
    let no_text = ReadStep::Failed(FrameCheck::NotText);
    assert_eq!(read_step(&frames, 1, &ping, true), no_text);
}

#[test]
fn the_proxy_counts_what_it_hands_on() {
    assert_eq!(pump(PumpEvent::Read(7)), (PumpAction::Write(7), 7));
    assert_eq!(pump(PumpEvent::Read(0)), (PumpAction::Stop, 0));
    assert_eq!(pump(PumpEvent::ReadFailed), (PumpAction::Stop, 0));
    assert_eq!(pump(PumpEvent::Written), (PumpAction::Read, 0));
    assert_eq!(pump(PumpEvent::WriteFailed), (PumpAction::Stop, 0));
}

#[test]
fn a_request_carries_each_offer_on_its_own_line() {
    let head = "GET / HTTP/1.1\r\nHost: 127.0.0.1:80\r\nConnection: Upgrade\r\nUpgrade: websocket\r\nSec-WebSocket-Version: 13\r\nSec-WebSocket-Key: dGhlIHNhbXBsZSBub25jZQ==\r\n";
    assert_eq!(
        handshake_request("127.0.0.1:80", &Vec::new()),
        format!("{head}\r\n").into_bytes()
    );
    let mut expected = head.as_bytes().to_vec();
    expected.extend_from_slice(b"Sec-WebSocket-Extensions: x; value=\x80\r\n");
    expected.extend_from_slice(b"Sec-WebSocket-Extensions: permessage-deflate\r\n\r\n");
    assert_eq!(
        handshake_request(
            "127.0.0.1:80",
            &vec![b"x; value=\x80".to_vec(), b"permessage-deflate".to_vec()]
        ),
        expected
    );
}

#[test]
fn a_head_ends_at_its_first_empty_line() {
    assert_eq!(head_end(&Vec::new()), None);
    assert_eq!(head_end(&b"a\r\nb\r\n".to_vec()), None);
    assert_eq!(head_end(&b"\r\n\r\n".to_vec()), Some(4));
    assert_eq!(head_end(&b"a\r\n\r\nb\r\n\r\n".to_vec()), Some(5));
    assert_eq!(head_end(&b"a\r\r\n\r\n".to_vec()), Some(6));
}

#[test]
fn the_first_extension_header_is_read() {
    let head = "HTTP/1.1 101 Switching Protocols\r\nconnection: upgrade\r\nSec-WebSocket-EXTENSIONS:  permessage-deflate; server_max_window_bits=10\t\r\nsec-websocket-extensions: other\r\n\r\n";
    assert_eq!(
        negotiated_extension(head),
        Ok(Some("permessage-deflate; server_max_window_bits=10".to_owned()))
    );
    assert_eq!(
        negotiated_extension("HTTP/1.1 101 x\r\nsec-websocket-extension: a\r\nbare\r\n\r\n"),
        Ok(None)
    );
    assert_eq!(
        negotiated_extension("HTTP/1.1 101 x\r\nSec-WebSocket-Extensions:\r\n\r\n"),
        Ok(Some(String::new()))
    );
    assert_eq!(negotiated_extension("HTTP/1.1 200 OK\r\n\r\n"), Err(NotSwitched));
    assert_eq!(negotiated_extension(""), Err(NotSwitched));
}
