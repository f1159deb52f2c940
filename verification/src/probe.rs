//! A raw handshake: the request that offers extensions byte for byte, and the
//! extension that the response to it agrees on.
use vstd::prelude::*;
use vstd::utf8::encode_utf8;

use crate::text::{
    chars_of, find, find_is_unique, has_prefix, lower, lowercase, same_text,
    starts_with, string_of, trim, trimmed, views, CharClass,
};

verus! {

/// The header that offers an extension, and the one that agrees on it.
pub const EXTENSIONS_HEADER: &'static str = "sec-websocket-extensions";

/// The lines that offer extensions, one for each offer.
pub open spec fn offer_lines(offers: Seq<Seq<u8>>) -> Seq<u8>
    decreases offers.len(),
{
    if offers.len() == 0 {
        Seq::empty()
    } else {
        encode_utf8("Sec-WebSocket-Extensions: "@) + offers[0] + encode_utf8("\r\n"@) + offer_lines(
            offers.skip(1),
        )
    }
}

/// The request to a host that offers extensions.
pub open spec fn request_of(host: Seq<char>, offers: Seq<Seq<u8>>) -> Seq<u8> {
    encode_utf8("GET / HTTP/1.1\r\nHost: "@) + encode_utf8(host) + encode_utf8(
        "\r\nConnection: Upgrade\r\nUpgrade: websocket\r\nSec-WebSocket-Version: 13\r\nSec-WebSocket-Key: dGhlIHNhbXBsZSBub25jZQ==\r\n"@,
    ) + offer_lines(offers) + encode_utf8("\r\n"@)
}

/// What the offers of a list hold.
pub open spec fn byte_views(list: Seq<Vec<u8>>) -> Seq<Seq<u8>> {
    Seq::new(list.len(), |i: int| list[i]@)
}

fn append(to: &mut Vec<u8>, bytes: &[u8])
    ensures
        final(to)@ == old(to)@ + bytes@,
{
    let mut i: usize = 0;
    assert(to@ =~= old(to)@ + bytes@.take(0));
    while i < bytes.len()
        invariant
            i <= bytes@.len(),
            to@ == old(to)@ + bytes@.take(i as int),
        decreases bytes@.len() - i,
    {
        to.push(bytes[i]);
        i = i + 1;
        assert(to@ =~= old(to)@ + bytes@.take(i as int));
    }
    assert(bytes@.take(i as int) =~= bytes@);
}

/// The request to a host that offers each of the extensions on a line of its
/// own, as the bytes that it is given.
pub fn handshake_request(host: &str, offers: &Vec<Vec<u8>>) -> (r: Vec<u8>)
    ensures
        r@ == request_of(host@, byte_views(offers@)),
{
    let mut r: Vec<u8> = Vec::new();
    append(&mut r, "GET / HTTP/1.1\r\nHost: ".as_bytes());
    append(&mut r, host.as_bytes());
    append(
        &mut r,
        "\r\nConnection: Upgrade\r\nUpgrade: websocket\r\nSec-WebSocket-Version: 13\r\nSec-WebSocket-Key: dGhlIHNhbXBsZSBub25jZQ==\r\n".as_bytes(),
    );
    let ghost head = r@;
    let ghost all = byte_views(offers@);
    assert(head =~= encode_utf8("GET / HTTP/1.1\r\nHost: "@) + encode_utf8(host@) + encode_utf8(
        "\r\nConnection: Upgrade\r\nUpgrade: websocket\r\nSec-WebSocket-Version: 13\r\nSec-WebSocket-Key: dGhlIHNhbXBsZSBub25jZQ==\r\n"@,
    ));
    assert(all.skip(0) =~= all);
    let mut i: usize = 0;
    while i < offers.len()
        invariant
            i <= offers@.len(),
            all == byte_views(offers@),
            r@ + offer_lines(all.skip(i as int)) == head + offer_lines(all),
        decreases offers@.len() - i,
    {
        let ghost before = r@;
        let ghost rest = all.skip(i as int);
        append(&mut r, "Sec-WebSocket-Extensions: ".as_bytes());
        append(&mut r, offers[i].as_slice());
        append(&mut r, "\r\n".as_bytes());
        proof {
            assert(rest[0] == offers@[i as int]@);
            assert(rest.skip(1) =~= all.skip(i + 1));
            assert(r@ + offer_lines(rest.skip(1)) =~= before + offer_lines(rest));
        }
        i = i + 1;
    }
    assert(offer_lines(all.skip(i as int)) =~= Seq::empty());
    assert(r@ =~= head + offer_lines(all));
    append(&mut r, "\r\n".as_bytes());
    r
}

/// Whether the empty line that ends a head stands at `at`.
pub open spec fn empty_line_at(bytes: Seq<u8>, at: int) -> bool {
    0 <= at && at + 4 <= bytes.len() && bytes[at] == 13 && bytes[at + 1] == 10 && bytes[at + 2]
        == 13 && bytes[at + 3] == 10
}

/// Where the head of a response ends, once all of it was read.
pub fn head_end(bytes: &Vec<u8>) -> (r: Option<usize>)
    ensures
        match r {
            Some(end) => end >= 4 && empty_line_at(bytes@, end - 4) && forall|at: int|
                at < end - 4 ==> !empty_line_at(bytes@, at),
            None => forall|at: int| !empty_line_at(bytes@, at),
        },
{
    if bytes.len() < 4 {
        return None;
    }
    let last: usize = bytes.len() - 4;
    let mut at: usize = 0;
    while at <= last
        invariant
            last + 4 == bytes.len(),
            at <= last + 1,
            forall|k: int| k < at ==> !empty_line_at(bytes@, k),
        decreases last + 1 - at,
    {
        if bytes[at] == 13 && bytes[at + 1] == 10 && bytes[at + 2] == 13 && bytes[at + 3] == 10 {
            return Some(at + 4);
        }
        at = at + 1;
    }
    None
}

/// Whether a line ends at `at`.
pub open spec fn line_ends_at(s: Seq<char>, at: int) -> bool {
    0 <= at && at + 2 <= s.len() && s[at] == '\r' && s[at + 1] == '\n'
}

/// Where a line of `s` first ends, or the length of `s` if none does.
pub open spec fn line_end(s: Seq<char>) -> nat
    decreases s.len(),
{
    if s.len() < 2 {
        s.len()
    } else if s[0] == '\r' && s[1] == '\n' {
        0
    } else {
        1 + line_end(s.skip(1))
    }
}

/// The lines of `s`: what stands between its line ends.
pub open spec fn head_lines(s: Seq<char>) -> Seq<Seq<char>>
    decreases s.len(),
{
    if line_end(s) + 2 > s.len() {
        seq![s]
    } else {
        seq![s.take(line_end(s) as int)] + head_lines(s.skip(line_end(s) as int + 2))
    }
}

/// The value of a line that is the header, and nothing of another line.
pub open spec fn extension_of_line(line: Seq<char>) -> Option<Seq<char>> {
    let colon = find(line, ':') as int;
    if colon < line.len() && lower(line.take(colon)) == EXTENSIONS_HEADER@ {
        Some(trim(line.skip(colon + 1)))
    } else {
        None
    }
}

/// The value of the first line that is the header.
pub open spec fn first_extension(lines: Seq<Seq<char>>) -> Option<Seq<char>>
    decreases lines.len(),
{
    if lines.len() == 0 {
        None
    } else if extension_of_line(lines[0]) is Some {
        extension_of_line(lines[0])
    } else {
        first_extension(lines.skip(1))
    }
}

/// The response did not switch protocols.
#[derive(Clone, Copy, Debug, PartialEq, Eq)]
pub struct NotSwitched;

/// A line ends where it first can.
pub proof fn line_end_is_first(s: Seq<char>, at: int)
    requires
        line_ends_at(s, at),
        forall|k: int| 0 <= k < at ==> !#[trigger] line_ends_at(s, k),
    ensures
        line_end(s) == at,
    decreases at,
{
    if at > 0 {
        let t = s.skip(1);
        assert(!line_ends_at(s, 0));
        assert forall|k: int| 0 <= k < at - 1 implies !#[trigger] line_ends_at(t, k) by {
            assert(!line_ends_at(s, k + 1));
        }
        line_end_is_first(t, at - 1);
    }
}

/// A text without a line end is one line.
pub proof fn line_end_is_missing(s: Seq<char>)
    requires
        forall|k: int| !#[trigger] line_ends_at(s, k),
    ensures
        line_end(s) == s.len(),
    decreases s.len(),
{
    if s.len() >= 2 {
        let t = s.skip(1);
        assert(!line_ends_at(s, 0));
        assert forall|k: int| !#[trigger] line_ends_at(t, k) by {
            assert(!line_ends_at(s, k + 1));
        }
        line_end_is_missing(t);
    }
}

fn split_head(s: &str) -> (r: Vec<String>)
    ensures
        views(r@) == head_lines(s@),
{
    let chars = chars_of(s);
    let n: usize = chars.len();
    let mut r: Vec<String> = Vec::new();
    let mut start: usize = 0;
    let mut i: usize = 0;
    assert(s@.skip(0) =~= s@);
    assert(views(r@) + head_lines(s@.skip(0)) =~= head_lines(s@));
    while n - i >= 2
        invariant
            chars@ == s@,
            n == chars@.len(),
            start <= i <= n,
            views(r@) + head_lines(s@.skip(start as int)) == head_lines(s@),
            forall|k: int| start <= k < i ==> !#[trigger] line_ends_at(s@, k),
        decreases n - i,
    {
        if chars[i] == '\r' && chars[i + 1] == '\n' {
            let line = string_of(&chars, start, i);
            let ghost rest = s@.skip(start as int);
            proof {
                assert forall|k: int| 0 <= k < i - start implies !#[trigger] line_ends_at(
                    rest,
                    k,
                ) by {
                    assert(!line_ends_at(s@, start + k));
                }
                assert(line_ends_at(rest, i - start));
                line_end_is_first(rest, i - start);
                assert(rest.take(i - start) =~= line@);
                assert(rest.skip(i - start + 2) =~= s@.skip(i + 2));
                assert(views(r@.push(line)) =~= views(r@) + seq![line@]);
                assert(views(r@.push(line)) + head_lines(s@.skip(i + 2)) =~= views(r@) + (seq![
                    line@,
                ] + head_lines(s@.skip(i + 2))));
            }
            r.push(line);
            start = i + 2;
            i = i + 2;
        } else {
            assert(!line_ends_at(s@, i as int));
            i = i + 1;
        }
    }
    let line = string_of(&chars, start, n);
    proof {
        let rest = s@.skip(start as int);
        assert(rest =~= line@);
        assert forall|k: int| !#[trigger] line_ends_at(rest, k) by {
            assert(0 <= k ==> !line_ends_at(s@, start + k));
        }
        line_end_is_missing(rest);
        assert(views(r@.push(line)) =~= views(r@) + seq![line@]);
    }
    r.push(line);
    r
}

fn read_line(line: &String) -> (r: Option<String>)
    ensures
        match r {
            Some(value) => extension_of_line(line@) == Some(value@),
            None => extension_of_line(line@) is None,
        },
{
    let chars = chars_of(line.as_str());
    let n: usize = chars.len();
    let mut colon: usize = 0;
    while colon < n && chars[colon] != ':'
        invariant
            chars@ == line@,
            n == chars@.len(),
            colon <= n,
            forall|k: int| 0 <= k < colon ==> line@[k] != ':',
        decreases n - colon,
    {
        colon = colon + 1;
    }
    proof {
        find_is_unique(line@, ':', colon as int);
    }
    if colon == n {
        return None;
    }
    let name = string_of(&chars, 0, colon);
    assert(name@ =~= line@.take(colon as int));
    if !same_text(lowercase(name.as_str()).as_str(), EXTENSIONS_HEADER) {
        return None;
    }
    let value = string_of(&chars, colon + 1, n);
    assert(value@ =~= line@.skip(colon + 1));
    Some(trimmed(value.as_str(), CharClass::Whitespace))
}

/// The extension that the head of a response agrees on, if any. A response that
/// did not switch protocols is an error.
pub fn negotiated_extension(head: &str) -> (r: Result<Option<String>, NotSwitched>)
    ensures
        match r {
            Err(_) => !starts_with(head@, "HTTP/1.1 101 "@),
            Ok(None) => starts_with(head@, "HTTP/1.1 101 "@) && first_extension(
                head_lines(head@),
            ) is None,
            Ok(Some(value)) => starts_with(head@, "HTTP/1.1 101 "@) && first_extension(
                head_lines(head@),
            ) == Some(value@),
        },
{
    if !has_prefix(head, "HTTP/1.1 101 ") {
        return Err(NotSwitched);
    }
    let lines = split_head(head);
    let ghost all = views(lines@);
    assert(all.skip(0) =~= all);
    let mut i: usize = 0;
    while i < lines.len()
        invariant
            i <= lines@.len(),
            all == views(lines@),
            all == head_lines(head@),
            starts_with(head@, "HTTP/1.1 101 "@),
            first_extension(all.skip(i as int)) == first_extension(all),
        decreases lines@.len() - i,
    {
        proof {
            assert(all.skip(i as int)[0] == lines@[i as int]@);
            assert(all.skip(i as int).skip(1) =~= all.skip(i + 1));
        }
        let found = read_line(&lines[i]);
        if found.is_some() {
            return Ok(found);
        }
        i = i + 1;
    }
    Ok(None)
}

} // verus!
