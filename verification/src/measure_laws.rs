//! What captures, readers, proxies and raw handshakes come to.
use vstd::prelude::*;
use vstd::utf8::encode_utf8;

use crate::measure::{
    bytes_counted, check_of, frames_of, lines_of, not_blank, pump_action, step_after, total_size,
    FrameCheck, PumpAction, PumpEvent, ReadStep,
};
use crate::message::SocketMessage;
use crate::probe::{
    byte_views, extension_of_line, first_extension, head_lines, line_end_is_first, line_end_is_missing,
    line_ends_at, offer_lines, request_of,
};
use crate::text::{
    find_is_unique, lower, split_of_concatenation, split_without_separator, trim,
};

verus! {

/// A line feed parts the frames of a capture.
pub proof fn a_line_feed_parts_frames(a: Seq<char>, b: Seq<char>)
    ensures
        frames_of(a + seq!['\n'] + b) == frames_of(a + seq!['\n']) + frames_of(b),
{
    let nothing = Seq::<char>::empty();
    split_of_concatenation(a, b, '\n');
    split_of_concatenation(a, nothing, '\n');
    split_without_separator(nothing, '\n');
    assert(a + seq!['\n'] + nothing =~= a + seq!['\n']);
    let whole = lines_of(a + seq!['\n'] + b);
    let first = lines_of(a + seq!['\n']);
    crate::offer::split_is_nonempty(b, '\n');
    assert(first.drop_last() + lines_of(b) =~= whole);
    assert(first.last() =~= nothing);
    assert(first =~= first.drop_last().push(nothing));
    not_blank_of_both(first.drop_last(), lines_of(b));
    not_blank_of_both(first.drop_last(), seq![nothing]);
    assert(first =~= first.drop_last() + seq![nothing]);
    assert(trim(nothing).len() == 0);
    one_line(nothing);
    assert(not_blank(first) =~= not_blank(first.drop_last()));
}

proof fn not_blank_of_both(a: Seq<Seq<char>>, b: Seq<Seq<char>>)
    ensures
        not_blank(a + b) == not_blank(a) + not_blank(b),
    decreases a.len(),
{
    if a.len() == 0 {
        assert(a + b =~= b);
        assert(not_blank(a) + not_blank(b) =~= not_blank(b));
    } else {
        assert((a + b).skip(1) =~= a.skip(1) + b);
        not_blank_of_both(a.skip(1), b);
        assert(not_blank(a + b) =~= not_blank(a) + not_blank(b));
    }
}

/// One line is one frame, unless it is blank. Of a line that ends in a line
/// feed a carriage return before that is no part.
pub proof fn a_line_is_a_frame(line: Seq<char>)
    requires
        !line.contains('\n'),
    ensures
        trim(line).len() == 0 ==> frames_of(line).len() == 0,
        trim(line).len() > 0 ==> frames_of(line) == seq![line],
        line.len() == 0 || line.last() != '\r' ==> {
            &&& trim(line).len() == 0 ==> frames_of(line + seq!['\n']).len() == 0
            &&& trim(line).len() > 0 ==> frames_of(line + seq!['\n']) == seq![line]
        },
        line.len() > 0 && line.last() == '\r' ==> {
            &&& trim(line.drop_last()).len() == 0 ==> frames_of(line + seq!['\n']).len() == 0
            &&& trim(line.drop_last()).len() > 0 ==> frames_of(line + seq!['\n']) == seq![
                line.drop_last(),
            ]
        },
{
    let nothing = Seq::<char>::empty();
    split_without_separator(line, '\n');
    split_without_separator(nothing, '\n');
    split_of_concatenation(line, nothing, '\n');
    assert(line + seq!['\n'] + nothing =~= line + seq!['\n']);
    let kept = if line.len() > 0 && line.last() == '\r' {
        line.drop_last()
    } else {
        line
    };
    assert(lines_of(line) =~= seq![line]);
    assert(lines_of(line + seq!['\n']) =~= seq![kept] + seq![nothing]);
    not_blank_of_both(seq![kept], seq![nothing]);
    one_line(line);
    one_line(kept);
    one_line(nothing);
    assert(not_blank(seq![kept]) + Seq::<Seq<char>>::empty() =~= not_blank(seq![kept]));
    assert(trim(nothing).len() == 0);
}

proof fn one_line(line: Seq<char>)
    ensures
        trim(line).len() > 0 ==> not_blank(seq![line]) == seq![line],
        trim(line).len() == 0 ==> not_blank(seq![line]) == Seq::<Seq<char>>::empty(),
{
    assert(seq![line].skip(1) =~= Seq::empty());
    assert(not_blank(Seq::empty()) =~= Seq::empty());
    assert(seq![line] + Seq::<Seq<char>>::empty() =~= seq![line]);
}

/// Frames are as large as their bytes together.
pub proof fn sizes_add_up(list: Seq<Seq<char>>, one: Seq<char>)
    ensures
        total_size(Seq::empty()) == 0,
        total_size(list.push(one)) == total_size(list) + encode_utf8(one).len(),
    decreases list.len(),
{
    if list.len() == 0 {
        assert(list.push(one).skip(1) =~= Seq::empty());
    } else {
        assert(list.push(one).skip(1) =~= list.skip(1).push(one));
        sizes_add_up(list.skip(1), one);
    }
}

/// A reader takes the frame that is due, and ends with the last. Another text
/// fails it. What is no text fails a strict one and no other.
pub proof fn a_reader_takes_the_frames_in_turn(
    due: Seq<char>,
    msg: SocketMessage,
    len: nat,
    seen: usize,
    strict: bool,
)
    requires
        seen < len <= usize::MAX,
    ensures
        ({
            let step = step_after(check_of(due, msg), len, seen, strict);
            &&& msg matches SocketMessage::Text(t) ==> {
                &&& t@ == due && seen + 1 == len ==> step is Done
                &&& t@ == due && seen + 1 < len ==> step == ReadStep::Next((seen + 1) as usize)
                &&& t@ != due ==> step == ReadStep::Failed(FrameCheck::Differs)
            }
            &&& !(msg is Text) && strict ==> step == ReadStep::Failed(FrameCheck::NotText)
            &&& !(msg is Text) && !strict ==> step == ReadStep::Next(seen)
        }),
{
}

/// One direction of the proxy hands on what it reads, all of it and counted,
/// and then reads again. It stops at the end of the stream and at any failure.
pub proof fn the_proxy_hands_on_until_the_end(n: usize)
    ensures
        n > 0 ==> pump_action(PumpEvent::Read(n)) == PumpAction::Write(n) && bytes_counted(
            PumpEvent::Read(n),
        ) == n,
        pump_action(PumpEvent::Read(0)) is Stop,
        pump_action(PumpEvent::ReadFailed) is Stop,
        pump_action(PumpEvent::WriteFailed) is Stop,
        pump_action(PumpEvent::Written) is Read,
        bytes_counted(PumpEvent::Read(0)) == 0,
        bytes_counted(PumpEvent::ReadFailed) == 0,
        bytes_counted(PumpEvent::WriteFailed) == 0,
        bytes_counted(PumpEvent::Written) == 0,
{
}

/// A request offers each extension on a line of its own, as it is given, in
/// order and behind the fixed lines.
pub proof fn a_request_offers_line_by_line(host: Seq<char>, offers: Seq<Seq<u8>>, one: Seq<u8>)
    ensures
        offer_lines(Seq::empty()).len() == 0,
        offer_lines(offers.push(one)) == offer_lines(offers) + encode_utf8(
            "Sec-WebSocket-Extensions: "@,
        ) + one + encode_utf8("\r\n"@),
        request_of(host, offers) == encode_utf8("GET / HTTP/1.1\r\nHost: "@) + encode_utf8(host)
            + encode_utf8(
            "\r\nConnection: Upgrade\r\nUpgrade: websocket\r\nSec-WebSocket-Version: 13\r\nSec-WebSocket-Key: dGhlIHNhbXBsZSBub25jZQ==\r\n"@,
        ) + offer_lines(offers) + encode_utf8("\r\n"@),
{
    offers_add_lines(offers, one);
}

proof fn offers_add_lines(offers: Seq<Seq<u8>>, one: Seq<u8>)
    ensures
        offer_lines(offers.push(one)) == offer_lines(offers) + encode_utf8(
            "Sec-WebSocket-Extensions: "@,
        ) + one + encode_utf8("\r\n"@),
    decreases offers.len(),
{
    let more = offers.push(one);
    if offers.len() == 0 {
        assert(more.skip(1) =~= Seq::empty());
        assert(offer_lines(Seq::empty()) =~= Seq::empty());
        assert(offer_lines(offers) =~= Seq::empty());
        assert(offer_lines(more) =~= offer_lines(offers) + encode_utf8(
            "Sec-WebSocket-Extensions: "@,
        ) + one + encode_utf8("\r\n"@));
    } else {
        assert(more.skip(1) =~= offers.skip(1).push(one));
        offers_add_lines(offers.skip(1), one);
        assert(more[0] == offers[0]);
        assert(offer_lines(more) =~= offer_lines(offers) + encode_utf8(
            "Sec-WebSocket-Extensions: "@,
        ) + one + encode_utf8("\r\n"@));
    }
}

/// Offers are seen one by one.
pub proof fn offers_are_seen_as_they_are(list: Seq<Vec<u8>>)
    ensures
        byte_views(list).len() == list.len(),
        forall|i: int| 0 <= i < list.len() ==> (#[trigger] byte_views(list)[i]) == list[i]@,
{
}

/// A head is parted into lines by each carriage return with a line feed behind
/// it, and by nothing else.
pub proof fn a_line_end_parts_a_head(line: Seq<char>, rest: Seq<char>)
    requires
        forall|k: int|
            0 <= k < line.len() - 1 ==> !(line[k] == '\r' && #[trigger] line[k + 1] == '\n'),
    ensures
        head_lines(line) == seq![line],
        head_lines(line + seq!['\r', '\n'] + rest) == seq![line] + head_lines(rest),
{
    let whole = line + seq!['\r', '\n'] + rest;
    let n = line.len() as int;
    assert forall|k: int| !#[trigger] line_ends_at(line, k) by {
        if 0 <= k && k + 2 <= line.len() {
            assert(line[k + 1] == line[k + 1]);
        }
    }
    line_end_is_missing(line);
    assert(line_ends_at(whole, n));
    assert forall|k: int| 0 <= k < n implies !#[trigger] line_ends_at(whole, k) by {
        if k + 1 < n {
            assert(whole[k] == line[k] && whole[k + 1] == line[k + 1]);
        } else {
            assert(whole[k + 1] == '\r');
        }
    }
    line_end_is_first(whole, n);
    assert(whole.take(n) =~= line);
    assert(whole.skip(n + 2) =~= rest);
}

/// A line is the header exactly if what stands before its first colon is the
/// header's name, in any letter case; its value is what stands behind, trimmed.
pub proof fn a_header_line_is_known_by_its_name(name: Seq<char>, value: Seq<char>)
    requires
        !name.contains(':'),
    ensures
        extension_of_line(name) is None,
        extension_of_line(name + seq![':'] + value) is Some <==> lower(name)
            == "sec-websocket-extensions"@,
        lower(name) == "sec-websocket-extensions"@ ==> extension_of_line(
            name + seq![':'] + value,
        ) == Some(trim(value)),
{
    let line = name + seq![':'] + value;
    assert forall|k: int| 0 <= k < name.len() implies name[k] != ':' && line[k] != ':' by {
        assert(line[k] == name[k]);
        if name[k] == ':' {
            assert(name.contains(':'));
        }
    }
    find_is_unique(line, ':', name.len() as int);
    find_is_unique(name, ':', name.len() as int);
    assert(line.take(name.len() as int) =~= name);
    assert(line.skip(name.len() as int + 1) =~= value);
}

/// Of the lines that are the header the first counts.
pub proof fn the_first_header_counts(lines: Seq<Seq<char>>)
    ensures
        forall|i: int|
            0 <= i < lines.len() && extension_of_line(#[trigger] lines[i]) is Some && (forall|
                j: int,
            |
                0 <= j < i ==> extension_of_line(#[trigger] lines[j]) is None) ==> first_extension(
                lines,
            ) == extension_of_line(lines[i]),
        (forall|i: int|
            0 <= i < lines.len() ==> extension_of_line(#[trigger] lines[i]) is None)
            ==> first_extension(lines) is None,
    decreases lines.len(),
{
    if lines.len() > 0 {
        let rest = lines.skip(1);
        the_first_header_counts(rest);
        assert(forall|j: int| 0 <= j < rest.len() ==> (#[trigger] rest[j]) == lines[j + 1]);
        assert forall|i: int|
            0 <= i < lines.len() && extension_of_line(#[trigger] lines[i]) is Some && (forall|
                j: int,
            |
                0 <= j < i ==> extension_of_line(
                    #[trigger] lines[j],
                ) is None) implies first_extension(lines) == extension_of_line(lines[i]) by {
            if i > 0 {
                assert(extension_of_line(lines[0]) is None);
                assert(rest[i - 1] == lines[i]);
                assert forall|j: int| 0 <= j < i - 1 implies extension_of_line(
                    #[trigger] rest[j],
                ) is None by {
                    assert(rest[j] == lines[j + 1]);
                }
            }
        }
        if forall|i: int| 0 <= i < lines.len() ==> extension_of_line(#[trigger] lines[i]) is None {
            assert(extension_of_line(lines[0]) is None);
            assert forall|j: int| 0 <= j < rest.len() implies extension_of_line(
                #[trigger] rest[j],
            ) is None by {
                assert(rest[j] == lines[j + 1]);
            }
        }
    }
}

} // verus!
