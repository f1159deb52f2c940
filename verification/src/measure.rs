//! What compression costs and saves on the wire, measured on captured frames:
//! the frames, their sizes, and the proxy that counts bytes.
use vstd::prelude::*;
use vstd::utf8::encode_utf8;

use crate::message::SocketMessage;
use crate::text::{
    chars_of, find, find_is_first, split, split_at, string_of, trim, trimmed, views, CharClass,
};

verus! {

/// The size of a text in bytes.
pub open spec fn size(s: Seq<char>) -> nat {
    encode_utf8(s).len()
}

/// The size of some texts together.
pub open spec fn total_size(list: Seq<Seq<char>>) -> nat
    decreases list.len(),
{
    if list.len() == 0 {
        0
    } else {
        size(list[0]) + total_size(list.skip(1))
    }
}

/// A line without the carriage return before its line feed.
pub open spec fn without_return(line: Seq<char>) -> Seq<char> {
    if line.len() > 0 && line.last() == '\r' {
        line.drop_last()
    } else {
        line
    }
}

/// The lines of a text. Each ends in a line feed, which may follow a carriage
/// return; the last need not end in one, and may then be empty.
pub open spec fn lines_of(text: Seq<char>) -> Seq<Seq<char>> {
    let parts = split(text, '\n');
    Seq::new(
        parts.len(),
        |i: int|
            if i + 1 < parts.len() {
                without_return(parts[i])
            } else {
                parts[i]
            },
    )
}

/// The lines that hold more than white space.
pub open spec fn not_blank(lines: Seq<Seq<char>>) -> Seq<Seq<char>>
    decreases lines.len(),
{
    if lines.len() == 0 {
        Seq::empty()
    } else if trim(lines[0]).len() > 0 {
        seq![lines[0]] + not_blank(lines.skip(1))
    } else {
        not_blank(lines.skip(1))
    }
}

/// The frames of a capture, which holds one to a line.
pub open spec fn frames_of(text: Seq<char>) -> Seq<Seq<char>> {
    not_blank(lines_of(text))
}

fn strip_return(line: &String) -> (r: String)
    ensures
        r@ == without_return(line@),
{
    let chars = chars_of(line.as_str());
    let n: usize = chars.len();
    if n > 0 && chars[n - 1] == '\r' {
        assert(line@.subrange(0, n - 1) =~= line@.drop_last());
        return string_of(&chars, 0, n - 1);
    }
    line.clone()
}

/// The frames of a capture: its lines but for the blank ones.
pub fn corpus(text: &str) -> (r: Vec<String>)
    ensures
        views(r@) == frames_of(text@),
{
    let parts = split_at(text, '\n');
    let ghost lines = lines_of(text@);
    assert(split(text@, '\n').len() == parts@.len()) by {
        assert(views(parts@).len() == parts@.len());
    }
    let mut r: Vec<String> = Vec::new();
    let mut i: usize = 0;
    assert(lines.skip(0) =~= lines);
    assert(views(r@) + not_blank(lines.skip(0)) =~= not_blank(lines));
    while i < parts.len()
        invariant
            i <= parts@.len(),
            views(parts@) == split(text@, '\n'),
            lines == lines_of(text@),
            lines.len() == parts@.len(),
            views(r@) + not_blank(lines.skip(i as int)) == not_blank(lines),
        decreases parts@.len() - i,
    {
        let line = if i + 1 < parts.len() {
            strip_return(&parts[i])
        } else {
            parts[i].clone()
        };
        let ghost rest = lines.skip(i as int);
        proof {
            assert(views(parts@)[i as int] == parts@[i as int]@);
            assert(rest[0] == line@);
            assert(rest.skip(1) =~= lines.skip(i + 1));
        }
        let bare = trimmed(line.as_str(), CharClass::Whitespace);
        if !bare.as_str().is_empty() {
            assert(views(r@.push(line)) =~= views(r@) + seq![line@]);
            assert(views(r@) + (seq![line@] + not_blank(rest.skip(1))) =~= views(r@.push(line))
                + not_blank(rest.skip(1)));
            r.push(line);
        }
        i = i + 1;
    }
    assert(not_blank(lines.skip(i as int)) =~= Seq::empty());
    assert(views(r@) + Seq::<Seq<char>>::empty() =~= views(r@));
    r
}

/// The size of the frames together.
pub fn raw_bytes(frames: &[String]) -> (r: usize)
    requires
        total_size(views(frames@)) <= usize::MAX,
    ensures
        r == total_size(views(frames@)),
{
    let ghost all = views(frames@);
    let mut sum: usize = 0;
    let mut i: usize = 0;
    assert(all.skip(0) =~= all);
    while i < frames.len()
        invariant
            i <= frames@.len(),
            all == views(frames@),
            total_size(all) <= usize::MAX,
            sum + total_size(all.skip(i as int)) == total_size(all),
        decreases frames@.len() - i,
    {
        proof {
            assert(all.skip(i as int)[0] == frames@[i as int]@);
            assert(all.skip(i as int).skip(1) =~= all.skip(i + 1));
        }
        let n: usize = frames[i].as_str().as_bytes().len();
        sum = sum + n;
        i = i + 1;
    }
    assert(total_size(all.skip(i as int)) == 0);
    sum
}

/// The frames of a capture, and their size together.
pub fn captured_frames(text: &str) -> (r: (Vec<String>, usize))
    ensures
        views(r.0@) == frames_of(text@),
        r.1 == total_size(frames_of(text@)),
{
    let frames = corpus(text);
    proof {
        frames_fit_their_capture(text@);
    }
    let n: usize = text.as_bytes().len();
    assert(total_size(frames_of(text@)) <= n);
    let raw: usize = raw_bytes(frames.as_slice());
    (frames, raw)
}

proof fn size_of_concatenation(a: Seq<char>, b: Seq<char>)
    ensures
        size(a + b) == size(a) + size(b),
    decreases a.len(),
{
    if a.len() == 0 {
        assert(a + b =~= b);
    } else {
        assert((a + b).drop_first() =~= a.drop_first() + b);
        size_of_concatenation(a.drop_first(), b);
    }
}

proof fn size_of_split(s: Seq<char>, sep: char)
    ensures
        total_size(split(s, sep)) <= size(s),
    decreases s.len(),
{
    find_is_first(s, sep);
    let at = find(s, sep) as int;
    if at >= s.len() {
        assert(seq![s].skip(1) =~= Seq::empty());
        assert(total_size(seq![s].skip(1)) == 0);
    } else {
        let rest = s.skip(at + 1);
        size_of_split(rest, sep);
        let parts = split(s, sep);
        assert(parts.skip(1) =~= split(rest, sep));
        assert(s =~= s.take(at) + (seq![s[at]] + rest));
        size_of_concatenation(s.take(at), seq![s[at]] + rest);
        size_of_concatenation(seq![s[at]], rest);
    }
}

proof fn size_of_lines(parts: Seq<Seq<char>>, lines: Seq<Seq<char>>)
    requires
        parts.len() == lines.len(),
        forall|i: int|
            0 <= i < parts.len() ==> #[trigger] lines[i] == parts[i] || lines[i] == without_return(
                parts[i],
            ),
    ensures
        total_size(not_blank(lines)) <= total_size(parts),
    decreases parts.len(),
{
    if parts.len() > 0 {
        let first = parts[0];
        assert(lines[0] == first || lines[0] == without_return(first));
        if first.len() > 0 {
            assert(first =~= first.drop_last() + seq![first.last()]);
            size_of_concatenation(first.drop_last(), seq![first.last()]);
        }
        assert forall|i: int| 0 <= i < parts.skip(1).len() implies #[trigger] lines.skip(1)[i]
            == parts.skip(1)[i] || lines.skip(1)[i] == without_return(parts.skip(1)[i]) by {
            assert(lines.skip(1)[i] == lines[i + 1]);
        }
        size_of_lines(parts.skip(1), lines.skip(1));
        let kept = seq![lines[0]] + not_blank(lines.skip(1));
        assert(kept.skip(1) =~= not_blank(lines.skip(1)));
    }
}

/// The frames of a capture are together no larger than the capture.
pub proof fn frames_fit_their_capture(text: Seq<char>)
    ensures
        total_size(frames_of(text)) <= size(text),
{
    size_of_split(text, '\n');
    size_of_lines(split(text, '\n'), lines_of(text));
}

/// How a message compares with the frame that is due.
#[derive(Clone, Copy, Debug, PartialEq, Eq, Structural)]
pub enum FrameCheck {
    /// It is that frame.
    Same,
    /// It is another text.
    Differs,
    /// It is no text.
    NotText,
}

/// How a message compares with the frame that is due.
pub open spec fn check_of(due: Seq<char>, msg: SocketMessage) -> FrameCheck {
    match msg {
        SocketMessage::Text(t) => if t@ == due {
            FrameCheck::Same
        } else {
            FrameCheck::Differs
        },
        _ => FrameCheck::NotText,
    }
}

/// Compares a message that was read with the frame that is due, the one after
/// the `seen` frames that were read before.
pub fn check_frame(frames: &[String], seen: usize, msg: &SocketMessage) -> (r: FrameCheck)
    requires
        seen < frames@.len(),
    ensures
        r == check_of(frames@[seen as int]@, *msg),
{
    match msg {
        SocketMessage::Text(t) => {
            if *t == frames[seen] {
                FrameCheck::Same
            } else {
                FrameCheck::Differs
            }
        },
        _ => FrameCheck::NotText,
    }
}

/// What follows a message of a reader that reads frames back.
#[derive(Clone, Copy, Debug, PartialEq, Eq, Structural)]
pub enum ReadStep {
    /// So many frames were read, and there are more.
    Next(usize),
    /// All frames were read.
    Done,
    /// The message is not what it must be: another text, or none.
    Failed(FrameCheck),
}

/// What follows a message where `seen` of `len` frames were read before. A
/// strict reader takes nothing but the frames; one that is not passes over what
/// is no text.
pub open spec fn step_after(check: FrameCheck, len: nat, seen: usize, strict: bool) -> ReadStep {
    match check {
        FrameCheck::Same => if seen + 1 < len {
            ReadStep::Next((seen + 1) as usize)
        } else {
            ReadStep::Done
        },
        FrameCheck::Differs => ReadStep::Failed(check),
        FrameCheck::NotText => if strict {
            ReadStep::Failed(check)
        } else {
            ReadStep::Next(seen)
        },
    }
}

/// Decides what follows a message where `seen` frames were read before.
pub fn read_step(frames: &[String], seen: usize, msg: &SocketMessage, strict: bool) -> (r: ReadStep)
    requires
        seen < frames@.len(),
    ensures
        r == step_after(check_of(frames@[seen as int]@, *msg), frames@.len(), seen, strict),
{
    let check = check_frame(frames, seen, msg);
    match check {
        FrameCheck::Same => {
            if frames.len() - seen > 1 {
                ReadStep::Next(seen + 1)
            } else {
                ReadStep::Done
            }
        },
        FrameCheck::Differs => ReadStep::Failed(check),
        FrameCheck::NotText => {
            if strict {
                ReadStep::Failed(check)
            } else {
                ReadStep::Next(seen)
            }
        },
    }
}

/// What came of the last action of one direction of the proxy.
#[derive(Clone, Copy, Debug, PartialEq, Eq, Structural)]
pub enum PumpEvent {
    /// So many bytes were read; none means that the stream has ended.
    Read(usize),
    ReadFailed,
    Written,
    WriteFailed,
}

/// What one direction of the proxy does next.
#[derive(Clone, Copy, Debug, PartialEq, Eq, Structural)]
pub enum PumpAction {
    Read,
    /// Write as many bytes of the buffer.
    Write(usize),
    Stop,
}

/// What follows an event.
pub open spec fn pump_action(event: PumpEvent) -> PumpAction {
    match event {
        PumpEvent::Read(n) => if n == 0 {
            PumpAction::Stop
        } else {
            PumpAction::Write(n)
        },
        PumpEvent::Written => PumpAction::Read,
        PumpEvent::ReadFailed => PumpAction::Stop,
        PumpEvent::WriteFailed => PumpAction::Stop,
    }
}

/// The bytes that an event adds to the count: those read, whether or not they
/// can then be written.
pub open spec fn bytes_counted(event: PumpEvent) -> nat {
    match event {
        PumpEvent::Read(n) => n as nat,
        _ => 0,
    }
}

/// Decides what one direction of the proxy does after an event, and how many
/// bytes it counts for it.
pub fn pump(event: PumpEvent) -> (r: (PumpAction, usize))
    ensures
        r.0 == pump_action(event),
        r.1 == bytes_counted(event),
{
    match event {
        PumpEvent::Read(n) => {
            if n == 0 {
                (PumpAction::Stop, 0)
            } else {
                (PumpAction::Write(n), n)
            }
        },
        PumpEvent::Written => (PumpAction::Read, 0),
        PumpEvent::ReadFailed => (PumpAction::Stop, 0),
        PumpEvent::WriteFailed => (PumpAction::Stop, 0),
    }
}

/// Every byte that is handed on was counted: what is to be written is exactly
/// what the event added to the count.
pub proof fn what_is_written_is_counted(event: PumpEvent)
    ensures
        pump_action(event) matches PumpAction::Write(n) ==> n == bytes_counted(event) && n > 0,
        !(pump_action(event) is Write) ==> bytes_counted(event) == 0,
{
}

} // verus!
