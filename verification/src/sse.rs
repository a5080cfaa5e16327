//! Server-sent events: frames in a byte stream, and the payloads of their data lines.

use crate::text::{self, chars_of, decode_lossy, split_on, starts, string_between, trim};
use vstd::prelude::*;
use vstd::string::*;

verus! {

/// What ends a frame: an empty line.
pub open spec fn blank() -> Seq<u8> {
    seq![10u8, 10u8]
}

/// The whole frames of a buffer, without what ends them.
pub open spec fn frames(bytes: Seq<u8>) -> Seq<Seq<u8>>
    decreases bytes.len(),
{
    match text::first_at(bytes, blank()) {
        Some(at) if 0 <= at && at + 2 <= bytes.len() => seq![bytes.take(at)] + frames(
            bytes.skip(at + 2),
        ),
        _ => Seq::empty(),
    }
}

/// What is left of a buffer behind its whole frames.
pub open spec fn rest(bytes: Seq<u8>) -> Seq<u8>
    decreases bytes.len(),
{
    match text::first_at(bytes, blank()) {
        Some(at) if 0 <= at && at + 2 <= bytes.len() => rest(bytes.skip(at + 2)),
        _ => bytes,
    }
}

/// A line without the carriage return that may start it.
pub open spec fn without_leading_return(line: Seq<char>) -> Seq<char> {
    if text::begins(line, "\r"@) {
        line.skip(1)
    } else {
        line
    }
}

/// The payload of a data line, trimmed; `None` for any other line.
pub open spec fn payload_of(line: Seq<char>) -> Option<Seq<char>> {
    let line = without_leading_return(line);
    if text::begins(line, "data: "@) {
        Some(text::trimmed(line.skip(6)))
    } else {
        None
    }
}

/// The payloads of the data lines among the given lines.
pub open spec fn payloads_of(lines: Seq<Seq<char>>) -> Seq<Seq<char>>
    decreases lines.len(),
{
    if lines.len() == 0 {
        Seq::empty()
    } else {
        match payload_of(lines.last()) {
            Some(payload) => payloads_of(lines.drop_last()).push(payload),
            None => payloads_of(lines.drop_last()),
        }
    }
}

/// The payloads of a frame.
pub open spec fn frame_payloads(frame: Seq<u8>) -> Seq<Seq<char>> {
    payloads_of(text::pieces(text::lossy_text(frame), '\n'))
}

/// The payloads of all given frames.
pub open spec fn all_payloads(frames: Seq<Seq<u8>>) -> Seq<Seq<char>>
    decreases frames.len(),
{
    if frames.len() == 0 {
        Seq::empty()
    } else {
        frame_payloads(frames[0]) + all_payloads(frames.drop_first())
    }
}

/// The payloads of the whole frames of a buffer.
pub open spec fn payloads(bytes: Seq<u8>) -> Seq<Seq<char>> {
    all_payloads(frames(bytes))
}

/// The payload of a data line.
pub fn payload(line: &str) -> (r: Option<String>)
    ensures
        r is Some <==> payload_of(line@) is Some,
        r is Some ==> payload_of(line@) == Some(r->0@),
{
    let chars = chars_of(line);
    proof {
        reveal_strlit("\r");
        reveal_strlit("data: ");
    }
    let from: usize = if starts(line, "\r") {
        1
    } else {
        0
    };
    let body = string_between(chars.as_slice(), from, chars.len());
    assert(body@ =~= without_leading_return(line@));
    if !starts(body.as_str(), "data: ") {
        return None;
    }
    let inner = chars_of(body.as_str());
    let data = string_between(inner.as_slice(), 6, inner.len());
    assert(data@ =~= body@.skip(6));
    Some(trim(data.as_str()))
}

/// The bytes `from` up to, and without, `to`.
fn bytes_between(bytes: &Vec<u8>, from: usize, to: usize) -> (r: Vec<u8>)
    requires
        from <= to <= bytes@.len(),
    ensures
        r@ == bytes@.subrange(from as int, to as int),
{
    let mut out: Vec<u8> = Vec::new();
    let mut i: usize = from;
    while i < to
        invariant
            from <= i <= to <= bytes@.len(),
            out@ == bytes@.subrange(from as int, i as int),
        decreases to - i,
    {
        out.push(bytes[i]);
        i = i + 1;
        assert(bytes@.subrange(from as int, i as int) =~= bytes@.subrange(
            from as int,
            i - 1,
        ).push(bytes@[i - 1]));
    }
    out
}

/// Where the first empty line from `from` on stands.
fn find_blank(bytes: &Vec<u8>, from: usize) -> (r: Option<usize>)
    requires
        from <= bytes@.len(),
    ensures
        match r {
            Some(at) => text::first_at(bytes@.skip(from as int), blank()) == Some(at - from) && from
                <= at && at + 2 <= bytes@.len(),
            None => text::first_at(bytes@.skip(from as int), blank()) is None,
        },
{
    let n = bytes.len();
    let mut at: usize = from;
    let ghost tail = bytes@.skip(from as int);
    while at < n && n - at >= 2
        invariant
            n == bytes@.len(),
            from <= at <= n,
            tail == bytes@.skip(from as int),
            forall|k: int| 0 <= k < at - from ==> !#[trigger] text::occurs_at(tail, blank(), k),
        decreases n - at,
    {
        if bytes[at] == 10 && bytes[at + 1] == 10 {
            proof {
                assert(tail.subrange(at - from, at - from + 2) =~= blank());
                text::lemma_first_from_is(tail, blank(), 0, at - from);
            }
            return Some(at);
        }
        proof {
            if text::occurs_at(tail, blank(), at - from) {
                let s = tail.subrange(at - from, at - from + 2);
                assert(s[0] == blank()[0]);
                assert(s[1] == blank()[1]);
            }
        }
        at = at + 1;
    }
    proof {
        text::lemma_first_at_occurs(tail, blank());
        if text::occurs(tail, blank()) {
            let k = choose|k: int| text::occurs_at(tail, blank(), k);
            assert(k < at - from);
        }
    }
    None
}

/// The bytes of a stream that are not decoded yet.
#[derive(Debug)]
pub struct Buffer {
    bytes: Vec<u8>,
}

impl View for Buffer {
    type V = Seq<u8>;

    closed spec fn view(&self) -> Seq<u8> {
        self.bytes@
    }
}

impl Buffer {
    /// An empty buffer.
    pub fn new() -> (r: Buffer)
        ensures
            r@ == Seq::<u8>::empty(),
    {
        Buffer { bytes: Vec::new() }
    }

    /// Takes in the next chunk of the stream and hands out the payloads of the frames
    /// that are whole now.
    pub fn push(&mut self, chunk: &[u8]) -> (r: Vec<String>)
        ensures
            final(self)@ == rest(old(self)@ + chunk@),
            text::texts(r@) == payloads(old(self)@ + chunk@),
    {
        let ghost all = self.bytes@ + chunk@;
        let mut i: usize = 0;
        assert(chunk@.take(0) =~= Seq::<u8>::empty());
        while i < chunk.len()
            invariant
                i <= chunk@.len(),
                self.bytes@ == old(self).bytes@ + chunk@.take(i as int),
            decreases chunk@.len() - i,
        {
            self.bytes.push(chunk[i]);
            i = i + 1;
            assert(chunk@.take(i as int) =~= chunk@.take(i - 1).push(chunk@[i - 1]));
        }
        assert(chunk@.take(i as int) =~= chunk@);
        let mut out: Vec<String> = Vec::new();
        let mut from: usize = 0;
        assert(all.skip(0) =~= all);
        assert(text::texts(out@) + payloads(all) =~= payloads(all));
        let n = self.bytes.len();
        loop
            invariant
                self.bytes@ == all,
                all == old(self)@ + chunk@,
                n == all.len(),
                from <= all.len(),
                text::texts(out@) + payloads(all.skip(from as int)) == payloads(all),
                rest(all.skip(from as int)) == rest(all),
            decreases all.len() - from,
        {
            let ghost tail = all.skip(from as int);
            match find_blank(&self.bytes, from) {
                None => {
                    assert(payloads(tail) =~= Seq::<Seq<char>>::empty());
                    assert(text::texts(out@) + payloads(tail) =~= text::texts(out@));
                    let left = bytes_between(&self.bytes, from, n);
                    assert(left@ =~= tail);
                    self.bytes = left;
                    return out;
                },
                Some(at) => {
                    let frame = bytes_between(&self.bytes, from, at);
                    let ghost done = text::texts(out@);
                    assert(frame@ =~= tail.take(at - from));
                    decode_frame(&frame, &mut out);
                    proof {
                        let more = all.skip(at + 2);
                        assert(tail.skip(at - from + 2) =~= more);
                        assert(frames(tail).drop_first() =~= frames(more));
                        assert(done + (frame_payloads(frame@) + payloads(more)) =~= (done
                            + frame_payloads(frame@)) + payloads(more));
                    }
                    from = at + 2;
                },
            }
        }
    }
}

/// Appends the payloads of a frame.
fn decode_frame(frame: &Vec<u8>, out: &mut Vec<String>)
    ensures
        text::texts(final(out)@) == text::texts(old(out)@) + frame_payloads(frame@),
{
    let decoded = decode_lossy(frame.as_slice());
    read_payloads(decoded.as_str(), out);
}

/// Appends the payloads of the data lines of a text.
pub fn read_payloads(decoded: &str, out: &mut Vec<String>)
    ensures
        text::texts(final(out)@) == text::texts(old(out)@) + payloads_of(
            text::pieces(decoded@, '\n'),
        ),
{
    let lines = split_on(decoded, '\n');
    let ghost all = text::texts(lines@);
    let mut i: usize = 0;
    assert(all.take(0) =~= Seq::<Seq<char>>::empty());
    assert(text::texts(out@) =~= text::texts(old(out)@) + payloads_of(all.take(0)));
    while i < lines.len()
        invariant
            i <= lines@.len(),
            all == text::texts(lines@),
            text::texts(out@) == text::texts(old(out)@) + payloads_of(all.take(i as int)),
        decreases lines@.len() - i,
    {
        let ghost done = text::texts(out@);
        proof {
            assert(all.take(i + 1).drop_last() =~= all.take(i as int));
            assert(all.take(i + 1).last() == lines@[i as int]@);
        }
        match payload(lines[i].as_str()) {
            Some(p) => {
                let ghost held = p@;
                out.push(p);
                proof {
                    assert(text::texts(out@) =~= done.push(held));
                    assert(text::texts(out@) =~= text::texts(old(out)@) + payloads_of(
                        all.take(i + 1),
                    ));
                }
            },
            None => {},
        }
        i = i + 1;
    }
    assert(all.take(i as int) =~= all);
}

// ---------------------------------------------------------------------------
// Laws
// ---------------------------------------------------------------------------

/// How a stream is cut into chunks does not matter: two chunks give the payloads, and
/// leave the bytes, that both of them in one would.
pub proof fn chunking_does_not_matter(a: Seq<u8>, b: Seq<u8>)
    ensures
        payloads(a + b) == payloads(a) + payloads(rest(a) + b),
        rest(a + b) == rest(rest(a) + b),
    decreases a.len(),
{
    text::lemma_first_from(a, blank(), 0);
    match text::first_at(a, blank()) {
        Some(at) => {
            let whole = a + b;
            assert forall|k: int| 0 <= k < at implies !#[trigger] text::occurs_at(
                whole,
                blank(),
                k,
            ) by {
                if text::occurs_at(whole, blank(), k) {
                    assert(a.subrange(k, k + 2) =~= whole.subrange(k, k + 2));
                    assert(text::occurs_at(a, blank(), k));
                }
            }
            assert(whole.subrange(at, at + 2) =~= a.subrange(at, at + 2));
            assert(text::occurs_at(whole, blank(), at));
            text::lemma_first_from_is(whole, blank(), 0, at);
            let more = a.skip(at + 2);
            assert(whole.take(at) =~= a.take(at));
            assert(whole.skip(at + 2) =~= more + b);
            chunking_does_not_matter(more, b);
            assert(frames(a).drop_first() =~= frames(more));
            assert(frames(whole).drop_first() =~= frames(more + b));
            assert(payloads(whole) =~= payloads(a) + payloads(rest(a) + b));
        },
        None => {
            assert(payloads(a) =~= Seq::<Seq<char>>::empty());
            assert(payloads(a) + payloads(rest(a) + b) =~= payloads(a + b));
        },
    }
}

/// An empty line ends a frame: what stands before the first one is a frame, and what stands
/// behind it is read in the same way. Without one there is no whole frame, and everything
/// is left.
pub proof fn empty_lines_end_frames(head: Seq<u8>, behind: Seq<u8>)
    requires
        forall|at: int|
            0 <= at < head.len() ==> !text::occurs_at(
                head + seq![10u8, 10u8] + behind,
                seq![10u8, 10u8],
                at,
            ),
    ensures
        frames(head + seq![10u8, 10u8] + behind) == seq![head] + frames(behind),
        rest(head + seq![10u8, 10u8] + behind) == rest(behind),
        payloads(head + seq![10u8, 10u8] + behind) == frame_payloads(head) + payloads(behind),
        !text::occurs(behind, seq![10u8, 10u8]) ==> frames(behind).len() == 0 && rest(behind)
            == behind && payloads(behind).len() == 0,
{
    let end = seq![10u8, 10u8];
    let all = head + end + behind;
    let n = head.len() as int;
    assert(blank() =~= end);
    assert(all.subrange(n, n + 2) =~= end);
    text::lemma_first_from_is(all, end, 0, n);
    assert(all.take(n) =~= head);
    assert(all.skip(n + 2) =~= behind);
    assert((seq![head] + frames(behind)).drop_first() =~= frames(behind));
    assert(payloads(all) =~= frame_payloads(head) + payloads(behind));
    text::lemma_first_at_occurs(behind, end);
}

/// A line tells a payload where it begins with `data: `, a carriage return before it set
/// aside: what follows, without white space around it. Any other line tells none.
pub proof fn data_lines_tell_payloads(data: Seq<char>, line: Seq<char>)
    ensures
        payload_of("data: "@ + data) == Some(text::trimmed(data)),
        payload_of("\r"@ + ("data: "@ + data)) == Some(text::trimmed(data)),
        !text::begins(line, "data: "@) && !text::begins(line, "\r"@) ==> payload_of(line) is None,
{
    reveal_strlit("data: ");
    reveal_strlit("\r");
    let plain = "data: "@ + data;
    let led = "\r"@ + plain;
    assert(plain.subrange(0, 6) =~= "data: "@);
    assert(plain.skip(6) =~= data);
    assert(plain.subrange(0, 1)[0] == 'd');
    assert("\r"@[0] == '\r');
    assert(!text::begins(plain, "\r"@));
    assert(led.subrange(0, 1) =~= "\r"@);
    assert(led.skip(1) =~= plain);
}

/// The payloads of lines come in the order of the lines, and lines without one are passed
/// over.
pub proof fn payloads_come_in_order(lines: Seq<Seq<char>>, line: Seq<char>)
    ensures
        payloads_of(Seq::empty()).len() == 0,
        payload_of(line) is Some ==> payloads_of(lines.push(line)) == payloads_of(lines).push(
            payload_of(line)->0,
        ),
        payload_of(line) is None ==> payloads_of(lines.push(line)) == payloads_of(lines),
{
    assert(lines.push(line).drop_last() =~= lines);
}

/// A frame of one data line tells the one payload of that line.
pub proof fn frame_of_one_line_tells_its_payload(frame: Seq<u8>, data: Seq<char>)
    requires
        text::lossy_text(frame) == "data: "@ + data,
        !data.contains('\n'),
    ensures
        frame_payloads(frame) == seq![text::trimmed(data)],
{
    let line = "data: "@ + data;
    reveal_strlit("data: ");
    assert(!line.contains('\n')) by {
        if line.contains('\n') {
            let i = choose|i: int| 0 <= i < line.len() && line[i] == '\n';
            if i >= 6 {
                assert(data[i - 6] == '\n');
            }
        }
    }
    text::separators_cut(line, '\n', Seq::empty());
    data_lines_tell_payloads(data, line);
    payloads_come_in_order(Seq::empty(), line);
    assert(seq![line] =~= Seq::<Seq<char>>::empty().push(line));
    assert(payloads_of(seq![line]) =~= seq![text::trimmed(data)]);
}

/// The lines of a frame tell their payloads one after the other.
pub proof fn lines_of_a_frame_tell_in_turn(
    frame: Seq<u8>,
    first: Seq<char>,
    second: Seq<char>,
)
    requires
        text::lossy_text(frame) == first + seq!['\n'] + second,
        !first.contains('\n'),
        !second.contains('\n'),
    ensures
        payload_of(first) is Some && payload_of(second) is Some ==> frame_payloads(frame) == seq![
            payload_of(first)->0,
            payload_of(second)->0,
        ],
        payload_of(first) is None && payload_of(second) is Some ==> frame_payloads(frame) == seq![
            payload_of(second)->0,
        ],
        payload_of(first) is Some && payload_of(second) is None ==> frame_payloads(frame) == seq![
            payload_of(first)->0,
        ],
{
    let none = Seq::<Seq<char>>::empty();
    text::separators_cut(first, '\n', second);
    text::separators_cut(second, '\n', Seq::empty());
    payloads_come_in_order(none, first);
    payloads_come_in_order(none.push(first), second);
    assert(text::pieces(text::lossy_text(frame), '\n') =~= none.push(first).push(second));
    assert(payloads_of(none) =~= none);
    assert(payload_of(first) is Some && payload_of(second) is Some ==> frame_payloads(frame)
        =~= seq![payload_of(first)->0, payload_of(second)->0]);
    assert(payload_of(first) is None && payload_of(second) is Some ==> frame_payloads(frame)
        =~= seq![payload_of(second)->0]);
    assert(payload_of(first) is Some && payload_of(second) is None ==> frame_payloads(frame)
        =~= seq![payload_of(first)->0]);
}

/// Behind a carriage return a line tells what it tells without it.
pub proof fn leading_return_is_set_aside(line: Seq<char>)
    ensures
        text::begins(line, "data: "@) ==> payload_of(seq!['\r'] + line) == Some(
            text::trimmed(line.skip(6)),
        ),
        !text::begins(line, "data: "@) ==> payload_of(seq!['\r'] + line) is None,
{
    reveal_strlit("\r");
    let led = seq!['\r'] + line;
    assert(led.subrange(0, 1) =~= "\r"@);
    assert(led.skip(1) =~= line);
}

} // verus!
