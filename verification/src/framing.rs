//! Frames in a stream of bytes.
//!
//! A frame is every byte up to the first carriage return that a line feed
//! follows. The two bytes end the frame and belong to none.

use vstd::prelude::*;
use crate::layout::{lemma_parse_wire, parse, sized, wire};
use crate::message::{Message, MessageView};

verus! {

/// Carriage return.
pub const CR: u8 = 13;

/// Line feed.
pub const LF: u8 = 10;

/// The two bytes that end a frame.
pub open spec fn delimiter() -> Seq<u8> {
    seq![CR, LF]
}

/// Whether the delimiter stands at index `i` of `data`.
pub open spec fn is_delimiter_at(data: Seq<u8>, i: int) -> bool {
    0 <= i && i + 1 < data.len() && data[i] == CR && data[i + 1] == LF
}

/// Whether the delimiter stands anywhere in `data`.
pub open spec fn has_delimiter(data: Seq<u8>) -> bool {
    exists|i: int| is_delimiter_at(data, i)
}

/// Whether the delimiter stands at `i` and nowhere before.
pub open spec fn is_first_delimiter(data: Seq<u8>, i: int) -> bool {
    is_delimiter_at(data, i) && forall|j: int| 0 <= j < i ==> !is_delimiter_at(data, j)
}

/// Where the first delimiter of `data` stands.
pub open spec fn first_delimiter(data: Seq<u8>) -> Option<int> {
    if exists|i: int| is_first_delimiter(data, i) {
        Some(choose|i: int| is_first_delimiter(data, i))
    } else {
        None
    }
}

/// The first frame of `data`: what stands before the first delimiter.
pub open spec fn first_frame(data: Seq<u8>) -> Option<Seq<u8>> {
    match first_delimiter(data) {
        Some(i) => Some(data.subrange(0, i)),
        None => None,
    }
}

/// What is left of `data` after its first frame and that frame's delimiter.
pub open spec fn after_first_frame(data: Seq<u8>) -> Seq<u8> {
    match first_delimiter(data) {
        Some(i) => data.skip(i + 2),
        None => data,
    }
}

/// The message of a frame, as a sequence: empty for a frame that holds none.
pub open spec fn frame_messages(frame: Seq<u8>) -> Seq<MessageView> {
    match parse(frame) {
        Some(m) => seq![m],
        None => Seq::empty(),
    }
}

/// The messages of the complete frames of `data`, in order. A frame that holds
/// no message is passed over; bytes after the last delimiter are not looked at.
pub open spec fn messages_of(data: Seq<u8>) -> Seq<MessageView>
    decreases data.len(),
{
    match first_delimiter(data) {
        Some(i) => if 0 <= i && i + 2 <= data.len() {
            frame_messages(data.subrange(0, i)) + messages_of(data.skip(i + 2))
        } else {
            Seq::empty()
        },
        None => Seq::empty(),
    }
}

/// What is left of `data` after all its complete frames.
pub open spec fn unframed(data: Seq<u8>) -> Seq<u8>
    decreases data.len(),
{
    match first_delimiter(data) {
        Some(i) => if 0 <= i && i + 2 <= data.len() {
            unframed(data.skip(i + 2))
        } else {
            data
        },
        None => data,
    }
}

/// The messages of a list, as mathematical values.
pub open spec fn views(v: Seq<Message>) -> Seq<MessageView> {
    Seq::new(v.len(), |i: int| v[i]@)
}

/// The first delimiter is where a delimiter stands with none before it.
pub proof fn lemma_first_delimiter(data: Seq<u8>, i: int)
    requires
        is_first_delimiter(data, i),
    ensures
        first_delimiter(data) == Some(i),
{
    let found = choose|k: int| is_first_delimiter(data, k);
    if found < i {
        assert(!is_delimiter_at(data, found));
    }
    if i < found {
        assert(!is_delimiter_at(data, i));
    }
}

/// Data without a delimiter has no first one.
pub proof fn lemma_no_delimiter(data: Seq<u8>)
    requires
        !has_delimiter(data),
    ensures
        first_delimiter(data) is None,
{
    if exists|i: int| is_first_delimiter(data, i) {
        let i = choose|i: int| is_first_delimiter(data, i);
        assert(is_delimiter_at(data, i));
    }
}

/// Where the first delimiter stands, or that there is none.
pub fn find_delimiter(data: &[u8]) -> (r: Option<usize>)
    ensures
        r is Some ==> is_first_delimiter(data@, r->0 as int),
        r is None ==> !has_delimiter(data@),
        r matches Some(i) ==> first_delimiter(data@) == Some(i as int),
        r is None ==> first_delimiter(data@) is None,
{
    let n = data.len();
    if n < 2 {
        proof {
            lemma_no_delimiter(data@);
        }
        return None;
    }
    let mut i: usize = 0;
    while i < n - 1
        invariant
            n == data@.len(),
            n >= 2,
            i <= n - 1,
            forall|j: int| 0 <= j < i ==> !is_delimiter_at(data@, j),
        decreases n - i,
    {
        if data[i] == CR && data[i + 1] == LF {
            proof {
                lemma_first_delimiter(data@, i as int);
            }
            return Some(i);
        }
        i += 1;
    }
    proof {
        lemma_no_delimiter(data@);
    }
    None
}

/// Takes the first frame out of `buffer`, with its delimiter, and returns the
/// frame. Leaves `buffer` as it is when it holds no delimiter yet.
pub fn extract_frame(buffer: &mut Vec<u8>) -> (r: Option<Vec<u8>>)
    ensures
        r is Some <==> has_delimiter(old(buffer)@),
        r is Some ==> first_frame(old(buffer)@) == Some(r->0@),
        r is None ==> first_frame(old(buffer)@) is None,
        final(buffer)@ == after_first_frame(old(buffer)@),
{
    match find_delimiter(buffer.as_slice()) {
        None => None,
        Some(at) => {
            let n = buffer.len();
            assert(at + 2 <= n);
            let mut rest = buffer.split_off(at + 2);
            buffer.truncate(at);
            core::mem::swap(buffer, &mut rest);
            assert(rest@ =~= old(buffer)@.subrange(0, at as int));
            assert(buffer@ =~= old(buffer)@.skip(at + 2));
            Some(rest)
        },
    }
}

/// What one look at the buffer of a connection found.
#[derive(Debug, PartialEq, Eq)]
pub enum Frame {
    /// No complete frame is buffered yet.
    Incomplete,
    /// A frame was taken out that holds no message. It is dropped.
    Malformed,
    /// A frame was taken out, and this is its message.
    Complete(Message),
}

/// Takes the first frame out of `buffer` and decodes it.
pub fn next_frame(buffer: &mut Vec<u8>) -> (r: Frame)
    ensures
        r is Incomplete <==> !has_delimiter(old(buffer)@),
        r is Incomplete <==> first_frame(old(buffer)@) is None,
        final(buffer)@ == after_first_frame(old(buffer)@),
        r matches Frame::Complete(m) ==> first_frame(old(buffer)@) is Some && parse(
            first_frame(old(buffer)@)->0,
        ) == Some(m@),
        r is Malformed ==> first_frame(old(buffer)@) is Some && parse(
            first_frame(old(buffer)@)->0,
        ) is None,
{
    match extract_frame(buffer) {
        None => Frame::Incomplete,
        Some(frame) => match Message::from_bytes(frame.as_slice()) {
            Some(m) => Frame::Complete(m),
            None => Frame::Malformed,
        },
    }
}

/// Takes every complete frame out of `buffer` and returns their messages in
/// order. Frames that hold no message are dropped; what follows the last
/// delimiter stays in `buffer`.
pub fn drain_messages(buffer: &mut Vec<u8>) -> (r: Vec<Message>)
    ensures
        views(r@) == messages_of(old(buffer)@),
        final(buffer)@ == unframed(old(buffer)@),
        !has_delimiter(final(buffer)@),
{
    let mut out: Vec<Message> = Vec::new();
    assert(views(out@) =~= Seq::empty());
    loop
        invariant
            messages_of(old(buffer)@) == views(out@) + messages_of(buffer@),
            unframed(old(buffer)@) == unframed(buffer@),
        ensures
            !has_delimiter(buffer@),
            messages_of(old(buffer)@) == views(out@),
            unframed(old(buffer)@) == buffer@,
        decreases buffer@.len(),
    {
        let ghost before = buffer@;
        let ghost done = views(out@);
        match next_frame(buffer) {
            Frame::Incomplete => {
                proof {
                    lemma_no_delimiter(before);
                    assert(done + Seq::<MessageView>::empty() =~= done);
                }
                break ;
            },
            Frame::Malformed => {
                proof {
                    let at = first_delimiter(before)->0;
                    lemma_first_delimiter_in_range(before);
                    assert(frame_messages(before.subrange(0, at)) =~= Seq::empty());
                    assert(messages_of(before) =~= messages_of(buffer@));
                }
            },
            Frame::Complete(m) => {
                proof {
                    let at = first_delimiter(before)->0;
                    lemma_first_delimiter_in_range(before);
                    assert(frame_messages(before.subrange(0, at)) =~= seq![m@]);
                }
                out.push(m);
                proof {
                    assert(views(out@) =~= done + seq![m@]);
                    assert(done + messages_of(before) =~= views(out@) + messages_of(buffer@));
                }
            },
        }
    }
    out
}

/// A first delimiter stands inside the data.
pub proof fn lemma_first_delimiter_in_range(data: Seq<u8>)
    requires
        first_delimiter(data) is Some,
    ensures
        is_first_delimiter(data, first_delimiter(data)->0),
        0 <= first_delimiter(data)->0,
        first_delimiter(data)->0 + 2 <= data.len(),
{
}

impl Message {
    /// The message as a frame: its bytes, then the delimiter.
    pub fn to_frame(&self) -> (r: Vec<u8>)
        ensures
            r@ == wire(self@) + delimiter(),
            sized(self@),
    {
        let mut out = self.to_bytes();
        out.push(CR);
        out.push(LF);
        assert(out@ =~= wire(self@) + delimiter());
        out
    }
}

/// Data that holds no delimiter, followed by one, is a first frame; what
/// comes after the delimiter is what is left.
pub proof fn lemma_framed(frame: Seq<u8>, rest: Seq<u8>)
    requires
        !has_delimiter(frame),
    ensures
        first_delimiter(frame + delimiter() + rest) == Some(frame.len() as int),
        first_frame(frame + delimiter() + rest) == Some(frame),
        after_first_frame(frame + delimiter() + rest) == rest,
        messages_of(frame + delimiter() + rest) == frame_messages(frame) + messages_of(rest),
        unframed(frame + delimiter() + rest) == unframed(rest),
{
    let data = frame + delimiter() + rest;
    let at = frame.len() as int;
    assert(data[at] == CR && data[at + 1] == LF);
    assert forall|j: int| 0 <= j < at implies !is_delimiter_at(data, j) by {
        if j + 1 < at {
            assert(data[j] == frame[j] && data[j + 1] == frame[j + 1]);
            assert(!is_delimiter_at(frame, j));
        } else {
            assert(data[j + 1] == CR);
        }
    }
    lemma_first_delimiter(data, at);
    assert(data.subrange(0, at) =~= frame);
    assert(data.skip(at + 2) =~= rest);
}

/// Framing then unframing and decoding gives the message back: the first frame
/// of a framed message is the message's bytes, and they decode to the message.
/// This holds of the messages whose bytes hold no delimiter; the others are cut
/// short at it.
pub proof fn lemma_frame_round_trip(m: MessageView)
    requires
        sized(m),
        !has_delimiter(wire(m)),
    ensures
        first_frame(wire(m) + delimiter()) == Some(wire(m)),
        parse(wire(m)) == Some(m),
        messages_of(wire(m) + delimiter()) == seq![m],
        unframed(wire(m) + delimiter()) == Seq::<u8>::empty(),
{
    let none = Seq::<u8>::empty();
    lemma_framed(wire(m), none);
    assert(wire(m) + delimiter() + none =~= wire(m) + delimiter());
    lemma_parse_wire(m, none);
    assert(wire(m) + none =~= wire(m));
    lemma_no_delimiter(none);
    assert(frame_messages(wire(m)) + messages_of(none) =~= seq![m]);
}

/// A frame that holds no message does not disturb the frame after it: of a
/// malformed frame followed by a well-formed one, exactly the message of the
/// second is decoded.
pub proof fn lemma_malformed_frame_is_skipped(bad: Seq<u8>, m: MessageView)
    requires
        !has_delimiter(bad),
        parse(bad) is None,
        sized(m),
        !has_delimiter(wire(m)),
    ensures
        messages_of(bad + delimiter() + (wire(m) + delimiter())) == seq![m],
        unframed(bad + delimiter() + (wire(m) + delimiter())) == Seq::<u8>::empty(),
{
    lemma_framed(bad, wire(m) + delimiter());
    lemma_frame_round_trip(m);
    assert(frame_messages(bad) + seq![m] =~= seq![m]);
}

/// A delimiter at `i` has a first delimiter at or before it.
proof fn lemma_first_delimiter_before(data: Seq<u8>, i: int)
    requires
        is_delimiter_at(data, i),
    ensures
        exists|k: int| 0 <= k <= i && is_first_delimiter(data, k),
    decreases i,
{
    if exists|j: int| 0 <= j < i && is_delimiter_at(data, j) {
        let j = choose|j: int| 0 <= j < i && is_delimiter_at(data, j);
        lemma_first_delimiter_before(data, j);
    } else {
        assert(is_first_delimiter(data, i));
    }
}

/// A message whose bytes hold a delimiter does not survive framing: its frame
/// ends at that delimiter, short of the message.
pub proof fn lemma_frame_cut_short(m: MessageView)
    requires
        has_delimiter(wire(m)),
    ensures
        first_frame(wire(m) + delimiter()) is Some,
        first_frame(wire(m) + delimiter())->0.len() < wire(m).len(),
        first_frame(wire(m) + delimiter()) != Some(wire(m)),
{
    let data = wire(m) + delimiter();
    let i = choose|i: int| is_delimiter_at(wire(m), i);
    assert(data[i] == wire(m)[i] && data[i + 1] == wire(m)[i + 1]);
    assert(is_delimiter_at(data, i));
    lemma_first_delimiter_before(data, i);
    let k = choose|k: int| 0 <= k <= i && is_first_delimiter(data, k);
    lemma_first_delimiter(data, k);
}

impl Message {
    /// Whether the bytes of the message hold the delimiter. Such a message
    /// cannot be sent whole: whoever reads it ends its frame too early.
    pub fn holds_delimiter(&self) -> (r: bool)
        ensures
            r == has_delimiter(wire(self@)),
            sized(self@),
    {
        let bytes = self.to_bytes();
        find_delimiter(bytes.as_slice()).is_some()
    }
}

/// Whether a message has no field: it is an index and nothing more.
pub open spec fn is_bare(m: MessageView) -> bool {
    match m {
        MessageView::User(u) => u is RequestUserList,
        MessageView::Server(s) => s is Auth,
        MessageView::Error(_) => true,
    }
}

/// A message without fields holds no delimiter: the challenge, the refusals
/// and the request for the roster always arrive whole.
pub proof fn lemma_bare_messages_frame_whole(m: MessageView)
    requires
        is_bare(m),
    ensures
        sized(m),
        !has_delimiter(wire(m)),
{
    reveal_with_fuel(crate::layout::le_bytes, 5);
    let bytes = wire(m);
    assert(bytes.len() == 8);
    assert forall|i: int| 0 <= i < bytes.len() implies bytes[i] != CR by {
        assert(bytes[i] < 5);
    }
    assert forall|i: int| !is_delimiter_at(bytes, i) by {
        if 0 <= i && i + 1 < bytes.len() {
            assert(bytes[i] != CR);
        }
    }
}

/// The frames of `messages`, one after the other.
pub open spec fn framed(messages: Seq<MessageView>) -> Seq<u8>
    decreases messages.len(),
{
    if messages.len() == 0 {
        Seq::empty()
    } else {
        wire(messages[0]) + delimiter() + framed(messages.drop_first())
    }
}

/// A stream of frames gives back its messages, all of them and in order, and
/// leaves what follows the last frame.
pub proof fn lemma_stream_of_frames(messages: Seq<MessageView>, tail: Seq<u8>)
    requires
        forall|i: int|
            0 <= i < messages.len() ==> sized(#[trigger] messages[i]) && !has_delimiter(
                wire(messages[i]),
            ),
        !has_delimiter(tail),
    ensures
        messages_of(framed(messages) + tail) == messages,
        unframed(framed(messages) + tail) == tail,
    decreases messages.len(),
{
    if messages.len() == 0 {
        assert(framed(messages) + tail =~= tail);
        lemma_no_delimiter(tail);
        assert(messages =~= Seq::<MessageView>::empty());
    } else {
        let first = messages[0];
        let rest = messages.drop_first();
        assert forall|i: int| 0 <= i < rest.len() implies sized(#[trigger] rest[i])
            && !has_delimiter(wire(rest[i])) by {
            assert(rest[i] == messages[i + 1]);
        }
        lemma_stream_of_frames(rest, tail);
        lemma_framed(wire(first), framed(rest) + tail);
        assert(framed(messages) + tail =~= wire(first) + delimiter() + (framed(rest) + tail));
        lemma_parse_wire(first, Seq::empty());
        assert(wire(first) + Seq::<u8>::empty() =~= wire(first));
        assert(seq![first] + rest =~= messages);
    }
}

/// It does not matter where the reads cut the stream: the messages of two
/// pieces, the second taken up where the first left off, are the messages of
/// the whole, and so is what is left.
pub proof fn lemma_cut_anywhere(a: Seq<u8>, b: Seq<u8>)
    ensures
        messages_of(a + b) == messages_of(a) + messages_of(unframed(a) + b),
        unframed(a + b) == unframed(unframed(a) + b),
    decreases a.len(),
{
    if has_delimiter(a) {
        let some = choose|i: int| is_delimiter_at(a, i);
        lemma_first_delimiter_before(a, some);
        let at = choose|k: int| 0 <= k <= some && is_first_delimiter(a, k);
        lemma_first_delimiter(a, at);
        let whole = a + b;
        assert(is_first_delimiter(whole, at)) by {
            assert(whole[at] == a[at] && whole[at + 1] == a[at + 1]);
            assert forall|j: int| 0 <= j < at implies !is_delimiter_at(whole, j) by {
                assert(whole[j] == a[j] && whole[j + 1] == a[j + 1]);
                assert(!is_delimiter_at(a, j));
            }
        }
        lemma_first_delimiter(whole, at);
        assert(whole.subrange(0, at) =~= a.subrange(0, at));
        assert(whole.skip(at + 2) =~= a.skip(at + 2) + b);
        lemma_cut_anywhere(a.skip(at + 2), b);
        let head = frame_messages(a.subrange(0, at));
        assert(head + (messages_of(a.skip(at + 2)) + messages_of(unframed(a.skip(at + 2)) + b))
            =~= (head + messages_of(a.skip(at + 2))) + messages_of(unframed(a.skip(at + 2)) + b));
    } else {
        lemma_no_delimiter(a);
        assert(Seq::<MessageView>::empty() + messages_of(a + b) =~= messages_of(a + b));
    }
}

} // verus!
