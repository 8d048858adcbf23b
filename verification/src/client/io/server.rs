//! The bytes that the server sends, turned into events.

use vstd::prelude::*;
use crate::client::event::{Event, EventView};
use crate::framing::{drain_messages, messages_of, unframed, views};
use crate::message::MessageView;
use crate::transport::{incoming, IoFailure, Read};

verus! {

/// Whether a read shows that the server is gone: the connection was given
/// up, was reset, or timed out.
pub open spec fn is_lost(read: Read) -> bool {
    read matches Read::Failed(failure) && (failure == IoFailure::ConnectionAborted || failure
        == IoFailure::ConnectionReset || failure == IoFailure::TimedOut)
}

/// The events of a list, as mathematical values.
pub open spec fn event_views(v: Seq<Event>) -> Seq<EventView> {
    Seq::new(v.len(), |i: int| v[i]@)
}

/// Each message as the event of its arrival.
pub open spec fn arrivals(messages: Seq<MessageView>) -> Seq<EventView> {
    Seq::new(messages.len(), |i: int| EventView::Message(messages[i]))
}

/// One turn of the reader of the server's socket. When the server is gone,
/// that is the one event and the buffer is left alone. Otherwise the bytes that
/// were read join the buffer, and every complete frame leaves it: the messages
/// of the frames are the events, in order, and a frame that holds no message is
/// passed over.
pub fn capture(buffer: &mut Vec<u8>, read: Read) -> (r: Vec<Event>)
    ensures
        is_lost(read) ==> event_views(r@) == seq![EventView::Disconnected] && final(buffer)@
            == old(buffer)@,
        !is_lost(read) ==> event_views(r@) == arrivals(
            messages_of(old(buffer)@ + incoming(read)),
        ) && final(buffer)@ == unframed(old(buffer)@ + incoming(read)),
{
    let mut events: Vec<Event> = Vec::new();
    match read {
        Read::Failed(failure) => {
            match failure {
                IoFailure::ConnectionAborted | IoFailure::ConnectionReset | IoFailure::TimedOut => {
                    events.push(Event::Disconnected);
                    assert(event_views(events@) =~= seq![EventView::Disconnected]);
                    return events;
                },
                _ => {},
            }
            assert(buffer@ + Seq::<u8>::empty() =~= buffer@);
        },
        Read::Data(bytes) => {
            let mut bytes = bytes;
            buffer.append(&mut bytes);
        },
        Read::Nothing => {
            assert(buffer@ + Seq::<u8>::empty() =~= buffer@);
        },
    }
    let messages = drain_messages(buffer);
    let ghost all = messages@;
    assert(event_views(events@) =~= arrivals(views(all).take(0)));
    for message in it: messages
        invariant
            it.seq() == all,
            event_views(events@) == arrivals(views(all).take(it.index())),
    {
        let ghost before = event_views(events@);
        events.push(Event::Message(message));
        assert(event_views(events@) =~= before.push(EventView::Message(message@)));
        assert(before.push(EventView::Message(message@)) =~= arrivals(
            views(all).take(it.index() + 1),
        ));
    }
    assert(views(all).take(all.len() as int) =~= views(all));
    events
}

} // verus!
