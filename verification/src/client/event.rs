//! What the client's main loop is woken by.

use vstd::prelude::*;
use vstd::std_specs::convert::FromSpecImpl;
use crate::client::io::user::{State, StateView};
use crate::message::{Message, MessageView};

verus! {

/// Something for the client's main loop to act on.
#[derive(Debug, PartialEq, Eq)]
pub enum Event {
    /// The user pressed a key.
    UserInput(State),
    /// The server sent a message.
    Message(Message),
    /// The connection to the server is gone.
    Disconnected,
}

/// An [`Event`] as a mathematical value.
pub enum EventView {
    UserInput(StateView),
    Message(MessageView),
    Disconnected,
}

impl View for Event {
    type V = EventView;

    open spec fn view(&self) -> EventView {
        match *self {
            Event::UserInput(input) => EventView::UserInput(input@),
            Event::Message(message) => EventView::Message(message@),
            Event::Disconnected => EventView::Disconnected,
        }
    }
}

impl From<Message> for Event {
    fn from(message: Message) -> (r: Self) {
        Event::Message(message)
    }
}

impl FromSpecImpl<Message> for Event {
    open spec fn obeys_from_spec() -> bool {
        true
    }

    open spec fn from_spec(message: Message) -> Self {
        Event::Message(message)
    }
}

impl From<State> for Event {
    fn from(input: State) -> (r: Self) {
        Event::UserInput(input)
    }
}

impl FromSpecImpl<State> for Event {
    open spec fn obeys_from_spec() -> bool {
        true
    }

    open spec fn from_spec(input: State) -> Self {
        Event::UserInput(input)
    }
}

} // verus!
