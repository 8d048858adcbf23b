//! What happens to a session in the course of its life.

use vstd::prelude::*;
use crate::server::client::Client;
use crate::user::Identity;

verus! {

/// A step in the life of a session. The coordinator takes the events in the
/// order in which they were emitted.
#[derive(Debug, PartialEq, Eq)]
pub enum Event {
    /// The connection was admitted.
    Accepted(Client),
    /// The session took a nickname for the first time.
    Authenticated(Client),
    /// The handler of the session has ended.
    Dropped(Client),
}

/// An [`Event`] as a mathematical value.
pub enum EventView {
    Accepted(Identity),
    Authenticated(Identity),
    Dropped(Identity),
}

impl View for Event {
    type V = EventView;

    open spec fn view(&self) -> EventView {
        match *self {
            Event::Accepted(c) => EventView::Accepted(c@),
            Event::Authenticated(c) => EventView::Authenticated(c@),
            Event::Dropped(c) => EventView::Dropped(c@),
        }
    }
}

impl Clone for Event {
    fn clone(&self) -> (r: Self)
        ensures
            r@ == self@,
    {
        match self {
            Event::Accepted(c) => Event::Accepted(c.clone()),
            Event::Authenticated(c) => Event::Authenticated(c.clone()),
            Event::Dropped(c) => Event::Dropped(c.clone()),
        }
    }
}

} // verus!
