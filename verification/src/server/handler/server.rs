//! The dispatcher and the coordinator: who is let in, and what follows from
//! the events in the life of a session.

use vstd::prelude::*;
use crate::framing::views;
use crate::message::{Error, Message, MessageView, Server, ServerView};
use crate::server::client::Client;
use crate::server::event::{Event, EventView};
use crate::server::handler::client::{
    borrowed_identities, get_all_clients_with_exception, nicks_of, roster,
};
use crate::server::history::{after, Operation};
use crate::server::state::{has_ip, is_first_at, is_first_from, State};
use crate::transport::Probe;
use crate::user::{Addr, Identity};

verus! {

/// How a connection that came in was dealt with.
#[derive(Debug, PartialEq, Eq)]
pub enum Admission {
    /// No session came from this host: a new one was registered.
    NewSession(Client),
    /// The session from this host had lost its connection: it goes on with
    /// the new socket, under the identity it had.
    MigratedSession(Client),
    /// The session from this host is connected: the newcomer is turned away.
    Rejected,
}

/// An [`Admission`] as a mathematical value.
pub enum AdmissionView {
    NewSession(Identity),
    MigratedSession(Identity),
    Rejected,
}

impl View for Admission {
    type V = AdmissionView;

    open spec fn view(&self) -> AdmissionView {
        match *self {
            Admission::NewSession(c) => AdmissionView::NewSession(c@),
            Admission::MigratedSession(c) => AdmissionView::MigratedSession(c@),
            Admission::Rejected => AdmissionView::Rejected,
        }
    }
}

impl Admission {
    /// What is written to the new socket before it is closed: a word to the
    /// newcomer that was turned away, nothing to one that was let in.
    pub fn notice(&self) -> (r: Option<Message>)
        ensures
            self@ is Rejected ==> r is Some && r->0@ == MessageView::Error(Error::AlreadyConnected),
            !(self@ is Rejected) ==> r is None,
    {
        match self {
            Admission::Rejected => Some(Message::Error(Error::AlreadyConnected)),
            _ => None,
        }
    }
}

/// Admits a connection from `addr`, or turns it away. `probe` is what probing
/// the socket of the session from the same host found; it is not looked at when
/// there is no such session.
pub fn handle_incoming_client(state: &mut State, addr: Addr, probe: Probe) -> (r: Admission)
    requires
        old(state).wf(),
    ensures
        final(state).wf(),
        final(state).config() == old(state).config(),
        final(state)@ == after(old(state)@, Operation::Admit(addr)),
        !has_ip(old(state)@, addr.ip) ==> r@ == AdmissionView::NewSession(Identity::Guest { addr })
            && final(state)@ == old(state)@.push(Identity::Guest { addr }),
        has_ip(old(state)@, addr.ip) ==> final(state)@ == old(state)@,
        has_ip(old(state)@, addr.ip) && probe is Live ==> r@ is Rejected,
        has_ip(old(state)@, addr.ip) && probe is TimedOut ==> r@ is MigratedSession && exists|
            i: int,
        | is_first_from(old(state)@, addr.ip, i) && r@->MigratedSession_0 == old(state)@[i],
{
    match state.index_of_ip(addr.ip) {
        None => Admission::NewSession(state.push_guest(addr)),
        Some(at) => {
            assert(is_first_from(state@, addr.ip, at as int));
            match probe {
                Probe::TimedOut => Admission::MigratedSession(state.client(at).clone()),
                Probe::Live => Admission::Rejected,
            }
        },
    }
}

/// The greeting of a session that has just authenticated.
pub open spec fn welcome() -> Seq<char> {
    "Welcome!"@
}

/// What the coordinator sends to the session of an event, in order: the
/// challenge to a session that was accepted; a greeting and the roster to one
/// that has authenticated; nothing to one that is gone.
pub open spec fn event_messages(s: Seq<Identity>, event: EventView) -> Seq<MessageView> {
    match event {
        EventView::Accepted(_) => seq![MessageView::Server(ServerView::Auth)],
        EventView::Authenticated(c) => seq![
            MessageView::Server(ServerView::Notice { message: welcome() }),
            MessageView::Server(ServerView::UserList { users: roster(s, c) }),
        ],
        EventView::Dropped(_) => Seq::empty(),
    }
}

/// Acts on one lifecycle event. Returns what is to be sent to the session of
/// the event, in order. A session that is gone leaves the registry; that it was
/// not there any more is no error.
pub fn handle_event(state: &mut State, event: Event) -> (r: Vec<Message>)
    requires
        old(state).wf(),
    ensures
        final(state).wf(),
        final(state).config() == old(state).config(),
        views(r@) == event_messages(old(state)@, event@),
        !(event@ is Dropped) ==> final(state)@ == old(state)@,
        event@ matches EventView::Dropped(c) ==> {
            &&& final(state)@ == after(old(state)@, Operation::Drop(c))
            &&& !final(state)@.contains(c)
            &&& !old(state)@.contains(c) ==> final(state)@ == old(state)@
            &&& forall|i: int| is_first_at(old(state)@, c, i) ==> final(state)@ == old(state)@.remove(i)
        },
{
    let mut out: Vec<Message> = Vec::new();
    match event {
        Event::Accepted(_) => {
            out.push(Message::Server(Server::Auth));
            assert(views(out@) =~= event_messages(state@, event@));
        },
        Event::Authenticated(client) => {
            out.push(Message::Server(Server::Notice { message: "Welcome!".to_owned() }));
            let mut except: Vec<&Client> = Vec::new();
            except.push(&client);
            assert(borrowed_identities(except@) =~= seq![client@]);
            let rest = get_all_clients_with_exception(state, except.as_slice());
            out.push(Message::Server(Server::UserList { users: nicks_of(&rest) }));
            assert(views(out@) =~= event_messages(state@, event@));
        },
        Event::Dropped(client) => {
            state.remove(&client);
            assert(views(out@) =~= Seq::<MessageView>::empty());
        },
    }
    out
}

} // verus!
