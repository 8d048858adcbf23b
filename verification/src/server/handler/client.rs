//! The handler of one connection: what a message from it changes, and who
//! hears of it.

use vstd::prelude::*;
use crate::message::{
    texts, Error, Message, MessageView, Server, ServerView, User, UserView,
};
use crate::framing::{after_first_frame, first_frame, next_frame, Frame};
use crate::layout::parse;
use crate::server::client::Client;
use crate::server::event::{Event, EventView};
use crate::server::state::{
    distinct_ips, is_first_at, lemma_rename_keeps_well_formed, taken_by_other, well_formed, State,
};
use crate::transport::{classify, disposition, incoming, Disposition, Read};
use crate::user::Identity;

verus! {

/// The identities of a list of sessions.
pub open spec fn identities(v: Seq<Client>) -> Seq<Identity> {
    Seq::new(v.len(), |i: int| v[i]@)
}

/// The identities of a list of borrowed sessions.
pub open spec fn borrowed_identities(v: Seq<&Client>) -> Seq<Identity> {
    Seq::new(v.len(), |i: int| v[i]@)
}

/// The sessions of `s` that equal none of `except`, in order.
pub open spec fn others(s: Seq<Identity>, except: Seq<Identity>) -> Seq<Identity> {
    s.filter(|u: Identity| !except.contains(u))
}

/// The nicknames of the authenticated sessions of `s`, in order.
pub open spec fn nicks(s: Seq<Identity>) -> Seq<Seq<char>>
    decreases s.len(),
{
    if s.len() == 0 {
        Seq::empty()
    } else {
        match s.last().nick() {
            Some(nick) => nicks(s.drop_last()).push(nick),
            None => nicks(s.drop_last()),
        }
    }
}

/// The roster as the session `me` sees it: the nicknames of the authenticated
/// sessions other than `me`, in the order of the registry.
pub open spec fn roster(s: Seq<Identity>, me: Identity) -> Seq<Seq<char>> {
    nicks(others(s, seq![me]))
}

/// Every session but those that equal one of `exceptions`, in the order of the
/// registry.
pub fn get_all_clients_with_exception(state: &State, exceptions: &[&Client]) -> (r: Vec<Client>)
    ensures
        identities(r@) == others(state@, borrowed_identities(exceptions@)),
{
    let ghost except = borrowed_identities(exceptions@);
    let ghost keep = |u: Identity| !except.contains(u);
    let mut clients: Vec<Client> = Vec::new();
    let mut i: usize = 0;
    proof {
        reveal(Seq::filter);
    }
    assert(state@.take(0).filter(keep) =~= Seq::<Identity>::empty());
    assert(identities(clients@) =~= Seq::<Identity>::empty());
    while i < state.len()
        invariant
            i <= state@.len(),
            except == borrowed_identities(exceptions@),
            keep == (|u: Identity| !except.contains(u)),
            identities(clients@) == state@.take(i as int).filter(keep),
        decreases state@.len() - i,
    {
        let client = state.client(i);
        let ghost done = state@.take(i as int);
        let ghost next = state@.take(i + 1);
        proof {
            reveal(Seq::filter);
            assert(next.drop_last() =~= done);
            assert(next.last() == client@);
        }
        if !is_among(client, exceptions) {
            let ghost before = identities(clients@);
            clients.push(client.clone());
            assert(identities(clients@) =~= before.push(client@));
        }
        i += 1;
    }
    assert(state@.take(state@.len() as int) =~= state@);
    clients
}

/// Every session but those that equal `client`.
fn get_all_clients_with_exception_of(state: &State, client: &Client) -> (r: Vec<Client>)
    ensures
        identities(r@) == others(state@, seq![client@]),
{
    let mut except: Vec<&Client> = Vec::new();
    except.push(client);
    assert(borrowed_identities(except@) =~= seq![client@]);
    get_all_clients_with_exception(state, except.as_slice())
}

/// Whether `client` equals one of `list`.
pub fn is_among(client: &Client, list: &[&Client]) -> (r: bool)
    ensures
        r == borrowed_identities(list@).contains(client@),
{
    let ghost ids = borrowed_identities(list@);
    let mut i: usize = 0;
    while i < list.len()
        invariant
            i <= list@.len(),
            ids == borrowed_identities(list@),
            forall|j: int| 0 <= j < i ==> ids[j] != client@,
        decreases list@.len() - i,
    {
        if *list[i] == *client {
            assert(ids[i as int] == client@);
            return true;
        }
        i += 1;
    }
    false
}

/// The nicknames of the authenticated sessions of `clients`, in order.
pub fn nicks_of(clients: &Vec<Client>) -> (r: Vec<String>)
    ensures
        texts(r@) == nicks(identities(clients@)),
{
    let ghost s = identities(clients@);
    let mut users: Vec<String> = Vec::new();
    let mut i: usize = 0;
    assert(texts(users@) =~= nicks(s.take(0)));
    while i < clients.len()
        invariant
            i <= clients@.len(),
            s == identities(clients@),
            texts(users@) == nicks(s.take(i as int)),
        decreases clients@.len() - i,
    {
        let ghost next = s.take(i + 1);
        proof {
            assert(next.drop_last() =~= s.take(i as int));
            assert(next.last() == clients@[i as int]@);
        }
        match clients[i].user.nick() {
            Some(nick) => {
                let ghost before = texts(users@);
                users.push(nick.to_owned());
                assert(texts(users@) =~= before.push(nick@));
            },
            None => {},
        }
        i += 1;
    }
    assert(s.take(s.len() as int) =~= s);
    users
}

/// The messages of an optional message, as a mathematical value.
pub open spec fn optional_message(o: Option<Message>) -> Option<MessageView> {
    match o {
        Some(m) => Some(m@),
        None => None,
    }
}

/// The event of an optional event, as a mathematical value.
pub open spec fn optional_event(o: Option<Event>) -> Option<EventView> {
    match o {
        Some(e) => Some(e@),
        None => None,
    }
}

/// What the server does about one message of a session.
#[derive(Debug, PartialEq, Eq)]
pub struct Reaction {
    /// The session of the sender after the message.
    pub client: Client,
    /// What is sent back to the sender alone.
    pub reply: Option<Message>,
    /// What is put on the queue of lifecycle events.
    pub event: Option<Event>,
    /// What is sent to each of `recipients`.
    pub relay: Option<Message>,
    /// The sessions that `relay` goes to, in the order of the registry.
    pub recipients: Vec<Client>,
    /// Whether the handler of the sender ends after this message.
    pub leaving: bool,
}

/// A [`Reaction`] as a mathematical value.
pub struct ReactionView {
    pub client: Identity,
    pub reply: Option<MessageView>,
    pub event: Option<EventView>,
    pub relay: Option<MessageView>,
    pub recipients: Seq<Identity>,
    pub leaving: bool,
}

impl View for Reaction {
    type V = ReactionView;

    open spec fn view(&self) -> ReactionView {
        ReactionView {
            client: self.client@,
            reply: optional_message(self.reply),
            event: optional_event(self.event),
            relay: optional_message(self.relay),
            recipients: identities(self.recipients@),
            leaving: self.leaving,
        }
    }
}

/// Nothing is done, and the sender stays who it is.
pub open spec fn no_reaction(sender: Identity) -> ReactionView {
    ReactionView {
        client: sender,
        reply: None,
        event: None,
        relay: None,
        recipients: Seq::empty(),
        leaving: false,
    }
}

/// The name under which a message of `sender` is relayed: its nickname; for a
/// ghost that asks for a nickname, the nickname it asks for; for any other
/// message of a ghost, the empty name.
pub open spec fn speaker(sender: Identity, payload: UserView) -> Seq<char> {
    match sender.nick() {
        Some(nick) => nick,
        None => match payload {
            UserView::Auth { nick } => nick,
            _ => Seq::empty(),
        },
    }
}

/// Who the sender at place `at` is after `payload`: it takes the nickname that
/// it asks for unless another session holds it, and is unchanged otherwise.
pub open spec fn sender_after(s: Seq<Identity>, at: int, payload: UserView) -> Identity {
    match payload {
        UserView::Auth { nick } => if taken_by_other(s, at, nick) {
            s[at]
        } else {
            Identity::Authenticated { nick, addr: s[at].addr() }
        },
        _ => s[at],
    }
}

/// What is sent back to the sender at place `at` on `payload`: the refusal of
/// a nickname that another session holds, or the roster that an authenticated
/// sender asked for.
pub open spec fn reply_for(s: Seq<Identity>, at: int, payload: UserView) -> Option<MessageView> {
    match payload {
        UserView::Auth { nick } => if taken_by_other(s, at, nick) {
            Some(MessageView::Error(Error::NickNameInUse))
        } else {
            None
        },
        UserView::RequestUserList => if s[at] is Authenticated {
            Some(MessageView::Server(ServerView::UserList { users: roster(s, s[at]) }))
        } else {
            None
        },
        _ => None,
    }
}

/// Whether `payload` of `sender` is answered to the sender alone and relayed
/// to nobody.
pub open spec fn is_private(sender: Identity, payload: UserView) -> bool {
    payload is RequestUserList && sender is Authenticated
}

/// What the server does about `m` from the session at place `at` of `s`.
pub open spec fn reaction(s: Seq<Identity>, at: int, m: MessageView) -> ReactionView {
    match m {
        MessageView::User(payload) => {
            let after = sender_after(s, at, payload);
            ReactionView {
                client: after,
                reply: reply_for(s, at, payload),
                event: if s[at] is Guest && after is Authenticated {
                    Some(EventView::Authenticated(after))
                } else {
                    None
                },
                relay: if is_private(s[at], payload) {
                    None
                } else {
                    Some(
                        MessageView::Server(
                            ServerView::Refer { user: speaker(s[at], payload), message: payload },
                        ),
                    )
                },
                recipients: if is_private(s[at], payload) {
                    Seq::empty()
                } else {
                    s.remove(at)
                },
                leaving: payload is Leave,
            }
        },
        _ => no_reaction(s[at]),
    }
}

/// The registry after `m` from the session at place `at`.
pub open spec fn registry_after(s: Seq<Identity>, at: int, m: MessageView) -> Seq<Identity> {
    match m {
        MessageView::User(payload) => s.update(at, sender_after(s, at, payload)),
        _ => s,
    }
}

/// Keeping what satisfies a predicate that everything satisfies keeps
/// everything.
pub proof fn lemma_filter_all(s: Seq<Identity>, keep: spec_fn(Identity) -> bool)
    requires
        forall|i: int| 0 <= i < s.len() ==> keep(#[trigger] s[i]),
    ensures
        s.filter(keep) == s,
    decreases s.len(),
{
    reveal(Seq::filter);
    if s.len() > 0 {
        lemma_filter_all(s.drop_last(), keep);
        assert(s.drop_last().push(s.last()) =~= s);
    }
}

/// In a registry, the sessions other than the one at place `at` are all the
/// sessions but that one: no other session equals it.
pub proof fn lemma_others_is_remove(s: Seq<Identity>, at: int)
    requires
        distinct_ips(s),
        0 <= at < s.len(),
    ensures
        others(s, seq![s[at]]) == s.remove(at),
    decreases s.len(),
{
    reveal(Seq::filter);
    let me = s[at];
    let except = seq![me];
    let keep = |u: Identity| !except.contains(u);
    assert(except[0] == me);
    let front = s.drop_last();
    if at == s.len() - 1 {
        assert forall|i: int| 0 <= i < front.len() implies keep(#[trigger] front[i]) by {
            assert(front[i] == s[i]);
            assert(s[i].addr().ip != s[at].addr().ip);
        }
        lemma_filter_all(front, keep);
        assert(s.remove(at) =~= front);
    } else {
        assert(s[at].addr().ip != s[s.len() - 1].addr().ip);
        assert(keep(s.last()));
        assert(front[at] == me);
        lemma_others_is_remove(front, at);
        assert(s.remove(at) =~= front.remove(at).push(s.last()));
    }
}

/// A message on its way to other sessions.
#[derive(Debug, PartialEq, Eq)]
pub struct Broadcast {
    /// What is sent.
    pub message: Message,
    /// The sessions that it is sent to, in the order of the registry.
    pub recipients: Vec<Client>,
}

/// Relays `message` of the session `client`: wrapped with the name of its
/// sender, it goes to every session of the registry but those that equal
/// `client`. That a write to one of them fails is no concern of the others.
pub fn broadcast_user_message(state: &State, client: &Client, message: &User) -> (r: Broadcast)
    ensures
        r.message@ == MessageView::Server(
            ServerView::Refer { user: speaker(client@, message@), message: message@ },
        ),
        identities(r.recipients@) == others(state@, seq![client@]),
{
    let user: String = match client.user.nick() {
        Some(nick) => nick.to_owned(),
        None => match message {
            User::Auth { nick } => nick.clone(),
            _ => String::new(),
        },
    };
    let refer = Message::Server(Server::Refer { user, message: message.clone() });
    let recipients = get_all_clients_with_exception_of(state, client);
    Broadcast { message: refer, recipients }
}

impl Reaction {
    /// The reaction that does nothing.
    pub fn none(client: Client) -> (r: Self)
        ensures
            r@ == no_reaction(client@),
    {
        let r = Reaction {
            client,
            reply: None,
            event: None,
            relay: None,
            recipients: Vec::new(),
            leaving: false,
        };
        assert(identities(r.recipients@) =~= Seq::<Identity>::empty());
        r
    }
}

/// Handles one message of the session `client`.
///
/// A message of a session that is not registered, and a message that only a
/// server may send, changes nothing and is answered by nothing. A request for a
/// nickname is granted unless another session holds the nickname; the refusal
/// goes to the sender alone. The roster goes to an authenticated sender alone.
/// Every other message of a user, and every request for a nickname, granted or
/// not, is relayed to all other sessions.
pub fn handle_message(state: &mut State, client: &Client, message: Message) -> (r: Reaction)
    requires
        old(state).wf(),
    ensures
        final(state).wf(),
        final(state).config() == old(state).config(),
        !old(state)@.contains(client@) ==> final(state)@ == old(state)@ && r@ == no_reaction(
            client@,
        ),
        forall|at: int|
            is_first_at(old(state)@, client@, at) ==> final(state)@ == registry_after(
                old(state)@,
                at,
                message@,
            ) && r@ == reaction(old(state)@, at, message@),
        final(state)@ == handled(old(state)@, client@, message@).0,
        r@ == handled(old(state)@, client@, message@).1,
{
    let ghost s = state@;
    proof {
        if s.contains(client@) {
            lemma_first_exists(s, client@);
        }
    }
    let at = match state.index_of(client) {
        Some(at) => at,
        None => {
            return Reaction::none(client.clone());
        },
    };
    assert forall|i: int| is_first_at(s, client@, i) implies i == at by {
        if i < at {
            assert(s[i] != client@);
        }
    }
    let payload = match message {
        Message::User(payload) => payload,
        Message::Server(_) => {
            return Reaction::none(client.clone());
        },
        Message::Error(_) => {
            return Reaction::none(client.clone());
        },
    };
    let private = match &payload {
        User::RequestUserList => client.user.is_authenticated(),
        _ => false,
    };
    let leaving = match &payload {
        User::Leave { .. } => true,
        _ => false,
    };
    let mut relay: Option<Message> = None;
    let mut recipients: Vec<Client> = Vec::new();
    assert(identities(recipients@) =~= Seq::<Identity>::empty());
    if !private {
        let broadcast = broadcast_user_message(state, client, &payload);
        relay = Some(broadcast.message);
        recipients = broadcast.recipients;
        proof {
            lemma_others_is_remove(s, at as int);
        }
    }
    let mut reply: Option<Message> = None;
    let mut event: Option<Event> = None;
    match &payload {
        User::Auth { nick } => {
            if state.is_taken_by_other(at, nick.as_str()) {
                reply = Some(Message::Error(Error::NickNameInUse));
            } else {
                state.set_nick(at, nick.clone());
                if client.user.is_ghost() {
                    event = Some(Event::Authenticated(state.client(at).clone()));
                }
            }
        },
        User::RequestUserList => {
            if private {
                let rest = get_all_clients_with_exception_of(state, client);
                reply = Some(Message::Server(Server::UserList { users: nicks_of(&rest) }));
            }
        },
        _ => {},
    }
    let current = state.client(at).clone();
    assert(state@ =~= registry_after(s, at as int, MessageView::User(payload@)));
    Reaction { client: current, reply, event, relay, recipients, leaving }
}

/// What the handler of a session did in one turn.
#[derive(Debug, PartialEq, Eq)]
pub enum Step {
    /// The connection is gone: the handler ends, and the session is dropped.
    Disconnected,
    /// No complete frame is buffered: the handler waits for more bytes.
    Idle,
    /// A frame that holds no message was dropped. The connection stays.
    Skipped,
    /// A message was handled, with this reaction.
    Handled(Reaction),
}

/// A [`Step`] as a mathematical value.
pub enum StepView {
    Disconnected,
    Idle,
    Skipped,
    Handled(ReactionView),
}

impl View for Step {
    type V = StepView;

    open spec fn view(&self) -> StepView {
        match *self {
            Step::Disconnected => StepView::Disconnected,
            Step::Idle => StepView::Idle,
            Step::Skipped => StepView::Skipped,
            Step::Handled(reaction) => StepView::Handled(reaction@),
        }
    }
}

/// Whether a read shows that the connection is gone.
pub open spec fn ends_session(read: Read) -> bool {
    read matches Read::Failed(failure) && disposition(failure) is Terminal
}

/// What handling `m` of the session `client` makes of the registry `s`, and
/// the reaction to it.
pub open spec fn handled(s: Seq<Identity>, client: Identity, m: MessageView) -> (
    Seq<Identity>,
    ReactionView,
) {
    if s.contains(client) {
        let at = choose|at: int| is_first_at(s, client, at);
        (registry_after(s, at, m), reaction(s, at, m))
    } else {
        (s, no_reaction(client))
    }
}

/// What one turn of a handler leaves behind: the registry, the session, the
/// buffer, and what was done.
pub struct Outcome {
    pub registry: Seq<Identity>,
    pub client: Identity,
    pub buffer: Seq<u8>,
    pub step: StepView,
}

/// One turn of the handler of the session `client`, after a read on its
/// socket. A reset or a timeout ends the handler at once and touches nothing.
/// Otherwise the bytes that were read join the buffer. Without a complete frame
/// the handler waits. The first complete frame leaves the buffer, with its
/// delimiter: a frame that holds no message is dropped without harm to the
/// connection, and the message of any other frame is handled.
pub open spec fn turn_of(s: Seq<Identity>, client: Identity, buffer: Seq<u8>, read: Read) -> Outcome {
    if ends_session(read) {
        Outcome { registry: s, client, buffer, step: StepView::Disconnected }
    } else {
        let data = buffer + incoming(read);
        match first_frame(data) {
            None => Outcome { registry: s, client, buffer: data, step: StepView::Idle },
            Some(frame) => match parse(frame) {
                None => Outcome {
                    registry: s,
                    client,
                    buffer: after_first_frame(data),
                    step: StepView::Skipped,
                },
                Some(m) => Outcome {
                    registry: handled(s, client, m).0,
                    client: handled(s, client, m).1.client,
                    buffer: after_first_frame(data),
                    step: StepView::Handled(handled(s, client, m).1),
                },
            },
        }
    }
}

/// One turn of the handler of the session `client`, after a read on its
/// socket: see [`turn_of`].
pub fn handle(state: &mut State, client: &mut Client, buffer: &mut Vec<u8>, read: Read) -> (r:
    Step)
    requires
        old(state).wf(),
    ensures
        final(state).wf(),
        final(state).config() == old(state).config(),
        (Outcome {
            registry: final(state)@,
            client: final(client)@,
            buffer: final(buffer)@,
            step: r@,
        }) == turn_of(old(state)@, old(client)@, old(buffer)@, read),
{
    match read {
        Read::Failed(failure) => {
            match classify(failure) {
                Disposition::Terminal => {
                    return Step::Disconnected;
                },
                _ => {},
            }
            assert(buffer@ + Seq::<u8>::empty() =~= buffer@);
        },
        Read::Data(bytes) => {
            let mut bytes = bytes;
            buffer.append(&mut bytes);
        },
        Read::Nothing => {
            assert(buffer@ + Seq::<u8>::empty() =~= buffer@);
        },
    }
    match next_frame(buffer) {
        Frame::Incomplete => Step::Idle,
        Frame::Malformed => Step::Skipped,
        Frame::Complete(m) => {
            let reaction = handle_message(state, &*client, m);
            *client = reaction.client.clone();
            Step::Handled(reaction)
        },
    }
}

/// Whether a handler ends with this step: the connection is gone, or the user
/// took leave.
pub open spec fn is_last(step: StepView) -> bool {
    match step {
        StepView::Disconnected => true,
        StepView::Handled(reaction) => reaction.leaving,
        _ => false,
    }
}

/// The handler of one session, from the admission of its connection to its
/// end. Its life opens with the event `Accepted` and closes with the event
/// `Dropped`; in between it gives the event `Authenticated` when the session
/// takes its first nickname. Each event carries the session.
#[derive(Debug)]
pub struct Handler {
    client: Client,
    buffer: Vec<u8>,
    over: bool,
}

/// What one turn of a [`Handler`] gave.
#[derive(Debug, PartialEq, Eq)]
pub struct Turn {
    /// What was done.
    pub step: Step,
    /// The event that closes the life of the session, when this turn was the
    /// last. It is emitted after the event of the step, if the step has one.
    pub dropped: Option<Event>,
}

impl Handler {
    /// The session as the handler knows it.
    pub closed spec fn session(&self) -> Identity {
        self.client@
    }

    /// The bytes that were read and belong to no complete frame yet.
    pub closed spec fn buffered(&self) -> Seq<u8> {
        self.buffer@
    }

    /// Whether the handler has ended.
    pub closed spec fn is_over(&self) -> bool {
        self.over
    }

    /// Starts the handler of the session `client`. The event is the first that
    /// the handler emits: the session was accepted.
    pub fn start(client: Client) -> (r: (Handler, Event))
        ensures
            r.0.session() == client@,
            r.0.buffered() == Seq::<u8>::empty(),
            !r.0.is_over(),
            r.1@ == EventView::Accepted(client@),
    {
        let event = Event::Accepted(client.clone());
        (Handler { client, buffer: Vec::new(), over: false }, event)
    }

    /// The session as the handler knows it.
    pub fn client(&self) -> (r: &Client)
        ensures
            r@ == self.session(),
    {
        &self.client
    }

    /// Whether the handler has ended.
    pub fn over(&self) -> (r: bool)
        ensures
            r == self.is_over(),
    {
        self.over
    }

    /// One turn of the handler, after a read on the socket of its session: see
    /// [`turn_of`]. With the turn that is its last the handler gives the event
    /// `Dropped`, once; a handler that has ended does nothing and emits nothing.
    pub fn turn(&mut self, state: &mut State, read: Read) -> (r: Turn)
        requires
            old(state).wf(),
        ensures
            final(state).wf(),
            final(state).config() == old(state).config(),
            old(self).is_over() ==> {
                &&& final(state)@ == old(state)@
                &&& final(self).session() == old(self).session()
                &&& final(self).buffered() == old(self).buffered()
                &&& final(self).is_over()
                &&& r.step@ is Disconnected
                &&& r.dropped is None
            },
            !old(self).is_over() ==> {
                &&& (Outcome {
                    registry: final(state)@,
                    client: final(self).session(),
                    buffer: final(self).buffered(),
                    step: r.step@,
                }) == turn_of(old(state)@, old(self).session(), old(self).buffered(), read)
                &&& final(self).is_over() == is_last(r.step@)
                &&& optional_event(r.dropped) == if is_last(r.step@) {
                    Some(EventView::Dropped(final(self).session()))
                } else {
                    None
                }
            },
    {
        if self.over {
            return Turn { step: Step::Disconnected, dropped: None };
        }
        let step = handle(state, &mut self.client, &mut self.buffer, read);
        let last = match &step {
            Step::Disconnected => true,
            Step::Handled(reaction) => reaction.leaving,
            _ => false,
        };
        self.over = last;
        let dropped = if last {
            Some(Event::Dropped(self.client.clone()))
        } else {
            None
        };
        Turn { step, dropped }
    }
}

/// The events of a step, in the order in which they are emitted.
pub open spec fn step_events(step: StepView) -> Seq<EventView> {
    match step {
        StepView::Handled(reaction) => match reaction.event {
            Some(event) => seq![event],
            None => Seq::empty(),
        },
        _ => Seq::empty(),
    }
}

/// Every event of a turn carries the session of the handler, as the turn
/// leaves it.
pub proof fn lemma_events_carry_the_session(
    s: Seq<Identity>,
    client: Identity,
    buffer: Seq<u8>,
    read: Read,
)
    ensures
        ({
            let outcome = turn_of(s, client, buffer, read);
            forall|i: int|
                0 <= i < step_events(outcome.step).len() ==> #[trigger] step_events(
                    outcome.step,
                )[i] == EventView::Authenticated(outcome.client)
        }),
{
}

/// What stands in a sequence stands somewhere first.
pub proof fn lemma_first_exists(s: Seq<Identity>, u: Identity)
    requires
        s.contains(u),
    ensures
        exists|at: int| is_first_at(s, u, at),
    decreases s.len(),
{
    let i = choose|i: int| 0 <= i < s.len() && s[i] == u;
    if exists|j: int| 0 <= j < i && s[j] == u {
        let j = choose|j: int| 0 <= j < i && s[j] == u;
        let front = s.take(i);
        assert(front[j] == u);
        lemma_first_exists(front, u);
        let at = choose|at: int| is_first_at(front, u, at);
        assert(is_first_at(s, u, at)) by {
            assert(s[at] == front[at]);
            assert forall|k: int| 0 <= k < at implies s[k] != u by {
                assert(front[k] == s[k]);
            }
        }
    } else {
        assert(is_first_at(s, u, i));
    }
}

/// A session stands among the others of `except` exactly when it is
/// registered and equals none of `except`.
pub proof fn lemma_others_members(s: Seq<Identity>, except: Seq<Identity>, u: Identity)
    ensures
        others(s, except).contains(u) <==> s.contains(u) && !except.contains(u),
    decreases s.len(),
{
    reveal(Seq::filter);
    let keep = |x: Identity| !except.contains(x);
    if s.len() > 0 {
        let front = s.drop_last();
        lemma_others_members(front, except, u);
        let kept = front.filter(keep);
        if s.contains(u) && !except.contains(u) {
            let i = choose|i: int| 0 <= i < s.len() && s[i] == u;
            if i < s.len() - 1 {
                assert(front[i] == u);
                let j = choose|j: int| 0 <= j < kept.len() && kept[j] == u;
                assert(s.filter(keep)[j] == u);
            } else {
                assert(s.filter(keep).last() == u);
            }
        }
        if others(s, except).contains(u) {
            let j = choose|j: int| 0 <= j < s.filter(keep).len() && s.filter(keep)[j] == u;
            if keep(s.last()) && j == kept.len() {
                assert(s[s.len() - 1] == u);
            } else {
                assert(kept[j] == u);
                let i = choose|i: int| 0 <= i < front.len() && front[i] == u;
                assert(s[i] == u);
            }
        }
    }
}

/// A relayed message never goes to its sender, and goes to every other
/// session that is registered.
pub proof fn lemma_broadcast_excludes_sender(s: Seq<Identity>, sender: Identity)
    ensures
        !others(s, seq![sender]).contains(sender),
        forall|i: int|
            0 <= i < s.len() && s[i] != sender ==> others(s, seq![sender]).contains(#[trigger] s[i]),
        forall|u: Identity| #[trigger] others(s, seq![sender]).contains(u) ==> s.contains(u),
{
    let except = seq![sender];
    assert(except[0] == sender);
    lemma_others_members(s, except, sender);
    assert forall|i: int| 0 <= i < s.len() && s[i] != sender implies others(s, except).contains(
        #[trigger] s[i],
    ) by {
        lemma_others_members(s, except, s[i]);
    }
    assert forall|u: Identity| #[trigger] others(s, except).contains(u) implies s.contains(u) by {
        lemma_others_members(s, except, u);
    }
}

/// A nickname stands among the nicknames of `s` exactly when a session of `s`
/// holds it.
pub proof fn lemma_nicks_members(s: Seq<Identity>, nick: Seq<char>)
    ensures
        nicks(s).contains(nick) <==> exists|i: int|
            0 <= i < s.len() && (#[trigger] s[i]).nick() == Some(nick),
    decreases s.len(),
{
    if s.len() > 0 {
        let front = s.drop_last();
        lemma_nicks_members(front, nick);
        if nicks(s).contains(nick) {
            let j = choose|j: int| 0 <= j < nicks(s).len() && nicks(s)[j] == nick;
            if s.last().nick() is Some && j == nicks(front).len() {
                assert(s[s.len() - 1].nick() == Some(nick));
            } else {
                assert(nicks(front)[j] == nick);
                let i = choose|i: int| 0 <= i < front.len() && (#[trigger] front[i]).nick() == Some(
                    nick,
                );
                assert(s[i].nick() == Some(nick));
            }
        }
        if exists|i: int| 0 <= i < s.len() && (#[trigger] s[i]).nick() == Some(nick) {
            let i = choose|i: int| 0 <= i < s.len() && (#[trigger] s[i]).nick() == Some(nick);
            if i < s.len() - 1 {
                assert(front[i].nick() == Some(nick));
                let j = choose|j: int| 0 <= j < nicks(front).len() && nicks(front)[j] == nick;
                assert(nicks(s)[j] == nick);
            } else {
                assert(nicks(s).last() == nick);
            }
        }
    }
}

/// The roster that a session sees holds exactly the nicknames of the other
/// authenticated sessions: not its own, and nothing for a ghost.
pub proof fn lemma_roster_members(s: Seq<Identity>, me: Identity, nick: Seq<char>)
    ensures
        roster(s, me).contains(nick) <==> exists|i: int|
            0 <= i < s.len() && (#[trigger] s[i]) != me && s[i].nick() == Some(nick),
{
    let rest = others(s, seq![me]);
    assert(seq![me][0] == me);
    lemma_nicks_members(rest, nick);
    if roster(s, me).contains(nick) {
        let j = choose|j: int| 0 <= j < rest.len() && (#[trigger] rest[j]).nick() == Some(nick);
        lemma_others_members(s, seq![me], rest[j]);
        let i = choose|i: int| 0 <= i < s.len() && s[i] == rest[j];
        assert(s[i] != me && s[i].nick() == Some(nick));
    }
    if exists|i: int| 0 <= i < s.len() && (#[trigger] s[i]) != me && s[i].nick() == Some(nick) {
        let i = choose|i: int|
            0 <= i < s.len() && (#[trigger] s[i]) != me && s[i].nick() == Some(nick);
        lemma_others_members(s, seq![me], s[i]);
        let j = choose|j: int| 0 <= j < rest.len() && rest[j] == s[i];
        assert(rest[j].nick() == Some(nick));
    }
}

/// In a well-formed registry a nickname has one holder at most.
pub proof fn lemma_one_holder(s: Seq<Identity>, i: int, j: int)
    requires
        well_formed(s),
        0 <= i < s.len(),
        0 <= j < s.len(),
        s[i] is Authenticated,
        s[i].nick() == s[j].nick(),
    ensures
        i == j,
{
    if i < j {
        assert(s[i].nick() != s[j].nick());
    }
    if j < i {
        assert(s[j] is Authenticated);
        assert(s[j].nick() != s[i].nick());
    }
}

/// Whatever message a session sends, the registry stays well formed: no
/// sequence of requests for nicknames gives two sessions the same one.
pub proof fn lemma_message_keeps_well_formed(s: Seq<Identity>, at: int, m: MessageView)
    requires
        well_formed(s),
        0 <= at < s.len(),
    ensures
        well_formed(registry_after(s, at, m)),
{
    let after = registry_after(s, at, m);
    match m {
        MessageView::User(UserView::Auth { nick }) => {
            if taken_by_other(s, at, nick) {
                assert(after =~= s);
            } else {
                lemma_rename_keeps_well_formed(s, at, nick);
            }
        },
        MessageView::User(_) => {
            assert(after =~= s);
        },
        _ => {},
    }
}

/// A request for a nickname that another session holds is refused: the
/// sender is told so, and stays who it was.
pub proof fn lemma_collision_is_refused(s: Seq<Identity>, at: int, nick: Seq<char>)
    requires
        0 <= at < s.len(),
        taken_by_other(s, at, nick),
    ensures
        ({
            let m = MessageView::User(UserView::Auth { nick });
            &&& registry_after(s, at, m) == s
            &&& reaction(s, at, m).client == s[at]
            &&& reaction(s, at, m).reply == Some(MessageView::Error(Error::NickNameInUse))
            &&& reaction(s, at, m).event is None
        }),
{
    assert(s.update(at, s[at]) =~= s);
}

} // verus!
