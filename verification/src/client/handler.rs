//! What the client makes of a line that the user sent and of a message that
//! the server sent.

use vstd::prelude::*;
use crate::client::io::user::{State as Input, StateView as InputView};
use crate::client::message::{notice_source, now, Line, Message as Shown};
use crate::client::state::{lines, State, StateView};
use crate::message::{
    texts, Error, Message, MessageView, Server, ServerView, User as Payload, UserView,
};
use crate::text::{same_text, trimmed};

verus! {

/// What the client does after it has brought its state up to date.
#[derive(Debug, PartialEq, Eq)]
pub enum Action {
    /// Nothing.
    Nothing,
    /// It sends a message to the server.
    Send(Message),
    /// It sends a message to the server, closes the connection and ends.
    SendAndQuit(Message),
    /// It tells the user why the server turned it down, and ends.
    Quit(Error),
}

/// An [`Action`] as a mathematical value.
pub enum ActionView {
    Nothing,
    Send(MessageView),
    SendAndQuit(MessageView),
    Quit(Error),
}

impl View for Action {
    type V = ActionView;

    open spec fn view(&self) -> ActionView {
        match *self {
            Action::Nothing => ActionView::Nothing,
            Action::Send(m) => ActionView::Send(m@),
            Action::SendAndQuit(m) => ActionView::SendAndQuit(m@),
            Action::Quit(e) => ActionView::Quit(e),
        }
    }
}

/// The line that ends the client.
pub open spec fn quit_command() -> Seq<char> {
    "/quit"@
}

/// The state after the user's line `input`, at the time `ts`. A line that is
/// being typed is shown as it stands. A line that was sent empties the input;
/// unless it is the command to quit, it joins the conversation, trimmed, under
/// the client's own nickname.
pub open spec fn after_user_input(s: StateView, input: InputView, ts: i64) -> StateView {
    match input {
        InputView::Edit(text) => StateView { input: text, ..s },
        InputView::Sent(text) => if text == quit_command() {
            StateView { input: Seq::empty(), ..s }
        } else {
            StateView {
                input: Seq::empty(),
                messages: s.messages.push(Line { ts, source: s.nick, text: trimmed(text) }),
                ..s
            }
        },
    }
}

/// What the client does about the user's line `input`: it takes its leave on
/// the command to quit, sends any other line that was sent, trimmed, and does
/// nothing about a line that is being typed.
pub open spec fn user_input_action(input: InputView) -> ActionView {
    match input {
        InputView::Edit(_) => ActionView::Nothing,
        InputView::Sent(text) => if text == quit_command() {
            ActionView::SendAndQuit(MessageView::User(UserView::Leave { message: None }))
        } else {
            ActionView::Send(MessageView::User(UserView::Text { message: trimmed(text) }))
        },
    }
}

/// A line of the server's own.
pub open spec fn notice_line(text: Seq<char>, ts: i64) -> Line {
    Line { ts, source: notice_source(), text }
}

/// What is noted when `user` takes the nickname `nick`.
pub open spec fn rename_notice(user: Seq<char>, nick: Seq<char>) -> Seq<char> {
    user + " changed nick to "@ + nick
}

/// What is noted when `nick` joins.
pub open spec fn join_notice(nick: Seq<char>) -> Seq<char> {
    "User joined: "@ + nick
}

/// What is noted when `user` leaves.
pub open spec fn leave_notice(user: Seq<char>) -> Seq<char> {
    "User left: "@ + user
}

/// The list `users` with `to` wherever `from` stood.
pub open spec fn renamed(users: Seq<Seq<char>>, from: Seq<char>, to: Seq<char>) -> Seq<Seq<char>> {
    Seq::new(
        users.len(),
        |i: int|
            if users[i] == from {
                to
            } else {
                users[i]
            },
    )
}

/// Whether `i` is the first place of `user` in `users`.
pub open spec fn is_first_place(users: Seq<Seq<char>>, user: Seq<char>, i: int) -> bool {
    0 <= i < users.len() && users[i] == user && forall|j: int| 0 <= j < i ==> users[j] != user
}

/// The list `users` without the first `user` in it; the list itself when
/// `user` is not in it.
pub open spec fn without_first(users: Seq<Seq<char>>, user: Seq<char>) -> Seq<Seq<char>> {
    if exists|i: int| is_first_place(users, user, i) {
        users.remove(choose|i: int| is_first_place(users, user, i))
    } else {
        users
    }
}

/// The state after the server's message `m`, at the time `ts`.
///
/// A notice joins the conversation. So does what another user said. That a
/// user joined, left or took another nickname is noted, and the list of users
/// follows: a relayed request for a nickname is a change of nickname when the
/// sender has another name than it asks for, and a joining when it has the same.
/// The list that the server sends replaces the client's, with the client itself
/// put first. Nothing else changes the state.
pub open spec fn after_server_message(s: StateView, m: MessageView, ts: i64) -> StateView {
    match m {
        MessageView::Server(ServerView::Notice { message }) => StateView {
            messages: s.messages.push(notice_line(message, ts)),
            ..s
        },
        MessageView::Server(ServerView::Refer { user, message }) => match message {
            UserView::Auth { nick } => if user != nick {
                StateView {
                    messages: s.messages.push(notice_line(rename_notice(user, nick), ts)),
                    users: renamed(s.users, user, nick),
                    ..s
                }
            } else {
                StateView {
                    messages: s.messages.push(notice_line(join_notice(nick), ts)),
                    users: s.users.push(nick),
                    ..s
                }
            },
            UserView::Leave { .. } => StateView {
                messages: s.messages.push(notice_line(leave_notice(user), ts)),
                users: without_first(s.users, user),
                ..s
            },
            UserView::Text { message } => StateView {
                messages: s.messages.push(Line { ts, source: user, text: message }),
                ..s
            },
            _ => s,
        },
        MessageView::Server(ServerView::UserList { users }) => StateView {
            users: seq![s.nick] + users,
            ..s
        },
        _ => s,
    }
}

/// What the client does about the server's message `m`: it answers the
/// challenge with the nickname of its settings, ends when the server turns it
/// down, and does nothing otherwise.
pub open spec fn server_message_action(s: StateView, m: MessageView) -> ActionView {
    match m {
        MessageView::Server(ServerView::Auth) => ActionView::Send(
            MessageView::User(UserView::Auth { nick: s.nick }),
        ),
        MessageView::Error(e) => ActionView::Quit(e),
        _ => ActionView::Nothing,
    }
}

/// Takes a line down.
fn note(state: &mut State, line: Shown)
    ensures
        final(state)@ == (StateView { messages: old(state)@.messages.push(line@), ..old(state)@ }),
        final(state).config == old(state).config,
{
    let ghost before = lines(state.messages@);
    state.messages.push(line);
    assert(lines(state.messages@) =~= before.push(line@));
}

/// Acts on the user's line `input`, taken at the time `ts`.
pub fn handle_user_input_at(state: &mut State, input: Input, ts: i64) -> (r: Action)
    ensures
        final(state)@ == after_user_input(old(state)@, input@, ts),
        r@ == user_input_action(input@),
        final(state).config == old(state).config,
{
    match input {
        Input::Edit(text) => {
            state.input = text;
            Action::Nothing
        },
        Input::Sent(text) => {
            state.input.clear();
            if same_text(text.as_str(), "/quit") {
                Action::SendAndQuit(Message::User(Payload::Leave { message: None }))
            } else {
                let said = text.as_str().trim();
                let line = Shown::user_at(state.config.nick.as_str(), said, ts);
                note(state, line);
                Action::Send(Message::User(Payload::Text { message: said.to_owned() }))
            }
        },
    }
}

/// Acts on the user's line `input`, taken now.
pub fn handle_user_input(state: &mut State, input: Input) -> (r: Action)
    ensures
        exists|ts: i64| final(state)@ == after_user_input(old(state)@, input@, ts),
        r@ == user_input_action(input@),
        final(state).config == old(state).config,
{
    let ts = now();
    handle_user_input_at(state, input, ts)
}

/// The first place of `user` in `users`.
fn place_of(users: &Vec<String>, user: &str) -> (r: Option<usize>)
    ensures
        r is Some ==> is_first_place(texts(users@), user@, r->0 as int),
        r is None ==> !texts(users@).contains(user@),
{
    let mut i: usize = 0;
    while i < users.len()
        invariant
            i <= users@.len(),
            forall|j: int| 0 <= j < i ==> texts(users@)[j] != user@,
        decreases users@.len() - i,
    {
        if same_text(users[i].as_str(), user) {
            return Some(i);
        }
        i += 1;
    }
    None
}

/// Acts on the server's message `message`, received at the time `ts`.
pub fn handle_server_message_at(state: &mut State, message: Message, ts: i64) -> (r: Action)
    ensures
        final(state)@ == after_server_message(old(state)@, message@, ts),
        r@ == server_message_action(old(state)@, message@),
        final(state).config == old(state).config,
{
    match message {
        Message::User(_) => Action::Nothing,
        Message::Error(e) => Action::Quit(e),
        Message::Server(Server::Auth) => Action::Send(
            Message::User(Payload::Auth { nick: state.config.nick.clone() }),
        ),
        Message::Server(Server::Notice { message }) => {
            note(state, Shown::notice_at(message.as_str(), ts));
            Action::Nothing
        },
        Message::Server(Server::UserList { users }) => {
            let mut users = users;
            let ghost sent = texts(users@);
            users.insert(0, state.config.nick.clone());
            assert(texts(users@) =~= seq![state.config.nick@] + sent);
            state.users = users;
            Action::Nothing
        },
        Message::Server(Server::Refer { user, message }) => {
            match message {
                Payload::Auth { nick } => {
                    if !same_text(user.as_str(), nick.as_str()) {
                        let mut text = user.clone();
                        text.push_str(" changed nick to ");
                        text.push_str(nick.as_str());
                        note(state, Shown::notice_at(text.as_str(), ts));
                        let ghost listed = texts(state.users@);
                        let mut i: usize = 0;
                        while i < state.users.len()
                            invariant
                                i <= state.users@.len(),
                                state.users@.len() == listed.len(),
                                forall|j: int|
                                    0 <= j < i ==> texts(state.users@)[j] == renamed(
                                        listed,
                                        user@,
                                        nick@,
                                    )[j],
                                forall|j: int|
                                    i <= j < listed.len() ==> texts(state.users@)[j] == listed[j],
                                state.config == old(state).config,
                                state.input@ == old(state).input@,
                                lines(state.messages@) == old(state)@.messages.push(
                                    notice_line(rename_notice(user@, nick@), ts),
                                ),
                            decreases listed.len() - i,
                        {
                            let ghost prev = texts(state.users@);
                            if same_text(state.users[i].as_str(), user.as_str()) {
                                state.users.set(i, nick.clone());
                            }
                            proof {
                                let goal = renamed(listed, user@, nick@);
                                assert(prev[i as int] == listed[i as int]);
                                assert forall|j: int| 0 <= j <= i implies texts(state.users@)[j]
                                    == goal[j] by {
                                    if j < i {
                                        assert(prev[j] == goal[j]);
                                    }
                                }
                                assert forall|j: int| i < j < listed.len() implies texts(
                                    state.users@,
                                )[j] == listed[j] by {
                                    assert(prev[j] == listed[j]);
                                }
                            }
                            i += 1;
                        }
                        assert(texts(state.users@) =~= renamed(listed, user@, nick@));
                    } else {
                        let mut text = "User joined: ".to_owned();
                        text.push_str(nick.as_str());
                        note(state, Shown::notice_at(text.as_str(), ts));
                        let ghost listed = texts(state.users@);
                        let ghost name = nick@;
                        state.users.push(nick);
                        assert(texts(state.users@) =~= listed.push(name));
                    }
                },
                Payload::Leave { .. } => {
                    let mut text = "User left: ".to_owned();
                    text.push_str(user.as_str());
                    note(state, Shown::notice_at(text.as_str(), ts));
                    let ghost listed = texts(state.users@);
                    match place_of(&state.users, user.as_str()) {
                        Some(at) => {
                            state.users.remove(at);
                            proof {
                                let found = choose|i: int| is_first_place(listed, user@, i);
                                if found < at {
                                    assert(listed[found] != user@);
                                }
                                if at < found {
                                    assert(listed[at as int] != user@);
                                }
                                assert(texts(state.users@) =~= listed.remove(at as int));
                            }
                        },
                        None => {
                            proof {
                                if exists|i: int| is_first_place(listed, user@, i) {
                                    let i = choose|i: int| is_first_place(listed, user@, i);
                                    assert(listed[i] == user@);
                                }
                            }
                        },
                    }
                },
                Payload::Text { message } => {
                    note(state, Shown::user_at(user.as_str(), message.as_str(), ts));
                },
                Payload::RequestUserList => {},
                Payload::Voice { .. } => {},
            }
            Action::Nothing
        },
    }
}

/// Acts on the server's message `message`, received now.
pub fn handle_server_message(state: &mut State, message: Message) -> (r: Action)
    ensures
        exists|ts: i64| final(state)@ == after_server_message(old(state)@, message@, ts),
        r@ == server_message_action(old(state)@, message@),
        final(state).config == old(state).config,
{
    let ts = now();
    handle_server_message_at(state, message, ts)
}

} // verus!
