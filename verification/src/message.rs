//! The messages of the chat protocol and their mathematical views.

use vstd::prelude::*;
use vstd::std_specs::convert::FromSpecImpl;

verus! {

/// What a client sends to the server.
#[derive(Debug, PartialEq, Eq)]
#[allow(inconsistent_fields)]
pub enum User {
    Auth { nick: String },
    Leave { message: Option<String> },
    RequestUserList,
    Text { message: String },
    Voice { stream: Vec<u8> },
}

/// What the server sends to a client.
#[derive(Debug, PartialEq, Eq)]
#[allow(inconsistent_fields)]
pub enum Server {
    Auth,
    Notice { message: String },
    Refer { user: String, message: User },
    UserList { users: Vec<String> },
}

/// Why the server turned a client down.
#[derive(Debug, PartialEq, Eq, Clone, Copy, Structural)]
pub enum Error {
    /// Client is already connected.
    AlreadyConnected,
    /// Requested nick is already in use.
    NickNameInUse,
}

/// Every message that travels on the wire.
#[derive(Debug, PartialEq, Eq)]
pub enum Message {
    /// User to server.
    User(User),
    /// Server to user.
    Server(Server),
    /// Server to user, on a refused request.
    Error(Error),
}

/// A [`User`] message as a mathematical value.
#[allow(inconsistent_fields)]
pub enum UserView {
    Auth { nick: Seq<char> },
    Leave { message: Option<Seq<char>> },
    RequestUserList,
    Text { message: Seq<char> },
    Voice { stream: Seq<u8> },
}

/// A [`Server`] message as a mathematical value.
#[allow(inconsistent_fields)]
pub enum ServerView {
    Auth,
    Notice { message: Seq<char> },
    Refer { user: Seq<char>, message: UserView },
    UserList { users: Seq<Seq<char>> },
}

/// A [`Message`] as a mathematical value.
pub enum MessageView {
    User(UserView),
    Server(ServerView),
    Error(Error),
}

/// The text of an optional string.
pub open spec fn optional_text(o: Option<String>) -> Option<Seq<char>> {
    match o {
        Some(s) => Some(s@),
        None => None,
    }
}

/// The texts of a list of strings, in order.
pub open spec fn texts(v: Seq<String>) -> Seq<Seq<char>> {
    Seq::new(v.len(), |i: int| v[i]@)
}

impl View for User {
    type V = UserView;

    open spec fn view(&self) -> UserView {
        match *self {
            User::Auth { nick } => UserView::Auth { nick: nick@ },
            User::Leave { message } => UserView::Leave { message: optional_text(message) },
            User::RequestUserList => UserView::RequestUserList,
            User::Text { message } => UserView::Text { message: message@ },
            User::Voice { stream } => UserView::Voice { stream: stream@ },
        }
    }
}

impl View for Server {
    type V = ServerView;

    open spec fn view(&self) -> ServerView {
        match *self {
            Server::Auth => ServerView::Auth,
            Server::Notice { message } => ServerView::Notice { message: message@ },
            Server::Refer { user, message } => ServerView::Refer { user: user@, message: message@ },
            Server::UserList { users } => ServerView::UserList { users: texts(users@) },
        }
    }
}

impl View for Message {
    type V = MessageView;

    open spec fn view(&self) -> MessageView {
        match *self {
            Message::User(m) => MessageView::User(m@),
            Message::Server(m) => MessageView::Server(m@),
            Message::Error(e) => MessageView::Error(e),
        }
    }
}

/// Copies a list of strings.
pub fn clone_texts(v: &Vec<String>) -> (r: Vec<String>)
    ensures
        texts(r@) == texts(v@),
{
    let mut r: Vec<String> = Vec::new();
    let mut i: usize = 0;
    while i < v.len()
        invariant
            i <= v.len(),
            r.len() == i,
            forall|j: int| 0 <= j < i ==> r@[j]@ == v@[j]@,
        decreases v.len() - i,
    {
        r.push(v[i].clone());
        i += 1;
    }
    assert(texts(r@) =~= texts(v@));
    r
}

impl Clone for User {
    fn clone(&self) -> (r: Self)
        ensures
            r@ == self@,
    {
        match self {
            User::Auth { nick } => User::Auth { nick: nick.clone() },
            User::Leave { message } => match message {
                Some(s) => User::Leave { message: Some(s.clone()) },
                None => User::Leave { message: None },
            },
            User::RequestUserList => User::RequestUserList,
            User::Text { message } => User::Text { message: message.clone() },
            User::Voice { stream } => User::Voice { stream: stream.clone() },
        }
    }
}

impl Clone for Server {
    fn clone(&self) -> (r: Self)
        ensures
            r@ == self@,
    {
        match self {
            Server::Auth => Server::Auth,
            Server::Notice { message } => Server::Notice { message: message.clone() },
            Server::Refer { user, message } => Server::Refer {
                user: user.clone(),
                message: message.clone(),
            },
            Server::UserList { users } => Server::UserList { users: clone_texts(users) },
        }
    }
}

impl Clone for Message {
    fn clone(&self) -> (r: Self)
        ensures
            r@ == self@,
    {
        match self {
            Message::User(m) => Message::User(m.clone()),
            Message::Server(m) => Message::Server(m.clone()),
            Message::Error(e) => Message::Error(*e),
        }
    }
}

impl From<User> for Message {
    fn from(user: User) -> (r: Self) {
        Message::User(user)
    }
}

impl FromSpecImpl<User> for Message {
    open spec fn obeys_from_spec() -> bool {
        true
    }

    open spec fn from_spec(user: User) -> Self {
        Message::User(user)
    }
}

impl From<Server> for Message {
    fn from(server: Server) -> (r: Self) {
        Message::Server(server)
    }
}

impl FromSpecImpl<Server> for Message {
    open spec fn obeys_from_spec() -> bool {
        true
    }

    open spec fn from_spec(server: Server) -> Self {
        Message::Server(server)
    }
}

impl From<Error> for Message {
    fn from(error: Error) -> (r: Self) {
        Message::Error(error)
    }
}

impl FromSpecImpl<Error> for Message {
    open spec fn obeys_from_spec() -> bool {
        true
    }

    open spec fn from_spec(error: Error) -> Self {
        Message::Error(error)
    }
}

} // verus!
