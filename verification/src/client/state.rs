//! What the client keeps of the conversation.

use vstd::prelude::*;
use crate::client::config::Config;
use crate::client::message::{Line, Message};
use crate::message::texts;

verus! {

/// A nickname, as the client lists it.
pub type User = String;

/// The state of the client: its settings, who is there, what was said, and
/// the line that the user is typing.
#[derive(Debug, PartialEq, Eq)]
pub struct State {
    pub config: Config,
    pub users: Vec<User>,
    pub messages: Vec<Message>,
    pub input: String,
}

/// A [`State`] as a mathematical value.
pub struct StateView {
    /// The nickname of the client itself.
    pub nick: Seq<char>,
    pub users: Seq<Seq<char>>,
    pub messages: Seq<Line>,
    pub input: Seq<char>,
}

/// The lines of a list, as mathematical values.
pub open spec fn lines(v: Seq<Message>) -> Seq<Line> {
    Seq::new(v.len(), |i: int| v[i]@)
}

impl View for State {
    type V = StateView;

    open spec fn view(&self) -> StateView {
        StateView {
            nick: self.config.nick@,
            users: texts(self.users@),
            messages: lines(self.messages@),
            input: self.input@,
        }
    }
}

impl State {
    /// The state at the start: the client alone is listed, nothing was said,
    /// and nothing is typed.
    pub fn new(config: Config) -> (r: Self)
        ensures
            r.config == config,
            r@ == (StateView {
                nick: config.nick@,
                users: seq![config.nick@],
                messages: Seq::empty(),
                input: Seq::empty(),
            }),
    {
        let mut users: Vec<User> = Vec::new();
        users.push(config.nick.clone());
        let r = State { config, users, messages: Vec::new(), input: String::new() };
        assert(r@.users =~= seq![config.nick@]);
        assert(r@.messages =~= Seq::empty());
        r
    }
}

} // verus!
