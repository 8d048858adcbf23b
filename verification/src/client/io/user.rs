//! The line that the user is typing.

use vstd::prelude::*;

verus! {

/// The line feed, which sends the line.
pub const ENTER: u8 = 10;

/// The carriage return, which does nothing.
pub const RETURN: u8 = 13;

/// The backspace, which takes the last character back.
pub const BACKSPACE: u8 = 8;

/// The state of the line after a key.
#[derive(Debug, PartialEq, Eq)]
pub enum State {
    /// The line as it stands while the user types.
    Edit(String),
    /// The line that the user has sent.
    Sent(String),
}

/// A [`State`] as a mathematical value.
pub enum StateView {
    Edit(Seq<char>),
    Sent(Seq<char>),
}

impl View for State {
    type V = StateView;

    open spec fn view(&self) -> StateView {
        match *self {
            State::Edit(text) => StateView::Edit(text@),
            State::Sent(text) => StateView::Sent(text@),
        }
    }
}

impl StateView {
    /// The text of the line.
    pub open spec fn text(self) -> Seq<char> {
        match self {
            StateView::Edit(text) => text,
            StateView::Sent(text) => text,
        }
    }
}

impl State {
    pub fn is_sent(&self) -> (r: bool)
        ensures
            r == (self@ is Sent),
    {
        match self {
            State::Sent(_) => true,
            State::Edit(_) => false,
        }
    }

    /// The text of the line.
    pub fn text(&self) -> (r: &String)
        ensures
            r@ == self@.text(),
    {
        match self {
            State::Edit(text) => text,
            State::Sent(text) => text,
        }
    }
}

/// Whether a byte is an ASCII control character.
pub open spec fn is_control(key: u8) -> bool {
    key < 32 || key == 127
}

/// The line after the key `key`: enter empties it, backspace takes its last
/// character off, a character that is no control character joins it, and any
/// other key leaves it alone.
pub open spec fn line_after(line: Seq<char>, key: u8) -> Seq<char> {
    if key == ENTER {
        Seq::empty()
    } else if key == BACKSPACE {
        if line.len() > 0 {
            line.drop_last()
        } else {
            line
        }
    } else if is_control(key) {
        line
    } else {
        line.push(key as char)
    }
}

/// What the key `key` tells the rest of the client: on enter the line that
/// was sent, on any other key the line as it now stands.
pub open spec fn told_after(line: Seq<char>, key: u8) -> StateView {
    if key == ENTER {
        StateView::Sent(line)
    } else {
        StateView::Edit(line_after(line, key))
    }
}

/// Takes one key into the line `input` and returns what to tell the rest of
/// the client.
pub fn press(input: &mut String, key: u8) -> (r: State)
    ensures
        final(input)@ == line_after(old(input)@, key),
        r@ == told_after(old(input)@, key),
{
    if key == ENTER {
        let sent = input.clone();
        input.clear();
        return State::Sent(sent);
    }
    if key == BACKSPACE {
        let _ = input.pop();
    } else if !(key < 32 || key == 127) {
        input.push(key as char);
    }
    State::Edit(input.clone())
}

} // verus!
