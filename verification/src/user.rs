//! Who a connection is: a bare address, or an address with a nickname.

use vstd::prelude::*;
use vstd::std_specs::cmp::PartialEqSpecImpl;

verus! {

/// The address of a host.
#[derive(Debug, Clone, Copy, PartialEq, Eq, Hash, Structural)]
pub enum Ip {
    /// The four bytes of an IPv4 address, as one number.
    V4(u32),
    /// The sixteen bytes of an IPv6 address, as one number.
    V6(u128),
}

/// The address of the far end of a connection.
#[derive(Debug, Clone, Copy, PartialEq, Eq, Hash, Structural)]
pub struct Addr {
    pub ip: Ip,
    pub port: u16,
}

/// What is said of an identity that was asked for its nickname and has none.
#[derive(Debug, Clone, Copy, PartialEq, Eq, Structural)]
pub struct NoNick;

/// The identity of a connection.
#[derive(Debug)]
pub enum User {
    /// A ghost: accepted, not yet authenticated.
    Guest { addr: Addr },
    /// Bound to a nickname.
    Authenticated { nick: String, addr: Addr },
}

/// An identity as a mathematical value.
pub enum Identity {
    Guest { addr: Addr },
    Authenticated { nick: Seq<char>, addr: Addr },
}

impl Identity {
    /// The address, which both kinds of identity have.
    pub open spec fn addr(self) -> Addr {
        match self {
            Identity::Guest { addr } => addr,
            Identity::Authenticated { addr, .. } => addr,
        }
    }

    /// The nickname, which only an authenticated identity has.
    pub open spec fn nick(self) -> Option<Seq<char>> {
        match self {
            Identity::Guest { .. } => None,
            Identity::Authenticated { nick, .. } => Some(nick),
        }
    }
}

impl View for User {
    type V = Identity;

    open spec fn view(&self) -> Identity {
        match *self {
            User::Guest { addr } => Identity::Guest { addr },
            User::Authenticated { nick, addr } => Identity::Authenticated { nick: nick@, addr },
        }
    }
}

impl Clone for User {
    fn clone(&self) -> (r: Self)
        ensures
            r@ == self@,
    {
        match self {
            User::Guest { addr } => User::Guest { addr: *addr },
            User::Authenticated { nick, addr } => User::Authenticated {
                nick: nick.clone(),
                addr: *addr,
            },
        }
    }
}

impl PartialEq for User {
    fn eq(&self, other: &Self) -> (r: bool) {
        match self {
            User::Guest { addr } => match other {
                User::Guest { addr: other_addr } => *addr == *other_addr,
                User::Authenticated { .. } => false,
            },
            User::Authenticated { nick, addr } => match other {
                User::Guest { .. } => false,
                User::Authenticated { nick: other_nick, addr: other_addr } => *addr == *other_addr
                    && *nick == *other_nick,
            },
        }
    }
}

impl Eq for User {

}

impl PartialEqSpecImpl for User {
    open spec fn obeys_eq_spec() -> bool {
        true
    }

    open spec fn eq_spec(&self, other: &Self) -> bool {
        self@ == other@
    }
}

impl User {
    pub fn is_ghost(&self) -> (r: bool)
        ensures
            r == (self@ is Guest),
    {
        match self {
            User::Guest { .. } => true,
            User::Authenticated { .. } => false,
        }
    }

    pub fn is_authenticated(&self) -> (r: bool)
        ensures
            r == (self@ is Authenticated),
    {
        match self {
            User::Guest { .. } => false,
            User::Authenticated { .. } => true,
        }
    }

    pub fn addr(&self) -> (r: &Addr)
        ensures
            *r == self@.addr(),
    {
        match self {
            User::Guest { addr } => addr,
            User::Authenticated { addr, .. } => addr,
        }
    }

    /// The nickname, if the identity has one.
    pub fn nick(&self) -> (r: Option<&str>)
        ensures
            r is Some <==> self@ is Authenticated,
            r is Some ==> Some(r->0@) == self@.nick(),
    {
        match self {
            User::Authenticated { nick, .. } => Some(nick.as_str()),
            User::Guest { .. } => None,
        }
    }

    /// The nickname, or the word that the identity has none.
    pub fn nick_unchecked(&self) -> (r: Result<&str, NoNick>)
        ensures
            self@ is Authenticated ==> r is Ok && Some(r->Ok_0@) == self@.nick(),
            self@ is Guest ==> r is Err,
    {
        match self {
            User::Authenticated { nick, .. } => Ok(nick.as_str()),
            User::Guest { .. } => Err(NoNick),
        }
    }
}

} // verus!
