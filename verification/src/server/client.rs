//! One admitted connection, as the registry knows it.

use vstd::prelude::*;
use vstd::std_specs::cmp::PartialEqSpecImpl;
use crate::user::{Addr, Identity, User};

verus! {

/// A session: its identity. The socket of the session stays with whoever does
/// the reading and writing, filed under the session's address.
#[derive(Debug)]
pub struct Client {
    pub user: User,
}

impl View for Client {
    type V = Identity;

    open spec fn view(&self) -> Identity {
        self.user@
    }
}

impl Client {
    /// The session of a connection that was just accepted from `addr`.
    pub fn new(addr: Addr) -> (r: Self)
        ensures
            r@ == (Identity::Guest { addr }),
    {
        Client { user: User::Guest { addr } }
    }
}

impl Clone for Client {
    fn clone(&self) -> (r: Self)
        ensures
            r@ == self@,
    {
        Client { user: self.user.clone() }
    }
}

/// Two sessions are equal when their identities are.
impl PartialEq for Client {
    fn eq(&self, other: &Self) -> (r: bool) {
        self.user == other.user
    }
}

impl Eq for Client {

}

impl PartialEqSpecImpl for Client {
    open spec fn obeys_eq_spec() -> bool {
        true
    }

    open spec fn eq_spec(&self, other: &Self) -> bool {
        self@ == other@
    }
}

} // verus!
