//! The registry: every session that is admitted right now.

use vstd::prelude::*;
use crate::server::client::Client;
use crate::server::config::Config;
use crate::text::same_text;
use crate::user::{Addr, Identity, Ip, User};

verus! {

/// No two sessions come from the same host.
pub open spec fn distinct_ips(s: Seq<Identity>) -> bool {
    forall|i: int, j: int|
        0 <= i < j < s.len() ==> (#[trigger] s[i]).addr().ip != (#[trigger] s[j]).addr().ip
}

/// No two sessions hold the same nickname.
pub open spec fn distinct_nicks(s: Seq<Identity>) -> bool {
    forall|i: int, j: int|
        0 <= i < j < s.len() && (#[trigger] s[i]) is Authenticated
            ==> s[i].nick() != (#[trigger] s[j]).nick()
}

/// What holds of the registry at every instant.
pub open spec fn well_formed(s: Seq<Identity>) -> bool {
    distinct_ips(s) && distinct_nicks(s)
}

/// Whether a session from the host `ip` is registered.
pub open spec fn has_ip(s: Seq<Identity>, ip: Ip) -> bool {
    exists|i: int| 0 <= i < s.len() && (#[trigger] s[i]).addr().ip == ip
}

/// Whether a session holds the nickname `nick`.
pub open spec fn has_nick(s: Seq<Identity>, nick: Seq<char>) -> bool {
    exists|i: int| 0 <= i < s.len() && (#[trigger] s[i]).nick() == Some(nick)
}

/// Whether a session other than the one at `me` holds the nickname `nick`.
pub open spec fn taken_by_other(s: Seq<Identity>, me: int, nick: Seq<char>) -> bool {
    exists|i: int| 0 <= i < s.len() && i != me && (#[trigger] s[i]).nick() == Some(nick)
}

/// Whether `i` is the first place in `s` of a session from the host `ip`.
pub open spec fn is_first_from(s: Seq<Identity>, ip: Ip, i: int) -> bool {
    0 <= i < s.len() && s[i].addr().ip == ip && forall|j: int|
        0 <= j < i ==> (#[trigger] s[j]).addr().ip != ip
}

/// Whether `i` is the first place in `s` of a session that holds `nick`.
pub open spec fn is_first_named(s: Seq<Identity>, nick: Seq<char>, i: int) -> bool {
    0 <= i < s.len() && s[i].nick() == Some(nick) && forall|j: int|
        0 <= j < i ==> (#[trigger] s[j]).nick() != Some(nick)
}

/// Whether `i` is the first place in `s` where `u` stands.
pub open spec fn is_first_at(s: Seq<Identity>, u: Identity, i: int) -> bool {
    0 <= i < s.len() && s[i] == u && forall|j: int| 0 <= j < i ==> s[j] != u
}

/// The registry without the first session that equals `u`; the registry
/// itself when none does.
pub open spec fn dropped(s: Seq<Identity>, u: Identity) -> Seq<Identity> {
    if exists|i: int| is_first_at(s, u, i) {
        s.remove(choose|i: int| is_first_at(s, u, i))
    } else {
        s
    }
}

/// A ghost from a host that has no session joins a well-formed registry
/// without harm.
pub proof fn lemma_push_keeps_well_formed(s: Seq<Identity>, addr: Addr)
    requires
        well_formed(s),
        !has_ip(s, addr.ip),
    ensures
        well_formed(s.push(Identity::Guest { addr })),
{
    let next = s.push(Identity::Guest { addr });
    assert forall|i: int, j: int| 0 <= i < j < next.len() implies (#[trigger] next[i]).addr().ip
        != (#[trigger] next[j]).addr().ip by {
        if j < s.len() {
            assert(next[i] == s[i] && next[j] == s[j]);
        } else {
            assert(next[i] == s[i]);
        }
    }
    assert forall|i: int, j: int|
        0 <= i < j < next.len() && (#[trigger] next[i]) is Authenticated implies next[i].nick()
        != (#[trigger] next[j]).nick() by {
        if j < s.len() {
            assert(next[i] == s[i] && next[j] == s[j]);
        }
    }
}

/// A session may take a nickname that no other session holds.
pub proof fn lemma_rename_keeps_well_formed(s: Seq<Identity>, at: int, nick: Seq<char>)
    requires
        well_formed(s),
        0 <= at < s.len(),
        !taken_by_other(s, at, nick),
    ensures
        well_formed(s.update(at, Identity::Authenticated { nick, addr: s[at].addr() })),
{
    let next = s.update(at, Identity::Authenticated { nick, addr: s[at].addr() });
    assert forall|a: int, b: int| 0 <= a < b < next.len() implies (#[trigger] next[a]).addr().ip
        != (#[trigger] next[b]).addr().ip by {
        assert(next[a].addr() == s[a].addr());
        assert(next[b].addr() == s[b].addr());
    }
    assert forall|a: int, b: int|
        0 <= a < b < next.len() && (#[trigger] next[a]) is Authenticated implies next[a].nick()
        != (#[trigger] next[b]).nick() by {
        if a == at {
            assert(s[b].nick() != Some(nick));
        } else if b == at {
            assert(s[a].nick() != Some(nick));
        } else {
            assert(next[a] == s[a] && next[b] == s[b]);
        }
    }
}

/// A well-formed registry stays so when a session leaves it.
pub proof fn lemma_remove_keeps_well_formed(s: Seq<Identity>, k: int)
    requires
        well_formed(s),
        0 <= k < s.len(),
    ensures
        well_formed(s.remove(k)),
{
    let next = s.remove(k);
    assert forall|a: int, b: int| 0 <= a < b < next.len() implies (#[trigger] next[a]).addr().ip
        != (#[trigger] next[b]).addr().ip by {
        let x = if a < k { a } else { a + 1 };
        let y = if b < k { b } else { b + 1 };
        assert(next[a] == s[x] && next[b] == s[y]);
    }
    assert forall|a: int, b: int|
        0 <= a < b < next.len() && (#[trigger] next[a]) is Authenticated implies next[a].nick()
        != (#[trigger] next[b]).nick() by {
        let x = if a < k { a } else { a + 1 };
        let y = if b < k { b } else { b + 1 };
        assert(next[a] == s[x] && next[b] == s[y]);
    }
}

/// The shared state of the server: its settings and the registry of sessions,
/// in the order in which they were admitted.
pub struct State {
    pub(crate) config: Config,
    pub(crate) clients: Vec<Client>,
}

impl View for State {
    type V = Seq<Identity>;

    closed spec fn view(&self) -> Seq<Identity> {
        Seq::new(self.clients@.len(), |i: int| self.clients@[i]@)
    }
}

impl State {
    /// Whether the registry is well formed. A state made by [`State::new`]
    /// is, and every operation keeps it so.
    pub open spec fn wf(&self) -> bool {
        well_formed(self@)
    }

    /// A state with no session yet.
    pub fn new(config: Config) -> (r: Self)
        ensures
            r@ == Seq::<Identity>::empty(),
            r.config() == config,
            r.wf(),
    {
        let r = State { config, clients: Vec::new() };
        assert(r@ =~= Seq::<Identity>::empty());
        r
    }

    /// The settings that the state was made with.
    pub closed spec fn config(&self) -> Config {
        self.config
    }

    /// The settings that the state was made with.
    pub fn settings(&self) -> (r: &Config)
        ensures
            *r == self.config(),
    {
        &self.config
    }

    /// How many sessions are registered.
    pub fn len(&self) -> (r: usize)
        ensures
            r == self@.len(),
    {
        self.clients.len()
    }

    /// The session at place `i`.
    pub fn client(&self, i: usize) -> (r: &Client)
        requires
            i < self@.len(),
        ensures
            r@ == self@[i as int],
    {
        &self.clients[i]
    }

    /// The place of the session from the host `ip`.
    pub fn index_of_ip(&self, ip: Ip) -> (r: Option<usize>)
        ensures
            r is Some ==> is_first_from(self@, ip, r->0 as int),
            r is None ==> !has_ip(self@, ip),
    {
        let mut i: usize = 0;
        while i < self.clients.len()
            invariant
                i <= self.clients@.len(),
                forall|j: int| 0 <= j < i ==> (#[trigger] self@[j]).addr().ip != ip,
            decreases self.clients@.len() - i,
        {
            if self.clients[i].user.addr().ip == ip {
                return Some(i);
            }
            i += 1;
        }
        None
    }

    /// The place of the session that holds the nickname `name`.
    pub fn index_of_nick(&self, name: &str) -> (r: Option<usize>)
        ensures
            r is Some ==> is_first_named(self@, name@, r->0 as int),
            r is None ==> !has_nick(self@, name@),
    {
        let mut i: usize = 0;
        while i < self.clients.len()
            invariant
                i <= self.clients@.len(),
                forall|j: int| 0 <= j < i ==> (#[trigger] self@[j]).nick() != Some(name@),
            decreases self.clients@.len() - i,
        {
            if same_nick(&self.clients[i].user, name) {
                return Some(i);
            }
            i += 1;
        }
        None
    }

    /// Whether a session other than the one at place `me` holds the nickname
    /// `name`.
    pub fn is_taken_by_other(&self, me: usize, name: &str) -> (r: bool)
        ensures
            r == taken_by_other(self@, me as int, name@),
    {
        let mut i: usize = 0;
        while i < self.clients.len()
            invariant
                i <= self.clients@.len(),
                forall|j: int|
                    0 <= j < i && j != me ==> (#[trigger] self@[j]).nick() != Some(name@),
            decreases self.clients@.len() - i,
        {
            if i != me && same_nick(&self.clients[i].user, name) {
                assert(self@[i as int].nick() == Some(name@));
                return true;
            }
            i += 1;
        }
        false
    }

    /// The first place of a session that equals `client`.
    pub fn index_of(&self, client: &Client) -> (r: Option<usize>)
        ensures
            r is Some ==> is_first_at(self@, client@, r->0 as int),
            r is None ==> !self@.contains(client@),
    {
        let mut i: usize = 0;
        while i < self.clients.len()
            invariant
                i <= self.clients@.len(),
                forall|j: int| 0 <= j < i ==> self@[j] != client@,
            decreases self.clients@.len() - i,
        {
            if self.clients[i] == *client {
                return Some(i);
            }
            i += 1;
        }
        None
    }

    /// Registers a session for a connection that was just accepted from
    /// `addr`, and returns it.
    pub(crate) fn push_guest(&mut self, addr: Addr) -> (r: Client)
        requires
            old(self).wf(),
            !has_ip(old(self)@, addr.ip),
        ensures
            final(self)@ == old(self)@.push(Identity::Guest { addr }),
            r@ == (Identity::Guest { addr }),
            final(self).wf(),
            final(self).config() == old(self).config(),
    {
        let client = Client::new(addr);
        let copy = client.clone();
        let ghost before = self@;
        self.clients.push(client);
        proof {
            assert(self@ =~= before.push(Identity::Guest { addr }));
            lemma_push_keeps_well_formed(before, addr);
        }
        copy
    }

    /// Gives the session at place `i` the nickname `nick`.
    pub(crate) fn set_nick(&mut self, i: usize, nick: String)
        requires
            old(self).wf(),
            i < old(self)@.len(),
            !taken_by_other(old(self)@, i as int, nick@),
        ensures
            final(self)@ == old(self)@.update(
                i as int,
                Identity::Authenticated { nick: nick@, addr: old(self)@[i as int].addr() },
            ),
            final(self).wf(),
            final(self).config() == old(self).config(),
    {
        let ghost before = self@;
        let ghost text = nick@;
        let addr = *self.clients[i].user.addr();
        self.clients.set(i, Client { user: User::Authenticated { nick, addr } });
        proof {
            let now = Identity::Authenticated { nick: text, addr };
            assert(self@ =~= before.update(i as int, now));
            lemma_rename_keeps_well_formed(before, i as int, text);
        }
    }

    /// Takes the session that equals `client` out of the registry. Nothing
    /// happens when no session equals it.
    pub fn remove(&mut self, client: &Client)
        requires
            old(self).wf(),
        ensures
            final(self)@ == dropped(old(self)@, client@),
            !old(self)@.contains(client@) ==> final(self)@ == old(self)@,
            forall|i: int| is_first_at(old(self)@, client@, i) ==> final(self)@ == old(self)@.remove(i),
            !final(self)@.contains(client@),
            final(self).wf(),
            final(self).config() == old(self).config(),
    {
        let ghost before = self@;
        match self.index_of(client) {
            None => {
                assert forall|i: int| !is_first_at(before, client@, i) by {
                    if is_first_at(before, client@, i) {
                        assert(before[i] == client@);
                    }
                }
            },
            Some(at) => {
                assert(is_first_at(before, client@, at as int));
                self.clients.remove(at);
                proof {
                    let k = at as int;
                    assert(self@ =~= before.remove(k));
                    assert forall|i: int| is_first_at(before, client@, i) implies i == k by {
                        if i < k {
                            assert(before[i] != client@);
                        }
                    }
                    lemma_remove_keeps_well_formed(before, k);
                    assert forall|a: int| 0 <= a < self@.len() implies self@[a] != client@ by {
                        let x = if a < k { a } else { a + 1 };
                        assert(self@[a] == before[x]);
                        if x > k {
                            assert(before[k].addr().ip != before[x].addr().ip);
                        }
                    }
                }
            },
        }
    }

    /// The session from the host of `addr`, whatever its port.
    pub fn get_client_by_addr(&self, addr: &Addr) -> (r: Option<Client>)
        ensures
            r is Some ==> exists|i: int| is_first_from(self@, addr.ip, i) && r->0@ == self@[i],
            r is None ==> !has_ip(self@, addr.ip),
    {
        match self.index_of_ip(addr.ip) {
            Some(i) => {
                assert(is_first_from(self@, addr.ip, i as int));
                Some(self.clients[i].clone())
            },
            None => None,
        }
    }

    /// The session that holds the nickname `name`.
    pub fn get_client_by_name(&self, name: &str) -> (r: Option<Client>)
        ensures
            r is Some ==> exists|i: int| is_first_named(self@, name@, i) && r->0@ == self@[i],
            r is None ==> !has_nick(self@, name@),
    {
        match self.index_of_nick(name) {
            Some(i) => {
                assert(is_first_named(self@, name@, i as int));
                Some(self.clients[i].clone())
            },
            None => None,
        }
    }
}

/// Whether `user` holds the nickname `name`.
pub fn same_nick(user: &User, name: &str) -> (r: bool)
    ensures
        r == (user@.nick() == Some(name@)),
{
    match user {
        User::Guest { .. } => false,
        User::Authenticated { nick, .. } => same_text(nick.as_str(), name),
    }
}

} // verus!
