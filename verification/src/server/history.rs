//! The registry over time: whatever happens to it, in whatever order, it
//! stays well formed.

use vstd::prelude::*;
use crate::message::MessageView;
use crate::server::handler::client::{lemma_message_keeps_well_formed, registry_after};
use crate::server::state::{
    dropped, has_ip, is_first_at, lemma_push_keeps_well_formed, lemma_remove_keeps_well_formed,
    well_formed,
};
use crate::user::{Addr, Identity};

verus! {

/// One thing that changes the registry.
pub enum Operation {
    /// A connection from this address comes in.
    Admit(Addr),
    /// The session at this place sends this message.
    Message(int, MessageView),
    /// The session with this identity is dropped.
    Drop(Identity),
}

/// The registry after one operation. A connection from a host that has a
/// session adds none, whether it takes the session over or is turned away; a
/// message from a place where no session stands changes nothing.
pub open spec fn after(s: Seq<Identity>, operation: Operation) -> Seq<Identity> {
    match operation {
        Operation::Admit(addr) => if has_ip(s, addr.ip) {
            s
        } else {
            s.push(Identity::Guest { addr })
        },
        Operation::Message(at, m) => if 0 <= at < s.len() {
            registry_after(s, at, m)
        } else {
            s
        },
        Operation::Drop(u) => dropped(s, u),
    }
}

/// The registry after a run of operations, the first of them first.
pub open spec fn after_all(s: Seq<Identity>, run: Seq<Operation>) -> Seq<Identity>
    decreases run.len(),
{
    if run.len() == 0 {
        s
    } else {
        after(after_all(s, run.drop_last()), run.last())
    }
}

/// One operation keeps the registry well formed.
pub proof fn lemma_operation_keeps_well_formed(s: Seq<Identity>, operation: Operation)
    requires
        well_formed(s),
    ensures
        well_formed(after(s, operation)),
{
    match operation {
        Operation::Admit(addr) => {
            if !has_ip(s, addr.ip) {
                lemma_push_keeps_well_formed(s, addr);
            }
        },
        Operation::Message(at, m) => {
            if 0 <= at < s.len() {
                lemma_message_keeps_well_formed(s, at, m);
            }
        },
        Operation::Drop(u) => {
            if exists|i: int| is_first_at(s, u, i) {
                lemma_remove_keeps_well_formed(s, choose|i: int| is_first_at(s, u, i));
            }
        },
    }
}

/// Whatever is done to a well-formed registry, in whatever order, it stays
/// well formed: at every instant no two sessions hold the same nickname, and no
/// two come from the same host.
pub proof fn lemma_run_keeps_well_formed(s: Seq<Identity>, run: Seq<Operation>)
    requires
        well_formed(s),
    ensures
        well_formed(after_all(s, run)),
    decreases run.len(),
{
    if run.len() > 0 {
        lemma_run_keeps_well_formed(s, run.drop_last());
        lemma_operation_keeps_well_formed(after_all(s, run.drop_last()), run.last());
    }
}

} // verus!
