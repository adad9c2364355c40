//! The consensus core of a Raft replicated state machine: the per-node
//! automaton that, together with its peers, maintains a consistent ordered
//! log of commands applied to a client state machine.
//!
//! The library models the durable store and the client state machine as
//! traits with contracts ([`store::Store`], [`state_machine::StateMachine`]),
//! and provides verified in-memory implementations of both. Network
//! endpoints are identified by plain [`NodeId`] values; wire messages are
//! the plain structs of [`messages`] — encoding and transport are the
//! caller's business.

use vstd::prelude::*;

pub mod laws;
pub mod messages;
pub mod replica;
pub mod state_machine;
pub mod store;

verus! {

/// A node's identity within the cluster: the key of the leader's progress
/// maps and of vote records. In a deployment this stands for a network
/// endpoint.
pub type NodeId = u64;

/// The term: a monotonically increasing 64-bit logical clock. A replica's
/// durable current term never decreases, and each term has at most one
/// leader.
#[derive(Clone, Copy, PartialEq, Eq, Structural, Debug)]
pub struct Term(pub u64);

/// A 1-based position in the log. Index 0 denotes "before the log": an
/// empty log has latest index 0 and latest term 0.
#[derive(Clone, Copy, PartialEq, Eq, Structural, Debug)]
pub struct LogIndex(pub u64);

impl From<u64> for Term {
    fn from(n: u64) -> (t: Term) {
        Term(n)
    }
}

impl vstd::std_specs::convert::FromSpecImpl<u64> for Term {
    open spec fn obeys_from_spec() -> bool {
        true
    }

    open spec fn from_spec(n: u64) -> Term {
        Term(n)
    }
}

/// A fresh copy of a payload, byte for byte.
pub fn clone_bytes(v: &Vec<u8>) -> (r: Vec<u8>)
    ensures
        r@ == v@,
{
    let mut r: Vec<u8> = Vec::new();
    let mut i: usize = 0;
    while i < v.len()
        invariant
            i <= v@.len(),
            r@ == v@.take(i as int),
        decreases v@.len() - i,
    {
        r.push(v[i]);
        proof {
            assert(r@ =~= v@.take(i + 1));
        }
        i = i + 1;
    }
    proof {
        assert(r@ =~= v@);
    }
    r
}

impl From<u64> for LogIndex {
    fn from(n: u64) -> (i: LogIndex) {
        LogIndex(n)
    }
}

impl vstd::std_specs::convert::FromSpecImpl<u64> for LogIndex {
    open spec fn obeys_from_spec() -> bool {
        true
    }

    open spec fn from_spec(n: u64) -> LogIndex {
        LogIndex(n)
    }
}

} // verus!
