//! The client state machine a replica drives. [`StateMachine`] states the
//! contract the core relies on: every committed command is handed over
//! exactly once, in log order. [`RecordingStateMachine`] is a verified
//! implementation that keeps the applied commands.

use vstd::prelude::*;

use crate::clone_bytes;

verus! {

/// A consumer of committed commands. The model is the sequence of commands
/// applied so far, in order.
pub trait StateMachine: Sized {
    /// The commands applied so far, in order.
    spec fn applied_spec(&self) -> Seq<Seq<u8>>;

    /// Apply one committed command, optionally yielding a response for the
    /// client. The command joins the end of the applied sequence.
    fn apply(&mut self, command: &Vec<u8>) -> (r: Option<Vec<u8>>)
        ensures
            final(self).applied_spec() == old(self).applied_spec().push(command@),
    ;
}

/// A [`StateMachine`] that keeps every applied command, in order.
pub struct RecordingStateMachine {
    applied: Vec<Vec<u8>>,
}

impl RecordingStateMachine {
    /// A machine with nothing applied yet.
    pub fn new() -> (m: RecordingStateMachine)
        ensures
            m.applied_spec() == Seq::<Seq<u8>>::empty(),
    {
        let m = RecordingStateMachine { applied: Vec::new() };
        proof {
            assert(m.applied_spec() =~= Seq::<Seq<u8>>::empty());
        }
        m
    }

    /// The commands applied so far, in order.
    pub fn applied(&self) -> (r: &Vec<Vec<u8>>)
        ensures
            r@.map_values(|c: Vec<u8>| c@) == self.applied_spec(),
    {
        &self.applied
    }
}

impl StateMachine for RecordingStateMachine {
    closed spec fn applied_spec(&self) -> Seq<Seq<u8>> {
        self.applied@.map_values(|c: Vec<u8>| c@)
    }

    fn apply(&mut self, command: &Vec<u8>) -> (r: Option<Vec<u8>>) {
        let ghost before = self.applied_spec();
        self.applied.push(clone_bytes(command));
        proof {
            assert(self.applied_spec() =~= before.push(command@));
        }
        None
    }
}

} // verus!
