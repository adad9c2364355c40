//! The durable log and vote store that a replica owns. [`Store`] states the
//! contract the consensus core relies on; [`MemStore`] is a verified
//! in-memory implementation of it.

use vstd::prelude::*;

use crate::{clone_bytes, LogIndex, NodeId, Term};

verus! {

/// A log entry in the model: its term and its payload.
pub type EntryView = (u64, Seq<u8>);

/// The term of the last entry of `log`, with 0 for an empty log.
pub open spec fn latest_term_of(log: Seq<EntryView>) -> u64 {
    if log.len() == 0 {
        0
    } else {
        log.last().0
    }
}

/// `log` with `xs` written over the positions starting at `at` (0-based).
/// Positions beyond `at + xs.len()` keep their old entries; the log grows
/// where `xs` reaches past its end.
pub open spec fn splice_at(log: Seq<EntryView>, at: int, xs: Seq<EntryView>) -> Seq<EntryView>
    recommends
        0 <= at <= log.len(),
{
    log.take(at) + xs + (if log.len() > at + xs.len() {
        log.skip(at + xs.len())
    } else {
        Seq::<EntryView>::empty()
    })
}

/// The model of a `(Term, payload)` pair held by a store.
pub open spec fn entry_view(e: (Term, Vec<u8>)) -> EntryView {
    (e.0.0, e.1@)
}

/// The durable state a replica owns: the current term, the vote record of
/// that term, and the log. Every mutation is durable before the method
/// returns, so a reply released after it cannot outrun the persisted state.
pub trait Store: Sized {
    /// The durable current term.
    spec fn term_spec(&self) -> u64;

    /// The durable vote record; cleared whenever the term advances.
    spec fn voted_for_spec(&self) -> Option<NodeId>;

    /// The durable log; entry `i` of the model sits at 1-based index
    /// `i + 1`.
    spec fn log_spec(&self) -> Seq<EntryView>;

    /// Durable read of the current term.
    fn current_term(&self) -> (t: Term)
        ensures
            t.0 == self.term_spec(),
    ;

    /// Persist a strictly greater term, clearing the vote record in the
    /// same durable transaction.
    fn set_current_term(&mut self, t: Term)
        requires
            old(self).term_spec() < t.0,
        ensures
            final(self).term_spec() == t.0,
            final(self).voted_for_spec() is None,
            final(self).log_spec() == old(self).log_spec(),
    ;

    /// Persist `current_term + 1`, clearing the vote record in the same
    /// durable transaction.
    fn inc_current_term(&mut self)
        requires
            old(self).term_spec() < u64::MAX,
        ensures
            final(self).term_spec() == old(self).term_spec() + 1,
            final(self).voted_for_spec() is None,
            final(self).log_spec() == old(self).log_spec(),
    ;

    /// Durable read of the vote record.
    fn voted_for(&self) -> (v: Option<NodeId>)
        ensures
            v == self.voted_for_spec(),
    ;

    /// Persist a vote for `node` within the current term.
    fn set_voted_for(&mut self, node: NodeId)
        ensures
            final(self).voted_for_spec() == Some(node),
            final(self).term_spec() == old(self).term_spec(),
            final(self).log_spec() == old(self).log_spec(),
    ;

    /// The 1-based index of the last log entry; 0 when the log is empty.
    fn latest_log_index(&self) -> (i: LogIndex)
        ensures
            i.0 as int == self.log_spec().len(),
    ;

    /// The term of the last log entry; 0 when the log is empty.
    fn latest_log_term(&self) -> (t: Term)
        ensures
            t.0 == latest_term_of(self.log_spec()),
    ;

    /// Point-read of the entry at a 1-based index within the log.
    fn entry(&self, index: LogIndex) -> (e: (Term, Vec<u8>))
        requires
            1 <= index.0,
            index.0 as int <= self.log_spec().len(),
        ensures
            entry_view(e) == self.log_spec()[index.0 as int - 1],
    ;

    /// Atomically place `entries` at the 1-based positions starting at
    /// `from_index`, overwriting anything already there and growing the log
    /// where they reach past its end.
    fn append_entries(&mut self, from_index: LogIndex, entries: &Vec<(Term, Vec<u8>)>)
        requires
            1 <= from_index.0,
            from_index.0 as int <= old(self).log_spec().len() + 1,
            from_index.0 as int + entries@.len() <= u64::MAX as int + 1,
        ensures
            final(self).log_spec() == splice_at(
                old(self).log_spec(),
                from_index.0 as int - 1,
                entries@.map_values(|e: (Term, Vec<u8>)| entry_view(e)),
            ),
            final(self).term_spec() == old(self).term_spec(),
            final(self).voted_for_spec() == old(self).voted_for_spec(),
    ;

    /// Remove the entries at 1-based indices `>= index`; `index` becomes
    /// one past the new end.
    fn truncate_entries(&mut self, index: LogIndex)
        requires
            1 <= index.0,
            index.0 as int <= old(self).log_spec().len() + 1,
        ensures
            final(self).log_spec() == old(self).log_spec().take(index.0 as int - 1),
            final(self).term_spec() == old(self).term_spec(),
            final(self).voted_for_spec() == old(self).voted_for_spec(),
    ;
}

/// A [`Store`] kept entirely in memory, for tests and single-process use.
pub struct MemStore {
    current_term: u64,
    voted_for: Option<NodeId>,
    log: Vec<(Term, Vec<u8>)>,
}

impl MemStore {
    /// An empty store: term 0, no vote, no entries.
    pub fn new() -> (s: MemStore)
        ensures
            s.term_spec() == 0,
            s.voted_for_spec() is None,
            s.log_spec() == Seq::<EntryView>::empty(),
    {
        let s = MemStore { current_term: 0, voted_for: None, log: Vec::new() };
        proof {
            assert(s.log_spec() =~= Seq::<EntryView>::empty());
        }
        s
    }
}

impl Store for MemStore {
    closed spec fn term_spec(&self) -> u64 {
        self.current_term
    }

    closed spec fn voted_for_spec(&self) -> Option<NodeId> {
        self.voted_for
    }

    closed spec fn log_spec(&self) -> Seq<EntryView> {
        self.log@.map_values(|e: (Term, Vec<u8>)| entry_view(e))
    }

    fn current_term(&self) -> (t: Term) {
        Term(self.current_term)
    }

    fn set_current_term(&mut self, t: Term) {
        self.current_term = t.0;
        self.voted_for = None;
    }

    fn inc_current_term(&mut self) {
        self.current_term = self.current_term + 1;
        self.voted_for = None;
    }

    fn voted_for(&self) -> (v: Option<NodeId>) {
        self.voted_for
    }

    fn set_voted_for(&mut self, node: NodeId) {
        self.voted_for = Some(node);
    }

    fn latest_log_index(&self) -> (i: LogIndex) {
        LogIndex(self.log.len() as u64)
    }

    fn latest_log_term(&self) -> (t: Term) {
        if self.log.len() == 0 {
            Term(0)
        } else {
            Term(self.log[self.log.len() - 1].0.0)
        }
    }

    fn entry(&self, index: LogIndex) -> (e: (Term, Vec<u8>)) {
        let n = self.log.len();
        proof {
            assert(self.log_spec().len() == self.log@.len());
        }
        let i = (index.0 - 1) as usize;
        let term = self.log[i].0;
        let payload = clone_bytes(&self.log[i].1);
        proof {
            assert(self.log_spec()[index.0 as int - 1] == entry_view(self.log@[i as int]));
        }
        (term, payload)
    }

    fn append_entries(&mut self, from_index: LogIndex, entries: &Vec<(Term, Vec<u8>)>) {
        let ghost old_log = self.log_spec();
        let ghost mapped = entries@.map_values(|e: (Term, Vec<u8>)| entry_view(e));
        let n = self.log.len();
        proof {
            assert(old_log.len() == self.log@.len());
            assert(from_index.0 - 1 <= n);
        }
        let at = (from_index.0 - 1) as usize;
        let mut i: usize = 0;
        while i < entries.len()
            invariant
                i <= entries@.len(),
                at + entries@.len() <= u64::MAX,
                at as int <= old_log.len(),
                at + i <= self.log@.len(),
                self.log_spec().len() == if old_log.len() > at + i {
                    old_log.len() as int
                } else {
                    at + i
                },
                forall|j: int| 0 <= j < at ==> self.log_spec()[j] == old_log[j],
                forall|j: int|
                    at <= j < at + i ==> self.log_spec()[j] == mapped[j - at],
                forall|j: int|
                    at + i <= j < self.log_spec().len() ==> self.log_spec()[j] == old_log[j],
                self.current_term == old(self).term_spec(),
                self.voted_for == old(self).voted_for_spec(),
                mapped == entries@.map_values(|e: (Term, Vec<u8>)| entry_view(e)),
            decreases entries@.len() - i,
        {
            let cur_len = self.log.len();
            let e = (entries[i].0, clone_bytes(&entries[i].1));
            let ghost ev = entry_view(e);
            proof {
                assert(mapped[i as int] == entry_view(entries@[i as int]));
                assert(ev == mapped[i as int]);
                assert(at + i <= cur_len);
            }
            let idx = at + i;
            let ghost prev_view = self.log@;
            let ghost prev_spec = self.log_spec();
            if idx < cur_len {
                self.log.set(idx, e);
            } else {
                self.log.push(e);
            }
            proof {
                assert forall|j: int|
                    0 <= j < prev_spec.len() && j != at + i implies self.log_spec()[j]
                    == prev_spec[j] by {
                    assert(self.log@[j] == prev_view[j]);
                    assert(self.log_spec()[j] == entry_view(self.log@[j]));
                    assert(prev_spec[j] == entry_view(prev_view[j]));
                }
                assert(entry_view(self.log@[at + i]) == ev);
                assert(self.log_spec()[at + i] == entry_view(self.log@[at + i]));
                assert forall|j: int|
                    at <= j < at + i + 1 implies self.log_spec()[j] == mapped[j - at] by {
                    if j < at + i {
                        assert(prev_spec[j] == mapped[j - at]);
                        assert(self.log_spec()[j] == prev_spec[j]);
                    } else {
                        assert(j == at + i);
                        assert(self.log_spec()[j] == ev);
                        assert(mapped[j - at] == ev);
                    }
                }
            }
            i = i + 1;
        }
        proof {
            assert(self.log_spec() =~= splice_at(old_log, at as int, mapped));
        }
    }

    fn truncate_entries(&mut self, index: LogIndex) {
        let ghost old_log = self.log_spec();
        let k = (index.0 - 1) as usize;
        self.log.truncate(k);
        proof {
            assert(self.log_spec() =~= old_log.take(index.0 as int - 1));
        }
    }
}

} // verus!
