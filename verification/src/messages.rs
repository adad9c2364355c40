//! The Raft message set, as plain values. Decoding from and encoding to a
//! wire format happens outside the library; the handlers of
//! [`crate::replica::Replica`] take these request values and produce these
//! responses.

use vstd::prelude::*;

use crate::{LogIndex, Term};

verus! {

/// An `AppendEntries` request: the leader's term, the index and term of the
/// entry immediately before the ones carried, the carried payloads, and the
/// leader's commit index.
pub struct AppendEntriesRequest {
    pub term: Term,
    pub prev_log_index: LogIndex,
    pub prev_log_term: Term,
    pub entries: Vec<Vec<u8>>,
    pub leader_commit: LogIndex,
}

/// The mathematical content of an [`AppendEntriesRequest`]: the same fields
/// with the payloads as sequences.
pub struct AppendEntriesRequestView {
    pub term: u64,
    pub prev_log_index: u64,
    pub prev_log_term: u64,
    pub entries: Seq<Seq<u8>>,
    pub leader_commit: u64,
}

impl View for AppendEntriesRequest {
    type V = AppendEntriesRequestView;

    open spec fn view(&self) -> AppendEntriesRequestView {
        AppendEntriesRequestView {
            term: self.term.0,
            prev_log_index: self.prev_log_index.0,
            prev_log_term: self.prev_log_term.0,
            entries: self.entries@.map_values(|e: Vec<u8>| e@),
            leader_commit: self.leader_commit.0,
        }
    }
}

impl AppendEntriesRequest {
    /// An empty request, for callers that hand a handler a buffer to fill.
    pub fn blank() -> (r: AppendEntriesRequest)
        ensures
            r@ == (AppendEntriesRequestView {
                term: 0,
                prev_log_index: 0,
                prev_log_term: 0,
                entries: Seq::<Seq<u8>>::empty(),
                leader_commit: 0,
            }),
    {
        let r = AppendEntriesRequest {
            term: Term(0),
            prev_log_index: LogIndex(0),
            prev_log_term: Term(0),
            entries: Vec::new(),
            leader_commit: LogIndex(0),
        };
        proof {
            assert(r@.entries =~= Seq::<Seq<u8>>::empty());
        }
        r
    }
}

/// The outcome reported by an `AppendEntries` response. Exactly one variant
/// is set, by construction.
#[derive(Clone, Copy, PartialEq, Eq, Structural, Debug)]
pub enum AppendEntriesResult {
    /// The request's term was behind the receiver's current term.
    StaleTerm,
    /// The receiver's log has no entry matching `prev_log_index` /
    /// `prev_log_term`.
    InconsistentPrevEntry,
    /// The entries were accepted.
    Success,
}

/// An `AppendEntries` response: the responder's term and the outcome.
#[derive(Clone, Copy, PartialEq, Eq, Structural, Debug)]
pub struct AppendEntriesResponse {
    pub term: Term,
    pub result: AppendEntriesResult,
}

/// A `RequestVote` request: the candidate's term and the index and term of
/// the last entry of its log.
#[derive(Clone, Copy, PartialEq, Eq, Structural, Debug)]
pub struct RequestVoteRequest {
    pub term: Term,
    pub last_log_index: LogIndex,
    pub last_log_term: Term,
}

impl RequestVoteRequest {
    /// An empty request, for callers that hand a handler a buffer to fill.
    pub fn blank() -> (r: RequestVoteRequest)
        ensures
            r == (RequestVoteRequest {
                term: Term(0),
                last_log_index: LogIndex(0),
                last_log_term: Term(0),
            }),
    {
        RequestVoteRequest { term: Term(0), last_log_index: LogIndex(0), last_log_term: Term(0) }
    }
}

/// The outcome reported by a `RequestVote` response. Exactly one variant is
/// set, by construction.
#[derive(Clone, Copy, PartialEq, Eq, Structural, Debug)]
pub enum RequestVoteResult {
    /// The candidate's term was behind the receiver's current term.
    StaleTerm,
    /// The candidate's log is not at least as up-to-date as the receiver's.
    InconsistentLog,
    /// The vote was granted.
    Granted,
    /// The receiver already voted for another candidate this term.
    AlreadyVoted,
}

/// A `RequestVote` response: the responder's term and the outcome.
#[derive(Clone, Copy, PartialEq, Eq, Structural, Debug)]
pub struct RequestVoteResponse {
    pub term: Term,
    pub result: RequestVoteResult,
}

/// A client request: a command payload to be appended to the replicated
/// log.
pub struct ClientRequest {
    pub payload: Vec<u8>,
}

} // verus!
