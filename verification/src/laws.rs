//! Cluster-level guarantees of the replica automaton, each proved from the
//! handler transition functions of [`crate::replica`].

use vstd::prelude::*;

use crate::messages::{AppendEntriesRequestView, AppendEntriesResponse, RequestVoteRequest};
use crate::replica::{
    ae_request_step, candidate_votes, log_up_to_date, rv_request_step, FatalError, ReplicaView,
};
use crate::NodeId;

verus! {

/// The request was accepted and its entries taken.
pub open spec fn ae_success(r: Result<AppendEntriesResponse, FatalError>) -> bool {
    match r {
        Ok(resp) => resp.result is Success,
        Err(_) => false,
    }
}

/// Handling a request never lowers the term: the term is a monotonic
/// logical clock.
pub proof fn lemma_term_monotonic(
    v: ReplicaView,
    candidate: NodeId,
    rv: RequestVoteRequest,
    ae: AppendEntriesRequestView,
)
    ensures
        rv_request_step(v, candidate, rv).0.term >= v.term,
        ae_request_step(v, ae).0.term >= v.term,
{
}

/// Only a follower ever truncates its log. An `AppendEntries` request that
/// shortens the log leaves the replica a follower, and a replica that is
/// still leader afterwards is untouched: a leader never overwrites or
/// deletes its own entries.
pub proof fn lemma_only_followers_truncate(v: ReplicaView, req: AppendEntriesRequestView)
    ensures
        ae_request_step(v, req).0.log.len() < v.log.len() ==> ae_request_step(
            v,
            req,
        ).0.role is Follower,
        ae_request_step(v, req).0.role is Leader ==> ae_request_step(v, req).0 == v,
{
}

/// A candidate's tally always counts its own vote. A `RequestVote` request
/// leaves the role and the tally alone, and an `AppendEntries` request
/// never leaves a replica a candidate unless it left it entirely alone.
pub proof fn lemma_candidate_tally_request_vote(
    v: ReplicaView,
    candidate: NodeId,
    req: RequestVoteRequest,
)
    requires
        v.role is Candidate ==> candidate_votes(v.role) >= 1,
    ensures
        rv_request_step(v, candidate, req).0.role == v.role,
        rv_request_step(v, candidate, req).0.role is Candidate ==> candidate_votes(
            rv_request_step(v, candidate, req).0.role,
        ) >= 1,
{
}

/// The `AppendEntries` side of the candidate self-vote invariant.
pub proof fn lemma_candidate_tally_append_entries(v: ReplicaView, req: AppendEntriesRequestView)
    requires
        v.role is Candidate ==> candidate_votes(v.role) >= 1,
    ensures
        ae_request_step(v, req).0.role is Candidate ==> candidate_votes(
            ae_request_step(v, req).0.role,
        ) >= 1,
{
}

/// Granting a vote records it and stands campaigning down: afterwards the
/// vote belongs to the requester and the next tick will not campaign.
pub proof fn lemma_grant_records_vote(v: ReplicaView, candidate: NodeId, req: RequestVoteRequest)
    ensures
        rv_request_step(v, candidate, req).1.result is Granted ==> rv_request_step(
            v,
            candidate,
            req,
        ).0.voted_for == Some(candidate) && !rv_request_step(v, candidate, req).0.should_campaign,
{
}

/// Granting is idempotent: the same candidate asking again with the same
/// request is granted again, and the replica does not change further.
pub proof fn lemma_vote_grant_idempotent(v: ReplicaView, candidate: NodeId, req: RequestVoteRequest)
    requires
        rv_request_step(v, candidate, req).1.result is Granted,
    ensures
        rv_request_step(rv_request_step(v, candidate, req).0, candidate, req).1.result is Granted,
        rv_request_step(rv_request_step(v, candidate, req).0, candidate, req).0 == rv_request_step(
            v,
            candidate,
            req,
        ).0,
{
    let v1 = rv_request_step(v, candidate, req).0;
    let v2 = rv_request_step(v1, candidate, req).0;
    assert(v2 =~~= v1);
}

/// A vote is exclusive within a term: after granting one candidate, a
/// different candidate of the same term is refused with `AlreadyVoted`,
/// however up-to-date its log.
pub proof fn lemma_vote_is_exclusive(
    v: ReplicaView,
    first: NodeId,
    second: NodeId,
    req1: RequestVoteRequest,
    req2: RequestVoteRequest,
)
    requires
        first != second,
        rv_request_step(v, first, req1).1.result is Granted,
        req2.term.0 == rv_request_step(v, first, req1).0.term,
        log_up_to_date(
            rv_request_step(v, first, req1).0.log,
            req2.last_log_term.0,
            req2.last_log_index.0,
        ),
    ensures
        rv_request_step(rv_request_step(v, first, req1).0, second, req2).1.result is AlreadyVoted,
{
}

/// Replaying an `AppendEntries` request is idempotent: a request that
/// succeeded succeeds again, and the replica — the log in particular —
/// does not change further. No entry is duplicated by the replay.
pub proof fn lemma_append_entries_idempotent(v: ReplicaView, req: AppendEntriesRequestView)
    requires
        ae_success(ae_request_step(v, req).1),
    ensures
        ae_success(ae_request_step(ae_request_step(v, req).0, req).1),
        ae_request_step(ae_request_step(v, req).0, req).0 == ae_request_step(v, req).0,
{
    let v1 = ae_request_step(v, req).0;
    let v2 = ae_request_step(v1, req).0;
    let prev = req.prev_log_index as int;
    if prev > 0 {
        assert(v1.log[prev - 1] == v.log[prev - 1]);
    }
    assert(v2.log =~~= v1.log);
    assert(v2 =~~= v1);
}

} // verus!
