use raft::messages::{
    AppendEntriesRequest, AppendEntriesResult, ClientRequest, RequestVoteRequest,
    RequestVoteResult,
};
use raft::replica::{FatalError, LeaderState, Replica, HEARTBEAT_MAX, HEARTBEAT_MIN};
use raft::state_machine::{RecordingStateMachine, StateMachine};
use raft::store::{MemStore, Store};
use raft::{LogIndex, Term};

type TestReplica = Replica<MemStore, RecordingStateMachine>;

fn new_replica(addr: u64, peers: Vec<u64>) -> TestReplica {
    Replica::new(addr, peers, MemStore::new(), RecordingStateMachine::new())
}

fn new_replica_with_store(addr: u64, peers: Vec<u64>, store: MemStore) -> TestReplica {
    Replica::new(addr, peers, store, RecordingStateMachine::new())
}

fn append_request(
    term: u64,
    prev_log_index: u64,
    prev_log_term: u64,
    entries: Vec<Vec<u8>>,
    leader_commit: u64,
) -> AppendEntriesRequest {
    AppendEntriesRequest {
        term: Term(term),
        prev_log_index: LogIndex(prev_log_index),
        prev_log_term: Term(prev_log_term),
        entries,
        leader_commit: LogIndex(leader_commit),
    }
}

fn vote_request(term: u64, last_log_index: u64, last_log_term: u64) -> RequestVoteRequest {
    RequestVoteRequest {
        term: Term(term),
        last_log_index: LogIndex(last_log_index),
        last_log_term: Term(last_log_term),
    }
}

/// Tests that a single-replica cluster will behave appropriately.
///
/// The single replica should transition straight to the Leader state upon
/// the first timeout.
#[test]
fn test_solitary_replica_transition_to_leader() {
    let mut replica = new_replica(0, vec![]);
    assert!(replica.is_follower());

    let mut message = RequestVoteRequest::blank();
    let (_, send_message) = replica.timeout(&mut message);
    assert!(!send_message);
    assert!(replica.is_leader());
}

/// A simple election test of a two-replica cluster.
#[test]
fn test_election() {
    let mut replica1 = new_replica(0, vec![1]);
    let mut replica2 = new_replica(1, vec![0]);

    // Trigger replica1's timeout, and make sure it transitions to candidate.
    let mut request = RequestVoteRequest::blank();
    let (_, send_message) = replica1.timeout(&mut request);
    assert!(send_message);
    assert!(replica1.is_candidate());

    // Send replica1's RequestVoteRequest to replica2.
    let resp = replica2.request_vote_request(replica1.addr(), &request);
    assert!(resp.result == RequestVoteResult::Granted);

    // Trigger replica2's timeout, and make sure it does *not* transition to
    // candidate, since it has already voted in an election during this
    // timeout period.
    let mut request2 = RequestVoteRequest::blank();
    let (_, send_message) = replica2.timeout(&mut request2);
    assert!(!send_message);

    // Return success vote to candidate, and make sure it transitions to
    // leader.
    let mut heartbeat = AppendEntriesRequest::blank();
    let send_message = replica1.request_vote_response(replica2.addr(), &resp, &mut heartbeat);
    assert!(send_message);
    assert!(replica1.is_leader());
    assert!(replica1.current_term() == Term::from(1));
}

/// A solitary leader's first timeout advances the term and records the
/// vote for itself.
#[test]
fn solitary_leader_term_and_vote() {
    let mut replica = new_replica(7, vec![]);
    let mut message = RequestVoteRequest::blank();
    let (_, send_message) = replica.timeout(&mut message);
    assert!(!send_message);
    assert!(replica.is_leader());
    assert_eq!(replica.current_term(), Term(1));
    assert_eq!(replica.voted_for(), Some(7));
}

/// The randomized timeout delay always lies in `[150, 300)`.
#[test]
fn timeout_delay_in_range() {
    let mut replica = new_replica(0, vec![1]);
    for _ in 0..200 {
        let mut message = RequestVoteRequest::blank();
        let (delay, _) = replica.timeout(&mut message);
        assert!(HEARTBEAT_MIN <= delay && delay < HEARTBEAT_MAX);
    }
}

/// The quorum of a cluster of n members is n/2 + 1.
#[test]
fn majority_of_small_clusters() {
    assert_eq!(new_replica(0, vec![]).majority(), 1);
    assert_eq!(new_replica(0, vec![1]).majority(), 2);
    assert_eq!(new_replica(0, vec![1, 2]).majority(), 2);
    assert_eq!(new_replica(0, vec![1, 2, 3]).majority(), 3);
    assert_eq!(new_replica(0, vec![1, 2, 3, 4]).majority(), 3);
}

/// An AppendEntries request of an earlier term is rejected with the
/// receiver's own term, and nothing changes.
#[test]
fn stale_term_append_entries_rejected() {
    let mut store = MemStore::new();
    store.set_current_term(Term(5));
    let mut replica = new_replica_with_store(0, vec![1], store);

    let request = append_request(3, 0, 0, vec![], 0);
    let response = replica.append_entries_request(1, &request).unwrap();
    assert_eq!(response.result, AppendEntriesResult::StaleTerm);
    assert_eq!(response.term, Term(5));
    assert!(replica.is_follower());
    assert_eq!(replica.current_term(), Term(5));
}

/// A conflicting previous entry truncates the log from the conflict on and
/// reports the inconsistency; the follower adopts the leader's term.
#[test]
fn log_conflict_truncates() {
    let mut store = MemStore::new();
    store.append_entries(
        LogIndex(1),
        &vec![
            (Term(1), b"a".to_vec()),
            (Term(1), b"b".to_vec()),
            (Term(2), b"c".to_vec()),
        ],
    );
    let mut replica = new_replica_with_store(0, vec![1], store);

    let request = append_request(3, 3, 1, vec![b"x".to_vec()], 0);
    let response = replica.append_entries_request(1, &request).unwrap();
    assert_eq!(response.result, AppendEntriesResult::InconsistentPrevEntry);
    assert_eq!(replica.current_term(), Term(3));

    // The entry at index 2 (term 1) survived: a request built on it
    // succeeds.
    let probe_kept = append_request(3, 2, 1, vec![], 0);
    let response = replica.append_entries_request(1, &probe_kept).unwrap();
    assert_eq!(response.result, AppendEntriesResult::Success);

    // Index 3 is gone: a request built on it is inconsistent because the
    // log is now too short.
    let probe_gone = append_request(3, 3, 2, vec![], 0);
    let response = replica.append_entries_request(1, &probe_gone).unwrap();
    assert_eq!(response.result, AppendEntriesResult::InconsistentPrevEntry);
}

/// Elects `replica` (whose single peer is `peer`) leader.
fn elect_leader(replica: &mut TestReplica, peer: u64) {
    let mut request = RequestVoteRequest::blank();
    let (_, send_message) = replica.timeout(&mut request);
    assert!(send_message);
    let granted = raft::messages::RequestVoteResponse {
        term: request.term,
        result: RequestVoteResult::Granted,
    };
    let mut heartbeat = AppendEntriesRequest::blank();
    let became_leader = replica.request_vote_response(peer, &granted, &mut heartbeat);
    assert!(became_leader);
    assert!(replica.is_leader());
}

/// An AppendEntries of a later term deposes the leader: it becomes a
/// follower of the new term and processes the request.
#[test]
fn higher_term_append_entries_deposes_leader() {
    let mut store = MemStore::new();
    store.set_current_term(Term(3));
    let mut replica = new_replica_with_store(0, vec![1], store);
    elect_leader(&mut replica, 1);
    assert_eq!(replica.current_term(), Term(4));

    let request = append_request(5, 0, 0, vec![], 0);
    let response = replica.append_entries_request(1, &request).unwrap();
    assert_eq!(response.result, AppendEntriesResult::Success);
    assert_eq!(response.term, Term(5));
    assert!(replica.is_follower());
    assert_eq!(replica.current_term(), Term(5));
}

/// Two leaders of one term break the protocol: the receiver reports the
/// fatal error and the caller must abort.
#[test]
fn second_leader_of_same_term_is_fatal() {
    let mut store = MemStore::new();
    store.set_current_term(Term(3));
    let mut replica = new_replica_with_store(0, vec![1], store);
    elect_leader(&mut replica, 1);
    assert_eq!(replica.current_term(), Term(4));

    let request = append_request(4, 0, 0, vec![], 0);
    let result = replica.append_entries_request(1, &request);
    assert_eq!(result, Err(FatalError::MultipleLeaders));
    assert!(replica.is_leader());
    assert_eq!(replica.current_term(), Term(4));
}

/// Granting a vote is idempotent: the same candidate with an unchanged
/// term is granted again.
#[test]
fn vote_grant_is_idempotent() {
    let mut replica = new_replica(0, vec![1, 2]);
    let request = vote_request(1, 0, 0);
    let first = replica.request_vote_request(1, &request);
    assert_eq!(first.result, RequestVoteResult::Granted);
    assert_eq!(replica.voted_for(), Some(1));
    let second = replica.request_vote_request(1, &request);
    assert_eq!(second.result, RequestVoteResult::Granted);
    assert_eq!(replica.voted_for(), Some(1));
}

/// A vote is exclusive: a different candidate of the same term is refused.
#[test]
fn vote_is_exclusive_within_term() {
    let mut replica = new_replica(0, vec![1, 2]);
    let request = vote_request(1, 0, 0);
    let first = replica.request_vote_request(1, &request);
    assert_eq!(first.result, RequestVoteResult::Granted);
    let other = replica.request_vote_request(2, &request);
    assert_eq!(other.result, RequestVoteResult::AlreadyVoted);
    assert_eq!(replica.voted_for(), Some(1));
}

/// A candidate whose term lags is refused with the receiver's term.
#[test]
fn stale_term_vote_rejected() {
    let mut store = MemStore::new();
    store.set_current_term(Term(5));
    let mut replica = new_replica_with_store(0, vec![1], store);
    let response = replica.request_vote_request(1, &vote_request(3, 9, 3));
    assert_eq!(response.result, RequestVoteResult::StaleTerm);
    assert_eq!(response.term, Term(5));
}

/// A candidate whose log is behind the receiver's is refused.
#[test]
fn less_up_to_date_log_vote_rejected() {
    let mut store = MemStore::new();
    store.append_entries(LogIndex(1), &vec![(Term(1), b"a".to_vec())]);
    let mut replica = new_replica_with_store(0, vec![1], store);
    let response = replica.request_vote_request(1, &vote_request(1, 0, 0));
    assert_eq!(response.result, RequestVoteResult::InconsistentLog);
}

/// Up-to-date is judged by last term first: a candidate with a later last
/// log term wins the comparison even with a shorter log.
#[test]
fn up_to_date_compares_term_before_index() {
    let mut store = MemStore::new();
    store.append_entries(
        LogIndex(1),
        &vec![(Term(1), b"a".to_vec()), (Term(1), b"b".to_vec())],
    );
    let mut replica = new_replica_with_store(0, vec![1], store);
    // Shorter log (1 < 2) but a later last term (2 > 1): up-to-date.
    let response = replica.request_vote_request(1, &vote_request(3, 1, 2));
    assert_eq!(response.result, RequestVoteResult::Granted);
}

/// Replaying an AppendEntries with identical fields succeeds both times
/// and leaves the log idempotent: no entry is duplicated.
#[test]
fn append_entries_replay_is_idempotent() {
    let mut replica = new_replica(0, vec![1]);
    let request = append_request(1, 0, 0, vec![b"x".to_vec(), b"y".to_vec()], 0);
    let first = replica.append_entries_request(1, &request).unwrap();
    assert_eq!(first.result, AppendEntriesResult::Success);
    let second = replica.append_entries_request(1, &request).unwrap();
    assert_eq!(second.result, AppendEntriesResult::Success);

    // The log holds exactly the two entries: index 2 exists, index 3 does
    // not.
    let probe_two = append_request(1, 2, 1, vec![], 0);
    assert_eq!(
        replica.append_entries_request(1, &probe_two).unwrap().result,
        AppendEntriesResult::Success
    );
    let probe_three = append_request(1, 3, 1, vec![], 0);
    assert_eq!(
        replica.append_entries_request(1, &probe_three).unwrap().result,
        AppendEntriesResult::InconsistentPrevEntry
    );
}

/// A granted vote stands campaigning down for one tick; an AppendEntries
/// from a live leader does too.
#[test]
fn campaign_stands_down_after_heartbeat() {
    let mut replica = new_replica(0, vec![1]);
    let request = append_request(1, 0, 0, vec![], 0);
    let response = replica.append_entries_request(1, &request).unwrap();
    assert_eq!(response.result, AppendEntriesResult::Success);
    // The campaign flag was cleared, so this tick does not campaign.
    let mut message = RequestVoteRequest::blank();
    let (_, send_message) = replica.timeout(&mut message);
    assert!(!send_message);
    assert!(replica.is_follower());
    // The flag re-armed at the end of the tick: the next tick campaigns.
    let (_, send_message) = replica.timeout(&mut message);
    assert!(send_message);
    assert!(replica.is_candidate());
}

/// A leader appends a client command to its own log; any other role turns
/// the client away.
#[test]
fn client_request_appends_on_leader_only() {
    let mut replica = new_replica(0, vec![1]);
    let request = ClientRequest { payload: b"cmd".to_vec() };
    assert_eq!(replica.client_request(9, &request), None);

    elect_leader(&mut replica, 1);
    assert_eq!(replica.client_request(9, &request), Some(LogIndex(1)));
    assert_eq!(replica.client_request(9, &request), Some(LogIndex(2)));
}

/// The leader's reaction to an inconsistency report: walk the responder's
/// next index back and resend everything from there, with the entry before
/// it as the consistency point.
#[test]
fn leader_retries_after_inconsistency() {
    let mut replica = new_replica(0, vec![1]);
    elect_leader(&mut replica, 1);
    let command = ClientRequest { payload: b"cmd".to_vec() };
    assert_eq!(replica.client_request(9, &command), Some(LogIndex(1)));

    let inconsistent = raft::messages::AppendEntriesResponse {
        term: Term(1),
        result: AppendEntriesResult::InconsistentPrevEntry,
    };
    let mut retry = AppendEntriesRequest::blank();
    let send = replica.append_entries_response(1, &inconsistent, &mut retry);
    assert!(send);
    assert_eq!(retry.term, Term(1));
    assert_eq!(retry.prev_log_index, LogIndex(0));
    assert_eq!(retry.prev_log_term, Term(0));
    assert_eq!(retry.entries, vec![b"cmd".to_vec()]);
    assert_eq!(retry.leader_commit, LogIndex(0));
}

/// A success report needs no reply; a response of a later term deposes the
/// leader.
#[test]
fn leader_bookkeeping_on_responses() {
    let mut replica = new_replica(0, vec![1]);
    elect_leader(&mut replica, 1);

    let success = raft::messages::AppendEntriesResponse {
        term: Term(1),
        result: AppendEntriesResult::Success,
    };
    let mut message = AppendEntriesRequest::blank();
    assert!(!replica.append_entries_response(1, &success, &mut message));
    assert!(replica.is_leader());

    let later = raft::messages::AppendEntriesResponse {
        term: Term(9),
        result: AppendEntriesResult::Success,
    };
    assert!(!replica.append_entries_response(1, &later, &mut message));
    assert!(replica.is_follower());
    assert_eq!(replica.current_term(), Term(9));
}

/// Persisting a term — set or increment — clears the vote record in the
/// same transaction, and the term reads back.
#[test]
fn store_term_advance_clears_vote() {
    let mut store = MemStore::new();
    assert_eq!(store.current_term(), Term(0));
    store.set_voted_for(3);
    assert_eq!(store.voted_for(), Some(3));
    store.set_current_term(Term(2));
    assert_eq!(store.current_term(), Term(2));
    assert_eq!(store.voted_for(), None);
    store.set_voted_for(4);
    store.inc_current_term();
    assert_eq!(store.current_term(), Term(3));
    assert_eq!(store.voted_for(), None);
}

/// The store's log: append at a position overwrites from there, reads
/// return what was placed, truncation drops a suffix.
#[test]
fn store_log_operations() {
    let mut store = MemStore::new();
    assert_eq!(store.latest_log_index(), LogIndex(0));
    assert_eq!(store.latest_log_term(), Term(0));

    store.append_entries(
        LogIndex(1),
        &vec![(Term(1), b"a".to_vec()), (Term(2), b"b".to_vec())],
    );
    assert_eq!(store.latest_log_index(), LogIndex(2));
    assert_eq!(store.latest_log_term(), Term(2));
    assert_eq!(store.entry(LogIndex(1)), (Term(1), b"a".to_vec()));
    assert_eq!(store.entry(LogIndex(2)), (Term(2), b"b".to_vec()));

    store.append_entries(LogIndex(2), &vec![(Term(3), b"c".to_vec())]);
    assert_eq!(store.latest_log_index(), LogIndex(2));
    assert_eq!(store.entry(LogIndex(2)), (Term(3), b"c".to_vec()));

    store.truncate_entries(LogIndex(2));
    assert_eq!(store.latest_log_index(), LogIndex(1));
    assert_eq!(store.latest_log_term(), Term(1));
}

/// The recording state machine keeps every applied command, in order.
#[test]
fn state_machine_records_commands() {
    let mut machine = RecordingStateMachine::new();
    assert!(machine.applied().is_empty());
    assert_eq!(machine.apply(&b"one".to_vec()), None);
    assert_eq!(machine.apply(&b"two".to_vec()), None);
    assert_eq!(machine.applied(), &vec![b"one".to_vec(), b"two".to_vec()]);
}

/// The leader's progress records: defaults, updates, and quorum counting.
#[test]
fn leader_state_progress_records() {
    let mut state = LeaderState::new(LogIndex(4));
    // An unknown node starts one past the last index at election.
    assert_eq!(state.next_index(10), LogIndex(5));
    state.set_next_index(10, LogIndex(2));
    assert_eq!(state.next_index(10), LogIndex(2));
    // An unknown node has nothing known replicated.
    assert_eq!(state.match_index(10), LogIndex(0));
    state.set_match_index(10, LogIndex(3));
    state.set_match_index(11, LogIndex(1));
    assert_eq!(state.match_index(10), LogIndex(3));
    assert_eq!(state.count_match_indexes(LogIndex(1)), 2);
    assert_eq!(state.count_match_indexes(LogIndex(2)), 1);
    assert_eq!(state.count_match_indexes(LogIndex(4)), 0);
}
