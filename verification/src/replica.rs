//! The replica automaton of the consensus core: role state (Follower /
//! Candidate / Leader), the four message handlers, the timeout driver, and
//! the leader's per-peer progress bookkeeping.
//!
//! Every handler's contract relates the replica's model — a [`ReplicaView`]
//! assembling the durable store, the applied commands, and the volatile
//! role state — after the call to the model before it.

use vstd::prelude::*;

use crate::clone_bytes;
use crate::messages::{
    AppendEntriesRequest, AppendEntriesRequestView, AppendEntriesResponse, AppendEntriesResult,
    ClientRequest, RequestVoteRequest, RequestVoteResponse, RequestVoteResult,
};
use crate::state_machine::StateMachine;
use crate::store::{latest_term_of, splice_at, EntryView, Store};
use crate::{LogIndex, NodeId, Term};

verus! {

/// Elections time out after a uniformly random delay of at least this many
/// milliseconds.
pub const HEARTBEAT_MIN: u64 = 150;

/// Elections time out after a uniformly random delay of strictly less than
/// this many milliseconds.
pub const HEARTBEAT_MAX: u64 = 300;

/// Relies on `rand::random_range`: the draw is uniform over the half-open
/// range handed to it, so the result lies in
/// `[HEARTBEAT_MIN, HEARTBEAT_MAX)`.
#[verifier::external_body]
fn random_election_timeout() -> (r: u64)
    ensures
        HEARTBEAT_MIN <= r < HEARTBEAT_MAX,
{
    rand::random_range(HEARTBEAT_MIN..HEARTBEAT_MAX)
}

/// The smaller of two integers.
pub open spec fn min_i(a: int, b: int) -> int {
    if a < b {
        a
    } else {
        b
    }
}

/// The larger of two integers.
pub open spec fn max_i(a: int, b: int) -> int {
    if a < b {
        b
    } else {
        a
    }
}

/// The quorum size of a cluster of `cluster` members.
pub open spec fn majority_spec(cluster: int) -> int {
    cluster / 2 + 1
}

/// No key occurs twice in the association list `s`.
pub open spec fn assoc_keys_unique(s: Seq<(NodeId, u64)>) -> bool {
    forall|i: int, j: int| 0 <= i < j < s.len() ==> s[i].0 != s[j].0
}

/// Some pair of `s` carries the key `k`.
pub open spec fn assoc_has(s: Seq<(NodeId, u64)>, k: NodeId) -> bool {
    exists|i: int| 0 <= i < s.len() && s[i].0 == k
}

/// The position of the pair carrying `k`; meaningful under
/// [`assoc_keys_unique`] and [`assoc_has`].
pub open spec fn assoc_index_of(s: Seq<(NodeId, u64)>, k: NodeId) -> int {
    choose|i: int| 0 <= i < s.len() && s[i].0 == k
}

/// The value at key `k`, or `d` where `s` has no such key.
pub open spec fn assoc_get_or(s: Seq<(NodeId, u64)>, k: NodeId, d: u64) -> u64 {
    if assoc_has(s, k) {
        s[assoc_index_of(s, k)].1
    } else {
        d
    }
}

/// `s` with the value at key `k` replaced by `v`, or with `(k, v)` joined
/// at the end where `s` has no such key.
pub open spec fn assoc_set(s: Seq<(NodeId, u64)>, k: NodeId, v: u64) -> Seq<(NodeId, u64)> {
    if assoc_has(s, k) {
        s.update(assoc_index_of(s, k), (k, v))
    } else {
        s.push((k, v))
    }
}

/// How many pairs of `s` carry a value at least `n`.
pub open spec fn count_ge(s: Seq<(NodeId, u64)>, n: u64) -> int
    decreases s.len(),
{
    if s.len() == 0 {
        0
    } else {
        count_ge(s.drop_last(), n) + if s.last().1 >= n {
            1int
        } else {
            0int
        }
    }
}

/// Under unique keys, the pair at position `i` is the one `assoc_get_or`
/// and `assoc_index_of` find for its key.
pub proof fn lemma_assoc_at(s: Seq<(NodeId, u64)>, i: int)
    requires
        assoc_keys_unique(s),
        0 <= i < s.len(),
    ensures
        assoc_has(s, s[i].0),
        assoc_index_of(s, s[i].0) == i,
{
    assert(assoc_has(s, s[i].0));
    let j = assoc_index_of(s, s[i].0);
    assert(0 <= j < s.len() && s[j].0 == s[i].0);
    if j < i {
        assert(s[j].0 != s[i].0);
    } else if i < j {
        assert(s[i].0 != s[j].0);
    }
}

/// The leader's model of its progress bookkeeping: the log's last index at
/// election time and the per-peer `next_index` / `match_index` records.
#[verifier::ext_equal]
pub struct LeaderView {
    pub last_index: u64,
    pub next: Seq<(NodeId, u64)>,
    pub matched: Seq<(NodeId, u64)>,
}

/// The role a replica is in, with the bookkeeping of that role.
#[verifier::ext_equal]
pub enum RoleView {
    Follower,
    Candidate { granted_votes: int },
    Leader { progress: LeaderView },
}

/// A candidate's tally; 0 for any other role.
pub open spec fn candidate_votes(r: RoleView) -> int {
    match r {
        RoleView::Candidate { granted_votes } => granted_votes,
        _ => 0,
    }
}

/// A leader's progress records; empty for any other role.
pub open spec fn leader_progress(r: RoleView) -> LeaderView {
    match r {
        RoleView::Leader { progress } => progress,
        _ => LeaderView {
            last_index: 0,
            next: Seq::<(NodeId, u64)>::empty(),
            matched: Seq::<(NodeId, u64)>::empty(),
        },
    }
}

/// The model of a whole replica: durable state, applied commands, role, and
/// the volatile fields.
#[verifier::ext_equal]
pub struct ReplicaView {
    pub addr: NodeId,
    pub peers: Seq<NodeId>,
    pub term: u64,
    pub voted_for: Option<NodeId>,
    pub log: Seq<EntryView>,
    pub applied: Seq<Seq<u8>>,
    pub role: RoleView,
    pub commit_index: u64,
    pub last_applied: u64,
    pub should_campaign: bool,
}

/// The role-independent part of a replica's well-formedness: distinct
/// peers that exclude the replica itself, and one applied command per
/// applied index, never past the commit index.
pub open spec fn wf_base(v: ReplicaView) -> bool {
    &&& !v.peers.contains(v.addr)
    &&& forall|i: int, j: int| 0 <= i < j < v.peers.len() ==> v.peers[i] != v.peers[j]
    &&& v.last_applied <= v.commit_index
    &&& v.applied.len() == v.last_applied
}

/// A replica's well-formedness: [`wf_base`], a candidate's tally strictly
/// under quorum (reaching it makes a leader at once), and a leader's
/// progress records keyed uniquely, with `next_index` values between 1 and
/// one past the log's end.
pub open spec fn wf(v: ReplicaView) -> bool {
    &&& wf_base(v)
    &&& match v.role {
        RoleView::Follower => true,
        RoleView::Candidate { granted_votes } => granted_votes < majority_spec(
            v.peers.len() as int + 1,
        ),
        RoleView::Leader { progress } => {
            &&& progress.last_index <= v.log.len()
            &&& assoc_keys_unique(progress.next)
            &&& assoc_keys_unique(progress.matched)
            &&& forall|i: int|
                0 <= i < progress.next.len() ==> 1 <= (#[trigger] progress.next[i]).1
                    <= v.log.len() + 1
        },
    }
}


/// The failure that aborts a replica: a protocol invariant is broken
/// somewhere in the cluster and continuing could compromise consistency.
#[derive(Clone, Copy, PartialEq, Eq, Structural, Debug)]
pub enum FatalError {
    /// Another replica claims leadership of the receiver's own current
    /// term: the one-leader-per-term invariant is broken.
    MultipleLeaders,
}

/// A candidate's log is at least as up-to-date as `log`: a later last
/// term, or the same last term and at least as long a log.
pub open spec fn log_up_to_date(log: Seq<EntryView>, last_log_term: u64, last_log_index: u64) -> bool {
    ||| last_log_term > latest_term_of(log)
    ||| (last_log_term == latest_term_of(log) && last_log_index >= log.len())
}

/// Payloads tagged with the leader's term, ready to join the log.
pub open spec fn mapped_entries(term: u64, payloads: Seq<Seq<u8>>) -> Seq<EntryView> {
    payloads.map_values(|p: Seq<u8>| (term, p))
}

/// `v` after applying every committed entry that exists in the log and has
/// not been applied yet, in index order.
pub open spec fn ae_apply_view(v: ReplicaView) -> ReplicaView {
    let target = min_i(v.commit_index as int, v.log.len() as int);
    if v.last_applied >= target {
        v
    } else {
        ReplicaView {
            last_applied: target as u64,
            applied: v.applied + v.log.subrange(v.last_applied as int, target).map_values(
                |e: EntryView| e.1,
            ),
            ..v
        }
    }
}

/// What an `AppendEntries` request does to a replica: the model after the
/// call and the reply.
///
/// A stale term is rejected untouched. A leader hearing its own term from
/// a peer fails fatally. Otherwise the replica is a follower of the
/// request's term afterwards (the vote record survives only an unchanged
/// term), and the consistency check runs: a `prev_log_index` past the log
/// is inconsistent; a term mismatch there truncates the log from
/// `prev_log_index` on and is inconsistent; otherwise the entries join the
/// log at `prev_log_index + 1` under the leader's term, the commit index
/// adopts `leader_commit` (bounded by the last entry the request covers,
/// and never moving backwards), newly committed entries are applied, and
/// campaigning stands down.
pub open spec fn ae_request_step(v: ReplicaView, req: AppendEntriesRequestView) -> (
    ReplicaView,
    Result<AppendEntriesResponse, FatalError>,
) {
    if req.term < v.term {
        (
            v,
            Ok(
                AppendEntriesResponse {
                    term: Term(v.term),
                    result: AppendEntriesResult::StaleTerm,
                },
            ),
        )
    } else if v.role is Leader && req.term == v.term {
        (v, Err(FatalError::MultipleLeaders))
    } else {
        let v1 = ReplicaView {
            term: req.term,
            voted_for: if req.term > v.term {
                None
            } else {
                v.voted_for
            },
            role: RoleView::Follower,
            ..v
        };
        let prev = req.prev_log_index as int;
        let reply_inconsistent = Ok(
            AppendEntriesResponse {
                term: Term(req.term),
                result: AppendEntriesResult::InconsistentPrevEntry,
            },
        );
        if v1.log.len() < prev {
            (v1, reply_inconsistent)
        } else if prev > 0 && v1.log[prev - 1].0 != req.prev_log_term {
            (ReplicaView { log: v1.log.take(prev - 1), ..v1 }, reply_inconsistent)
        } else {
            let log2 = splice_at(v1.log, prev, mapped_entries(req.term, req.entries));
            let ci2 = if req.leader_commit > v1.commit_index {
                max_i(
                    v1.commit_index as int,
                    min_i(req.leader_commit as int, prev + req.entries.len()),
                ) as u64
            } else {
                v1.commit_index
            };
            let v2 = ae_apply_view(
                ReplicaView { log: log2, commit_index: ci2, should_campaign: false, ..v1 },
            );
            (
                v2,
                Ok(
                    AppendEntriesResponse {
                        term: Term(req.term),
                        result: AppendEntriesResult::Success,
                    },
                ),
            )
        }
    }
}

/// What a `RequestVote` request does to a replica: the model after the
/// call and the reply.
///
/// The term catches up with the candidate first (clearing the vote
/// record when it advances). A stale candidate term is rejected; a log
/// less up-to-date than the receiver's is rejected; otherwise the vote
/// goes to the candidate if the receiver has not voted for anyone else
/// this term — granting is idempotent — and a granted vote stands down
/// campaigning for the tick.
pub open spec fn rv_request_step(v: ReplicaView, candidate: NodeId, req: RequestVoteRequest) -> (
    ReplicaView,
    RequestVoteResponse,
) {
    let new_term = if req.term.0 > v.term {
        req.term.0
    } else {
        v.term
    };
    let cleared = if req.term.0 > v.term {
        None
    } else {
        v.voted_for
    };
    let v1 = ReplicaView { term: new_term, voted_for: cleared, ..v };
    if req.term.0 < v.term {
        (v1, RequestVoteResponse { term: Term(new_term), result: RequestVoteResult::StaleTerm })
    } else if !log_up_to_date(v.log, req.last_log_term.0, req.last_log_index.0) {
        (
            v1,
            RequestVoteResponse {
                term: Term(new_term),
                result: RequestVoteResult::InconsistentLog,
            },
        )
    } else {
        match cleared {
            None => (
                ReplicaView { voted_for: Some(candidate), should_campaign: false, ..v1 },
                RequestVoteResponse {
                    term: Term(new_term),
                    result: RequestVoteResult::Granted,
                },
            ),
            Some(prior) => if prior == candidate {
                (
                    ReplicaView { should_campaign: false, ..v1 },
                    RequestVoteResponse {
                        term: Term(new_term),
                        result: RequestVoteResult::Granted,
                    },
                )
            } else {
                (
                    v1,
                    RequestVoteResponse {
                        term: Term(new_term),
                        result: RequestVoteResult::AlreadyVoted,
                    },
                )
            },
        }
    }
}

/// Index `n` could become the leader's commit index: it exists in the log,
/// it carries the leader's own term (entries of earlier terms commit only
/// transitively, under a later own-term entry), it lies past the current
/// commit index, and a quorum of the cluster — the peers recorded at or
/// past `n`, plus the leader itself — holds it.
pub open spec fn leader_commit_candidate_ok(
    v: ReplicaView,
    matched: Seq<(NodeId, u64)>,
    n: int,
) -> bool {
    &&& v.commit_index < n <= v.log.len()
    &&& v.log[n - 1].0 == v.term
    &&& count_ge(matched, n as u64) + 1 >= majority_spec(v.peers.len() as int + 1)
}

/// The largest index at most `hi` that could become the leader's commit
/// index, or the current commit index where none can.
pub open spec fn leader_best_commit(v: ReplicaView, matched: Seq<(NodeId, u64)>, hi: int) -> int
    decreases hi,
{
    if hi <= v.commit_index {
        v.commit_index as int
    } else if leader_commit_candidate_ok(v, matched, hi) {
        hi
    } else {
        leader_best_commit(v, matched, hi - 1)
    }
}

/// The leader's volatile bookkeeping: the log's last index at election
/// time, and for each peer the next entry to send and the highest entry
/// known replicated there.
pub struct LeaderState {
    last_index: LogIndex,
    next_index: Vec<(NodeId, LogIndex)>,
    match_index: Vec<(NodeId, LogIndex)>,
}

impl View for LeaderState {
    type V = LeaderView;

    closed spec fn view(&self) -> LeaderView {
        LeaderView {
            last_index: self.last_index.0,
            next: self.next_index@.map_values(|p: (NodeId, LogIndex)| (p.0, p.1.0)),
            matched: self.match_index@.map_values(|p: (NodeId, LogIndex)| (p.0, p.1.0)),
        }
    }
}

impl LeaderState {
    /// Both progress records are keyed uniquely.
    pub open spec fn wf(&self) -> bool {
        assoc_keys_unique(self@.next) && assoc_keys_unique(self@.matched)
    }

    /// Returns a new `LeaderState` with empty progress records.
    ///
    /// `last_index` is the index of the leader's most recent log entry at
    /// the time of election.
    pub fn new(last_index: LogIndex) -> (l: LeaderState)
        ensures
            l@ == (LeaderView {
                last_index: last_index.0,
                next: Seq::<(NodeId, u64)>::empty(),
                matched: Seq::<(NodeId, u64)>::empty(),
            }),
            l.wf(),
    {
        let l = LeaderState { last_index, next_index: Vec::new(), match_index: Vec::new() };
        proof {
            assert(l@.next =~= Seq::<(NodeId, u64)>::empty());
            assert(l@.matched =~= Seq::<(NodeId, u64)>::empty());
        }
        l
    }

    /// Returns the next log entry index of the follower node, recording
    /// `last_index + 1` for it first if it has no record yet.
    pub fn next_index(&mut self, node: NodeId) -> (i: LogIndex)
        requires
            old(self).wf(),
            old(self)@.last_index < u64::MAX,
        ensures
            final(self).wf(),
            final(self)@.last_index == old(self)@.last_index,
            final(self)@.matched == old(self)@.matched,
            i.0 == assoc_get_or(old(self)@.next, node, (old(self)@.last_index + 1) as u64),
            final(self)@.next == if assoc_has(old(self)@.next, node) {
                old(self)@.next
            } else {
                old(self)@.next.push((node, i.0))
            },
    {
        let n = self.next_index.len();
        let mut k: usize = 0;
        while k < n
            invariant
                self == old(self),
                self.wf(),
                self@.last_index < u64::MAX,
                k <= n,
                n == self.next_index@.len(),
                forall|j: int| 0 <= j < k ==> self.next_index@[j].0 != node,
            decreases n - k,
        {
            if self.next_index[k].0 == node {
                proof {
                    assert(self@.next[k as int] == (node, self.next_index@[k as int].1.0));
                    lemma_assoc_at(self@.next, k as int);
                }
                return self.next_index[k].1;
            }
            k = k + 1;
        }
        proof {
            assert(forall|j: int| 0 <= j < self@.next.len() ==> self@.next[j].0 != node);
            assert(!assoc_has(self@.next, node));
        }
        let i = LogIndex(self.last_index.0 + 1);
        let ghost before = self@.next;
        self.next_index.push((node, i));
        proof {
            assert(self@.next =~= before.push((node, i.0)));
        }
        i
    }

    /// Sets the next log entry index of the follower node.
    pub fn set_next_index(&mut self, node: NodeId, index: LogIndex)
        requires
            old(self).wf(),
        ensures
            final(self).wf(),
            final(self)@.last_index == old(self)@.last_index,
            final(self)@.matched == old(self)@.matched,
            final(self)@.next == assoc_set(old(self)@.next, node, index.0),
    {
        let n = self.next_index.len();
        let mut k: usize = 0;
        while k < n
            invariant
                self == old(self),
                self.wf(),
                k <= n,
                n == self.next_index@.len(),
                forall|j: int| 0 <= j < k ==> self.next_index@[j].0 != node,
            decreases n - k,
        {
            if self.next_index[k].0 == node {
                let ghost before = self@.next;
                proof {
                    assert(before[k as int] == (node, self.next_index@[k as int].1.0));
                    lemma_assoc_at(before, k as int);
                }
                self.next_index.set(k, (node, index));
                proof {
                    assert(self@.next =~= before.update(k as int, (node, index.0)));
                }
                return ;
            }
            k = k + 1;
        }
        proof {
            assert(!assoc_has(self@.next, node));
        }
        let ghost before = self@.next;
        self.next_index.push((node, index));
        proof {
            assert(self@.next =~= before.push((node, index.0)));
        }
    }

    /// Returns the index of the highest log entry known to be replicated on
    /// the follower node, 0 where none is recorded.
    pub fn match_index(&self, node: NodeId) -> (i: LogIndex)
        requires
            self.wf(),
        ensures
            i.0 == assoc_get_or(self@.matched, node, 0),
    {
        let n = self.match_index.len();
        let mut k: usize = 0;
        while k < n
            invariant
                self.wf(),
                k <= n,
                n == self.match_index@.len(),
                forall|j: int| 0 <= j < k ==> self.match_index@[j].0 != node,
            decreases n - k,
        {
            if self.match_index[k].0 == node {
                proof {
                    assert(self@.matched[k as int] == (node, self.match_index@[k as int].1.0));
                    lemma_assoc_at(self@.matched, k as int);
                }
                return self.match_index[k].1;
            }
            k = k + 1;
        }
        proof {
            assert(!assoc_has(self@.matched, node));
        }
        LogIndex(0)
    }

    /// Sets the index of the highest log entry known to be replicated on
    /// the follower node.
    pub fn set_match_index(&mut self, node: NodeId, index: LogIndex)
        requires
            old(self).wf(),
        ensures
            final(self).wf(),
            final(self)@.last_index == old(self)@.last_index,
            final(self)@.next == old(self)@.next,
            final(self)@.matched == assoc_set(old(self)@.matched, node, index.0),
    {
        let n = self.match_index.len();
        let mut k: usize = 0;
        while k < n
            invariant
                self == old(self),
                self.wf(),
                k <= n,
                n == self.match_index@.len(),
                forall|j: int| 0 <= j < k ==> self.match_index@[j].0 != node,
            decreases n - k,
        {
            if self.match_index[k].0 == node {
                let ghost before = self@.matched;
                proof {
                    assert(before[k as int] == (node, self.match_index@[k as int].1.0));
                    lemma_assoc_at(before, k as int);
                }
                self.match_index.set(k, (node, index));
                proof {
                    assert(self@.matched =~= before.update(k as int, (node, index.0)));
                }
                return ;
            }
            k = k + 1;
        }
        proof {
            assert(!assoc_has(self@.matched, node));
        }
        let ghost before = self@.matched;
        self.match_index.push((node, index));
        proof {
            assert(self@.matched =~= before.push((node, index.0)));
        }
    }

    /// Counts the follower nodes whose recorded replicated index reaches
    /// `index`.
    pub fn count_match_indexes(&self, index: LogIndex) -> (c: usize)
        ensures
            c as int == count_ge(self@.matched, index.0),
    {
        let n = self.match_index.len();
        let mut c: usize = 0;
        let mut k: usize = 0;
        while k < n
            invariant
                k <= n,
                n == self.match_index@.len(),
                c <= k,
                c as int == count_ge(self@.matched.take(k as int), index.0),
            decreases n - k,
        {
            proof {
                assert(self@.matched.take(k + 1).drop_last() =~= self@.matched.take(k as int));
                assert(self@.matched.take(k + 1).last() == self@.matched[k as int]);
                assert(self@.matched[k as int] == (
                    self.match_index@[k as int].0,
                    self.match_index@[k as int].1.0,
                ));
            }
            if self.match_index[k].1.0 >= index.0 {
                c = c + 1;
            }
            k = k + 1;
        }
        proof {
            assert(self@.matched.take(n as int) =~= self@.matched);
        }
        c
    }
}

/// A candidate's tally of the votes granted to it, its own included.
struct CandidateState {
    granted_votes: usize,
}

/// The three roles a replica can hold:
///
/// * `Follower` — replicates `AppendEntries` requests and votes for a
///   candidate whose log is at least as up-to-date.
/// * `Candidate` — campaigns in an election; becomes `Leader` on a quorum
///   of votes, or `Follower` on hearing from a live leader.
/// * `Leader` — serves requests and tracks replication progress per peer.
enum ReplicaState {
    Follower,
    Candidate(CandidateState),
    Leader(LeaderState),
}

impl ReplicaState {
    spec fn view_spec(&self) -> RoleView {
        match self {
            ReplicaState::Follower => RoleView::Follower,
            ReplicaState::Candidate(c) => RoleView::Candidate {
                granted_votes: c.granted_votes as int,
            },
            ReplicaState::Leader(l) => RoleView::Leader { progress: l@ },
        }
    }
}

/// A replica of the consensus cluster. It owns a durable [`Store`] and a
/// client [`StateMachine`], and applies committed commands to the latter in
/// a globally consistent order.
pub struct Replica<S, M> {
    addr: NodeId,
    peers: Vec<NodeId>,
    store: S,
    state_machine: M,
    state: ReplicaState,
    commit_index: LogIndex,
    last_applied: LogIndex,
    should_campaign: bool,
}

impl<S: Store, M: StateMachine> Replica<S, M> {
    /// The model of the whole replica.
    pub closed spec fn model(&self) -> ReplicaView {
        ReplicaView {
            addr: self.addr,
            peers: self.peers@,
            term: self.store.term_spec(),
            voted_for: self.store.voted_for_spec(),
            log: self.store.log_spec(),
            applied: self.state_machine.applied_spec(),
            role: self.state.view_spec(),
            commit_index: self.commit_index.0,
            last_applied: self.last_applied.0,
            should_campaign: self.should_campaign,
        }
    }

    /// The replica's model is well-formed.
    pub open spec fn inv(&self) -> bool {
        wf(self.model())
    }

    /// A fresh replica: Follower, nothing committed, nothing applied,
    /// campaigning armed. The store may carry durable state from an earlier
    /// run; the state machine must be fresh.
    pub fn new(addr: NodeId, peers: Vec<NodeId>, store: S, state_machine: M) -> (r: Replica<S, M>)
        requires
            !peers@.contains(addr),
            forall|i: int, j: int| 0 <= i < j < peers@.len() ==> peers@[i] != peers@[j],
            state_machine.applied_spec().len() == 0,
        ensures
            r.inv(),
            r.model() == (ReplicaView {
                addr,
                peers: peers@,
                term: store.term_spec(),
                voted_for: store.voted_for_spec(),
                log: store.log_spec(),
                applied: state_machine.applied_spec(),
                role: RoleView::Follower,
                commit_index: 0,
                last_applied: 0,
                should_campaign: true,
            }),
    {
        Replica {
            addr,
            peers,
            store,
            state_machine,
            state: ReplicaState::Follower,
            commit_index: LogIndex(0),
            last_applied: LogIndex(0),
            should_campaign: true,
        }
    }

    /// Returns `true` if the replica is in the Leader state.
    pub fn is_leader(&self) -> (b: bool)
        ensures
            b == (self.model().role is Leader),
    {
        match self.state {
            ReplicaState::Leader(_) => true,
            _ => false,
        }
    }

    /// Returns `true` if the replica is in the Follower state.
    pub fn is_follower(&self) -> (b: bool)
        ensures
            b == (self.model().role is Follower),
    {
        match self.state {
            ReplicaState::Follower => true,
            _ => false,
        }
    }

    /// Returns `true` if the replica is in the Candidate state.
    pub fn is_candidate(&self) -> (b: bool)
        ensures
            b == (self.model().role is Candidate),
    {
        match self.state {
            ReplicaState::Candidate(_) => true,
            _ => false,
        }
    }

    /// Returns the identity of the replica.
    pub fn addr(&self) -> (a: NodeId)
        ensures
            a == self.model().addr,
    {
        self.addr
    }

    /// Returns the current term of the replica.
    pub fn current_term(&self) -> (t: Term)
        ensures
            t.0 == self.model().term,
    {
        self.store.current_term()
    }

    /// Returns the vote record of the replica's current term.
    pub fn voted_for(&self) -> (v: Option<NodeId>)
        ensures
            v == self.model().voted_for,
    {
        self.store.voted_for()
    }

    /// Get the cluster quorum majority size.
    pub fn majority(&self) -> (m: usize)
        requires
            self.model().peers.len() + 1 <= usize::MAX,
        ensures
            m as int == majority_spec(self.model().peers.len() as int + 1),
    {
        let peers = self.peers.len();
        let cluster_members = peers + 1;
        cluster_members / 2 + 1
    }

    /// Transition to follower state at `term`. The vote record is cleared
    /// when the term advances and preserved when it stands.
    fn transition_to_follower(&mut self, term: Term)
        requires
            old(self).inv(),
            term.0 >= old(self).model().term,
        ensures
            final(self).inv(),
            final(self).model() == (ReplicaView {
                term: term.0,
                voted_for: if term.0 > old(self).model().term {
                    None
                } else {
                    old(self).model().voted_for
                },
                role: RoleView::Follower,
                ..old(self).model()
            }),
    {
        let current = self.store.current_term();
        if term.0 > current.0 {
            self.store.set_current_term(term);
        }
        self.state = ReplicaState::Follower;
        proof {
            assert(self.model() =~~= (ReplicaView {
                term: term.0,
                voted_for: if term.0 > old(self).model().term {
                    None
                } else {
                    old(self).model().voted_for
                },
                role: RoleView::Follower,
                ..old(self).model()
            }));
        }
    }

    /// Transition this Replica to Candidate state: advance the term, vote
    /// for itself, count that vote, and fill `message` with the
    /// `RequestVote` to broadcast.
    fn transition_to_candidate(&mut self, message: &mut RequestVoteRequest)
        requires
            old(self).inv(),
            old(self).model().term < u64::MAX,
            old(self).model().peers.len() >= 1,
        ensures
            final(self).inv(),
            final(self).model() == (ReplicaView {
                term: (old(self).model().term + 1) as u64,
                voted_for: Some(old(self).model().addr),
                role: RoleView::Candidate { granted_votes: 1 },
                ..old(self).model()
            }),
            *final(message) == (RequestVoteRequest {
                term: Term((old(self).model().term + 1) as u64),
                last_log_index: LogIndex(old(self).model().log.len() as u64),
                last_log_term: Term(latest_term_of(old(self).model().log)),
            }),
    {
        self.store.inc_current_term();
        self.store.set_voted_for(self.addr);
        self.state = ReplicaState::Candidate(CandidateState { granted_votes: 1 });

        let current_term = self.store.current_term();
        let latest_index = self.store.latest_log_index();
        let latest_term = self.store.latest_log_term();

        message.term = current_term;
        message.last_log_index = latest_index;
        message.last_log_term = latest_term;
        proof {
            assert(majority_spec(old(self).model().peers.len() as int + 1) >= 2);
            assert(self.model() =~~= (ReplicaView {
                term: (old(self).model().term + 1) as u64,
                voted_for: Some(old(self).model().addr),
                role: RoleView::Candidate { granted_votes: 1 },
                ..old(self).model()
            }));
        }
    }

    /// Transition this Replica to Leader state, with fresh progress
    /// records, and fill `message` with the empty `AppendEntries` that
    /// asserts leadership to every peer.
    fn transition_to_leader(&mut self, message: &mut AppendEntriesRequest)
        requires
            wf_base(old(self).model()),
        ensures
            final(self).inv(),
            final(self).model() == (ReplicaView {
                role: RoleView::Leader {
                    progress: LeaderView {
                        last_index: old(self).model().log.len() as u64,
                        next: Seq::<(NodeId, u64)>::empty(),
                        matched: Seq::<(NodeId, u64)>::empty(),
                    },
                },
                ..old(self).model()
            }),
            final(message)@ == (AppendEntriesRequestView {
                term: old(self).model().term,
                prev_log_index: old(self).model().log.len() as u64,
                prev_log_term: latest_term_of(old(self).model().log),
                entries: Seq::<Seq<u8>>::empty(),
                leader_commit: old(self).model().commit_index,
            }),
    {
        let current_term = self.store.current_term();
        let latest_log_index = self.store.latest_log_index();
        let latest_log_term = self.store.latest_log_term();
        self.state = ReplicaState::Leader(LeaderState::new(latest_log_index));

        message.term = current_term;
        message.prev_log_index = latest_log_index;
        message.prev_log_term = latest_log_term;
        message.entries = Vec::new();
        message.leader_commit = self.commit_index;
        proof {
            assert(final(message)@.entries =~= Seq::<Seq<u8>>::empty());
            assert(self.model() =~~= (ReplicaView {
                role: RoleView::Leader {
                    progress: LeaderView {
                        last_index: old(self).model().log.len() as u64,
                        next: Seq::<(NodeId, u64)>::empty(),
                        matched: Seq::<(NodeId, u64)>::empty(),
                    },
                },
                ..old(self).model()
            }));
        }
    }

    /// Apply every committed entry that exists in the log and has not been
    /// applied yet, in index order.
    fn apply_committed(&mut self)
        requires
            old(self).inv(),
        ensures
            final(self).inv(),
            final(self).model() == ae_apply_view(old(self).model()),
    {
        let ghost v0 = self.model();
        let latest = self.store.latest_log_index();
        let target = if self.commit_index.0 < latest.0 {
            self.commit_index.0
        } else {
            latest.0
        };
        proof {
            assert(target == min_i(v0.commit_index as int, v0.log.len() as int));
        }
        if self.last_applied.0 >= target {
            return ;
        }
        while self.last_applied.0 < target
            invariant
                self.inv(),
                v0.last_applied <= self.last_applied.0 <= target,
                target == min_i(v0.commit_index as int, v0.log.len() as int),
                self.model() == (ReplicaView {
                    last_applied: self.last_applied.0,
                    applied: v0.applied + v0.log.subrange(
                        v0.last_applied as int,
                        self.last_applied.0 as int,
                    ).map_values(|e: EntryView| e.1),
                    ..v0
                }),
            decreases target - self.last_applied.0,
        {
            let i = LogIndex(self.last_applied.0 + 1);
            let ghost applied_before = self.model().applied;
            let (_, payload) = self.store.entry(i);
            self.state_machine.apply(&payload);
            self.last_applied = i;
            proof {
                assert(v0.log.subrange(v0.last_applied as int, i.0 as int) =~= v0.log.subrange(
                    v0.last_applied as int,
                    i.0 - 1,
                ).push(v0.log[i.0 - 1]));
                assert(v0.log.subrange(v0.last_applied as int, i.0 as int).map_values(
                    |e: EntryView| e.1,
                ) =~= v0.log.subrange(v0.last_applied as int, i.0 - 1).map_values(
                    |e: EntryView| e.1,
                ).push(v0.log[i.0 - 1].1));
                assert(self.model().applied =~= v0.applied + v0.log.subrange(
                    v0.last_applied as int,
                    i.0 as int,
                ).map_values(|e: EntryView| e.1));
                assert(self.model() =~~= (ReplicaView {
                    last_applied: self.last_applied.0,
                    applied: v0.applied + v0.log.subrange(
                        v0.last_applied as int,
                        self.last_applied.0 as int,
                    ).map_values(|e: EntryView| e.1),
                    ..v0
                }));
            }
        }
        proof {
            assert(self.model() =~~= ae_apply_view(v0));
        }
    }

    /// Apply an append entries request to the Raft replica. The reply
    /// carries the receiver's (possibly updated) term and exactly one
    /// outcome; the error reports a second leader of the receiver's own
    /// term, on which the caller must abort.
    pub fn append_entries_request(&mut self, from: NodeId, request: &AppendEntriesRequest) -> (r:
        Result<AppendEntriesResponse, FatalError>)
        requires
            old(self).inv(),
            old(self).model().peers.contains(from),
            old(self).model().log.len() + request@.entries.len() < u64::MAX,
        ensures
            final(self).inv(),
            final(self).model() == ae_request_step(old(self).model(), request@).0,
            r == ae_request_step(old(self).model(), request@).1,
    {
        let ghost v0 = self.model();
        let leader_term = request.term;
        let current_term = self.store.current_term();

        if leader_term.0 < current_term.0 {
            return Ok(
                AppendEntriesResponse { term: current_term, result: AppendEntriesResult::StaleTerm },
            );
        }
        let was_leader = self.is_leader();
        if was_leader && leader_term.0 == current_term.0 {
            // The single leader-per-term invariant is broken; there is a bug
            // somewhere in the cluster.
            return Err(FatalError::MultipleLeaders);
        }
        // Recognize the new leader and process the request as its follower.
        self.transition_to_follower(leader_term);
        let ghost v1 = self.model();

        let prev_log_index = request.prev_log_index;
        let prev_log_term = request.prev_log_term;
        let local_latest_index = self.store.latest_log_index();
        if local_latest_index.0 < prev_log_index.0 {
            return Ok(
                AppendEntriesResponse {
                    term: leader_term,
                    result: AppendEntriesResult::InconsistentPrevEntry,
                },
            );
        }
        if prev_log_index.0 > 0 {
            let (existing_term, _) = self.store.entry(prev_log_index);
            if existing_term.0 != prev_log_term.0 {
                self.store.truncate_entries(prev_log_index);
                proof {
                    assert(self.model() =~~= (ReplicaView {
                        log: v1.log.take(prev_log_index.0 as int - 1),
                        ..v1
                    }));
                }
                return Ok(
                    AppendEntriesResponse {
                        term: leader_term,
                        result: AppendEntriesResult::InconsistentPrevEntry,
                    },
                );
            }
        }
        let ghost log2 = splice_at(
            v1.log,
            prev_log_index.0 as int,
            mapped_entries(leader_term.0, request@.entries),
        );
        let num_entries = request.entries.len();
        if num_entries > 0 {
            let mut entries_vec: Vec<(Term, Vec<u8>)> = Vec::new();
            let mut k: usize = 0;
            while k < num_entries
                invariant
                    k <= num_entries,
                    num_entries == request.entries@.len(),
                    entries_vec@.len() == k,
                    forall|j: int|
                        0 <= j < k ==> (#[trigger] entries_vec@[j]).0 == leader_term
                            && entries_vec@[j].1@ == request.entries@[j]@,
                decreases num_entries - k,
            {
                entries_vec.push((leader_term, clone_bytes(&request.entries[k])));
                k = k + 1;
            }
            proof {
                assert(entries_vec@.map_values(|e: (Term, Vec<u8>)| crate::store::entry_view(e))
                    =~~= mapped_entries(leader_term.0, request@.entries));
            }
            self.store.append_entries(LogIndex(prev_log_index.0 + 1), &entries_vec);
        }
        proof {
            assert(self.model().log =~~= log2);
        }
        let last_new_index = prev_log_index.0 + num_entries as u64;
        if request.leader_commit.0 > self.commit_index.0 {
            let adopted = if request.leader_commit.0 < last_new_index {
                request.leader_commit.0
            } else {
                last_new_index
            };
            if adopted > self.commit_index.0 {
                self.commit_index = LogIndex(adopted);
            }
        }
        self.should_campaign = false;
        proof {
            assert(self.model() =~~= (ReplicaView {
                log: log2,
                commit_index: self.model().commit_index,
                should_campaign: false,
                ..v1
            }));
        }
        self.apply_committed();
        proof {
            assert(self.model() =~~= ae_request_step(v0, request@).0);
        }
        Ok(AppendEntriesResponse { term: leader_term, result: AppendEntriesResult::Success })
    }

    /// Apply a request vote request to the Raft replica.
    pub fn request_vote_request(&mut self, candidate: NodeId, request: &RequestVoteRequest) -> (resp:
        RequestVoteResponse)
        requires
            old(self).inv(),
            old(self).model().peers.contains(candidate),
        ensures
            final(self).inv(),
            final(self).model() == rv_request_step(old(self).model(), candidate, *request).0,
            resp == rv_request_step(old(self).model(), candidate, *request).1,
    {
        let ghost v0 = self.model();
        let candidate_term = request.term;
        let candidate_index = request.last_log_index;
        let candidate_log_term = request.last_log_term;
        let local_term = self.store.current_term();
        let local_index = self.store.latest_log_index();
        let local_log_term = self.store.latest_log_term();

        let response_term = if candidate_term.0 > local_term.0 {
            self.store.set_current_term(candidate_term);
            candidate_term
        } else {
            local_term
        };

        let result = if candidate_term.0 < local_term.0 {
            RequestVoteResult::StaleTerm
        } else if !(candidate_log_term.0 > local_log_term.0 || (candidate_log_term.0
            == local_log_term.0 && candidate_index.0 >= local_index.0)) {
            RequestVoteResult::InconsistentLog
        } else {
            match self.store.voted_for() {
                None => {
                    self.store.set_voted_for(candidate);
                    self.should_campaign = false;
                    RequestVoteResult::Granted
                },
                Some(voted_for) => {
                    if voted_for == candidate {
                        self.should_campaign = false;
                        RequestVoteResult::Granted
                    } else {
                        RequestVoteResult::AlreadyVoted
                    }
                },
            }
        };
        proof {
            assert(self.model() =~~= rv_request_step(v0, candidate, *request).0);
        }
        RequestVoteResponse { term: response_term, result }
    }

    /// Apply a request vote response to the Raft replica.
    ///
    /// A response of a higher term compromises a candidate's election: the
    /// term catches up and the tally resets, but the replica stays a
    /// candidate, since it knows no live leader to follow. A response of a
    /// lower term belongs to an earlier cycle and is ignored. A granted
    /// vote of the current term raises the tally; on quorum the replica
    /// becomes leader and `message` holds the `AppendEntries` to broadcast
    /// as its first heartbeat.
    ///
    /// # Return
    ///
    /// Returns `true` if the replica became leader and `message` should be
    /// sent to every peer.
    pub fn request_vote_response(
        &mut self,
        from: NodeId,
        response: &RequestVoteResponse,
        message: &mut AppendEntriesRequest,
    ) -> (b: bool)
        requires
            old(self).inv(),
            old(self).model().peers.contains(from),
            old(self).model().peers.len() as int + 1 <= usize::MAX as int,
        ensures
            final(self).inv(),
            old(self).model().term < response.term.0 ==> {
                &&& final(self).model() == (ReplicaView {
                    term: response.term.0,
                    voted_for: None,
                    role: if old(self).model().role is Candidate {
                        RoleView::Candidate { granted_votes: 0 }
                    } else {
                        old(self).model().role
                    },
                    ..old(self).model()
                })
                &&& b == false
                &&& *final(message) == *old(message)
            },
            old(self).model().term > response.term.0 ==> {
                &&& final(self).model() == old(self).model()
                &&& b == false
                &&& *final(message) == *old(message)
            },
            old(self).model().term == response.term.0 && !(old(self).model().role is Candidate
                && response.result is Granted) ==> {
                &&& final(self).model() == old(self).model()
                &&& b == false
                &&& *final(message) == *old(message)
            },
            (old(self).model().term == response.term.0 && old(self).model().role is Candidate
                && response.result is Granted) ==> ({
                let v = old(self).model();
                let granted_votes = candidate_votes(v.role);
                if granted_votes + 1 >= majority_spec(v.peers.len() as int + 1) {
                    &&& final(self).model() == (ReplicaView {
                        role: RoleView::Leader {
                            progress: LeaderView {
                                last_index: v.log.len() as u64,
                                next: Seq::<(NodeId, u64)>::empty(),
                                matched: Seq::<(NodeId, u64)>::empty(),
                            },
                        },
                        ..v
                    })
                    &&& b == true
                    &&& final(message)@ == (AppendEntriesRequestView {
                        term: v.term,
                        prev_log_index: v.log.len() as u64,
                        prev_log_term: latest_term_of(v.log),
                        entries: Seq::<Seq<u8>>::empty(),
                        leader_commit: v.commit_index,
                    })
                } else {
                    &&& final(self).model() == (ReplicaView {
                        role: RoleView::Candidate { granted_votes: granted_votes + 1 },
                        ..v
                    })
                    &&& b == false
                    &&& *final(message) == *old(message)
                }
            }),
    {
        let local_term = self.store.current_term();
        let voter_term = response.term;
        let majority = self.majority();

        let mut transition_to_leader = false;
        if local_term.0 < voter_term.0 {
            // The election of this cycle is compromised; catch up with the
            // term and treat the remaining responses of the cycle as stale.
            self.store.set_current_term(voter_term);
            let mut taken = ReplicaState::Follower;
            core::mem::swap(&mut taken, &mut self.state);
            match taken {
                ReplicaState::Candidate(_) => {
                    self.state = ReplicaState::Candidate(CandidateState { granted_votes: 0 });
                },
                other => {
                    self.state = other;
                },
            }
        } else if local_term.0 > voter_term.0 {
            // A response from an earlier election cycle; ignore it.
        } else {
            let is_granted = match response.result {
                RequestVoteResult::Granted => true,
                _ => false,
            };
            if is_granted {
                let mut taken = ReplicaState::Follower;
                core::mem::swap(&mut taken, &mut self.state);
                match taken {
                    ReplicaState::Candidate(c) => {
                        let tally = c.granted_votes + 1;
                        self.state = ReplicaState::Candidate(
                            CandidateState { granted_votes: tally },
                        );
                        if tally >= majority {
                            transition_to_leader = true;
                        }
                    },
                    other => {
                        self.state = other;
                    },
                }
            }
        }

        if transition_to_leader {
            self.transition_to_leader(message);
        }
        transition_to_leader
    }

    /// Apply an append entries response to the Raft replica, as its leader
    /// bookkeeping.
    ///
    /// A non-leader ignores the response. A response of a higher term
    /// deposes the leader. An inconsistency report walks the responder's
    /// `next_index` back one step and fills `message` with the retry
    /// request carrying everything from there on. A success report records
    /// the responder as caught up and advances the commit index to the
    /// largest own-term index a quorum holds, applying what that commits.
    ///
    /// # Return
    ///
    /// Returns `true` if `message` should be sent back to the responder.
    pub fn append_entries_response(
        &mut self,
        from: NodeId,
        response: &AppendEntriesResponse,
        message: &mut AppendEntriesRequest,
    ) -> (b: bool)
        requires
            old(self).inv(),
            old(self).model().peers.contains(from),
            old(self).model().peers.len() as int + 1 <= usize::MAX as int,
            old(self).model().log.len() < u64::MAX,
        ensures
            final(self).inv(),
            !(old(self).model().role is Leader) ==> {
                &&& final(self).model() == old(self).model()
                &&& b == false
                &&& *final(message) == *old(message)
            },
            old(self).model().role is Leader && response.term.0 > old(self).model().term ==> {
                &&& final(self).model() == (ReplicaView {
                    term: response.term.0,
                    voted_for: None,
                    role: RoleView::Follower,
                    ..old(self).model()
                })
                &&& b == false
                &&& *final(message) == *old(message)
            },
            old(self).model().role is Leader && response.term.0 <= old(self).model().term
                && response.result is StaleTerm ==> {
                &&& final(self).model() == old(self).model()
                &&& b == false
                &&& *final(message) == *old(message)
            },
            (old(self).model().role is Leader && response.term.0 <= old(self).model().term
                && response.result is InconsistentPrevEntry) ==> ({
                let v = old(self).model();
                let progress = leader_progress(v.role);
                let recorded = assoc_get_or(progress.next, from, (progress.last_index + 1) as u64);
                let stepped = if recorded > 1 {
                    (recorded - 1) as u64
                } else {
                    1u64
                };
                &&& final(self).model() == (ReplicaView {
                    role: RoleView::Leader {
                        progress: LeaderView {
                            last_index: progress.last_index,
                            next: assoc_set(progress.next, from, stepped),
                            matched: progress.matched,
                        },
                    },
                    ..v
                })
                &&& b == true
                &&& final(message)@ == (AppendEntriesRequestView {
                    term: v.term,
                    prev_log_index: (stepped - 1) as u64,
                    prev_log_term: if stepped == 1 {
                        0
                    } else {
                        v.log[stepped - 2].0
                    },
                    entries: v.log.subrange(stepped - 1, v.log.len() as int).map_values(
                        |e: EntryView| e.1,
                    ),
                    leader_commit: v.commit_index,
                })
            }),
            (old(self).model().role is Leader && response.term.0 <= old(self).model().term
                && response.result is Success) ==> ({
                let v = old(self).model();
                let progress = leader_progress(v.role);
                let matched2 = assoc_set(progress.matched, from, v.log.len() as u64);
                let next2 = assoc_set(progress.next, from, (v.log.len() + 1) as u64);
                let commit2 = leader_best_commit(v, matched2, v.log.len() as int);
                &&& final(self).model() == ae_apply_view(
                    ReplicaView {
                        commit_index: commit2 as u64,
                        role: RoleView::Leader {
                            progress: LeaderView {
                                last_index: progress.last_index,
                                next: next2,
                                matched: matched2,
                            },
                        },
                        ..v
                    },
                )
                &&& b == false
                &&& *final(message) == *old(message)
            }),
    {
        let ghost v0 = self.model();
        if !self.is_leader() {
            return false;
        }
        let local_term = self.store.current_term();
        if response.term.0 > local_term.0 {
            // The cluster has moved to a later term; this leadership is
            // over.
            self.store.set_current_term(response.term);
            self.state = ReplicaState::Follower;
            return false;
        }
        let latest = self.store.latest_log_index();
        match response.result {
            AppendEntriesResult::StaleTerm => {
                // The responder took this request for one of an earlier
                // term; nothing to record.
                false
            },
            AppendEntriesResult::InconsistentPrevEntry => {
                let mut taken = ReplicaState::Follower;
                core::mem::swap(&mut taken, &mut self.state);
                let stepped: LogIndex;
                match taken {
                    ReplicaState::Leader(mut leader) => {
                        let ghost next0 = leader@.next;
                        let recorded = leader.next_index(from);
                        let ghost next_mid = leader@.next;
                        stepped = if recorded.0 > 1 {
                            LogIndex(recorded.0 - 1)
                        } else {
                            LogIndex(1)
                        };
                        leader.set_next_index(from, stepped);
                        proof {
                            if !assoc_has(next0, from) {
                                lemma_assoc_at(next_mid, next0.len() as int);
                                assert(leader@.next =~= next0.push((from, stepped.0)));
                            }
                            assert(leader@.next =~= assoc_set(next0, from, stepped.0));
                        }
                        self.state = ReplicaState::Leader(leader);
                    },
                    other => {
                        proof {
                            assert(false);
                        }
                        stepped = LogIndex(1);
                        self.state = other;
                    },
                }
                let ghost v1 = self.model();

                // The retry request: everything from the stepped-back next
                // index on.
                let mut entries: Vec<Vec<u8>> = Vec::new();
                let mut idx: u64 = stepped.0;
                while idx <= latest.0
                    invariant
                        self.inv(),
                        self.model() == v1,
                        latest.0 as int == v1.log.len(),
                        latest.0 < u64::MAX,
                        1 <= stepped.0,
                        stepped.0 <= idx <= latest.0 + 1,
                        entries@.map_values(|e: Vec<u8>| e@) == v1.log.subrange(
                            stepped.0 as int - 1,
                            idx as int - 1,
                        ).map_values(|e: EntryView| e.1),
                    decreases latest.0 + 1 - idx,
                {
                    let ghost em = entries@.map_values(|e: Vec<u8>| e@);
                    let (_, payload) = self.store.entry(LogIndex(idx));
                    entries.push(payload);
                    proof {
                        assert(v1.log.subrange(stepped.0 as int - 1, idx as int) =~= v1.log
                            .subrange(stepped.0 as int - 1, idx as int - 1).push(
                            v1.log[idx as int - 1],
                        ));
                        assert(v1.log.subrange(stepped.0 as int - 1, idx as int).map_values(
                            |e: EntryView| e.1,
                        ) =~= v1.log.subrange(stepped.0 as int - 1, idx as int - 1).map_values(
                            |e: EntryView| e.1,
                        ).push(v1.log[idx as int - 1].1));
                        assert(entries@.map_values(|e: Vec<u8>| e@) =~= em.push(payload@));
                        assert(entries@.map_values(|e: Vec<u8>| e@) =~= v1.log.subrange(
                            stepped.0 as int - 1,
                            idx as int,
                        ).map_values(|e: EntryView| e.1));
                    }
                    idx = idx + 1;
                }
                let prev_index = LogIndex(stepped.0 - 1);
                let prev_term = if prev_index.0 == 0 {
                    Term(0)
                } else {
                    let (t, _) = self.store.entry(prev_index);
                    t
                };
                message.term = local_term;
                message.prev_log_index = prev_index;
                message.prev_log_term = prev_term;
                message.entries = entries;
                message.leader_commit = self.commit_index;
                proof {
                    let progress = leader_progress(v0.role);
                    assert(self.model() =~~= (ReplicaView {
                        role: RoleView::Leader {
                            progress: LeaderView {
                                last_index: progress.last_index,
                                next: assoc_set(progress.next, from, stepped.0),
                                matched: progress.matched,
                            },
                        },
                        ..v0
                    }));
                    assert(message@ =~~= (AppendEntriesRequestView {
                        term: v0.term,
                        prev_log_index: (stepped.0 - 1) as u64,
                        prev_log_term: if stepped.0 == 1 {
                            0
                        } else {
                            v0.log[stepped.0 - 2].0
                        },
                        entries: v0.log.subrange(stepped.0 - 1, v0.log.len() as int).map_values(
                            |e: EntryView| e.1,
                        ),
                        leader_commit: v0.commit_index,
                    }));
                }
                true
            },
            AppendEntriesResult::Success => {
                let majority = self.majority();
                let mut taken = ReplicaState::Follower;
                core::mem::swap(&mut taken, &mut self.state);
                match taken {
                    ReplicaState::Leader(mut leader) => {
                        leader.set_match_index(from, latest);
                        leader.set_next_index(from, LogIndex(latest.0 + 1));
                        self.state = ReplicaState::Leader(leader);
                    },
                    other => {
                        proof {
                            assert(false);
                        }
                        self.state = other;
                    },
                }
                let ghost v1 = self.model();
                let ghost progress0 = leader_progress(v0.role);
                let ghost matched2 = assoc_set(progress0.matched, from, v0.log.len() as u64);
                proof {
                    assert(v1 =~~= (ReplicaView {
                        role: RoleView::Leader {
                            progress: LeaderView {
                                last_index: progress0.last_index,
                                next: assoc_set(progress0.next, from, (v0.log.len() + 1) as u64),
                                matched: matched2,
                            },
                        },
                        ..v0
                    }));
                }

                // Advance the commit index to the largest own-term index a
                // quorum of the cluster holds.
                let commit_floor = self.commit_index.0;
                let mut hi: u64 = latest.0;
                let mut best: u64 = commit_floor;
                let mut done = false;
                while !done && hi > commit_floor
                    invariant
                        self.inv(),
                        self.model() == v1,
                        v1.commit_index == commit_floor,
                        v1.role is Leader,
                        leader_progress(v1.role).matched == matched2,
                        latest.0 as int == v1.log.len(),
                        local_term.0 == v1.term,
                        majority as int == majority_spec(v1.peers.len() as int + 1),
                        majority >= 1,
                        hi <= latest.0,
                        !done ==> best == commit_floor && leader_best_commit(
                            v0,
                            matched2,
                            latest.0 as int,
                        ) == leader_best_commit(v0, matched2, hi as int),
                        done ==> best as int == leader_best_commit(v0, matched2, latest.0 as int)
                            && commit_floor < best <= latest.0,
                        v0 == (ReplicaView { role: v0.role, ..v1 }),
                    decreases (if done {
                        0int
                    } else {
                        hi as int + 1
                    }),
                {
                    let (t, _) = self.store.entry(LogIndex(hi));
                    let replicated = match &self.state {
                        ReplicaState::Leader(leader) => leader.count_match_indexes(LogIndex(hi)),
                        _ => 0,
                    };
                    if t.0 == local_term.0 && replicated >= majority - 1 {
                        best = hi;
                        done = true;
                        proof {
                            assert(leader_commit_candidate_ok(v0, matched2, hi as int));
                        }
                    } else {
                        proof {
                            assert(!leader_commit_candidate_ok(v0, matched2, hi as int));
                        }
                        hi = hi - 1;
                    }
                }
                proof {
                    assert(best as int == leader_best_commit(v0, matched2, latest.0 as int));
                }
                if best > self.commit_index.0 {
                    self.commit_index = LogIndex(best);
                }
                proof {
                    assert(self.model() =~~= (ReplicaView {
                        commit_index: leader_best_commit(v0, matched2, v0.log.len() as int) as u64,
                        ..v1
                    }));
                }
                self.apply_committed();
                proof {
                    let commit2 = leader_best_commit(v0, matched2, v0.log.len() as int);
                    assert(self.model() =~~= ae_apply_view(
                        ReplicaView {
                            commit_index: commit2 as u64,
                            role: RoleView::Leader {
                                progress: LeaderView {
                                    last_index: progress0.last_index,
                                    next: assoc_set(
                                        progress0.next,
                                        from,
                                        (v0.log.len() + 1) as u64,
                                    ),
                                    matched: matched2,
                                },
                            },
                            ..v0
                        },
                    ));
                }
                false
            },
        }
    }

    /// Apply a client request to the Raft replica: a leader appends the
    /// command to its log under its own term and returns the index it
    /// took; any other role returns nothing, and the client must look for
    /// the leader elsewhere.
    pub fn client_request(&mut self, _from: NodeId, request: &ClientRequest) -> (r: Option<
        LogIndex,
    >)
        requires
            old(self).inv(),
            old(self).model().role is Leader ==> old(self).model().log.len() < u64::MAX,
        ensures
            final(self).inv(),
            !(old(self).model().role is Leader) ==> final(self).model() == old(self).model() && r
                is None,
            old(self).model().role is Leader ==> final(self).model() == (ReplicaView {
                log: old(self).model().log.push(
                    (old(self).model().term, request.payload@),
                ),
                ..old(self).model()
            }) && r == Some(LogIndex((old(self).model().log.len() + 1) as u64)),
    {
        if !self.is_leader() {
            return None;
        }
        let term = self.store.current_term();
        let latest = self.store.latest_log_index();
        let index = LogIndex(latest.0 + 1);
        let mut entries: Vec<(Term, Vec<u8>)> = Vec::new();
        entries.push((term, clone_bytes(&request.payload)));
        self.store.append_entries(index, &entries);
        proof {
            assert(self.model().log =~~= old(self).model().log.push(
                (old(self).model().term, request.payload@),
            ));
            assert(self.model() =~~= (ReplicaView {
                log: old(self).model().log.push((old(self).model().term, request.payload@)),
                ..old(self).model()
            }));
        }
        Some(index)
    }

    /// Trigger a timeout on the Raft replica.
    ///
    /// A leader, or a replica whose campaign flag was stood down by a live
    /// leader or a granted vote this tick, does not campaign. A solitary
    /// replica (no peers) jumps straight to leadership. Any other replica
    /// becomes a candidate and fills `message` with the `RequestVote` to
    /// broadcast. Either way the campaign flag is re-armed for the next
    /// tick.
    ///
    /// # Return
    ///
    /// A new timeout period, and whether `message` should be sent to each
    /// cluster peer.
    pub fn timeout(&mut self, message: &mut RequestVoteRequest) -> (r: (u64, bool))
        requires
            old(self).inv(),
            old(self).model().should_campaign && !(old(self).model().role is Leader) ==> old(
                self,
            ).model().term < u64::MAX,
            old(self).model().should_campaign && !(old(self).model().role is Leader) && old(
                self,
            ).model().peers.len() == 0 ==> old(self).model().role is Follower && old(
                self,
            ).model().voted_for is None,
        ensures
            final(self).inv(),
            HEARTBEAT_MIN <= r.0 < HEARTBEAT_MAX,
            !(old(self).model().should_campaign && !(old(self).model().role is Leader)) ==> {
                &&& final(self).model() == (ReplicaView {
                    should_campaign: true,
                    ..old(self).model()
                })
                &&& r.1 == false
                &&& *final(message) == *old(message)
            },
            old(self).model().should_campaign && !(old(self).model().role is Leader) && old(
                self,
            ).model().peers.len() == 0 ==> {
                &&& final(self).model() == (ReplicaView {
                    term: (old(self).model().term + 1) as u64,
                    voted_for: Some(old(self).model().addr),
                    role: RoleView::Leader {
                        progress: LeaderView {
                            last_index: old(self).model().log.len() as u64,
                            next: Seq::<(NodeId, u64)>::empty(),
                            matched: Seq::<(NodeId, u64)>::empty(),
                        },
                    },
                    should_campaign: true,
                    ..old(self).model()
                })
                &&& r.1 == false
                &&& *final(message) == *old(message)
            },
            old(self).model().should_campaign && !(old(self).model().role is Leader) && old(
                self,
            ).model().peers.len() > 0 ==> {
                &&& final(self).model() == (ReplicaView {
                    term: (old(self).model().term + 1) as u64,
                    voted_for: Some(old(self).model().addr),
                    role: RoleView::Candidate { granted_votes: 1 },
                    should_campaign: true,
                    ..old(self).model()
                })
                &&& r.1 == true
                &&& *final(message) == (RequestVoteRequest {
                    term: Term((old(self).model().term + 1) as u64),
                    last_log_index: LogIndex(old(self).model().log.len() as u64),
                    last_log_term: Term(latest_term_of(old(self).model().log)),
                })
            },
    {
        let send_message = if self.should_campaign && !self.is_leader() {
            if self.peers.len() == 0 {
                // Solitary replica special case; jump straight to leader
                // status.
                self.store.inc_current_term();
                self.store.set_voted_for(self.addr);
                let latest_log_index = self.store.latest_log_index();
                self.state = ReplicaState::Leader(LeaderState::new(latest_log_index));
                false
            } else {
                self.transition_to_candidate(message);
                true
            }
        } else {
            false
        };
        self.should_campaign = true;
        let timeout = random_election_timeout();
        (timeout, send_message)
    }
}

} // verus!
