//! What the engine answers.
use vstd::prelude::*;

use crate::types::LogIndex;
use crate::types::NodeId;
use crate::types::Term;

verus! {

/// The role of a node, without its contents.
#[derive(Clone, Copy, Debug, PartialEq, Eq, Structural)]
pub enum NodeRole {
    Follower,
    PreCandidate,
    Candidate,
    Leader,
    /// The node has halted.
    Poisoned,
}

/// How far a node has come.
#[derive(Clone, Copy, Debug, PartialEq, Eq, Structural)]
pub struct ConsensusProgress {
    pub term: Term,
    pub role: NodeRole,
    pub last_log_index: LogIndex,
    pub last_committed: LogIndex,
    pub last_applied: LogIndex,
    /// The leader, if it is known.
    pub leader_hint: Option<NodeId>,
    /// The latest heartbeat round that a majority answered.
    pub confirmed_read_epoch: u64,
}

/// The answer to AppendEntries.
#[derive(Clone, Copy, Debug, PartialEq, Eq, Structural)]
pub struct AppendEntriesResult {
    pub term: Term,
    pub success: bool,
    /// Where the local log ends.
    pub conflict_index: LogIndex,
}

impl AppendEntriesResult {
    /// The request comes from a term that has passed.
    pub fn stale_term(term: Term) -> (r: AppendEntriesResult)
        ensures
            r == (AppendEntriesResult { term, success: false, conflict_index: LogIndex(0) }),
    {
        AppendEntriesResult { term, success: false, conflict_index: LogIndex(0) }
    }

    /// The local log does not fit the request.
    pub fn inconsistent(term: Term, last_index: LogIndex) -> (r: AppendEntriesResult)
        ensures
            r == (AppendEntriesResult { term, success: false, conflict_index: last_index }),
    {
        AppendEntriesResult { term, success: false, conflict_index: last_index }
    }

    /// The local log is in step with the leader.
    pub fn success(term: Term, last_index: LogIndex) -> (r: AppendEntriesResult)
        ensures
            r == (AppendEntriesResult { term, success: true, conflict_index: last_index }),
    {
        AppendEntriesResult { term, success: true, conflict_index: last_index }
    }
}

/// The answer to RequestVote and to PreVote.
#[derive(Clone, Copy, Debug, PartialEq, Eq, Structural)]
pub struct RequestVoteResult {
    pub term: Term,
    pub vote_granted: bool,
}

impl RequestVoteResult {
    pub fn rejected(term: Term) -> (r: RequestVoteResult)
        ensures
            r == (RequestVoteResult { term, vote_granted: false }),
    {
        RequestVoteResult { term, vote_granted: false }
    }

    pub fn granted(term: Term) -> (r: RequestVoteResult)
        ensures
            r == (RequestVoteResult { term, vote_granted: true }),
    {
        RequestVoteResult { term, vote_granted: true }
    }
}

/// What is to be done with a snapshot that the leader offers.
#[derive(Clone, Copy, Debug, PartialEq, Eq, Structural)]
pub enum SnapshotAction {
    /// Restore it.
    Accepted,
    /// It comes from a term that has passed.
    Rejected,
    /// It holds nothing that was not applied already.
    Stale,
}

/// The answer to InstallSnapshot.
#[derive(Clone, Copy, Debug, PartialEq, Eq, Structural)]
pub struct InstallSnapshotResult {
    pub term: Term,
    pub action: SnapshotAction,
}

impl InstallSnapshotResult {
    pub fn accepted(term: Term) -> (r: InstallSnapshotResult)
        ensures
            r == (InstallSnapshotResult { term, action: SnapshotAction::Accepted }),
    {
        InstallSnapshotResult { term, action: SnapshotAction::Accepted }
    }

    pub fn rejected(term: Term) -> (r: InstallSnapshotResult)
        ensures
            r == (InstallSnapshotResult { term, action: SnapshotAction::Rejected }),
    {
        InstallSnapshotResult { term, action: SnapshotAction::Rejected }
    }

    pub fn stale(term: Term) -> (r: InstallSnapshotResult)
        ensures
            r == (InstallSnapshotResult { term, action: SnapshotAction::Stale }),
    {
        InstallSnapshotResult { term, action: SnapshotAction::Stale }
    }
}

/// Whether a request of a leader is worth looking at.
#[derive(Clone, Copy, Debug, PartialEq, Eq, Structural)]
pub enum TermCheckResult {
    Valid,
    Stale,
}

} // verus!
