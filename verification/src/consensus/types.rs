//! The values that pass between the protocol and its transport.
use std::time::Duration;

use vstd::prelude::*;

use crate::types::LogEntry;
use crate::types::LogIndex;
use crate::types::NodeId;
use crate::types::Term;
use crate::types::TraceId;

verus! {

use crate::types::EntryView;
use crate::types::entry_views;

/// How much longer than one call the first call on a connection may take,
/// while the connection is being opened.
pub const CONNECTION_CUSHION_MULTIPLIER: u32 = 4;

/// Why a call to a peer failed.
#[derive(Clone, Copy, Debug, PartialEq, Eq, Structural)]
pub enum RpcCode {
    /// The answer cannot be trusted.
    DataLoss,
    /// The answer did not come in time.
    DeadlineExceeded,
    /// The call failed on this side.
    Internal,
    /// The call failed on the way or at the peer.
    Unavailable,
}

/// A failed call to a peer.
#[derive(Debug, PartialEq, Eq)]
pub struct RpcStatus {
    pub code: RpcCode,
    pub message: String,
}

impl RpcStatus {
    pub fn new(code: RpcCode, message: &str) -> (r: RpcStatus)
        ensures
            r.code == code,
            r.message@ == message@,
    {
        RpcStatus { code, message: message.to_owned() }
    }
}

/// The outcome of a call to a peer.
pub type RpcResult<T> = Result<T, RpcStatus>;

// --- Elections ---

/// What an election campaign asks with, as it was when the campaign began.
#[derive(Clone, Copy, Debug, PartialEq, Eq, Structural)]
pub struct ElectionCampaignParams {
    pub term: Term,
    pub node_id: NodeId,
    pub last_log_index: LogIndex,
    pub last_log_term: Term,
    pub trace_id: TraceId,
}

/// What a pre-vote campaign asks with, as it was when the campaign began.
#[derive(Clone, Copy, Debug)]
pub struct PreVoteCampaignParams {
    pub term: Term,
    pub node_id: NodeId,
    pub last_log_index: LogIndex,
    pub last_log_term: Term,
    pub rpc_timeout: Duration,
    pub trace_id: TraceId,
}

/// A peer's answer to RequestVote or PreVote.
#[derive(Clone, Copy, Debug, PartialEq, Eq, Structural)]
pub struct VoteReply {
    pub term: Term,
    pub vote_granted: bool,
}

/// Where an election stands after an answer.
#[derive(Clone, Copy, Debug, PartialEq, Eq, Structural)]
pub enum VoteAction {
    /// A majority was reached and the node leads.
    QuorumReached,
    /// A higher term was met and the node follows.
    Demoted,
    /// The election goes on.
    Continue,
}

/// Where a pre-vote campaign stands after an answer.
#[derive(Clone, Copy, Debug, PartialEq, Eq, Structural)]
pub enum PreVoteAction {
    /// A majority would support an election.
    PreVoteQuorumReached,
    /// The campaign goes on.
    Continue,
}

// --- Replication ---

/// A request to append entries.
#[derive(Debug, PartialEq, Eq)]
pub struct AppendEntriesRequest {
    pub term: Term,
    pub leader_id: NodeId,
    pub prev_log_index: LogIndex,
    pub prev_log_term: Term,
    pub entries: Vec<LogEntry>,
    pub leader_commit: LogIndex,
}

/// The contents of an [`AppendEntriesRequest`].
pub struct AppendView {
    pub term: Term,
    pub leader_id: NodeId,
    pub prev_log_index: LogIndex,
    pub prev_log_term: Term,
    pub entries: Seq<EntryView>,
    pub leader_commit: LogIndex,
}

impl View for AppendEntriesRequest {
    type V = AppendView;

    open spec fn view(&self) -> AppendView {
        AppendView {
            term: self.term,
            leader_id: self.leader_id,
            prev_log_index: self.prev_log_index,
            prev_log_term: self.prev_log_term,
            entries: entry_views(self.entries@),
            leader_commit: self.leader_commit,
        }
    }
}

/// A request to install a snapshot.
#[derive(Debug, PartialEq, Eq)]
pub struct InstallSnapshotRequest {
    pub term: Term,
    pub leader_id: NodeId,
    pub last_included_index: LogIndex,
    pub last_included_term: Term,
    pub data: Vec<u8>,
}

/// A peer's answer to AppendEntries.
#[derive(Clone, Copy, Debug, PartialEq, Eq, Structural)]
pub struct AppendEntriesReply {
    pub term: Term,
    pub success: bool,
    /// Where the log of the peer ends.
    pub last_log_index: LogIndex,
}

/// What was sent to a peer, and what came back.
#[derive(Clone, Copy, Debug, PartialEq, Eq, Structural)]
pub enum ReplicationOutcome {
    AppendEntries { sent_prev_index: LogIndex, sent_entries_len: u64, response: AppendEntriesReply },
    InstallSnapshot { last_included_index: LogIndex, response_term: Term },
}

impl ReplicationOutcome {
    /// The term that the peer answered with.
    pub open spec fn term(self) -> Term {
        match self {
            ReplicationOutcome::AppendEntries { response, .. } => response.term,
            ReplicationOutcome::InstallSnapshot { response_term, .. } => response_term,
        }
    }

    /// The term that the peer answered with.
    pub fn response_term(&self) -> (r: Term)
        ensures
            r == self.term(),
    {
        match self {
            ReplicationOutcome::AppendEntries { response, .. } => response.term,
            ReplicationOutcome::InstallSnapshot { response_term, .. } => *response_term,
        }
    }
}

/// What a replication round works with, as it was when the round began.
#[derive(Clone, Copy, Debug, PartialEq, Eq, Structural)]
pub struct ReplicationRoundParams {
    pub term: Term,
    pub node_id: NodeId,
    pub last_committed: LogIndex,
    pub trace_id: TraceId,
}

/// Whether a replication round goes on after an answer.
#[derive(Clone, Copy, Debug, PartialEq, Eq, Structural)]
pub enum ReplicationAction {
    /// A higher term was met and the node follows.
    Demoted,
    /// The round goes on.
    Continue,
}

/// How a peer is to be brought up to date.
#[derive(Debug, PartialEq, Eq)]
pub enum ReplicationStrategy {
    /// The log reaches back far enough.
    AppendEntries(AppendEntriesRequest),
    /// The peer needs entries that were compacted away.
    InstallSnapshot { last_included_index: LogIndex, last_included_term: Term },
}

} // verus!
