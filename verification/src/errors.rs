//! Everything that can go wrong, with its exact wording.
use vstd::prelude::*;

use crate::text::with_u64;
use crate::types::ArithmeticError;
use crate::types::LogIndex;
use crate::types::NodeId;
use crate::types::Term;

verus! {

use crate::text::decimal;

/// A log store that could not do what it was asked.
#[derive(Debug, PartialEq, Eq)]
pub struct LogStorageError {
    pub detail: String,
}

impl LogStorageError {
    /// A read or a write did not reach durable storage.
    pub fn persistence(detail: &str) -> (r: LogStorageError)
        ensures
            r.detail@ == detail@,
    {
        LogStorageError { detail: detail.to_owned() }
    }

    /// The wording of the error.
    pub open spec fn text(&self) -> Seq<char> {
        "Persistence failure: "@ + self.detail@
    }

    /// Renders the error.
    pub fn message(&self) -> (r: String)
        ensures
            r@ == self.text(),
    {
        "Persistence failure: ".to_owned().concat(self.detail.as_str())
    }
}

/// A state machine that could not do what it was asked.
#[derive(Debug, PartialEq, Eq)]
pub enum FsmError {
    /// A command broke a rule of the state machine.
    Violation(String),
    /// The state machine lost its own storage.
    Persistence(String),
}

impl FsmError {
    pub fn violation(detail: &str) -> (r: FsmError)
        ensures
            r matches FsmError::Violation(d) && d@ == detail@,
    {
        FsmError::Violation(detail.to_owned())
    }

    pub fn persistence(detail: &str) -> (r: FsmError)
        ensures
            r matches FsmError::Persistence(d) && d@ == detail@,
    {
        FsmError::Persistence(detail.to_owned())
    }

    /// The wording of the error.
    pub open spec fn text(&self) -> Seq<char> {
        match self {
            FsmError::Violation(detail) => "Invariant violation: "@ + detail@,
            FsmError::Persistence(detail) => "Persistence failure: "@ + detail@,
        }
    }

    /// Renders the error.
    pub fn message(&self) -> (r: String)
        ensures
            r@ == self.text(),
    {
        match self {
            FsmError::Violation(detail) => "Invariant violation: ".to_owned().concat(
                detail.as_str(),
            ),
            FsmError::Persistence(detail) => "Persistence failure: ".to_owned().concat(
                detail.as_str(),
            ),
        }
    }
}

/// The requests that only a leader sends.
#[derive(Clone, Copy, Debug, PartialEq, Eq, Structural)]
pub enum LeaderRpc {
    AppendEntries,
    InstallSnapshot,
}

impl LeaderRpc {
    pub open spec fn text(&self) -> Seq<char> {
        match self {
            LeaderRpc::AppendEntries => "AppendEntries"@,
            LeaderRpc::InstallSnapshot => "InstallSnapshot"@,
        }
    }

    pub fn name(&self) -> (r: &'static str)
        ensures
            r@ == self.text(),
    {
        match self {
            LeaderRpc::AppendEntries => "AppendEntries",
            LeaderRpc::InstallSnapshot => "InstallSnapshot",
        }
    }
}

/// A violated rule of the protocol.
#[derive(Debug, PartialEq, Eq)]
pub enum ProtocolError {
    /// A node was asked to move to a lower term.
    TermRegression { current: Term, new: Term },
    /// The state machine recovered further than the log was committed.
    FsmAheadOfLog { applied: LogIndex, committed: LogIndex },
    /// An index past the end of the log was to be committed.
    CommitBeyondLog { index: LogIndex, last: LogIndex },
    /// The state machine reports more entries than were committed.
    FsmAheadOfCommit { fsm: LogIndex, committed: LogIndex },
    /// A committed entry is not in the log while it is replayed.
    EntryMissingDuringApply { index: LogIndex },
    /// A committed entry is not in the log while it is applied in the background.
    EntryMissingFromStorage { index: LogIndex },
    /// Another node claims to lead the term that this node leads.
    RivalLeader { leader: NodeId, term: Term, rpc: LeaderRpc },
    /// Too many snapshot tasks hold the state machine frozen.
    FreezeOverflow,
    /// The state machine was thawed more often than it was frozen.
    FreezeUnderflow,
    /// The match index of a peer left the range of log indices.
    MatchOverflow { peer: NodeId, prev: LogIndex, len: u64, term: Term },
    /// The next index of a peer left the range of log indices.
    NextOverflow { peer: NodeId, matched: LogIndex, term: Term },
    /// A peer reported a log that ends at the last representable index.
    BackoffOverflow { peer: NodeId, last_log: LogIndex, term: Term },
    /// The next index of a peer cannot go back any further.
    BackoffUnderflow { peer: NodeId, current_next: LogIndex, term: Term },
    /// A snapshot ends at the last representable index.
    SnapshotNextOverflow { peer: NodeId, matched: LogIndex, term: Term },
    /// The state machine failed to produce a snapshot for a peer.
    SnapshotSerialization { peer: NodeId, index: LogIndex, term: Term, cause: FsmError },
    /// The log could not be cut after a snapshot.
    TruncationFailure { index: LogIndex, storage: LogStorageError },
    /// The state machine failed to apply a committed entry.
    ApplyFailure { cause: FsmError },
    /// The state machine failed to restore a snapshot.
    SnapshotRestoration { cause: FsmError },
    /// The state machine failed while the node was recovered or replayed.
    FsmFailure { cause: FsmError },
}

impl ProtocolError {
    /// The wording of the violation.
    pub open spec fn text(&self) -> Seq<char> {
        match self {
            ProtocolError::TermRegression { current, new } => {
                "Term regression detected! current="@
                    + decimal(current.0 as nat)
                    + " new="@
                    + decimal(new.0 as nat)
            },
            ProtocolError::FsmAheadOfLog { applied, committed } => {
                "Causal invariant violation: FSM applied index "@
                    + decimal(applied.0 as nat)
                    + " is ahead of LogStore committed index "@
                    + decimal(committed.0 as nat)
            },
            ProtocolError::CommitBeyondLog { index, last } => {
                "Attempted to commit index "@
                    + decimal(index.0 as nat)
                    + " but last_log_index is "@
                    + decimal(last.0 as nat)
            },
            ProtocolError::FsmAheadOfCommit { fsm, committed } => {
                "FSM index "@
                    + decimal(fsm.0 as nat)
                    + " is ahead of last_committed "@
                    + decimal(committed.0 as nat)
                    + ". Possible log regression."@
            },
            ProtocolError::EntryMissingDuringApply { index } => {
                "Committed entry "@
                    + decimal(index.0 as nat)
                    + " missing from log during apply"@
            },
            ProtocolError::EntryMissingFromStorage { index } => {
                "Committed entry "@
                    + decimal(index.0 as nat)
                    + " missing from log storage"@
            },
            ProtocolError::RivalLeader { leader, term, rpc } => {
                "CRITICAL SAFETY VIOLATION: Rival leader "@
                    + decimal(leader@ as nat)
                    + " detected for term "@
                    + decimal(term.0 as nat)
                    + " during "@
                    + rpc.text()
                    + ". Halting node."@
            },
            ProtocolError::FreezeOverflow => {
                "Structural Invariant Violation: snapshot_count overflow"@
            },
            ProtocolError::FreezeUnderflow => {
                "Structural Invariant Violation: snapshot_count underflow (unfreeze without freeze)"@
            },
            ProtocolError::MatchOverflow { peer, prev, len, term } => {
                "Arithmetic overflow calculating match_index for peer="@
                    + decimal(peer@ as nat)
                    + " (prev="@
                    + decimal(prev.0 as nat)
                    + " len="@
                    + decimal(*len as nat)
                    + ") in term="@
                    + decimal(term.0 as nat)
                    + ": arithmetic overflow"@
            },
            ProtocolError::NextOverflow { peer, matched, term } => {
                "Arithmetic overflow calculating next_index for peer="@
                    + decimal(peer@ as nat)
                    + " (match="@
                    + decimal(matched.0 as nat)
                    + ") in term="@
                    + decimal(term.0 as nat)
                    + ": arithmetic overflow"@
            },
            ProtocolError::BackoffOverflow { peer, last_log, term } => {
                "Arithmetic overflow calculating next_index backoff for peer="@
                    + decimal(peer@ as nat)
                    + " (last_log="@
                    + decimal(last_log.0 as nat)
                    + ") in term="@
                    + decimal(term.0 as nat)
                    + ": arithmetic overflow"@
            },
            ProtocolError::BackoffUnderflow { peer, current_next, term } => {
                "Arithmetic underflow calculating next_index backoff for peer="@
                    + decimal(peer@ as nat)
                    + " (current_next="@
                    + decimal(current_next.0 as nat)
                    + ") in term="@
                    + decimal(term.0 as nat)
                    + ": arithmetic underflow"@
            },
            ProtocolError::SnapshotNextOverflow { peer, matched, term } => {
                "Arithmetic overflow calculating next_index after snapshot for peer="@
                    + decimal(peer@ as nat)
                    + " (match="@
                    + decimal(matched.0 as nat)
                    + ") in term="@
                    + decimal(term.0 as nat)
                    + ": arithmetic overflow"@
            },
            ProtocolError::SnapshotSerialization { peer, index, term, cause } => {
                "Snapshot serialization failed for peer="@
                    + decimal(peer@ as nat)
                    + " at index="@
                    + decimal(index.0 as nat)
                    + " in term="@
                    + decimal(term.0 as nat)
                    + ": "@
                    + cause.text()
            },
            ProtocolError::TruncationFailure { index, storage } => {
                "Log truncation failure at index "@
                    + decimal(index.0 as nat)
                    + ": "@
                    + storage.text()
            },
            ProtocolError::ApplyFailure { cause } => {
                "Apply failure: "@
                    + cause.text()
            },
            ProtocolError::SnapshotRestoration { cause } => {
                "Background snapshot restoration failure: "@
                    + cause.text()
            },
            ProtocolError::FsmFailure { cause } => cause.text(),
        }
    }

    /// Renders the violation.
    pub fn message(&self) -> (r: String)
        ensures
            r@ == self.text(),
    {
        match self {
            ProtocolError::TermRegression { current, new } => {
                let s: String = "Term regression detected! current=".to_owned();
                let s: String = with_u64(s, current.0);
                let s: String = s.concat(" new=");
                let s: String = with_u64(s, new.0);
                s
            },
            ProtocolError::FsmAheadOfLog { applied, committed } => {
                let s: String = "Causal invariant violation: FSM applied index ".to_owned();
                let s: String = with_u64(s, applied.0);
                let s: String = s.concat(" is ahead of LogStore committed index ");
                let s: String = with_u64(s, committed.0);
                s
            },
            ProtocolError::CommitBeyondLog { index, last } => {
                let s: String = "Attempted to commit index ".to_owned();
                let s: String = with_u64(s, index.0);
                let s: String = s.concat(" but last_log_index is ");
                let s: String = with_u64(s, last.0);
                s
            },
            ProtocolError::FsmAheadOfCommit { fsm, committed } => {
                let s: String = "FSM index ".to_owned();
                let s: String = with_u64(s, fsm.0);
                let s: String = s.concat(" is ahead of last_committed ");
                let s: String = with_u64(s, committed.0);
                let s: String = s.concat(". Possible log regression.");
                s
            },
            ProtocolError::EntryMissingDuringApply { index } => {
                let s: String = "Committed entry ".to_owned();
                let s: String = with_u64(s, index.0);
                let s: String = s.concat(" missing from log during apply");
                s
            },
            ProtocolError::EntryMissingFromStorage { index } => {
                let s: String = "Committed entry ".to_owned();
                let s: String = with_u64(s, index.0);
                let s: String = s.concat(" missing from log storage");
                s
            },
            ProtocolError::RivalLeader { leader, term, rpc } => {
                let s: String = "CRITICAL SAFETY VIOLATION: Rival leader ".to_owned();
                let s: String = with_u64(s, leader.as_u64());
                let s: String = s.concat(" detected for term ");
                let s: String = with_u64(s, term.0);
                let s: String = s.concat(" during ");
                let s: String = s.concat(rpc.name());
                let s: String = s.concat(". Halting node.");
                s
            },
            ProtocolError::FreezeOverflow => {
                let s: String = "Structural Invariant Violation: snapshot_count overflow".to_owned();
                s
            },
            ProtocolError::FreezeUnderflow => {
                let s: String = "Structural Invariant Violation: snapshot_count underflow (unfreeze without freeze)".to_owned();
                s
            },
            ProtocolError::MatchOverflow { peer, prev, len, term } => {
                let s: String = "Arithmetic overflow calculating match_index for peer=".to_owned();
                let s: String = with_u64(s, peer.as_u64());
                let s: String = s.concat(" (prev=");
                let s: String = with_u64(s, prev.0);
                let s: String = s.concat(" len=");
                let s: String = with_u64(s, *len);
                let s: String = s.concat(") in term=");
                let s: String = with_u64(s, term.0);
                let s: String = s.concat(": arithmetic overflow");
                s
            },
            ProtocolError::NextOverflow { peer, matched, term } => {
                let s: String = "Arithmetic overflow calculating next_index for peer=".to_owned();
                let s: String = with_u64(s, peer.as_u64());
                let s: String = s.concat(" (match=");
                let s: String = with_u64(s, matched.0);
                let s: String = s.concat(") in term=");
                let s: String = with_u64(s, term.0);
                let s: String = s.concat(": arithmetic overflow");
                s
            },
            ProtocolError::BackoffOverflow { peer, last_log, term } => {
                let s: String = "Arithmetic overflow calculating next_index backoff for peer=".to_owned();
                let s: String = with_u64(s, peer.as_u64());
                let s: String = s.concat(" (last_log=");
                let s: String = with_u64(s, last_log.0);
                let s: String = s.concat(") in term=");
                let s: String = with_u64(s, term.0);
                let s: String = s.concat(": arithmetic overflow");
                s
            },
            ProtocolError::BackoffUnderflow { peer, current_next, term } => {
                let s: String = "Arithmetic underflow calculating next_index backoff for peer=".to_owned();
                let s: String = with_u64(s, peer.as_u64());
                let s: String = s.concat(" (current_next=");
                let s: String = with_u64(s, current_next.0);
                let s: String = s.concat(") in term=");
                let s: String = with_u64(s, term.0);
                let s: String = s.concat(": arithmetic underflow");
                s
            },
            ProtocolError::SnapshotNextOverflow { peer, matched, term } => {
                let s: String = "Arithmetic overflow calculating next_index after snapshot for peer=".to_owned();
                let s: String = with_u64(s, peer.as_u64());
                let s: String = s.concat(" (match=");
                let s: String = with_u64(s, matched.0);
                let s: String = s.concat(") in term=");
                let s: String = with_u64(s, term.0);
                let s: String = s.concat(": arithmetic overflow");
                s
            },
            ProtocolError::SnapshotSerialization { peer, index, term, cause } => {
                let s: String = "Snapshot serialization failed for peer=".to_owned();
                let s: String = with_u64(s, peer.as_u64());
                let s: String = s.concat(" at index=");
                let s: String = with_u64(s, index.0);
                let s: String = s.concat(" in term=");
                let s: String = with_u64(s, term.0);
                let s: String = s.concat(": ");
                let s: String = s.concat(cause.message().as_str());
                s
            },
            ProtocolError::TruncationFailure { index, storage } => {
                let s: String = "Log truncation failure at index ".to_owned();
                let s: String = with_u64(s, index.0);
                let s: String = s.concat(": ");
                let s: String = s.concat(storage.message().as_str());
                s
            },
            ProtocolError::ApplyFailure { cause } => {
                let s: String = "Apply failure: ".to_owned();
                let s: String = s.concat(cause.message().as_str());
                s
            },
            ProtocolError::SnapshotRestoration { cause } => {
                let s: String = "Background snapshot restoration failure: ".to_owned();
                let s: String = s.concat(cause.message().as_str());
                s
            },
            ProtocolError::FsmFailure { cause } => cause.message(),
        }
    }
}

/// What a node reports when it cannot go on.
#[derive(Debug, PartialEq, Eq)]
pub enum NodeError {
    /// The log store failed.
    Storage(LogStorageError),
    /// A counter left its range.
    Arithmetic(ArithmeticError),
    /// A rule of the protocol was violated.
    Protocol(ProtocolError),
    /// The request needs the leader; `leader_hint` is the node that this node
    /// last voted for.
    NotLeader { leader_hint: Option<NodeId> },
}

impl NodeError {
    /// The wording of the error.
    pub open spec fn text(&self) -> Seq<char> {
        match self {
            NodeError::Storage(e) => e.text(),
            NodeError::Arithmetic(e) => e.text(),
            NodeError::Protocol(e) => e.text(),
            NodeError::NotLeader { leader_hint } => match leader_hint {
                Some(id) => "Node is not the leader; try node "@ + decimal(id@ as nat),
                None => "Node is not the leader"@,
            },
        }
    }

    /// Renders the error.
    pub fn message(&self) -> (r: String)
        ensures
            r@ == self.text(),
    {
        match self {
            NodeError::Storage(e) => e.message(),
            NodeError::Arithmetic(e) => e.message(),
            NodeError::Protocol(e) => e.message(),
            NodeError::NotLeader { leader_hint } => match leader_hint {
                Some(id) => with_u64("Node is not the leader; try node ".to_owned(), id.as_u64()),
                None => "Node is not the leader".to_owned(),
            },
        }
    }
}

/// Why a linearizable read could not be confirmed.
#[derive(Debug, PartialEq, Eq)]
pub enum ConsensusError {
    /// The node has halted.
    Poisoned,
    /// The node does not lead, or no longer leads the term it started in.
    NotLeader,
    /// No majority answered in time.
    Timeout,
    /// The log store failed; the text says during what.
    Internal(String),
}

} // verus!
