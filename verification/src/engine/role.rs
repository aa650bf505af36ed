//! One node in whatever role it has.
use vstd::prelude::*;

use super::results::NodeRole;
use crate::errors::LogStorageError;
use crate::errors::NodeError;
use crate::node::Candidate;
use crate::node::Follower;
use crate::node::Leader;
use crate::node::PreCandidate;
use crate::node::RaftNode;
use crate::storage::LogStorage;
use crate::types::ClusterId;
use crate::types::LogEntry;
use crate::types::LogIndex;
use crate::types::NodeId;
use crate::types::NodeIdentity;
use crate::types::Term;

verus! {

use crate::errors::ProtocolError;
use crate::node::NodeState;
use crate::node::NodeView;
use crate::types::entry_views;

/// A node in one of its roles, or the marker that it has halted.
#[derive(Debug)]
pub enum RoleState<L: LogStorage> {
    Follower(RaftNode<Follower, L>),
    PreCandidate(RaftNode<PreCandidate, L>),
    Candidate(RaftNode<Candidate, L>),
    Leader(RaftNode<Leader, L>),
    Poisoned,
}

impl<L: LogStorage> RoleState<L> {
    /// Everything the node knows, unless it has halted.
    pub open spec fn node(&self) -> Option<NodeView> {
        match self {
            RoleState::Follower(n) => Some(n@),
            RoleState::PreCandidate(n) => Some(n@),
            RoleState::Candidate(n) => Some(n@),
            RoleState::Leader(n) => Some(n@),
            RoleState::Poisoned => None,
        }
    }

    /// Whether the variant names the role that the node has.
    pub open spec fn wf(&self) -> bool {
        match self {
            RoleState::Follower(n) => n@.role is Follower,
            RoleState::PreCandidate(n) => n@.role is PreCandidate,
            RoleState::Candidate(n) => n@.role is Candidate,
            RoleState::Leader(n) => n@.role is Leader,
            RoleState::Poisoned => true,
        }
    }

    /// Whether the log store of the node never fails.
    pub open spec fn reliable(&self) -> bool {
        match self {
            RoleState::Follower(n) => n.reliable(),
            RoleState::PreCandidate(n) => n.reliable(),
            RoleState::Candidate(n) => n.reliable(),
            RoleState::Leader(n) => n.reliable(),
            RoleState::Poisoned => true,
        }
    }

    /// The role alone.
    pub open spec fn kind(&self) -> NodeRole {
        match self {
            RoleState::Follower(_) => NodeRole::Follower,
            RoleState::PreCandidate(_) => NodeRole::PreCandidate,
            RoleState::Candidate(_) => NodeRole::Candidate,
            RoleState::Leader(_) => NodeRole::Leader,
            RoleState::Poisoned => NodeRole::Poisoned,
        }
    }

    pub fn node_role(&self) -> (r: NodeRole)
        ensures
            r == self.kind(),
    {
        match self {
            RoleState::Follower(_) => NodeRole::Follower,
            RoleState::PreCandidate(_) => NodeRole::PreCandidate,
            RoleState::Candidate(_) => NodeRole::Candidate,
            RoleState::Leader(_) => NodeRole::Leader,
            RoleState::Poisoned => NodeRole::Poisoned,
        }
    }

    pub fn is_poisoned(&self) -> (r: bool)
        ensures
            r == (*self is Poisoned),
    {
        match self {
            RoleState::Poisoned => true,
            _ => false,
        }
    }

    pub fn current_term(&self) -> (r: Result<Term, NodeError>)
        requires
            !(*self is Poisoned),
        ensures
            match r {
                Ok(v) => v == self.node()->0.log.current_term,
                Err(e) => e is Storage && !self.reliable(),
            },
    {
        match self {
            RoleState::Follower(n) => n.current_term(),
            RoleState::PreCandidate(n) => n.current_term(),
            RoleState::Candidate(n) => n.current_term(),
            RoleState::Leader(n) => n.current_term(),
            RoleState::Poisoned => vstd::pervasive::unreached(),
        }
    }

    pub fn voted_for(&self) -> (r: Result<Option<NodeId>, NodeError>)
        requires
            !(*self is Poisoned),
        ensures
            match r {
                Ok(v) => v == self.node()->0.log.voted_for,
                Err(e) => e is Storage && !self.reliable(),
            },
    {
        match self {
            RoleState::Follower(n) => n.voted_for(),
            RoleState::PreCandidate(n) => n.voted_for(),
            RoleState::Candidate(n) => n.voted_for(),
            RoleState::Leader(n) => n.voted_for(),
            RoleState::Poisoned => vstd::pervasive::unreached(),
        }
    }

    pub fn last_log_index(&self) -> (r: Result<LogIndex, NodeError>)
        requires
            !(*self is Poisoned),
        ensures
            match r {
                Ok(v) => v.0 == self.node()->0.log.last_index(),
                Err(e) => e is Storage && !self.reliable(),
            },
    {
        match self {
            RoleState::Follower(n) => n.last_log_index(),
            RoleState::PreCandidate(n) => n.last_log_index(),
            RoleState::Candidate(n) => n.last_log_index(),
            RoleState::Leader(n) => n.last_log_index(),
            RoleState::Poisoned => vstd::pervasive::unreached(),
        }
    }

    pub fn last_log_term(&self) -> (r: Result<Term, NodeError>)
        requires
            !(*self is Poisoned),
        ensures
            match r {
                Ok(v) => v.0 == self.node()->0.log.last_term(),
                Err(e) => e is Storage && !self.reliable(),
            },
    {
        match self {
            RoleState::Follower(n) => n.last_log_term(),
            RoleState::PreCandidate(n) => n.last_log_term(),
            RoleState::Candidate(n) => n.last_log_term(),
            RoleState::Leader(n) => n.last_log_term(),
            RoleState::Poisoned => vstd::pervasive::unreached(),
        }
    }

    pub fn last_included_index(&self) -> (r: Result<LogIndex, NodeError>)
        requires
            !(*self is Poisoned),
        ensures
            match r {
                Ok(v) => v == self.node()->0.log.included_index,
                Err(e) => e is Storage && !self.reliable(),
            },
    {
        match self {
            RoleState::Follower(n) => n.last_included_index(),
            RoleState::PreCandidate(n) => n.last_included_index(),
            RoleState::Candidate(n) => n.last_included_index(),
            RoleState::Leader(n) => n.last_included_index(),
            RoleState::Poisoned => vstd::pervasive::unreached(),
        }
    }

    pub fn last_included_term(&self) -> (r: Result<Term, NodeError>)
        requires
            !(*self is Poisoned),
        ensures
            match r {
                Ok(v) => v == self.node()->0.log.included_term,
                Err(e) => e is Storage && !self.reliable(),
            },
    {
        match self {
            RoleState::Follower(n) => n.last_included_term(),
            RoleState::PreCandidate(n) => n.last_included_term(),
            RoleState::Candidate(n) => n.last_included_term(),
            RoleState::Leader(n) => n.last_included_term(),
            RoleState::Poisoned => vstd::pervasive::unreached(),
        }
    }

    pub fn get_term_at(&self, index: LogIndex) -> (r: Result<Term, NodeError>)
        requires
            !(*self is Poisoned),
        ensures
            match r {
                Ok(v) => v.0 == self.node()->0.log.term_at(index.0),
                Err(e) => index.0 != 0 && e is Storage && !self.reliable(),
            },
    {
        match self {
            RoleState::Follower(n) => n.get_term_at(index),
            RoleState::PreCandidate(n) => n.get_term_at(index),
            RoleState::Candidate(n) => n.get_term_at(index),
            RoleState::Leader(n) => n.get_term_at(index),
            RoleState::Poisoned => vstd::pervasive::unreached(),
        }
    }

    pub fn read_entries(&self, start: LogIndex, end: LogIndex) -> (r: Result<Vec<LogEntry>, NodeError>)
        requires
            !(*self is Poisoned),
        ensures
            match r {
                Ok(v) => entry_views(v@) == self.node()->0.log.range(start.0, end.0 as int),
                Err(e) => e is Storage && !self.reliable(),
            },
    {
        match self {
            RoleState::Follower(n) => n.read_entries(start, end),
            RoleState::PreCandidate(n) => n.read_entries(start, end),
            RoleState::Candidate(n) => n.read_entries(start, end),
            RoleState::Leader(n) => n.read_entries(start, end),
            RoleState::Poisoned => vstd::pervasive::unreached(),
        }
    }

    pub fn cluster_id(&self) -> (r: &ClusterId)
        requires
            !(*self is Poisoned),
        ensures
            r@ == self.node()->0.identity.cluster,
    {
        match self {
            RoleState::Follower(n) => n.cluster_id(),
            RoleState::PreCandidate(n) => n.cluster_id(),
            RoleState::Candidate(n) => n.cluster_id(),
            RoleState::Leader(n) => n.cluster_id(),
            RoleState::Poisoned => vstd::pervasive::unreached(),
        }
    }

    pub fn node_id(&self) -> (r: NodeId)
        requires
            !(*self is Poisoned),
        ensures
            r == self.node()->0.identity.node,
    {
        match self {
            RoleState::Follower(n) => n.node_id(),
            RoleState::PreCandidate(n) => n.node_id(),
            RoleState::Candidate(n) => n.node_id(),
            RoleState::Leader(n) => n.node_id(),
            RoleState::Poisoned => vstd::pervasive::unreached(),
        }
    }

    pub fn identity(&self) -> (r: &NodeIdentity)
        requires
            !(*self is Poisoned),
        ensures
            r@ == self.node()->0.identity,
    {
        match self {
            RoleState::Follower(n) => n.identity(),
            RoleState::PreCandidate(n) => n.identity(),
            RoleState::Candidate(n) => n.identity(),
            RoleState::Leader(n) => n.identity(),
            RoleState::Poisoned => vstd::pervasive::unreached(),
        }
    }

    pub fn last_committed(&self) -> (r: LogIndex)
        requires
            !(*self is Poisoned),
        ensures
            r == self.node()->0.last_committed,
    {
        match self {
            RoleState::Follower(n) => n.last_committed(),
            RoleState::PreCandidate(n) => n.last_committed(),
            RoleState::Candidate(n) => n.last_committed(),
            RoleState::Leader(n) => n.last_committed(),
            RoleState::Poisoned => vstd::pervasive::unreached(),
        }
    }

    pub fn last_applied(&self) -> (r: LogIndex)
        requires
            !(*self is Poisoned),
        ensures
            r == self.node()->0.last_applied,
    {
        match self {
            RoleState::Follower(n) => n.last_applied(),
            RoleState::PreCandidate(n) => n.last_applied(),
            RoleState::Candidate(n) => n.last_applied(),
            RoleState::Leader(n) => n.last_applied(),
            RoleState::Poisoned => vstd::pervasive::unreached(),
        }
    }

    pub fn log_store(&self) -> (r: &L)
        requires
            !(*self is Poisoned),
        ensures
            r.model() == self.node()->0.log,
            r.reliable() == self.reliable(),
    {
        match self {
            RoleState::Follower(n) => n.log_store(),
            RoleState::PreCandidate(n) => n.log_store(),
            RoleState::Candidate(n) => n.log_store(),
            RoleState::Leader(n) => n.log_store(),
            RoleState::Poisoned => vstd::pervasive::unreached(),
        }
    }

    pub fn save_snapshot_metadata(&mut self, index: LogIndex, term: Term) -> (r: Result<(), NodeError>)
        requires
            !(*old(self) is Poisoned),
        ensures
            match r {
                Ok(()) => final(self).node() == Some(
                    old(self).node()->0.with_log(old(self).node()->0.log.with_snapshot(index, term)),
                ),
                Err(e) => e is Storage && !old(self).reliable(),
            },
            final(self).kind() == old(self).kind(),
            old(self).wf() ==> final(self).wf(),
            old(self).reliable() ==> final(self).reliable(),
    {
        match self {
            RoleState::Follower(n) => n.save_snapshot_metadata(index, term),
            RoleState::PreCandidate(n) => n.save_snapshot_metadata(index, term),
            RoleState::Candidate(n) => n.save_snapshot_metadata(index, term),
            RoleState::Leader(n) => n.save_snapshot_metadata(index, term),
            RoleState::Poisoned => vstd::pervasive::unreached(),
        }
    }

    pub fn truncate_log_front(&mut self, index: LogIndex) -> (r: Result<(), LogStorageError>)
        requires
            !(*old(self) is Poisoned),
            index.0 <= old(self).node()->0.log.included_index.0,
        ensures
            match r {
                Ok(()) => final(self).node() == Some(
                    old(self).node()->0.with_log(old(self).node()->0.log.front_truncated(index)),
                ),
                Err(_) => !old(self).reliable(),
            },
            final(self).node() is Some,
            final(self).node()->0 == old(self).node()->0.with_log(final(self).node()->0.log),
            final(self).kind() == old(self).kind(),
            old(self).wf() ==> final(self).wf(),
            old(self).reliable() ==> final(self).reliable(),
    {
        match self {
            RoleState::Follower(n) => n.truncate_log_front(index),
            RoleState::PreCandidate(n) => n.truncate_log_front(index),
            RoleState::Candidate(n) => n.truncate_log_front(index),
            RoleState::Leader(n) => n.truncate_log_front(index),
            RoleState::Poisoned => vstd::pervasive::unreached(),
        }
    }

    pub fn update_commit_index_only(&mut self, index: LogIndex) -> (r: Result<(), NodeError>)
        requires
            !(*old(self) is Poisoned),
        ensures
            match r {
                Ok(()) => (index.0 < old(self).node()->0.last_committed.0 || index.0
                    <= old(self).node()->0.log.last_index()) && final(self).node() == Some(
                    old(self).node()->0.committed_to(index),
                ),
                Err(NodeError::Storage(_)) => index.0 >= old(self).node()->0.last_committed.0 && !old(
                    self,
                ).reliable(),
                Err(e) => commit_refused(old(self).node()->0, index, e) && final(self).node()
                    == old(self).node(),
            },
            final(self).kind() == old(self).kind(),
            old(self).wf() ==> final(self).wf(),
            old(self).reliable() ==> final(self).reliable(),
    {
        match self {
            RoleState::Follower(n) => n.update_commit_index_only(index),
            RoleState::PreCandidate(n) => n.update_commit_index_only(index),
            RoleState::Candidate(n) => n.update_commit_index_only(index),
            RoleState::Leader(n) => n.update_commit_index_only(index),
            RoleState::Poisoned => vstd::pervasive::unreached(),
        }
    }

    pub fn advance_horizon_after_snapshot(&mut self, index: LogIndex) -> (r: Result<(), NodeError>)
        requires
            !(*old(self) is Poisoned),
        ensures
            match r {
                Ok(()) => (index.0 < old(self).node()->0.last_committed.0 || index.0
                    <= old(self).node()->0.log.last_index()) && final(self).node() == Some(
                    old(self).node()->0.committed_to(index).applied_to(index),
                ),
                Err(NodeError::Storage(_)) => {
                    &&& index.0 >= old(self).node()->0.last_committed.0
                    &&& !old(self).reliable()
                    &&& final(self).node() == Some(
                        old(self).node()->0.with_log(final(self).node()->0.log),
                    )
                },
                Err(e) => commit_refused(old(self).node()->0, index, e) && final(self).node()
                    == old(self).node(),
            },
            final(self).kind() == old(self).kind(),
            old(self).wf() ==> final(self).wf(),
            old(self).reliable() ==> final(self).reliable(),
    {
        match self {
            RoleState::Follower(n) => n.advance_horizon_after_snapshot(index),
            RoleState::PreCandidate(n) => n.advance_horizon_after_snapshot(index),
            RoleState::Candidate(n) => n.advance_horizon_after_snapshot(index),
            RoleState::Leader(n) => n.advance_horizon_after_snapshot(index),
            RoleState::Poisoned => vstd::pervasive::unreached(),
        }
    }
}

/// Whether committing `index` is refused with `e` because the log does not
/// reach that far.
pub open spec fn commit_refused(node: NodeView, index: LogIndex, e: NodeError) -> bool {
    &&& index.0 >= node.last_committed.0
    &&& index.0 > node.log.last_index()
    &&& e == NodeError::Protocol(
        ProtocolError::CommitBeyondLog { index, last: LogIndex(node.log.last_index()) },
    )
}

} // verus!
