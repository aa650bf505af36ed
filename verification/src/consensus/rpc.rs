//! Building requests, advancing the commit boundary, checking answers.
use vstd::prelude::*;

use super::types::AppendEntriesRequest;
use super::types::ReplicationRoundParams;
use super::types::ReplicationStrategy;
use super::types::RpcCode;
use super::types::RpcResult;
use super::types::RpcStatus;
use crate::engine::LogicalNode;
use crate::engine::NodeRole;
use crate::errors::NodeError;
use crate::quorum::find_majority_index;
use crate::storage::LogStorage;
use crate::types::LogEntry;
use crate::types::LogIndex;
use crate::types::NodeId;
use crate::types::Term;
use crate::types::TraceId;

verus! {

use super::types::AppendView;
use crate::engine::role::commit_refused;
use crate::node::NodeView;
use crate::node::RoleView;
use crate::quorum::majority_index;
use crate::types::ArithmeticError;

/// The name under which a role appears in telemetry.
pub open spec fn role_name(role: NodeRole) -> Seq<char> {
    match role {
        NodeRole::Follower => "follower_session"@,
        NodeRole::PreCandidate => "pre_candidate_session"@,
        NodeRole::Candidate => "candidate_session"@,
        NodeRole::Leader => "leader_idle_session"@,
        NodeRole::Poisoned => "poisoned"@,
    }
}

/// The name under which the role of the node appears in telemetry.
pub fn determine_node_role_name<L: LogStorage>(node: &LogicalNode<L>) -> (r: &'static str)
    requires
        node.wf(),
    ensures
        r@ == role_name(node@.progress().role),
{
    match node.node_role() {
        NodeRole::Follower => "follower_session",
        NodeRole::PreCandidate => "pre_candidate_session",
        NodeRole::Candidate => "candidate_session",
        NodeRole::Leader => "leader_idle_session",
        NodeRole::Poisoned => "poisoned",
    }
}

impl NodeView {
    /// The index to send to `peer` next.
    pub open spec fn next_for(self, peer: u64) -> LogIndex {
        match self.role {
            RoleView::Leader(l) => l.next_for(peer),
            _ => LogIndex(1),
        }
    }

    /// The request that sends `peer` all it is missing.
    pub open spec fn request_for(
        self,
        peer: u64,
        term: Term,
        leader_id: NodeId,
        leader_commit: LogIndex,
    ) -> AppendView {
        let next = self.next_for(peer);
        AppendView {
            term,
            leader_id,
            prev_log_index: LogIndex((next.0 - 1) as u64),
            prev_log_term: Term(self.log.term_at((next.0 - 1) as u64)),
            entries: self.log.range(next.0, self.log.last_index() as int),
            leader_commit,
        }
    }

    /// The index that a leader may commit now: the last that a majority holds,
    /// if it is new and belongs to the leader's own term.
    pub open spec fn commit_point(self) -> Option<LogIndex> {
        match self.role {
            RoleView::Leader(l) => {
                let m = majority_index(l.match_index, self.log.last_index());
                if m > self.last_committed.0 && self.log.term_at(m) == self.log.current_term.0 {
                    Some(LogIndex(m))
                } else {
                    None
                }
            },
            _ => None,
        }
    }

    /// The node after it has committed what it may.
    pub open spec fn with_majority_committed(self) -> NodeView {
        match self.commit_point() {
            Some(index) => self.committed_to(index),
            None => self,
        }
    }
}

/// How a leader brings `peer_id` up to date: with entries if its log reaches
/// back far enough, with a snapshot otherwise. A node that does not lead does
/// nothing.
pub fn determine_replication_strategy<L: LogStorage>(
    node: &mut LogicalNode<L>,
    peer_id: NodeId,
    params: ReplicationRoundParams,
) -> (r: Result<Option<ReplicationStrategy>, NodeError>)
    requires
        old(node).wf(),
        !old(node).poisoned(),
    ensures
        match r {
            Ok(strategy) => {
                let n = old(node)@.node->0;
                &&& *final(node) == *old(node)
                &&& if !(n.role is Leader) {
                    strategy is None
                } else if n.next_for(peer_id@).0 <= n.log.included_index.0 {
                    strategy == Some(
                        ReplicationStrategy::InstallSnapshot {
                            last_included_index: n.log.included_index,
                            last_included_term: n.log.included_term,
                        },
                    )
                } else {
                    &&& strategy matches Some(ReplicationStrategy::AppendEntries(req))
                    &&& req@ == n.request_for(
                        peer_id@,
                        params.term,
                        params.node_id,
                        params.last_committed,
                    )
                }
            },
            Err(e) => old(node)@.node->0.role is Leader && LogicalNode::storage_halt(
                *old(node),
                *final(node),
                e,
            ),
        },
        old(node)@.upholds(final(node)@),
        final(node).wf(),
        old(node).reliable() ==> final(node).reliable(),
{
    let next: LogIndex = match node.as_leader() {
        Some(n) => n.state().next_for(peer_id),
        None => return Ok(None),
    };
    let last_included_index: LogIndex = node.last_included_index()?;
    if next.0 <= last_included_index.0 {
        let last_included_term: Term = node.last_included_term()?;
        return Ok(
            Some(ReplicationStrategy::InstallSnapshot { last_included_index, last_included_term }),
        );
    }
    let req: AppendEntriesRequest = build_append_entries_request(
        node,
        peer_id,
        params.term,
        params.node_id,
        params.last_committed,
    )?;
    Ok(Some(ReplicationStrategy::AppendEntries(req)))
}

/// Builds the request that sends `peer_id` all it is missing.
pub fn build_append_entries_request<L: LogStorage>(
    node: &mut LogicalNode<L>,
    peer_id: NodeId,
    term: Term,
    node_id: NodeId,
    last_committed: LogIndex,
) -> (r: Result<AppendEntriesRequest, NodeError>)
    requires
        old(node).wf(),
        !old(node).poisoned(),
    ensures
        match r {
            Ok(req) => {
                let n = old(node)@.node->0;
                &&& *final(node) == *old(node)
                &&& n.next_for(peer_id@).0 > 0
                &&& req@ == n.request_for(peer_id@, term, node_id, last_committed)
                &&& req.prev_log_index.0 + 1 == n.next_for(peer_id@).0
                &&& req.prev_log_term.0 == n.log.term_at(req.prev_log_index.0)
                &&& req.term == term && req.leader_id == node_id && req.leader_commit
                    == last_committed
            },
            Err(NodeError::Arithmetic(e)) => {
                &&& e == ArithmeticError::Underflow
                &&& old(node)@.node->0.next_for(peer_id@).0 == 0
                &&& *final(node) == *old(node)
            },
            Err(e) => LogicalNode::storage_halt(*old(node), *final(node), e),
        },
        old(node)@.upholds(final(node)@),
        final(node).wf(),
        old(node).reliable() ==> final(node).reliable(),
{
    let next: LogIndex = match node.as_leader() {
        Some(n) => n.state().next_for(peer_id),
        None => LogIndex(1),
    };
    let last: LogIndex = node.last_log_index()?;
    let prev_log_index: LogIndex = match next.checked_sub(1) {
        Ok(i) => i,
        Err(e) => return Err(NodeError::Arithmetic(e)),
    };
    let prev_log_term: Term = node.get_term_at(prev_log_index)?;
    let entries: Vec<LogEntry> = node.read_entries(next, last)?;
    Ok(
        AppendEntriesRequest {
            term,
            leader_id: node_id,
            prev_log_index,
            prev_log_term,
            entries,
            leader_commit: last_committed,
        },
    )
}

/// Commits what a majority holds, if it belongs to the leader's own term.
pub fn update_leader_last_committed<L: LogStorage>(node: &mut LogicalNode<L>) -> (r: Result<
    (),
    NodeError,
>)
    requires
        old(node).wf(),
        !old(node).poisoned(),
    ensures
        match r {
            Ok(()) => final(node)@ == old(node)@.with_node(
                old(node)@.node->0.with_majority_committed(),
            ),
            Err(NodeError::Storage(_)) => !old(node).reliable() && final(node)@
                == old(node)@.halted(),
            Err(e) => {
                let n = old(node)@.node->0;
                &&& n.commit_point() is Some
                &&& commit_refused(n, n.commit_point()->0, e)
                &&& final(node)@ == old(node)@.halted()
            },
        },
        old(node)@.upholds(final(node)@),
        final(node).wf(),
        old(node).reliable() ==> final(node).reliable(),
{
    let last: LogIndex = node.last_log_index()?;
    let current_term: Term = node.current_term()?;
    let (majority, committed): (LogIndex, LogIndex) = match node.as_leader() {
        Some(n) => (find_majority_index(n.state().match_index(), last), n.last_committed()),
        None => return Ok(()),
    };
    if majority.0 > committed.0 {
        let term: Term = node.get_term_at(majority)?;
        if term.0 == current_term.0 {
            return node.advance_last_committed(majority);
        }
    }
    Ok(())
}

/// Whether a peer has answered in the causal chain it was asked in.
pub open spec fn echoes(returned: Option<TraceId>, expected: TraceId) -> bool {
    returned == Some(expected)
}

/// Checks that a peer has answered in the causal chain it was asked in.
pub fn verify_trace_integrity(returned: Option<TraceId>, expected: TraceId) -> (r: RpcResult<()>)
    ensures
        match r {
            Ok(()) => echoes(returned, expected),
            Err(status) => {
                &&& !echoes(returned, expected)
                &&& status.code == RpcCode::DataLoss
                &&& status.message@ == (if returned is Some {
                    "Causal Integrity Violation"@
                } else {
                    "Trace ID Missing in Response"@
                })
            },
        },
{
    match returned {
        Some(id) => {
            if id.0 == expected.0 {
                Ok(())
            } else {
                Err(RpcStatus::new(RpcCode::DataLoss, "Causal Integrity Violation"))
            }
        },
        None => Err(RpcStatus::new(RpcCode::DataLoss, "Trace ID Missing in Response")),
    }
}

} // verus!
