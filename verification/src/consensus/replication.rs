//! What a leader learns from the answers of its peers.
use vstd::prelude::*;

use super::rpc::build_append_entries_request;
use super::rpc::determine_replication_strategy;
use super::rpc::update_leader_last_committed;
use super::types::AppendEntriesReply;
use super::types::AppendEntriesRequest;
use super::types::InstallSnapshotRequest;
use super::types::ReplicationAction;
use super::types::ReplicationOutcome;
use super::types::ReplicationRoundParams;
use super::types::ReplicationStrategy;
use super::types::RpcResult;
use crate::engine::LogicalNode;
use crate::errors::FsmError;
use crate::errors::NodeError;
use crate::errors::ProtocolError;
use crate::node::Leader;
use crate::quorum::quorum_with_peers;
use crate::storage::LogStorage;
use crate::types::LogIndex;
use crate::types::NodeId;
use crate::types::Term;

verus! {

use super::types::AppendView;
use crate::engine::LogicalView;
use crate::engine::role::commit_refused;
use crate::node::LeaderView;
use crate::node::NodeView;
use crate::node::RoleView;
use crate::quorum::quorum;

broadcast use vstd::std_specs::hash::group_hash_axioms;

/// What an answer does to the leader's knowledge of a peer.
pub enum ReplyEffect {
    /// Nothing, or only the next index to try changes.
    Adjusted(LeaderView),
    /// More is known to be replicated.
    Advanced(LeaderView),
    /// An index leaves its range.
    Broken(ProtocolError),
}

impl LeaderView {
    /// The majority of the peers and the leader.
    pub open spec fn quorum(self) -> nat {
        quorum(self.next_index.dom().len() + 1)
    }

    /// The leader with `peer` at `matched`, to be sent what follows.
    pub open spec fn with_match(self, peer: u64, matched: u64) -> LeaderView {
        LeaderView {
            next_index: self.next_index.insert(peer, LogIndex((matched + 1) as u64)),
            match_index: self.match_index.insert(peer, LogIndex(matched)),
            ..self
        }
    }

    /// The leader that will try `peer` at `next`.
    pub open spec fn with_next(self, peer: u64, next: u64) -> LeaderView {
        LeaderView { next_index: self.next_index.insert(peer, LogIndex(next)), ..self }
    }

    /// What the outcome of a request to `peer` does.
    pub open spec fn absorb(
        self,
        peer: NodeId,
        term: Term,
        outcome: ReplicationOutcome,
    ) -> ReplyEffect {
        match outcome {
            ReplicationOutcome::AppendEntries { sent_prev_index, sent_entries_len, response } => {
                if response.success {
                    self.absorb_success(peer, term, sent_prev_index, sent_entries_len)
                } else {
                    self.absorb_mismatch(peer, term, response.last_log_index)
                }
            },
            ReplicationOutcome::InstallSnapshot { last_included_index, .. } => {
                if last_included_index.0 == u64::MAX {
                    ReplyEffect::Broken(
                        ProtocolError::SnapshotNextOverflow {
                            peer,
                            matched: last_included_index,
                            term,
                        },
                    )
                } else {
                    ReplyEffect::Advanced(self.with_match(peer@, last_included_index.0))
                }
            },
        }
    }

    /// The peer holds the `len` entries after `prev`. An answer that says less
    /// than is known already changes nothing.
    pub open spec fn absorb_success(
        self,
        peer: NodeId,
        term: Term,
        prev: LogIndex,
        len: u64,
    ) -> ReplyEffect {
        let matched = prev.0 + len;
        if matched > u64::MAX {
            ReplyEffect::Broken(ProtocolError::MatchOverflow { peer, prev, len, term })
        } else if matched == u64::MAX {
            ReplyEffect::Broken(
                ProtocolError::NextOverflow { peer, matched: LogIndex(u64::MAX), term },
            )
        } else if matched > self.match_for(peer@).0 {
            ReplyEffect::Advanced(self.with_match(peer@, matched as u64))
        } else {
            ReplyEffect::Adjusted(self)
        }
    }

    /// The peer's log, which ends at `last`, does not fit: try further back.
    pub open spec fn absorb_mismatch(self, peer: NodeId, term: Term, last: LogIndex) -> ReplyEffect {
        let next = self.next_for(peer@);
        if last.0 == u64::MAX {
            ReplyEffect::Broken(ProtocolError::BackoffOverflow { peer, last_log: last, term })
        } else if last.0 == 0 && next.0 == 0 {
            ReplyEffect::Broken(ProtocolError::BackoffUnderflow { peer, current_next: next, term })
        } else {
            ReplyEffect::Adjusted(self.with_next(peer@, backed_off(next.0, last.0)))
        }
    }
}

/// The index to try after a peer has rejected `next`: right after the end
/// `last` of its log if that is further back, one step back otherwise, but not
/// before the first entry.
pub open spec fn backed_off(next: u64, last: u64) -> u64 {
    if 0 < last && last + 1 < next {
        (last + 1) as u64
    } else if next > 1 {
        (next - 1) as u64
    } else {
        next
    }
}

impl LogicalView {
    /// Whether the node still leads `term`.
    pub open spec fn leads(self, term: Term) -> bool {
        &&& self.node is Some
        &&& self.node->0.role is Leader
        &&& self.term() == term
    }

    /// The knowledge of the leader after `peer` has answered at all.
    pub open spec fn acked_by(self, peer: u64) -> LeaderView {
        let l = self.node->0.role->Leader_0;
        l.acknowledged(peer, l.quorum())
    }

    /// The leader with other knowledge of its peers.
    pub open spec fn with_leader(self, l: LeaderView) -> LogicalView {
        self.with_node(self.node->0.in_role(RoleView::Leader(l)))
    }
}

/// Moves what is known of `peer_id` by one answer; `true` if more is known to
/// be replicated.
fn absorb_outcome(
    leader: &mut Leader,
    peer_id: NodeId,
    term: Term,
    outcome: ReplicationOutcome,
) -> (r: Result<bool, ProtocolError>)
    ensures
        match old(leader)@.absorb(peer_id, term, outcome) {
            ReplyEffect::Adjusted(l) => r == Ok::<bool, ProtocolError>(false) && final(leader)@ == l,
            ReplyEffect::Advanced(l) => r == Ok::<bool, ProtocolError>(true) && final(leader)@ == l,
            ReplyEffect::Broken(e) => r == Err::<bool, ProtocolError>(e) && final(leader)@ == old(leader)@,
        },
{
    let key: u64 = peer_id.as_u64();
    match outcome {
        ReplicationOutcome::AppendEntries { sent_prev_index, sent_entries_len, response } => {
            if response.success {
                let matched: LogIndex = match sent_prev_index.checked_add(sent_entries_len) {
                    Ok(i) => i,
                    Err(_) => return Err(
                        ProtocolError::MatchOverflow {
                            peer: peer_id,
                            prev: sent_prev_index,
                            len: sent_entries_len,
                            term,
                        },
                    ),
                };
                let next: LogIndex = match matched.checked_add(1) {
                    Ok(i) => i,
                    Err(_) => return Err(
                        ProtocolError::NextOverflow { peer: peer_id, matched, term },
                    ),
                };
                if matched.0 > leader.match_for(peer_id).0 {
                    leader.next_index_mut().insert(key, next);
                    leader.match_index_mut().insert(key, matched);
                    return Ok(true);
                }
                Ok(false)
            } else {
                let current: LogIndex = leader.next_for(peer_id);
                let last: LogIndex = response.last_log_index;
                let after: LogIndex = match last.checked_add(1) {
                    Ok(i) => i,
                    Err(_) => return Err(
                        ProtocolError::BackoffOverflow { peer: peer_id, last_log: last, term },
                    ),
                };
                if last.0 == 0 && current.0 == 0 {
                    return Err(
                        ProtocolError::BackoffUnderflow {
                            peer: peer_id,
                            current_next: current,
                            term,
                        },
                    );
                }
                let next: LogIndex = if last.0 > 0 && after.0 < current.0 {
                    after
                } else if current.0 > 1 {
                    LogIndex(current.0 - 1)
                } else {
                    current
                };
                leader.next_index_mut().insert(key, next);
                Ok(false)
            }
        },
        ReplicationOutcome::InstallSnapshot { last_included_index, .. } => {
            let next: LogIndex = match last_included_index.checked_add(1) {
                Ok(i) => i,
                Err(_) => return Err(
                    ProtocolError::SnapshotNextOverflow {
                        peer: peer_id,
                        matched: last_included_index,
                        term,
                    },
                ),
            };
            leader.next_index_mut().insert(key, next);
            leader.match_index_mut().insert(key, last_included_index);
            Ok(true)
        },
    }
}

impl LogicalView {
    /// Whether `after` is the node, and `action` what it does next, after
    /// `peer` has answered a request of `term` with `outcome`. A higher term
    /// ends the lead. A leader of `term` takes the answer for a sign of life,
    /// moves what it knows of the peer, and commits what a majority then holds.
    pub open spec fn hears_of_reply(
        self,
        after: LogicalView,
        term: Term,
        peer: NodeId,
        outcome: ReplicationOutcome,
        action: ReplicationAction,
    ) -> bool {
        if outcome.term().0 > term.0 {
            &&& action == ReplicationAction::Demoted
            &&& outcome.term().0 >= self.term().0
            &&& self.follows(after, outcome.term(), None)
        } else if self.leads(term) {
            &&& action == ReplicationAction::Continue
            &&& match self.acked_by(peer@).absorb(peer, term, outcome) {
                ReplyEffect::Adjusted(l) => after == self.with_leader(l),
                ReplyEffect::Advanced(l) => after == self.with_node(
                    self.with_leader(l).node->0.with_majority_committed(),
                ),
                ReplyEffect::Broken(_) => false,
            }
        } else {
            &&& action == ReplicationAction::Continue
            &&& after == self
        }
    }
}

/// What a usable answer to a leader of `term` does.
pub open spec fn replies<L: LogStorage>(
    before: LogicalNode<L>,
    after: LogicalNode<L>,
    term: Term,
    peer_id: NodeId,
    outcome: ReplicationOutcome,
    r: Result<ReplicationAction, NodeError>,
) -> bool {
    let acked = before@.acked_by(peer_id@);
    match r {
        Ok(action) => before@.hears_of_reply(after@, term, peer_id, outcome, action),
        Err(NodeError::Storage(_)) => !before.reliable() && after@ == before@.halted(),
        Err(e) => match acked.absorb(peer_id, term, outcome) {
            ReplyEffect::Adjusted(_) => false,
            ReplyEffect::Advanced(l) => {
                let n = before@.with_leader(l).node->0;
                &&& n.commit_point() is Some
                &&& commit_refused(n, n.commit_point()->0, e)
                &&& after@ == before@.halted()
            },
            ReplyEffect::Broken(p) => e == NodeError::Protocol(p) && after@ == before@.with_leader(
                acked,
            ),
        },
    }
}

/// Takes in one answer of a replication round. A higher term ends the lead. An
/// answer to the leader of `term` confirms the heartbeat, moves what is known
/// of the peer, and commits what a majority then holds.
pub fn process_replication_response<L: LogStorage>(
    node: &mut LogicalNode<L>,
    term: Term,
    peer_id: NodeId,
    res: RpcResult<Option<ReplicationOutcome>>,
) -> (r: Result<ReplicationAction, NodeError>)
    requires
        old(node).wf(),
        !old(node).poisoned(),
    ensures
        match res {
            Ok(Some(outcome)) => if outcome.term().0 > term.0 {
                match r {
                    Ok(action) => old(node)@.hears_of_reply(
                        final(node)@,
                        term,
                        peer_id,
                        outcome,
                        action,
                    ),
                    Err(NodeError::Storage(_)) => !old(node).reliable() && final(node)@
                        == old(node)@.halted(),
                    Err(e) => {
                        &&& outcome.term().0 < old(node)@.term().0
                        &&& e == NodeError::Protocol(
                            ProtocolError::TermRegression {
                                current: old(node)@.term(),
                                new: outcome.term(),
                            },
                        )
                        &&& final(node)@ == old(node)@.halted()
                    },
                }
            } else if old(node)@.leads(term) {
                replies(*old(node), *final(node), term, peer_id, outcome, r)
            } else {
                match r {
                    Ok(action) => old(node)@.hears_of_reply(
                        final(node)@,
                        term,
                        peer_id,
                        outcome,
                        action,
                    ),
                    Err(e) => LogicalNode::storage_halt(*old(node), *final(node), e),
                }
            },
            _ => r == Ok::<ReplicationAction, NodeError>(ReplicationAction::Continue) && *final(node) == *old(node),
        },
        old(node)@.upholds(final(node)@),
        final(node).wf(),
        old(node).reliable() ==> final(node).reliable(),
{
    let outcome: ReplicationOutcome = match res {
        Ok(Some(v)) => v,
        Ok(None) => return Ok(ReplicationAction::Continue),
        Err(_) => return Ok(ReplicationAction::Continue),
    };
    let resp_term: Term = outcome.response_term();
    if resp_term.0 > term.0 {
        node.into_follower(resp_term, None)?;
        return Ok(ReplicationAction::Demoted);
    }
    let current_term: Term = node.current_term()?;
    if current_term.0 != term.0 {
        return Ok(ReplicationAction::Continue);
    }
    let advanced: bool = match node.as_leader_mut() {
        Some(n) => {
            let leader: &mut Leader = n.state_mut();
            let needed: usize = quorum_with_peers(leader.next_index().len());
            leader.acknowledge_heartbeat(peer_id, needed);
            match absorb_outcome(leader, peer_id, term, outcome) {
                Ok(b) => b,
                Err(e) => return Err(NodeError::Protocol(e)),
            }
        },
        None => return Ok(ReplicationAction::Continue),
    };
    if advanced {
        update_leader_last_committed(node)?;
    }
    Ok(ReplicationAction::Continue)
}

/// What is to be sent to a peer.
#[derive(Debug, PartialEq, Eq)]
pub enum ReplicationStep {
    /// These entries, possibly none.
    Send(AppendEntriesRequest),
    /// A snapshot, if the peer answers the probe.
    SendSnapshot {
        probe: AppendEntriesRequest,
        last_included_index: LogIndex,
        last_included_term: Term,
    },
    /// Nothing.
    Skip,
}

/// The request without entries that probes a peer before a snapshot is
/// serialised: it is anchored where the snapshot ends.
pub open spec fn probe_view(
    params: ReplicationRoundParams,
    last_included_index: LogIndex,
    last_included_term: Term,
) -> AppendView {
    AppendView {
        term: params.term,
        leader_id: params.node_id,
        prev_log_index: last_included_index,
        prev_log_term: last_included_term,
        entries: Seq::empty(),
        leader_commit: params.last_committed,
    }
}

impl NodeView {
    /// Whether `step` is what the node sends to `peer` next.
    pub open spec fn sends(
        self,
        peer: u64,
        params: ReplicationRoundParams,
        snapshot_in_flight: bool,
        step: ReplicationStep,
    ) -> bool {
        let next = self.next_for(peer);
        if !(self.role is Leader) {
            step is Skip
        } else if next.0 > self.log.included_index.0 || (snapshot_in_flight && next.0 > 0) {
            &&& step matches ReplicationStep::Send(req)
            &&& req@ == self.request_for(
                peer,
                params.term,
                params.node_id,
                params.last_committed,
            )
        } else if snapshot_in_flight {
            step is Skip
        } else {
            &&& step matches ReplicationStep::SendSnapshot {
                probe,
                last_included_index,
                last_included_term,
            }
            &&& last_included_index == self.log.included_index
            &&& last_included_term == self.log.included_term
            &&& probe@ == probe_view(params, last_included_index, last_included_term)
        }
    }
}

/// Plans the next request to `peer_id`. While a snapshot for the peer is in
/// flight it gets the entries that the log still holds, as a sign of life.
pub fn plan_replication<L: LogStorage>(
    node: &mut LogicalNode<L>,
    peer_id: NodeId,
    params: ReplicationRoundParams,
    snapshot_in_flight: bool,
) -> (r: Result<ReplicationStep, NodeError>)
    requires
        old(node).wf(),
        !old(node).poisoned(),
    ensures
        match r {
            Ok(step) => {
                &&& *final(node) == *old(node)
                &&& old(node)@.node->0.sends(peer_id@, params, snapshot_in_flight, step)
            },
            Err(e) => old(node)@.node->0.role is Leader && LogicalNode::storage_halt(
                *old(node),
                *final(node),
                e,
            ),
        },
        old(node)@.upholds(final(node)@),
        final(node).wf(),
        old(node).reliable() ==> final(node).reliable(),
{
    match determine_replication_strategy(node, peer_id, params)? {
        None => Ok(ReplicationStep::Skip),
        Some(ReplicationStrategy::AppendEntries(req)) => Ok(ReplicationStep::Send(req)),
        Some(
            ReplicationStrategy::InstallSnapshot { last_included_index, last_included_term },
        ) => {
            if snapshot_in_flight {
                match build_append_entries_request(
                    node,
                    peer_id,
                    params.term,
                    params.node_id,
                    params.last_committed,
                ) {
                    Ok(req) => Ok(ReplicationStep::Send(req)),
                    Err(NodeError::Arithmetic(_)) => Ok(ReplicationStep::Skip),
                    Err(e) => Err(e),
                }
            } else {
                let probe = AppendEntriesRequest {
                    term: params.term,
                    leader_id: params.node_id,
                    prev_log_index: last_included_index,
                    prev_log_term: last_included_term,
                    entries: Vec::new(),
                    leader_commit: params.last_committed,
                };
                assert(probe@.entries =~= Seq::empty());
                Ok(ReplicationStep::SendSnapshot { probe, last_included_index, last_included_term })
            }
        },
    }
}

/// What was sent to a peer with `req`, and that it answered with `response`.
pub open spec fn outcome_of(req: AppendView, response: AppendEntriesReply) -> ReplicationOutcome {
    ReplicationOutcome::AppendEntries {
        sent_prev_index: req.prev_log_index,
        sent_entries_len: req.entries.len() as u64,
        response,
    }
}

/// What came back for a request to append entries.
pub fn append_outcome(request: &AppendEntriesRequest, response: AppendEntriesReply) -> (r:
    ReplicationOutcome)
    ensures
        r == outcome_of(request@, response),
{
    ReplicationOutcome::AppendEntries {
        sent_prev_index: request.prev_log_index,
        sent_entries_len: request.entries.len() as u64,
        response,
    }
}

/// Whether a snapshot is worth serialising, after the peer was probed.
#[derive(Debug, PartialEq, Eq)]
pub enum ProbeDecision {
    /// The peer does not answer; try again in a later round.
    Abort,
    /// The peer knows a higher term; hand its answer on.
    HandOn(ReplicationOutcome),
    /// The peer is there.
    Proceed,
}

/// What the answer to a probe that a leader of `term` sent says.
pub open spec fn probe_judged(
    term: Term,
    res: RpcResult<Option<ReplicationOutcome>>,
) -> ProbeDecision {
    match res {
        Err(_) => ProbeDecision::Abort,
        Ok(Some(outcome)) => if outcome.term().0 > term.0 {
            ProbeDecision::HandOn(outcome)
        } else {
            ProbeDecision::Proceed
        },
        Ok(None) => ProbeDecision::Proceed,
    }
}

/// Judges the answer to the probe that precedes a snapshot.
pub fn judge_probe(term: Term, res: RpcResult<Option<ReplicationOutcome>>) -> (r: ProbeDecision)
    ensures
        r == probe_judged(term, res),
{
    match res {
        Err(_) => ProbeDecision::Abort,
        Ok(Some(outcome)) => {
            if outcome.response_term().0 > term.0 {
                ProbeDecision::HandOn(outcome)
            } else {
                ProbeDecision::Proceed
            }
        },
        Ok(None) => ProbeDecision::Proceed,
    }
}

/// Whether `req` sends a snapshot that ends as given, in the name of the leader
/// whose round it is.
pub open spec fn wraps_snapshot(
    req: InstallSnapshotRequest,
    params: ReplicationRoundParams,
    last_included_index: LogIndex,
    last_included_term: Term,
) -> bool {
    &&& req.term == params.term
    &&& req.leader_id == params.node_id
    &&& req.last_included_index == last_included_index
    &&& req.last_included_term == last_included_term
}

impl LogicalView {
    /// Whether `after` is the node after a snapshot was to be serialised, given
    /// whether the state machine has managed to, and `sent` says whether there
    /// is something to send. The task that froze the state machine ends; a state
    /// machine that failed halts the node.
    pub open spec fn ends_serialization(self, after: LogicalView, managed: bool, sent: bool) -> bool {
        if self.freezes == 0 {
            !sent && after == self.halted()
        } else if managed {
            sent && after == self.thawed()
        } else {
            !sent && after == self.thawed().halted()
        }
    }
}

/// Ends the serialisation of a snapshot for `peer_id`: thaws the state machine
/// and wraps the snapshot up. A state machine that failed halts the node.
pub fn finish_snapshot_serialization<L: LogStorage>(
    node: &mut LogicalNode<L>,
    peer_id: NodeId,
    params: ReplicationRoundParams,
    last_included_index: LogIndex,
    last_included_term: Term,
    snapshot: Result<Vec<u8>, FsmError>,
) -> (r: Result<InstallSnapshotRequest, NodeError>)
    requires
        old(node).wf(),
    ensures
        match r {
            Ok(req) => {
                &&& snapshot == Ok::<Vec<u8>, FsmError>(req.data)
                &&& wraps_snapshot(req, params, last_included_index, last_included_term)
            },
            Err(NodeError::Protocol(ProtocolError::SnapshotSerialization { peer, index, term, cause })) =>
                {
                &&& snapshot == Err::<Vec<u8>, FsmError>(cause)
                &&& peer == peer_id && index == last_included_index && term == params.term
            },
            Err(e) => e == NodeError::Protocol(ProtocolError::FreezeUnderflow),
        },
        old(node)@.ends_serialization(final(node)@, snapshot is Ok, r is Ok),
        r is Err ==> (r->Err_0 == NodeError::Protocol(ProtocolError::FreezeUnderflow)
            <==> old(node)@.freezes == 0),
        old(node)@.upholds(final(node)@),
        final(node).wf(),
        old(node).reliable() ==> final(node).reliable(),
{
    node.set_snapshotting(false)?;
    match snapshot {
        Ok(data) => Ok(
            InstallSnapshotRequest {
                term: params.term,
                leader_id: params.node_id,
                last_included_index,
                last_included_term,
                data,
            },
        ),
        Err(cause) => node.apply_fatal(
            NodeError::Protocol(
                ProtocolError::SnapshotSerialization {
                    peer: peer_id,
                    index: last_included_index,
                    term: params.term,
                    cause,
                },
            ),
        ),
    }
}

impl LogicalView {
    /// The node with one snapshot task less.
    pub open spec fn thawed(self) -> LogicalView {
        LogicalView { freezes: (self.freezes - 1) as u32, ..self }
    }

    /// The node with one snapshot task more.
    pub open spec fn frozen(self) -> LogicalView {
        LogicalView { freezes: (self.freezes + 1) as u32, ..self }
    }
}

} // verus!
