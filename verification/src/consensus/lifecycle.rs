//! One beat of the tick loop, and the compaction of the log.
use std::time::Duration;

use vstd::prelude::*;

use super::rpc::determine_node_role_name;
use super::types::ElectionCampaignParams;
use super::types::PreVoteCampaignParams;
use super::types::ReplicationRoundParams;
use crate::config::RaftConfig;
use crate::engine::LogicalNode;
use crate::errors::LogStorageError;
use crate::errors::NodeError;
use crate::errors::ProtocolError;
use crate::node::TickAction;
use crate::storage::LogStorage;
use crate::types::LogIndex;
use crate::types::Term;
use crate::types::TraceId;

verus! {

use super::rpc::role_name;
use crate::config::millis;
use crate::engine::LogicalView;
use crate::node::NodeView;
use crate::types::ArithmeticError;

/// Up to where the log is to be compacted.
#[derive(Clone, Copy, Debug, PartialEq, Eq, Structural)]
pub struct CompactionTarget {
    pub index: LogIndex,
    pub term: Term,
}

/// The work that a beat hands over to the transport.
#[derive(Clone, Copy, Debug)]
pub enum Handoff {
    Nothing,
    Campaign(ElectionCampaignParams),
    PreVote(PreVoteCampaignParams),
    Replicate(ReplicationRoundParams),
}

/// What one beat of the tick loop has decided.
#[derive(Clone, Copy, Debug)]
pub struct TickPlan {
    pub action: TickAction,
    /// The role at the beat, for telemetry.
    pub role_name: &'static str,
    /// The term at the beat.
    pub term: Term,
    /// Set if the log is to be compacted; the state machine is frozen already.
    pub compaction: Option<CompactionTarget>,
    pub handoff: Handoff,
}

impl NodeView {
    /// How many applied entries the log still holds.
    pub open spec fn compactable(self) -> int {
        self.last_applied.0 - self.log.included_index.0
    }

    /// Where the log may be cut: at what was applied.
    pub open spec fn compaction_target(self) -> CompactionTarget {
        CompactionTarget {
            index: self.last_applied,
            term: Term(self.log.term_at(self.last_applied.0)),
        }
    }

    /// What an election campaign of this node asks with.
    pub open spec fn campaign_params(self, trace_id: TraceId) -> ElectionCampaignParams {
        ElectionCampaignParams {
            term: self.log.current_term,
            node_id: self.identity.node,
            last_log_index: LogIndex(self.log.last_index()),
            last_log_term: Term(self.log.last_term()),
            trace_id,
        }
    }

    /// What a pre-vote campaign of this node asks with.
    pub open spec fn pre_vote_params(
        self,
        rpc_timeout: Duration,
        trace_id: TraceId,
    ) -> PreVoteCampaignParams {
        PreVoteCampaignParams {
            term: self.log.current_term,
            node_id: self.identity.node,
            last_log_index: LogIndex(self.log.last_index()),
            last_log_term: Term(self.log.last_term()),
            rpc_timeout,
            trace_id,
        }
    }

    /// What a replication round of this node works with.
    pub open spec fn round_params(self, trace_id: TraceId) -> ReplicationRoundParams {
        ReplicationRoundParams {
            term: self.log.current_term,
            node_id: self.identity.node,
            last_committed: self.last_committed,
            trace_id,
        }
    }
}

impl LogicalView {
    /// Whether the log has grown past `threshold` and nothing holds the state
    /// machine frozen.
    pub open spec fn compaction_due(self, threshold: u64) -> bool {
        self.freezes == 0 && self.node->0.compactable() > threshold
    }

    /// The node after a beat has looked at compaction.
    pub open spec fn compaction_begun(self, threshold: u64) -> LogicalView {
        if self.compaction_due(threshold) {
            self.frozen()
        } else {
            self
        }
    }
}

/// Whether the log holds more applied entries than the configuration allows.
/// It is not compacted while a snapshot task is under way.
pub fn should_compact_log<L: LogStorage>(
    node: &mut LogicalNode<L>,
    config: &RaftConfig,
    is_frozen: bool,
) -> (r: Result<bool, NodeError>)
    requires
        old(node).wf(),
        !old(node).poisoned(),
    ensures
        match r {
            Ok(due) => {
                &&& due == (!is_frozen && old(node)@.node->0.compactable()
                    > config.snapshot_threshold)
                &&& *final(node) == *old(node)
            },
            Err(e) => !is_frozen && LogicalNode::storage_halt(*old(node), *final(node), e),
        },
        old(node)@.upholds(final(node)@),
        final(node).wf(),
        old(node).reliable() ==> final(node).reliable(),
{
    if is_frozen {
        return Ok(false);
    }
    let applied: LogIndex = node.last_applied();
    let included: LogIndex = node.last_included_index()?;
    Ok(applied.0.saturating_sub(included.0) > config.snapshot_threshold)
}

/// Starts a pre-vote campaign, if the node follows.
pub fn begin_pre_vote<L: LogStorage>(
    node: &mut LogicalNode<L>,
    config: &RaftConfig,
    trace_id: TraceId,
) -> (r: Result<PreVoteCampaignParams, NodeError>)
    requires
        old(node).wf(),
        !old(node).poisoned(),
    ensures
        match r {
            Ok(params) => old(node)@.opens_pre_vote(
                final(node)@,
                millis(config.rpc_timeout_ms),
                trace_id,
                params,
            ),
            Err(e) => LogicalNode::storage_halt(*old(node), *final(node), e),
        },
        old(node)@.upholds(final(node)@),
        final(node).wf(),
        old(node).reliable() ==> final(node).reliable(),
{
    let term: Term = node.current_term()?;
    let last_log_index: LogIndex = node.last_log_index()?;
    let last_log_term: Term = node.last_log_term()?;
    node.into_pre_candidate();
    Ok(
        PreVoteCampaignParams {
            term,
            node_id: node.node_id(),
            last_log_index,
            last_log_term,
            rpc_timeout: config.rpc_timeout(),
            trace_id,
        },
    )
}

/// Returns to following after a pre-vote campaign has run out of time; the
/// term stays.
pub fn step_down<L: LogStorage>(node: &mut LogicalNode<L>) -> (r: Result<(), NodeError>)
    requires
        old(node).wf(),
        !old(node).poisoned(),
    ensures
        match r {
            Ok(()) => old(node)@.follows(final(node)@, old(node)@.term(), None),
            Err(e) => LogicalNode::storage_halt(*old(node), *final(node), e),
        },
        old(node)@.upholds(final(node)@),
        final(node).wf(),
        old(node).reliable() ==> final(node).reliable(),
{
    let term: Term = node.current_term()?;
    node.into_follower(term, None)
}

/// What a beat hands over, given the node after the clock has moved and
/// compaction was looked at, and the node at the end.
pub open spec fn handed_over(
    at: LogicalView,
    after: LogicalView,
    rpc_timeout: Duration,
    trace_id: TraceId,
    handoff: Handoff,
) -> bool {
    match at.due() {
        TickAction::StartElection => {
            &&& at.runs_for_leader(after)
            &&& handoff == Handoff::Campaign(after.node->0.campaign_params(trace_id))
        },
        TickAction::StartPreVote => {
            &&& after == at.sounding_out()
            &&& handoff == Handoff::PreVote(at.node->0.pre_vote_params(rpc_timeout, trace_id))
        },
        TickAction::SendHeartbeat => {
            &&& after == at.refreshed()
            &&& handoff == Handoff::Replicate(at.node->0.round_params(trace_id))
        },
        TickAction::StepDown => at.follows(after, at.term(), None) && handoff == Handoff::Nothing,
        _ => after == at && handoff == Handoff::Nothing,
    }
}

impl LogicalView {
    /// Whether `plan` is what a beat of the tick loop decides, and `after` is
    /// the node then.
    pub open spec fn beats(
        self,
        after: LogicalView,
        config: RaftConfig,
        trace_id: TraceId,
        plan: TickPlan,
    ) -> bool {
        let threshold = config.snapshot_threshold;
        let rpc_timeout = millis(config.rpc_timeout_ms);
        let t = (LogicalView { tick: self.tick.next(), ..self });
        &&& plan.action == t.due()
        &&& plan.role_name@ == role_name(t.progress().role)
        &&& plan.term == t.progress().term
        &&& if t.node is None {
            &&& after == t
            &&& plan.compaction is None
            &&& plan.handoff == Handoff::Nothing
        } else {
            &&& plan.compaction == (if t.compaction_due(threshold) {
                Some(t.node->0.compaction_target())
            } else {
                None
            })
            &&& handed_over(
                t.compaction_begun(threshold),
                after,
                rpc_timeout,
                trace_id,
                plan.handoff,
            )
        }
    }

    /// The node with its log cut at `target`, up to where a snapshot stands in
    /// for it.
    pub open spec fn compacted(self, target: CompactionTarget) -> LogicalView {
        self.with_node(
            self.node->0.with_log(
                self.node->0.log.with_snapshot(target.index, target.term).front_truncated(
                    target.index,
                ),
            ),
        )
    }
}

/// Moves the clock on by one tick, and does at once all that must not be torn
/// apart: it marks the log for compaction, opens an election, gives a pre-vote
/// campaign up, or starts the next heartbeat interval. Whatever needs the
/// network is handed over.
pub fn drive_tick<L: LogStorage>(
    node: &mut LogicalNode<L>,
    config: &RaftConfig,
    trace_id: TraceId,
) -> (r: Result<TickPlan, NodeError>)
    requires
        old(node).wf(),
    ensures
        match r {
            Ok(plan) => old(node)@.beats(final(node)@, *config, trace_id, plan),
            Err(NodeError::Storage(_)) => {
                let t = (LogicalView { tick: old(node)@.tick.next(), ..old(node)@ });
                &&& !old(node).poisoned()
                &&& !old(node).reliable()
                &&& final(node)@ == t.halted() || final(node)@ == t.compaction_begun(
                    config.snapshot_threshold,
                ).halted()
            },
            Err(e) => {
                let t = (LogicalView { tick: old(node)@.tick.next(), ..old(node)@ });
                &&& e == NodeError::Arithmetic(ArithmeticError::Overflow)
                &&& t.node is Some
                &&& t.due() == TickAction::StartElection
                &&& t.term().0 == u64::MAX
                &&& final(node)@ == t.compaction_begun(config.snapshot_threshold).halted()
            },
        },
        r is Ok && old(node)@.node is Some ==> {
            let n = old(node)@.node->0;
            let plan = r->Ok_0;
            &&& plan.compaction is Some <==> old(node)@.freezes == 0 && n.last_applied.0
                > n.log.included_index.0 + config.snapshot_threshold
            &&& plan.compaction matches Some(target) ==> target.index == n.last_applied
                && target.term.0 == n.log.term_at(n.last_applied.0)
            &&& plan.handoff matches Handoff::Campaign(asked) ==> {
                &&& asked.term.0 == n.log.current_term.0 + 1
                &&& asked.last_log_index.0 == n.log.last_index()
                &&& asked.last_log_term.0 == n.log.last_term()
                &&& asked.node_id == n.identity.node
            }
            &&& plan.handoff matches Handoff::Replicate(round) ==> {
                &&& round.term == n.log.current_term
                &&& round.last_committed == n.last_committed
                &&& round.node_id == n.identity.node
            }
        },
        old(node)@.upholds(final(node)@),
        final(node).wf(),
        old(node).reliable() ==> final(node).reliable(),
{
    let action: TickAction = node.tick();
    let role_name: &'static str = determine_node_role_name(node);
    if node.is_poisoned() {
        return Ok(
            TickPlan {
                action,
                role_name,
                term: Term(0),
                compaction: None,
                handoff: Handoff::Nothing,
            },
        );
    }
    let term: Term = node.current_term()?;
    let frozen: bool = node.is_snapshotting();
    let compaction: Option<CompactionTarget> = if should_compact_log(node, config, frozen)? {
        node.set_snapshotting(true)?;
        let index: LogIndex = node.last_applied();
        let at: Term = node.get_term_at(index)?;
        Some(CompactionTarget { index, term: at })
    } else {
        None
    };
    let handoff: Handoff = match action {
        TickAction::StartElection => {
            node.into_candidate()?;
            Handoff::Campaign(
                ElectionCampaignParams {
                    term: node.current_term()?,
                    node_id: node.node_id(),
                    last_log_index: node.last_log_index()?,
                    last_log_term: node.last_log_term()?,
                    trace_id,
                },
            )
        },
        TickAction::StartPreVote => Handoff::PreVote(begin_pre_vote(node, config, trace_id)?),
        TickAction::SendHeartbeat => {
            node.reset_heartbeat();
            Handoff::Replicate(
                ReplicationRoundParams {
                    term,
                    node_id: node.node_id(),
                    last_committed: node.last_committed(),
                    trace_id,
                },
            )
        },
        TickAction::StepDown => {
            step_down(node)?;
            Handoff::Nothing
        },
        _ => Handoff::Nothing,
    };
    Ok(TickPlan { action, role_name, term, compaction, handoff })
}

/// Opens the compaction of the log up to `target`: records the snapshot, so
/// that the log may be cut there. A store that fails halts the node.
pub fn begin_compaction<L: LogStorage>(node: &mut LogicalNode<L>, target: CompactionTarget) -> (r:
    Result<(), NodeError>)
    requires
        old(node).wf(),
        !old(node).poisoned(),
    ensures
        match r {
            Ok(()) => final(node)@ == old(node)@.with_node(
                old(node)@.node->0.with_log(
                    old(node)@.node->0.log.with_snapshot(target.index, target.term),
                ),
            ),
            Err(e) => LogicalNode::storage_halt(*old(node), *final(node), e),
        },
        old(node)@.upholds(final(node)@),
        final(node).wf(),
        old(node).reliable() ==> final(node).reliable(),
{
    node.save_snapshot_metadata(target.index, target.term)
}

impl LogicalView {
    /// Whether `after` is the node, and `r` what is reported, after the log was
    /// to be cut at `index` and that went as in `cut`. The task that froze the
    /// state machine ends; a log that could not be cut halts the node.
    pub open spec fn records_cut(
        self,
        after: LogicalView,
        index: LogIndex,
        cut: Result<(), LogStorageError>,
        r: Result<(), NodeError>,
    ) -> bool {
        match r {
            Ok(()) => cut is Ok && self.freezes > 0 && after == self.thawed(),
            Err(NodeError::Protocol(ProtocolError::TruncationFailure { index: at, storage })) => {
                &&& at == index
                &&& cut == Err::<(), LogStorageError>(storage)
                &&& self.freezes > 0
                &&& after == self.thawed().halted()
            },
            Err(e) => {
                &&& self.freezes == 0
                &&& e == NodeError::Protocol(ProtocolError::FreezeUnderflow)
                &&& after == self.halted()
            },
        }
    }

    /// Whether `params` is what a pre-vote campaign that begins now asks with,
    /// and `after` is the node then.
    pub open spec fn opens_pre_vote(
        self,
        after: LogicalView,
        rpc_timeout: Duration,
        trace_id: TraceId,
        params: PreVoteCampaignParams,
    ) -> bool {
        &&& params == self.node->0.pre_vote_params(rpc_timeout, trace_id)
        &&& after == self.sounding_out()
    }
}

/// Ends the compaction of the log at `index`, given how cutting it went: thaws
/// the state machine, then halts a node whose log could not be cut.
pub fn finish_compaction<L: LogStorage>(
    node: &mut LogicalNode<L>,
    index: LogIndex,
    cut: Result<(), LogStorageError>,
) -> (r: Result<(), NodeError>)
    requires
        old(node).wf(),
    ensures
        old(node)@.records_cut(final(node)@, index, cut, r),
        old(node)@.upholds(final(node)@),
        final(node).wf(),
        old(node).reliable() ==> final(node).reliable(),
{
    node.set_snapshotting(false)?;
    match cut {
        Ok(()) => Ok(()),
        Err(storage) => node.apply_fatal(
            NodeError::Protocol(ProtocolError::TruncationFailure { index, storage }),
        ),
    }
}

/// Compacts the log up to `target` in one go: records the snapshot, cuts the
/// log, and thaws the state machine. Any failure halts the node; a log that
/// could not be cut does so once the state machine is thawed.
pub fn compact_log<L: LogStorage>(node: &mut LogicalNode<L>, target: CompactionTarget) -> (r: Result<
    (),
    NodeError,
>)
    requires
        old(node).wf(),
        !old(node).poisoned(),
    ensures
        match r {
            Ok(()) => {
                &&& old(node)@.freezes > 0
                &&& final(node)@ == old(node)@.compacted(target).thawed()
            },
            Err(NodeError::Storage(_)) => !old(node).reliable() && final(node)@
                == old(node)@.halted(),
            Err(NodeError::Protocol(ProtocolError::TruncationFailure { index, storage: _ })) => {
                &&& index == target.index
                &&& !old(node).reliable()
                &&& old(node)@.freezes > 0
                &&& final(node)@ == old(node)@.thawed().halted()
            },
            Err(e) => old(node)@.freezes == 0 && e == NodeError::Protocol(
                ProtocolError::FreezeUnderflow,
            ) && final(node)@ == old(node)@.halted(),
        },
        old(node)@.upholds(final(node)@),
        final(node).wf(),
        old(node).reliable() ==> final(node).reliable(),
{
    begin_compaction(node, target)?;
    let cut: Result<(), LogStorageError> = node.truncate_log_front(target.index);
    finish_compaction(node, target.index, cut)
}

} // verus!
