//! Operations that alternate between the node and the world outside.
//!
//! Each is cut into steps: a step decides on the state of the node alone, and
//! what happens between two steps (applying a command, restoring a snapshot,
//! waiting for an answer) may take its time without holding the node.
use vstd::prelude::*;

use crate::engine::ConsensusProgress;
use crate::engine::InstallSnapshotResult;
use crate::engine::LogicalNode;
use crate::engine::NodeRole;
use crate::engine::SnapshotAction;
use crate::errors::ConsensusError;
use crate::errors::FsmError;
use crate::errors::NodeError;
use crate::errors::ProtocolError;
use crate::state_machine::StateMachine;
use crate::storage::LogStorage;
use crate::types::LogEntry;
use crate::types::LogIndex;
use crate::types::NodeId;
use crate::types::Term;

verus! {

use crate::engine::LogicalView;
use crate::engine::role::commit_refused;
use crate::errors::LeaderRpc;
use crate::node::NodeView;
use crate::node::RoleView;
use crate::node::fsm_ops::commands;
use crate::storage::lemma_last_index;
use crate::storage::lemma_range_single;
use crate::types::entry_views;

// --- Applying committed entries ---

/// A committed command that waits to be applied.
#[derive(Debug, PartialEq, Eq)]
pub struct ApplyTask {
    pub index: LogIndex,
    pub data: Vec<u8>,
}

impl LogicalView {
    /// The index that is to be applied next, if one is.
    pub open spec fn next_applied(self) -> Option<u64> {
        if self.node->0.last_applied.0 < self.node->0.last_committed.0 {
            Some((self.node->0.last_applied.0 + 1) as u64)
        } else {
            None
        }
    }

    /// Whether nothing is left to apply.
    pub open spec fn is_up_to_date(self) -> bool {
        self.next_applied() is None
    }

    /// Whether `after` is the node, and `r` what is reported, after the state
    /// machine was given the command at `index` and ended as in `outcome`,
    /// unless the store has failed: a command that was applied moves the
    /// boundary of what is applied, one that could not be applied halts the
    /// node.
    pub open spec fn records_command(
        self,
        after: LogicalView,
        index: LogIndex,
        outcome: Result<(), FsmError>,
        r: Result<(), NodeError>,
    ) -> bool {
        match outcome {
            Err(cause) => r == Err::<(), NodeError>(
                NodeError::Protocol(ProtocolError::ApplyFailure { cause }),
            ) && after == self.halted(),
            Ok(()) => match r {
                Ok(()) => (index.0 < self.node->0.last_committed.0 || index.0
                    <= self.node->0.log.last_index()) && after == self.with_node(
                    self.node->0.committed_to(index).applied_to(index),
                ),
                Err(e) => commit_refused(self.node->0, index, e) && after == self.halted(),
            },
        }
    }

    /// Whether the command at `index`, with the payload `data`, is the next to
    /// be applied.
    pub open spec fn hands_out(self, index: LogIndex, data: Seq<u8>) -> bool {
        let log = self.node->0.log;
        &&& self.next_applied() == Some(index.0)
        &&& log.entries.contains_key(index.0)
        &&& data == log.entries[index.0].data
    }
}

/// The next committed command that was not applied yet. A committed entry that
/// the log does not hold halts the node.
pub fn next_to_apply<L: LogStorage>(node: &mut LogicalNode<L>) -> (r: Result<
    Option<ApplyTask>,
    NodeError,
>)
    requires
        old(node).wf(),
        !old(node).poisoned(),
    ensures
        match r {
            Ok(None) => old(node)@.is_up_to_date() && *final(node) == *old(node),
            Ok(Some(task)) => {
                &&& old(node)@.hands_out(task.index, task.data@)
                &&& *final(node) == *old(node)
            },
            Err(NodeError::Storage(_)) => {
                &&& old(node)@.next_applied() is Some
                &&& !old(node).reliable()
                &&& final(node)@ == old(node)@.halted()
            },
            Err(e) => {
                &&& old(node)@.next_applied() matches Some(k)
                    && !old(node)@.node->0.log.entries.contains_key(k) && e == NodeError::Protocol(
                    ProtocolError::EntryMissingFromStorage { index: LogIndex(k) },
                )
                &&& final(node)@ == old(node)@.halted()
            },
        },
        old(node)@.upholds(final(node)@),
        final(node).wf(),
        old(node).reliable() ==> final(node).reliable(),
{
    let applied: LogIndex = node.last_applied();
    let committed: LogIndex = node.last_committed();
    proof {
        node.lemma_applied_within_committed();
    }
    if applied.0 >= committed.0 {
        return Ok(None);
    }
    let index: LogIndex = LogIndex(applied.0 + 1);
    let ghost log = node@.node->0.log;
    let mut entries: Vec<LogEntry> = node.read_entries(index, index)?;
    let ghost found = entries@;
    proof {
        lemma_range_single(log, index.0);
        assert(entry_views(found).len() == found.len());
    }
    match entries.pop() {
        Some(entry) => {
            assert(entry_views(found)[0] == found[0]@);
            Ok(Some(ApplyTask { index, data: entry.data }))
        },
        None => node.apply_fatal(
            NodeError::Protocol(ProtocolError::EntryMissingFromStorage { index }),
        ),
    }
}

/// Records that the command at `index` was applied; a command that the state
/// machine could not apply halts the node.
pub fn finish_apply<L: LogStorage>(
    node: &mut LogicalNode<L>,
    index: LogIndex,
    outcome: Result<(), FsmError>,
) -> (r: Result<(), NodeError>)
    requires
        old(node).wf(),
        !old(node).poisoned(),
    ensures
        match r {
            Err(NodeError::Storage(_)) => {
                &&& outcome is Ok
                &&& index.0 >= old(node)@.node->0.last_committed.0
                &&& !old(node).reliable()
                &&& final(node)@ == old(node)@.halted()
            },
            _ => old(node)@.records_command(final(node)@, index, outcome, r),
        },
        old(node)@.upholds(final(node)@),
        final(node).wf(),
        old(node).reliable() ==> final(node).reliable(),
{
    match outcome {
        Ok(()) => match node.advance_horizon_after_snapshot(index) {
            Ok(()) => Ok(()),
            Err(e) => node.apply_fatal(e),
        },
        Err(cause) => node.apply_fatal(NodeError::Protocol(ProtocolError::ApplyFailure { cause })),
    }
}

/// Whether the state machine was given the committed commands that it had not
/// applied, in the order of the log and up to and including index `k`, and
/// nothing else.
pub open spec fn given_through<F: StateMachine>(n: NodeView, before: F, after: F, k: int) -> bool {
    &&& n.last_applied.0 <= k <= n.last_committed.0
    &&& forall|j: u64| n.last_applied.0 < j <= k ==> #[trigger] n.log.entries.contains_key(j)
    &&& after.history() == before.history() + commands(n.log, n.last_applied.0 as int, k)
}

/// Whether the state machine was given every committed command that it had not
/// applied, and `after` is the node then.
pub open spec fn applied_everything<F: StateMachine>(
    before: LogicalView,
    after: LogicalView,
    fsm: F,
    given: F,
) -> bool {
    let n = before.node->0;
    &&& after == before.with_node(n.applied_to(n.last_committed))
    &&& given_through(n, fsm, given, n.last_committed.0 as int)
}

/// Whether the state machine was given a first part of the committed commands,
/// possibly all of them, and nothing else.
pub open spec fn applied_through<F: StateMachine>(n: NodeView, before: F, after: F) -> bool {
    exists|k: int| #[trigger] given_through(n, before, after, k)
}

/// Whether a committed command could not be applied: the state machine holds
/// the commands before it and none from it on.
pub open spec fn stopped_short<F: StateMachine>(n: NodeView, before: F, after: F) -> bool {
    exists|k: u64|
        n.last_applied.0 < k <= n.last_committed.0 && n.log.entries.contains_key(k)
            && #[trigger] given_through(n, before, after, k - 1)
}

/// Applies every committed command that was not applied yet, in the order of
/// the log. A command that cannot be applied is the last that is tried.
pub fn apply_committed<L: LogStorage, F: StateMachine>(
    node: &mut LogicalNode<L>,
    fsm: &mut F,
) -> (r: Result<(), NodeError>)
    requires
        old(node).wf(),
        !old(node).poisoned(),
    ensures
        match r {
            Ok(()) => {
                applied_everything(old(node)@, final(node)@, *old(fsm), *final(fsm))
            },
            Err(NodeError::Storage(_)) => {
                &&& old(node)@.next_applied() is Some
                &&& !old(node).reliable()
                &&& applied_through(old(node)@.node->0, *old(fsm), *final(fsm))
                &&& final(node)@ == old(node)@.halted()
            },
            Err(NodeError::Protocol(ProtocolError::ApplyFailure { cause: _ })) => {
                &&& !old(fsm).reliable()
                &&& stopped_short(old(node)@.node->0, *old(fsm), *final(fsm))
                &&& final(node)@ == old(node)@.halted()
            },
            Err(NodeError::Protocol(ProtocolError::EntryMissingFromStorage { index })) => {
                let n = old(node)@.node->0;
                &&& n.last_applied.0 < index.0 <= n.last_committed.0
                &&& !n.log.entries.contains_key(index.0)
                &&& forall|k: u64|
                    n.last_applied.0 < k < index.0 ==> #[trigger] n.log.entries.contains_key(k)
                &&& final(fsm).history() == old(fsm).history() + commands(
                    n.log,
                    n.last_applied.0 as int,
                    index.0 - 1,
                )
                &&& final(node)@ == old(node)@.halted()
            },
            Err(_) => false,
        },
        old(node)@.upholds(final(node)@),
        final(node).wf(),
        old(node).reliable() ==> final(node).reliable(),
{
    let ghost n = node@.node->0;
    proof {
        node.lemma_applied_within_committed();
        lemma_last_index(n.log);
        assert(old(fsm).history() =~= old(fsm).history() + commands(
            n.log,
            n.last_applied.0 as int,
            n.last_applied.0 as int,
        ));
        assert(node@ =~= old(node)@.with_node(n.applied_to(n.last_applied)));
    }
    loop
        invariant
            node.wf(),
            !node.poisoned(),
            !old(node).poisoned(),
            n == old(node)@.node->0,
            n.log.ends_at(n.log.last_index()),
            n.last_applied.0 <= node@.node->0.last_applied.0 <= n.last_committed.0,
            node@ == old(node)@.with_node(n.applied_to(node@.node->0.last_applied)),
            old(node).reliable() ==> node.reliable(),
            old(fsm).reliable() ==> fsm.reliable(),
            fsm.history() == old(fsm).history() + commands(
                n.log,
                n.last_applied.0 as int,
                node@.node->0.last_applied.0 as int,
            ),
            forall|k: u64|
                n.last_applied.0 < k <= node@.node->0.last_applied.0
                    ==> #[trigger] n.log.entries.contains_key(k),
        decreases n.last_committed.0 - node@.node->0.last_applied.0,
    {
        let ghost before = node@.node->0;
        let ghost held = *fsm;
        proof {
            assert(given_through(n, *old(fsm), held, before.last_applied.0 as int));
        }
        let task: ApplyTask = match next_to_apply(node)? {
            Some(t) => t,
            None => return Ok(()),
        };
        let outcome: Result<(), FsmError> = fsm.apply(task.index, &task.data);
        proof {
            if outcome is Ok {
                assert(fsm.history() =~= old(fsm).history() + commands(
                    n.log,
                    n.last_applied.0 as int,
                    task.index.0 as int,
                ));
                assert(given_through(n, *old(fsm), *fsm, task.index.0 as int));
            } else {
                assert(given_through(n, *old(fsm), *fsm, task.index.0 - 1));
            }
        }
        finish_apply(node, task.index, outcome)?;
        proof {
            assert(before.committed_to(task.index) == before);
            assert(fsm.history() =~= old(fsm).history() + commands(
                n.log,
                n.last_applied.0 as int,
                node@.node->0.last_applied.0 as int,
            ));
        }
    }
}

// --- Installing a snapshot ---

/// How an offered snapshot goes on.
#[derive(Clone, Copy, Debug, PartialEq, Eq, Structural)]
pub enum InstallStep {
    /// It is not wanted: answer with this term.
    Reply(Term),
    /// Restore it, and answer with this term. The state machine is frozen.
    Restore(Term),
}

impl LogicalView {
    /// Whether `step` is how a snapshot that `leader` of `term` offers and that
    /// ends at `index` goes on, and `after` is the node then.
    pub open spec fn is_offered_snapshot(
        self,
        after: LogicalView,
        leader: NodeId,
        term: Term,
        index: LogIndex,
        step: InstallStep,
    ) -> bool {
        match step {
            InstallStep::Reply(t) => exists|result: InstallSnapshotResult|
                {
                    &&& #[trigger] self.answers_snapshot(after, leader, term, index, result)
                    &&& result.action != SnapshotAction::Accepted
                    &&& result.term == t
                },
            InstallStep::Restore(t) => {
                &&& self.freezes < u32::MAX
                &&& t == term
                &&& self.answers_snapshot(
                    after.thawed(),
                    leader,
                    term,
                    index,
                    (InstallSnapshotResult { term: t, action: SnapshotAction::Accepted }),
                )
                &&& after.freezes == self.freezes + 1
            },
        }
    }
}

/// Judges a snapshot that a leader offers, and freezes the state machine if it
/// is to be restored.
pub fn begin_install_snapshot<L: LogStorage>(
    node: &mut LogicalNode<L>,
    leader_id: NodeId,
    term: Term,
    last_included_index: LogIndex,
) -> (r: Result<InstallStep, NodeError>)
    requires
        old(node).wf(),
        !old(node).poisoned(),
    ensures
        match r {
            Ok(step) => old(node)@.is_offered_snapshot(
                final(node)@,
                leader_id,
                term,
                last_included_index,
                step,
            ),
            Err(NodeError::Storage(_)) => !old(node).reliable() && final(node)@
                == old(node)@.halted(),
            Err(e) => final(node)@ == old(node)@.halted() && (if old(node)@.rivals(term) {
                e == NodeError::Protocol(
                    ProtocolError::RivalLeader {
                        leader: leader_id,
                        term,
                        rpc: LeaderRpc::InstallSnapshot,
                    },
                )
            } else {
                &&& e == NodeError::Protocol(ProtocolError::FreezeOverflow)
                &&& old(node)@.freezes == u32::MAX
                &&& term.0 >= old(node)@.term().0
                &&& last_included_index.0 > old(node)@.node->0.last_applied.0
            }),
        },
        old(node)@.upholds(final(node)@),
        final(node).wf(),
        old(node).reliable() ==> final(node).reliable(),
{
    let result: InstallSnapshotResult = node.handle_install_snapshot(
        leader_id,
        term,
        last_included_index,
    )?;
    match result.action {
        SnapshotAction::Rejected => Ok(InstallStep::Reply(result.term)),
        SnapshotAction::Stale => Ok(InstallStep::Reply(result.term)),
        SnapshotAction::Accepted => {
            let ghost answered = node@;
            node.set_snapshotting(true)?;
            assert(node@.thawed() =~= answered);
            Ok(InstallStep::Restore(result.term))
        },
    }
}

impl LogicalView {
    /// The node after it was restored from a snapshot that ends at `index`, in
    /// `term`.
    pub open spec fn restored(self, index: LogIndex, term: Term) -> LogicalView {
        let n = self.node->0;
        self.thawed().with_node(
            n.with_log(n.log.with_snapshot(index, term)).committed_to(index).applied_to(index),
        )
    }

    /// Whether `after` is the node, and `r` what is reported, after the state
    /// machine was to restore a snapshot that ends at `index`, in `term`, and
    /// ended as in `outcome`, unless the store has failed. The task that froze
    /// the state machine ends; a snapshot that could not be restored halts the
    /// node.
    pub open spec fn records_snapshot(
        self,
        after: LogicalView,
        index: LogIndex,
        term: Term,
        outcome: Result<(), FsmError>,
        r: Result<(), NodeError>,
    ) -> bool {
        match r {
            Ok(()) => {
                &&& outcome is Ok
                &&& self.freezes > 0
                &&& after == self.restored(index, term)
            },
            Err(e) => {
                if self.freezes == 0 {
                    &&& e == NodeError::Protocol(ProtocolError::FreezeUnderflow)
                    &&& after == self.halted()
                } else {
                    &&& outcome is Err
                    &&& after == self.thawed().halted()
                    &&& e == NodeError::Protocol(
                        ProtocolError::SnapshotRestoration { cause: outcome->Err_0 },
                    )
                }
            },
        }
    }
}

/// Ends the restoration of a snapshot: thaws the state machine, records the
/// snapshot, and moves both boundaries to where it ends. A state machine that
/// could not restore it halts the node.
pub fn finish_install_snapshot<L: LogStorage>(
    node: &mut LogicalNode<L>,
    index: LogIndex,
    term: Term,
    outcome: Result<(), FsmError>,
) -> (r: Result<(), NodeError>)
    requires
        old(node).wf(),
        !old(node).poisoned(),
    ensures
        match r {
            Err(NodeError::Storage(_)) => {
                &&& outcome is Ok
                &&& !old(node).reliable()
                &&& old(node)@.freezes > 0
                &&& final(node)@ == old(node)@.thawed().halted()
            },
            _ => old(node)@.records_snapshot(final(node)@, index, term, outcome, r),
        },
        old(node)@.upholds(final(node)@),
        final(node).wf(),
        old(node).reliable() ==> final(node).reliable(),
{
    node.set_snapshotting(false)?;
    match outcome {
        Ok(()) => {
            node.save_snapshot_metadata(index, term)?;
            proof {
                lemma_last_index(node@.node->0.log);
            }
            match node.advance_horizon_after_snapshot(index) {
                Ok(()) => Ok(()),
                Err(e) => node.apply_fatal(e),
            }
        },
        Err(cause) => node.apply_fatal(
            NodeError::Protocol(ProtocolError::SnapshotRestoration { cause }),
        ),
    }
}

// --- Confirming leadership for a read ---

/// The heartbeat round that vouches for a read.
#[derive(Clone, Copy, Debug, PartialEq, Eq, Structural)]
pub struct LeadershipProbe {
    /// The round that a majority has to answer.
    pub target_epoch: u64,
    /// Whether the round was under way before; if not, it is to be sent.
    pub already_in_flight: bool,
    pub term: Term,
    pub node_id: NodeId,
    pub last_committed: LogIndex,
}

impl LogicalView {
    /// Whether a leader can still count another heartbeat round; a node that
    /// does not lead counts none.
    pub open spec fn epochs_left(self) -> bool {
        match self.node {
            Some(n) => match n.role {
                RoleView::Leader(l) => l.confirmed_read_epoch == l.current_read_epoch
                    ==> l.current_read_epoch < u64::MAX,
                _ => true,
            },
            None => true,
        }
    }

    /// Whether the node leads, `probe` is the round that vouches for a read
    /// made now, and `after` is the node with that round under way.
    pub open spec fn asks_for_read(self, after: LogicalView, probe: LeadershipProbe) -> bool {
        let n = self.node->0;
        let l = n.role->Leader_0;
        &&& self.node is Some
        &&& n.role is Leader
        &&& after == self.with_leader(l.probing(n.identity.node@))
        &&& probe == (LeadershipProbe {
            target_epoch: l.probing(n.identity.node@).current_read_epoch,
            already_in_flight: l.confirmed_read_epoch != l.current_read_epoch,
            term: n.log.current_term,
            node_id: n.identity.node,
            last_committed: n.last_committed,
        })
    }
}

/// Starts a heartbeat round that can vouch for a read made now, unless one is
/// under way.
pub fn begin_leadership_check<L: LogStorage>(node: &mut LogicalNode<L>) -> (r: Result<
    LeadershipProbe,
    ConsensusError,
>)
    requires
        old(node).wf(),
        old(node)@.epochs_left(),
    ensures
        match r {
            Ok(probe) => {
                &&& old(node)@.asks_for_read(final(node)@, probe)
                &&& final(node)@.node->0.role is Leader
                &&& probe.target_epoch == final(node)@.node->0.role->Leader_0.current_read_epoch
                &&& probe.term == old(node)@.term()
            },
            Err(ConsensusError::Poisoned) => old(node).poisoned() && *final(node) == *old(node),
            Err(ConsensusError::NotLeader) => {
                &&& old(node)@.node is Some
                &&& !(old(node)@.node->0.role is Leader)
                &&& *final(node) == *old(node)
            },
            Err(ConsensusError::Internal(text)) => {
                &&& old(node)@.node matches Some(n) && n.role is Leader
                &&& !old(node).reliable()
                &&& text@ == "Leadership verification failed"@
                &&& final(node)@ == old(node)@
            },
            Err(ConsensusError::Timeout) => false,
        },
        old(node)@.upholds(final(node)@),
        final(node).wf(),
        old(node).reliable() ==> final(node).reliable(),
{
    if node.is_poisoned() {
        return Err(ConsensusError::Poisoned);
    }
    let node_id: NodeId = node.node_id();
    let last_committed: LogIndex = node.last_committed();
    match node.as_leader_mut() {
        Some(n) => {
            let term: Term = match n.current_term() {
                Ok(t) => t,
                Err(_) => return Err(
                    ConsensusError::Internal("Leadership verification failed".to_owned()),
                ),
            };
            let current: u64 = n.state().current_read_epoch();
            let target_epoch: u64 = n.state_mut().prepare_read_probe(node_id);
            Ok(
                LeadershipProbe {
                    target_epoch,
                    already_in_flight: target_epoch == current,
                    term,
                    node_id,
                    last_committed,
                },
            )
        },
        None => Err(ConsensusError::NotLeader),
    }
}

/// What the progress of a node says of a read that waits for `probe`.
pub open spec fn judged(progress: ConsensusProgress, probe: LeadershipProbe) -> Result<
    bool,
    ConsensusError,
> {
    if progress.role != NodeRole::Leader || progress.term != probe.term {
        Err(ConsensusError::NotLeader)
    } else {
        Ok(progress.confirmed_read_epoch >= probe.target_epoch)
    }
}

/// Judges the progress of a node that waits for its leadership to be
/// confirmed: `true` once a majority has answered the round, `false` while it
/// has to wait on. A node that has left the role or the term has failed.
pub fn judge_leadership(progress: &ConsensusProgress, probe: &LeadershipProbe) -> (r: Result<
    bool,
    ConsensusError,
>)
    ensures
        r == judged(*progress, *probe),
{
    let leads: bool = match progress.role {
        NodeRole::Leader => true,
        _ => false,
    };
    if !leads || progress.term.0 != probe.term.0 {
        return Err(ConsensusError::NotLeader);
    }
    Ok(progress.confirmed_read_epoch >= probe.target_epoch)
}

} // verus!
