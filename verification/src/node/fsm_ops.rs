//! The commit boundary and the application of committed entries.
use vstd::prelude::*;

use super::NodeState;
use super::RaftNode;
use super::stored;
use crate::errors::NodeError;
use crate::errors::ProtocolError;
use crate::state_machine::StateMachine;
use crate::storage::LogStorage;
use crate::types::LogIndex;

verus! {

use super::NodeView;
use crate::state_machine::AppliedCommand;
use crate::storage::LogState;

impl NodeView {
    /// The node after `index` was committed; the boundary never moves back.
    pub open spec fn committed_to(self, index: LogIndex) -> NodeView {
        if index.0 > self.last_committed.0 {
            NodeView {
                last_committed: index,
                log: self.log.with_committed(index),
                ..self
            }
        } else {
            self
        }
    }

    /// The node after its state machine was brought to `index`.
    pub open spec fn applied_to(self, index: LogIndex) -> NodeView {
        NodeView { last_applied: index, ..self }
    }
}

impl NodeView {
    /// Whether `after` is the node after its state machine, which says that it
    /// stands at `claimed`, was given all that is committed.
    pub open spec fn catches_up(self, after: NodeView, claimed: LogIndex) -> bool {
        &&& claimed.0 <= self.last_committed.0
        &&& after == self.applied_to(self.last_committed)
    }
}

/// The commands at the indices after `from`, up to and including `to`.
pub open spec fn commands(log: LogState, from: int, to: int) -> Seq<AppliedCommand>
    decreases to - from,
{
    if to <= from {
        Seq::empty()
    } else {
        commands(log, from, to - 1).push(
            AppliedCommand { index: to as u64, data: log.entries[to as u64].data },
        )
    }
}

impl<R: NodeState, L: LogStorage> RaftNode<R, L> {
    /// What committing `index` gives.
    pub open spec fn commit_ensures(
        before: RaftNode<R, L>,
        after: RaftNode<R, L>,
        index: LogIndex,
        r: Result<(), NodeError>,
    ) -> bool {
        &&& match r {
            Ok(()) => (index.0 < before@.last_committed.0 || index.0 <= before@.log.last_index())
                && after@ == before@.committed_to(index),
            Err(NodeError::Storage(_)) => index.0 >= before@.last_committed.0 && !before.reliable()
                && after@ == before@.with_log(after@.log),
            Err(e) => index.0 >= before@.last_committed.0 && index.0 > before@.log.last_index()
                && after@ == before@ && e == NodeError::Protocol(
                ProtocolError::CommitBeyondLog {
                    index,
                    last: LogIndex(before@.log.last_index()),
                },
            ),
        }
        &&& before.reliable() ==> after.reliable()
    }

    /// Moves the commit boundary to `index`. The state machine catches up
    /// later, outside the protocol's critical path.
    pub fn advance_last_committed(&mut self, index: LogIndex) -> (r: Result<(), NodeError>)
        ensures
            Self::commit_ensures(*old(self), *final(self), index, r),
    {
        self.update_commit_index_only(index)
    }

    /// Moves the commit boundary to `index`, durably first. An index below the
    /// boundary is ignored, one beyond the log is refused.
    pub fn update_commit_index_only(&mut self, index: LogIndex) -> (r: Result<(), NodeError>)
        ensures
            Self::commit_ensures(*old(self), *final(self), index, r),
    {
        if index.0 < self.last_committed.0 {
            return Ok(());
        }
        let last: LogIndex = self.last_log_index()?;
        if index.0 > last.0 {
            return Err(NodeError::Protocol(ProtocolError::CommitBeyondLog { index, last }));
        }
        if index.0 > self.last_committed.0 {
            stored(self.log_store.save_last_committed(index))?;
            self.last_committed = index;
        }
        Ok(())
    }

    /// Records that the state machine stands at `index`, which is committed as
    /// well if it was not.
    pub fn advance_horizon_after_snapshot(&mut self, index: LogIndex) -> (r: Result<(), NodeError>)
        ensures
            match r {
                Ok(()) => (index.0 < old(self)@.last_committed.0 || index.0
                    <= old(self)@.log.last_index()) && final(self)@ == old(self)@.committed_to(
                    index,
                ).applied_to(index) && final(self).wf(),
                Err(e) => Self::commit_ensures(*old(self), *final(self), index, r),
            },
            old(self).reliable() ==> final(self).reliable(),
    {
        self.update_commit_index_only(index)?;
        self.last_applied = index;
        Ok(())
    }

    /// Applies every committed entry that was not applied yet, in the order of
    /// the log. However it ends, the state machine was given the entries up to
    /// the last applied one, each once, and nothing after them.
    pub fn apply_to_state_machine<F: StateMachine>(&mut self, fsm: &mut F) -> (r: Result<
        (),
        NodeError,
    >)
        requires
            old(self).wf(),
        ensures
            match r {
                Ok(()) => old(self)@.catches_up(final(self)@, old(fsm).applied_index()),
                Err(NodeError::Storage(_)) => {
                    &&& old(fsm).applied_index().0 <= old(self)@.last_committed.0
                    &&& final(self)@.last_applied.0 < old(self)@.last_committed.0
                    &&& !old(self).reliable()
                },
                Err(NodeError::Protocol(ProtocolError::FsmFailure { cause: _ })) => !old(
                    fsm,
                ).reliable(),
                Err(NodeError::Protocol(ProtocolError::FsmAheadOfCommit { fsm: at, committed })) =>
                    at == old(fsm).applied_index() && committed == old(self)@.last_committed && at.0
                        > committed.0 && final(self)@ == old(self)@,
                Err(NodeError::Protocol(ProtocolError::EntryMissingDuringApply { index })) => {
                    &&& !old(self)@.log.entries.contains_key(index.0)
                    &&& old(self)@.last_applied.0 < index.0 <= old(self)@.last_committed.0
                    &&& final(self)@ == old(self)@.applied_to(LogIndex((index.0 - 1) as u64))
                },
                Err(_) => false,
            },
            final(self)@ == old(self)@.applied_to(final(self)@.last_applied),
            old(self)@.last_applied.0 <= final(self)@.last_applied.0,
            forall|k: u64|
                old(self)@.last_applied.0 < k <= final(self)@.last_applied.0
                    ==> #[trigger] old(self)@.log.entries.contains_key(k),
            final(fsm).history() == old(fsm).history() + commands(
                old(self)@.log,
                old(self)@.last_applied.0 as int,
                final(self)@.last_applied.0 as int,
            ),
            final(self).wf(),
            old(self).reliable() ==> final(self).reliable(),
    {
        proof {
            assert(old(fsm).history() =~= old(fsm).history() + commands(
                self@.log,
                self@.last_applied.0 as int,
                self@.last_applied.0 as int,
            ));
        }
        let fsm_last: LogIndex = match fsm.last_applied_index() {
            Ok(i) => i,
            Err(cause) => return Err(NodeError::Protocol(ProtocolError::FsmFailure { cause })),
        };
        if fsm_last.0 > self.last_committed.0 {
            return Err(
                NodeError::Protocol(
                    ProtocolError::FsmAheadOfCommit {
                        fsm: fsm_last,
                        committed: self.last_committed,
                    },
                ),
            );
        }
        while self.last_applied.0 < self.last_committed.0
            invariant
                self.wf(),
                old(self)@.last_applied.0 <= self@.last_applied.0,
                self@ == old(self)@.applied_to(self@.last_applied),
                self.reliable() == old(self).reliable(),
                old(fsm).applied_index().0 <= old(self)@.last_committed.0,
                old(fsm).reliable() ==> fsm.reliable(),
                fsm.history() == old(fsm).history() + commands(
                    old(self)@.log,
                    old(self)@.last_applied.0 as int,
                    self@.last_applied.0 as int,
                ),
                forall|k: u64|
                    old(self)@.last_applied.0 < k <= self@.last_applied.0
                        ==> #[trigger] old(self)@.log.entries.contains_key(k),
            decreases self.last_committed.0 - self.last_applied.0,
        {
            let index: LogIndex = LogIndex(self.last_applied.0 + 1);
            let entry = match stored(self.log_store.read_entry(index))? {
                Some(e) => e,
                None => return Err(
                    NodeError::Protocol(ProtocolError::EntryMissingDuringApply { index }),
                ),
            };
            match fsm.apply(index, &entry.data) {
                Ok(()) => {},
                Err(cause) => return Err(NodeError::Protocol(ProtocolError::FsmFailure { cause })),
            }
            self.last_applied = index;
            proof {
                assert(fsm.history() =~= old(fsm).history() + commands(
                    old(self)@.log,
                    old(self)@.last_applied.0 as int,
                    self@.last_applied.0 as int,
                ));
            }
        }
        Ok(())
    }
}

} // verus!
