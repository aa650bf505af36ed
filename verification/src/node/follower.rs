//! Following a leader.
use vstd::prelude::*;

use super::Candidate;
use super::NodeState;
use super::RaftNode;
use super::TickAction;
use super::stored;
use crate::errors::NodeError;
use crate::errors::ProtocolError;
use crate::state_machine::StateMachine;
use crate::storage::LogStorage;
use crate::tick::Tick;
use crate::tick::TickDuration;
use crate::types::LogEntry;
use crate::types::LogIndex;
use crate::types::NodeId;
use crate::types::NodeIdentity;
use crate::types::Term;

verus! {

use super::NodeView;
use super::RoleView;
use crate::reconciliation::Extension;
use crate::reconciliation::conflicts;
use crate::reconciliation::consistent_at;
use crate::reconciliation::extension;
use crate::reconciliation::lemma_extension_sticks;
use crate::reconciliation::lemma_first_conflict_skips;
use crate::reconciliation::log_extension;
use crate::reconciliation::reconciled;
use crate::reconciliation::up_to_date;
use crate::reconciliation::without_conflict;
use crate::types::ArithmeticError;
use crate::types::EntryView;
use crate::types::entry_views;

/// Waits for a leader and keeps its log in step with it.
#[derive(Debug)]
pub struct Follower {
    leader_id: Option<NodeId>,
    last_heartbeat: Tick,
    timeout: TickDuration,
}

impl NodeState for Follower {
    closed spec fn role(&self) -> RoleView {
        RoleView::Follower {
            leader_id: self.leader_id,
            last_heartbeat: self.last_heartbeat,
            timeout: self.timeout,
        }
    }
}

/// How reconciling the log with a leader ended.
#[derive(Clone, Copy, Debug, PartialEq, Eq, Structural)]
pub struct ReconciliationResult {
    pub success: bool,
    pub last_index: LogIndex,
}

impl ReconciliationResult {
    pub fn success(last_index: LogIndex) -> (r: ReconciliationResult)
        ensures
            r == (ReconciliationResult { success: true, last_index }),
    {
        ReconciliationResult { success: true, last_index }
    }

    pub fn mismatch(last_index: LogIndex) -> (r: ReconciliationResult)
        ensures
            r == (ReconciliationResult { success: false, last_index }),
    {
        ReconciliationResult { success: false, last_index }
    }
}

impl Follower {
    pub fn new(leader_id: Option<NodeId>, last_heartbeat: Tick, timeout: TickDuration) -> (r:
        Follower)
        ensures
            r.role() == (RoleView::Follower { leader_id, last_heartbeat, timeout }),
    {
        Follower { leader_id, last_heartbeat, timeout }
    }

    pub fn leader_id(&self) -> (r: Option<NodeId>)
        ensures
            r == self.role()->leader_id,
    {
        self.leader_id
    }

    pub fn last_heartbeat(&self) -> (r: Tick)
        ensures
            r == self.role()->last_heartbeat,
    {
        self.last_heartbeat
    }

    pub fn timeout(&self) -> (r: TickDuration)
        ensures
            r == self.role()->Follower_timeout,
    {
        self.timeout
    }

    pub fn set_leader_id(&mut self, leader_id: Option<NodeId>)
        ensures
            final(self).role() == (RoleView::Follower {
                leader_id,
                last_heartbeat: old(self).role()->last_heartbeat,
                timeout: old(self).role()->Follower_timeout,
            }),
    {
        self.leader_id = leader_id;
    }

    pub fn reset_heartbeat(&mut self, current_tick: Tick)
        ensures
            final(self).role() == (RoleView::Follower {
                leader_id: old(self).role()->leader_id,
                last_heartbeat: current_tick,
                timeout: old(self).role()->Follower_timeout,
            }),
    {
        self.last_heartbeat = current_tick;
    }

    pub fn evaluate_tick(&self, now: Tick) -> (r: TickAction)
        ensures
            r == (if now.reached(self.role()->last_heartbeat, self.role()->Follower_timeout) {
                TickAction::StartElection
            } else {
                TickAction::Idle
            }),
    {
        if now.has_reached(self.last_heartbeat, self.timeout) {
            TickAction::StartElection
        } else {
            TickAction::Idle
        }
    }
}

impl NodeView {
    /// The node after it has brought its log in step with a leader whose
    /// entries `new` follow an entry of `prev_term` at `prev`.
    pub open spec fn after_reconciling(
        self,
        prev: LogIndex,
        prev_term: Term,
        new: Seq<EntryView>,
        leader_commit: LogIndex,
    ) -> NodeView {
        if !consistent_at(self.log, prev, prev_term) {
            self
        } else if log_extension(self.log, new) is Run {
            let n = self.with_log(reconciled(self.log, new));
            n.committed_to(
                if leader_commit.0 <= n.log.last_index() {
                    leader_commit
                } else {
                    LogIndex(n.log.last_index())
                },
            )
        } else {
            self.with_log(reconciled(self.log, new))
        }
    }

    /// Whether this node may vote for a candidate of `term` whose log ends as
    /// given: it votes in its own term only, once, and for a recent log only.
    pub open spec fn may_vote(
        self,
        candidate: NodeId,
        term: Term,
        last_index: LogIndex,
        last_term: Term,
    ) -> bool {
        &&& term == self.log.current_term
        &&& self.log.voted_for is None || self.log.voted_for == Some(candidate)
        &&& up_to_date(self.log, last_term, last_index)
    }
}

impl<L: LogStorage> RaftNode<Follower, L> {
    /// A node that recovers from its log store. The state machine must not be
    /// ahead of what the store says was committed.
    pub fn try_new<F: StateMachine>(
        identity: NodeIdentity,
        fsm: &F,
        log_store: L,
        last_heartbeat: Tick,
        timeout: TickDuration,
    ) -> (r: Result<RaftNode<Follower, L>, NodeError>)
        ensures
            match r {
                Ok(n) => {
                    &&& fsm.applied_index().0 <= log_store.model().last_committed.0
                    &&& n@ == (NodeView {
                        identity: identity@,
                        log: log_store.model(),
                        last_committed: log_store.model().last_committed,
                        last_applied: fsm.applied_index(),
                        role: RoleView::Follower { leader_id: None, last_heartbeat, timeout },
                    })
                    &&& n.wf()
                    &&& n.reliable() == log_store.reliable()
                },
                Err(NodeError::Storage(_)) => !log_store.reliable(),
                Err(NodeError::Protocol(ProtocolError::FsmFailure { cause: _ })) => !fsm.reliable(),
                Err(e) => fsm.applied_index().0 > log_store.model().last_committed.0 && e
                    == NodeError::Protocol(
                    ProtocolError::FsmAheadOfLog {
                        applied: fsm.applied_index(),
                        committed: log_store.model().last_committed,
                    },
                ),
            },
    {
        let last_applied: LogIndex = match fsm.last_applied_index() {
            Ok(i) => i,
            Err(cause) => return Err(NodeError::Protocol(ProtocolError::FsmFailure { cause })),
        };
        let last_committed: LogIndex = stored(log_store.last_committed())?;
        if last_applied.0 > last_committed.0 {
            return Err(
                NodeError::Protocol(
                    ProtocolError::FsmAheadOfLog {
                        applied: last_applied,
                        committed: last_committed,
                    },
                ),
            );
        }
        Ok(
            RaftNode {
                identity,
                log_store,
                last_committed,
                last_applied,
                state: Follower::new(None, last_heartbeat, timeout),
            },
        )
    }

    /// Brings the log in step with the leader and takes over its commit
    /// boundary as far as the log reaches.
    pub fn reconcile_log(
        &mut self,
        prev_log_index: LogIndex,
        prev_log_term: Term,
        entries: Vec<LogEntry>,
        leader_commit: LogIndex,
    ) -> (r: Result<ReconciliationResult, NodeError>)
        ensures
            match r {
                Ok(result) => {
                    let new = entry_views(entries@);
                    let consistent = consistent_at(old(self)@.log, prev_log_index, prev_log_term);
                    &&& final(self)@ == old(self)@.after_reconciling(
                        prev_log_index,
                        prev_log_term,
                        new,
                        leader_commit,
                    )
                    &&& result.success == (consistent && log_extension(old(self)@.log, new) is Run)
                    &&& result.last_index.0 == final(self)@.log.last_index()
                    &&& consistent ==> !(log_extension(old(self)@.log, new) is Overflow)
                },
                Err(NodeError::Storage(_)) => !old(self).reliable(),
                Err(e) => {
                    &&& e == NodeError::Arithmetic(ArithmeticError::Overflow)
                    &&& consistent_at(old(self)@.log, prev_log_index, prev_log_term)
                    &&& log_extension(old(self)@.log, entry_views(entries@)) is Overflow
                    &&& final(self)@ == old(self)@.after_reconciling(
                        prev_log_index,
                        prev_log_term,
                        entry_views(entries@),
                        leader_commit,
                    )
                },
            },
            final(self)@.identity == old(self)@.identity,
            final(self)@.role == old(self)@.role,
            final(self)@.last_applied == old(self)@.last_applied,
            final(self)@.last_committed.0 >= old(self)@.last_committed.0,
            old(self).reliable() ==> final(self).reliable(),
    {
        if !self.verify_log_consistency(prev_log_index, prev_log_term)? {
            return Ok(ReconciliationResult::mismatch(self.last_log_index()?));
        }
        if !self.append_entries_with_reconciliation(entries)? {
            return Ok(ReconciliationResult::mismatch(self.last_log_index()?));
        }
        self.reconcile_last_committed(leader_commit)?;
        Ok(ReconciliationResult::success(self.last_log_index()?))
    }

    /// Votes for `candidate_id` if that is allowed, and says whether it did.
    pub fn attempt_grant_vote(
        &mut self,
        candidate_id: NodeId,
        req_term: Term,
        req_last_log_index: LogIndex,
        req_last_log_term: Term,
    ) -> (r: Result<bool, NodeError>)
        ensures
            match r {
                Ok(granted) => {
                    &&& granted == old(self)@.may_vote(
                        candidate_id,
                        req_term,
                        req_last_log_index,
                        req_last_log_term,
                    )
                    &&& final(self)@ == (if granted {
                        old(self)@.with_log(
                            old(self)@.log.with_hard_state(req_term, Some(candidate_id)),
                        )
                    } else {
                        old(self)@
                    })
                },
                Err(e) => e is Storage && !old(self).reliable(),
            },
            final(self)@ == old(self)@.with_log(final(self)@.log),
            old(self).reliable() ==> final(self).reliable(),
    {
        let current_term: Term = self.current_term()?;
        let voted_for: Option<NodeId> = self.voted_for()?;
        let free: bool = match voted_for {
            None => true,
            Some(id) => id.same(&candidate_id),
        };
        if req_term.0 == current_term.0 && free && self.is_log_up_to_date(
            req_last_log_term,
            req_last_log_index,
        )? {
            self.persist_vote(candidate_id)?;
            return Ok(true);
        }
        Ok(false)
    }

    /// Starts an election after the leader has fallen silent.
    pub fn try_into_candidate(self, election_start: Tick, timeout: TickDuration) -> (r: Result<
        RaftNode<Candidate, L>,
        NodeError,
    >)
        ensures
            self.campaign_ensures(election_start, timeout, r),
    {
        self.campaign(election_start, timeout)
    }

    /// Whether the log agrees with the leader's at `prev_log_index`.
    pub fn verify_log_consistency(&self, prev_log_index: LogIndex, prev_log_term: Term) -> (r:
        Result<bool, NodeError>)
        ensures
            match r {
                Ok(b) => {
                    &&& b == consistent_at(self@.log, prev_log_index, prev_log_term)
                    &&& b && prev_log_index.0 > 0 ==> self@.log.term_at(prev_log_index.0)
                        == prev_log_term.0
                },
                Err(e) => prev_log_index.0 != 0 && e is Storage && !self.reliable(),
            },
    {
        if prev_log_index.0 == 0 {
            return Ok(true);
        }
        let last: LogIndex = self.last_log_index()?;
        if prev_log_index.0 > last.0 {
            return Ok(false);
        }
        let local: Term = self.get_term_at(prev_log_index)?;
        Ok(local.0 == prev_log_term.0)
    }

    /// Cuts the log at the first entry that conflicts with `entries`, then
    /// appends what is missing. Returns `false`, with the log cut but nothing
    /// appended, if `entries` leaves an index out.
    pub fn append_entries_with_reconciliation(&mut self, entries: Vec<LogEntry>) -> (r: Result<
        bool,
        NodeError,
    >)
        ensures
            match r {
                Ok(b) => {
                    &&& final(self)@ == old(self)@.with_log(
                        reconciled(old(self)@.log, entry_views(entries@)),
                    )
                    &&& b == (log_extension(old(self)@.log, entry_views(entries@)) is Run)
                    &&& !(log_extension(old(self)@.log, entry_views(entries@)) is Overflow)
                },
                Err(NodeError::Storage(_)) => !old(self).reliable(),
                Err(e) => {
                    &&& e == NodeError::Arithmetic(ArithmeticError::Overflow)
                    &&& log_extension(old(self)@.log, entry_views(entries@)) is Overflow
                    &&& final(self)@ == old(self)@.with_log(
                        reconciled(old(self)@.log, entry_views(entries@)),
                    )
                },
            },
            final(self)@ == old(self)@.with_log(final(self)@.log),
            old(self).reliable() ==> final(self).reliable(),
    {
        let ghost new = entry_views(entries@);
        self.cut_conflict(&entries)?;
        let last: LogIndex = self.last_log_index()?;
        let first_expected: LogIndex = match last.checked_add(1) {
            Ok(i) => i,
            Err(e) => return Err(NodeError::Arithmetic(e)),
        };
        let mut next_expected: LogIndex = first_expected;
        let mut to_append: Vec<LogEntry> = Vec::new();
        let mut i: usize = 0;
        proof {
            assert(new.take(0) =~= Seq::empty());
            assert(entry_views(to_append@) =~= Seq::empty());
        }
        while i < entries.len()
            invariant
                i <= entries.len(),
                new == entry_views(entries@),
                self@ == old(self)@.with_log(without_conflict(old(self)@.log, new)),
                old(self).reliable() ==> self.reliable(),
                first_expected.0 == self@.log.last_index() + 1,
                extension(new.take(i as int), first_expected.0) == Extension::Run(
                    entry_views(to_append@),
                ),
                next_expected.0 == first_expected.0 + to_append.len(),
            decreases entries.len() - i,
        {
            proof {
                assert(new.take(i + 1).drop_last() =~= new.take(i as int));
                assert(new.take(i + 1).last() == entries@[i as int]@);
            }
            let ghost before = entry_views(to_append@);
            let index: u64 = entries[i].index;
            if index >= next_expected.0 {
                if index != next_expected.0 {
                    proof {
                        lemma_extension_sticks(new, first_expected.0, i + 1);
                    }
                    return Ok(false);
                }
                to_append.push(entries[i].clone());
                next_expected = match next_expected.checked_add(1) {
                    Ok(n) => n,
                    Err(e) => {
                        proof {
                            lemma_extension_sticks(new, first_expected.0, i + 1);
                        }
                        return Err(NodeError::Arithmetic(e));
                    },
                };
                assert(entry_views(to_append@) =~= before.push(entries@[i as int]@));
            }
            i = i + 1;
        }
        proof {
            assert(new.take(i as int) =~= new);
        }
        if to_append.len() > 0 {
            self.append_entries(to_append)?;
        } else {
            assert(entry_views(to_append@) =~= Seq::empty());
        }
        Ok(true)
    }

    /// Cuts the log at the first entry that conflicts with `entries`.
    fn cut_conflict(&mut self, entries: &Vec<LogEntry>) -> (r: Result<(), NodeError>)
        ensures
            match r {
                Ok(()) => final(self)@ == old(self)@.with_log(
                    without_conflict(old(self)@.log, entry_views(entries@)),
                ),
                Err(e) => entries.len() > 0 && e is Storage && !old(self).reliable(),
            },
            final(self)@ == old(self)@.with_log(final(self)@.log),
            old(self).reliable() ==> final(self).reliable(),
    {
        let ghost new = entry_views(entries@);
        let mut i: usize = 0;
        while i < entries.len()
            invariant
                i <= entries.len(),
                new == entry_views(entries@),
                *self == *old(self),
                forall|j: int| 0 <= j < i ==> !conflicts(self@.log, #[trigger] new[j]),
            decreases entries.len() - i,
        {
            let index: LogIndex = LogIndex(entries[i].index);
            let local: Term = self.get_term_at(index)?;
            if local.0 != 0 && local.0 != entries[i].term {
                proof {
                    lemma_first_conflict_skips(self@.log, new, i as int);
                    assert(new.skip(i as int).first() == new[i as int]);
                }
                return self.truncate_log(index);
            }
            i = i + 1;
        }
        proof {
            lemma_first_conflict_skips(self@.log, new, i as int);
            assert(new.skip(i as int) =~= Seq::empty());
        }
        Ok(())
    }

    /// Takes over the leader's commit boundary as far as the log reaches.
    pub fn reconcile_last_committed(&mut self, leader_commit: LogIndex) -> (r: Result<
        (),
        NodeError,
    >)
        ensures
            match r {
                Ok(()) => final(self)@ == old(self)@.committed_to(
                    if leader_commit.0 <= old(self)@.log.last_index() {
                        leader_commit
                    } else {
                        LogIndex(old(self)@.log.last_index())
                    },
                ),
                Err(e) => {
                    &&& leader_commit.0 > old(self)@.last_committed.0
                    &&& e is Storage
                    &&& !old(self).reliable()
                    &&& final(self)@ == old(self)@.with_log(final(self)@.log)
                },
            },
            old(self).reliable() ==> final(self).reliable(),
    {
        if leader_commit.0 > self.last_committed().0 {
            let last: LogIndex = self.last_log_index()?;
            let new_commit: LogIndex = if leader_commit.0 <= last.0 {
                leader_commit
            } else {
                last
            };
            self.advance_last_committed(new_commit)?;
        }
        Ok(())
    }

    /// Whether a log that ends as given is at least as recent as this one.
    pub fn is_log_up_to_date(
        &self,
        candidate_last_log_term: Term,
        candidate_last_log_index: LogIndex,
    ) -> (r: Result<bool, NodeError>)
        ensures
            match r {
                Ok(b) => b == up_to_date(
                    self@.log,
                    candidate_last_log_term,
                    candidate_last_log_index,
                ),
                Err(e) => e is Storage && !self.reliable(),
            },
    {
        let local_term: Term = self.last_log_term()?;
        let local_index: LogIndex = self.last_log_index()?;
        if candidate_last_log_term.0 != local_term.0 {
            Ok(candidate_last_log_term.0 > local_term.0)
        } else {
            Ok(candidate_last_log_index.0 >= local_index.0)
        }
    }
}

} // verus!
