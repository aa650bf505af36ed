//! The logical node.
//!
//! It dispatches requests to the role the node has, moves the node from role to
//! role, and halts it when a rule is broken. A halted node has given up its
//! state for good; whoever drives it is told why by the error that the halting
//! call returned.
use rand::rngs::StdRng;
use vstd::prelude::*;

use crate::errors::LeaderRpc;
use crate::errors::LogStorageError;
use crate::errors::NodeError;
use crate::errors::ProtocolError;
use crate::node::Candidate;
use crate::node::Follower;
use crate::node::Leader;
use crate::node::RaftNode;
use crate::node::ReconciliationResult;
use crate::node::TickAction;
use crate::state_machine::StateMachine;
use crate::storage::LogStorage;
use crate::tick::Tick;
use crate::tick::TickDuration;
use crate::tick::TickThresholds;
use crate::types::ClusterId;
use crate::types::LogEntry;
use crate::types::LogIndex;
use crate::types::NodeId;
use crate::types::NodeIdentity;
use crate::types::Term;

pub mod results;
pub mod role;

pub use results::AppendEntriesResult;
pub use results::ConsensusProgress;
pub use results::InstallSnapshotResult;
pub use results::NodeRole;
pub use results::RequestVoteResult;
pub use results::SnapshotAction;
pub use results::TermCheckResult;
pub use role::RoleState;

verus! {

use crate::consensus::types::AppendView;
use crate::node::NodeView;
use crate::node::RoleView;
use crate::node::LeaderView;
use crate::node::leader::fresh_leader;
use crate::node::leader::id_set;
use crate::engine::role::commit_refused;
use crate::reconciliation::consistent_at;
use crate::reconciliation::log_extension;
use crate::reconciliation::up_to_date;
use crate::storage::LogState;
use crate::types::ArithmeticError;
use crate::types::EntryView;
use crate::types::IdentityView;
use crate::types::entry_views;

/// Whether the term has not fallen, and the vote of a term that is still the
/// current one is the same.
pub open spec fn keeps_faith(before: LogState, after: LogState) -> bool {
    &&& before.current_term.0 <= after.current_term.0
    &&& before.current_term == after.current_term && before.voted_for is Some ==> after.voted_for
        == before.voted_for
}

/// Everything a logical node knows.
#[verifier::ext_equal]
pub struct LogicalView {
    /// The node, unless it has halted.
    pub node: Option<NodeView>,
    pub tick: Tick,
    pub thresholds: TickThresholds,
    /// How many snapshot tasks hold the state machine frozen.
    pub freezes: u32,
}

impl LogicalView {
    /// What no step undoes, whether it succeeds or halts the node: who the node
    /// is, its term, its vote within a term, and its commit boundary, which is
    /// on durable storage whenever it was.
    pub open spec fn upholds(self, after: LogicalView) -> bool {
        &&& after.thresholds == self.thresholds
        &&& after.node matches Some(n) ==> {
            &&& self.node matches Some(m)
            &&& n.identity == m.identity
            &&& keeps_faith(m.log, n.log)
            &&& m.last_committed.0 <= n.last_committed.0
            &&& m.last_committed == m.log.last_committed ==> n.last_committed
                == n.log.last_committed
        }
    }

    /// The same node, halted.
    pub open spec fn halted(self) -> LogicalView {
        LogicalView { node: None, ..self }
    }

    /// The same clock and timers around another node.
    pub open spec fn with_node(self, node: NodeView) -> LogicalView {
        LogicalView { node: Some(node), ..self }
    }

    /// The term that the node is in.
    pub open spec fn term(self) -> Term {
        self.node->0.log.current_term
    }

    /// Whether `after` follows `leader` in `term`, which has not passed, from
    /// now on and with an election timeout that may be drawn.
    pub open spec fn follows(
        self,
        after: LogicalView,
        term: Term,
        leader: Option<NodeId>,
    ) -> bool {
        &&& self.term().0 <= term.0
        &&& after.node is Some
        &&& after.node->0.role is Follower
        &&& self.thresholds.admits(after.node->0.role->Follower_timeout)
        &&& after == self.with_node(
            self.node->0.with_term(term).in_role(
                RoleView::Follower {
                    leader_id: leader,
                    last_heartbeat: self.tick,
                    timeout: after.node->0.role->Follower_timeout,
                },
            ),
        )
    }

    /// Whether `after` is the node after it has heard `leader` of `term`, a
    /// term that has not passed: it follows that leader. A node that was
    /// following in that term already keeps its timer.
    pub open spec fn hears(self, after: LogicalView, term: Term, leader: NodeId) -> bool {
        if term.0 > self.term().0 || !(self.node->0.role is Follower) {
            self.follows(after, term, Some(leader))
        } else {
            after == self.with_node(
                self.node->0.in_role(
                    RoleView::Follower {
                        leader_id: Some(leader),
                        last_heartbeat: self.node->0.role->last_heartbeat,
                        timeout: self.node->0.role->Follower_timeout,
                    },
                ),
            )
        }
    }

    /// Whether `after` follows `leader` of `term` with its timer started now.
    pub open spec fn attends(self, after: LogicalView, term: Term, leader: NodeId) -> bool {
        &&& after.node is Some
        &&& after.node->0.role is Follower
        &&& after.node->0.role->leader_id == Some(leader)
        &&& after.node->0.role->last_heartbeat == self.tick
        &&& if term.0 > self.term().0 || !(self.node->0.role is Follower) {
            self.thresholds.admits(after.node->0.role->Follower_timeout)
        } else {
            after.node->0.role->Follower_timeout == self.node->0.role->Follower_timeout
        }
    }

    /// Whether `result` answers a snapshot that `leader` of `term` offers and
    /// that ends at `index`, and `after` is the node then. A term that has
    /// passed is turned down, and a snapshot that holds nothing new is stale;
    /// both are answered with the term that the node was in before.
    pub open spec fn answers_snapshot(
        self,
        after: LogicalView,
        leader: NodeId,
        term: Term,
        index: LogIndex,
        result: InstallSnapshotResult,
    ) -> bool {
        if term.0 < self.term().0 {
            &&& result == (InstallSnapshotResult {
                term: self.term(),
                action: SnapshotAction::Rejected,
            })
            &&& after == self
        } else if index.0 <= self.node->0.last_applied.0 {
            &&& result == (InstallSnapshotResult {
                term: self.term(),
                action: SnapshotAction::Stale,
            })
            &&& !self.rivals(term)
            &&& self.hears(after, term, leader)
        } else {
            &&& result == (InstallSnapshotResult { term, action: SnapshotAction::Accepted })
            &&& !self.rivals(term)
            &&& self.attends(after, term, leader)
            &&& after == self.with_node(
                self.node->0.with_term(term).in_role(after.node->0.role),
            )
        }
    }

    /// Whether `after` is the node after it has started an election, which it
    /// does unless it leads or has halted.
    pub open spec fn runs_for_leader(self, after: LogicalView) -> bool {
        match self.node {
            Some(n) => if n.role is Leader {
                after == self
            } else {
                &&& n.log.current_term.0 < u64::MAX
                &&& after.node is Some
                &&& after.node->0.role is Candidate
                &&& self.thresholds.admits(after.node->0.role->Candidate_timeout)
                &&& after == self.with_node(
                    n.campaigning(self.tick, after.node->0.role->Candidate_timeout),
                )
            },
            None => after == self,
        }
    }

    /// Whether `after` is the node after it was to take the lead over
    /// `peer_ids`, which only a candidate does.
    pub open spec fn takes_lead(self, after: LogicalView, peer_ids: Seq<NodeId>) -> bool {
        if self.node is Some && self.node->0.role is Candidate {
            &&& peer_ids.len() == 0 || self.node->0.log.last_index() < u64::MAX
            &&& after == self.with_node(self.node->0.leading(id_set(peer_ids), self.tick))
        } else {
            after == self
        }
    }

    /// Whether the node has just recovered from a store that holds `log`, with
    /// a state machine that has applied the log up to `applied`.
    pub open spec fn recovers(
        self,
        identity: IdentityView,
        log: LogState,
        applied: LogIndex,
        thresholds: TickThresholds,
    ) -> bool {
        &&& applied.0 <= log.last_committed.0
        &&& self.node is Some
        &&& self.node->0.role is Follower
        &&& thresholds.admits(self.node->0.role->Follower_timeout)
        &&& self == (LogicalView {
            node: Some(
                NodeView {
                    identity,
                    log,
                    last_committed: log.last_committed,
                    last_applied: applied,
                    role: RoleView::Follower {
                        leader_id: None,
                        last_heartbeat: Tick(0),
                        timeout: self.node->0.role->Follower_timeout,
                    },
                },
            ),
            tick: Tick(0),
            thresholds,
            freezes: 0,
        })
    }

    /// Whether the node does not lead and names `hint` to whoever brings it a
    /// command.
    pub open spec fn refers_to(self, hint: Option<NodeId>) -> bool {
        !(self.node->0.role is Leader) && hint == self.node->0.log.voted_for
    }

    /// Whether `result` answers the request `req` to append entries, and
    /// `after` is the node then. A term that has passed is turned down; any
    /// other leader is followed, and its entries are taken in if they fit.
    pub open spec fn answers_append(
        self,
        after: LogicalView,
        req: AppendView,
        result: AppendEntriesResult,
    ) -> bool {
        if req.term.0 < self.term().0 {
            &&& result == (AppendEntriesResult {
                term: self.term(),
                success: false,
                conflict_index: LogIndex(0),
            })
            &&& after == self
        } else {
            let base = self.node->0.with_term(req.term);
            let consistent = consistent_at(base.log, req.prev_log_index, req.prev_log_term);
            &&& !self.rivals(req.term)
            &&& consistent ==> !(log_extension(base.log, req.entries) is Overflow)
            &&& self.attends(after, req.term, req.leader_id)
            &&& after == self.with_node(
                base.in_role(after.node->0.role).after_reconciling(
                    req.prev_log_index,
                    req.prev_log_term,
                    req.entries,
                    req.leader_commit,
                ),
            )
            &&& result == (AppendEntriesResult {
                term: req.term,
                success: consistent && log_extension(base.log, req.entries) is Run,
                conflict_index: LogIndex(after.node->0.log.last_index()),
            })
        }
    }

    /// Whether `result` answers `candidate`, who asks for a vote in `term` and
    /// whose log ends as given, and `after` is the node then. A higher term is
    /// adopted first; then a follower votes if it may.
    pub open spec fn answers_vote(
        self,
        after: LogicalView,
        candidate: NodeId,
        term: Term,
        last_index: LogIndex,
        last_term: Term,
        result: RequestVoteResult,
    ) -> bool {
        let base = self.node->0.with_term(term);
        &&& result.vote_granted == ((term.0 > self.term().0 || self.node->0.role is Follower)
            && base.may_vote(candidate, term, last_index, last_term))
        &&& result.term == base.log.current_term
        &&& after.node is Some
        &&& after == self.with_node(
            base.voting(result.vote_granted, candidate).in_role(after.node->0.role),
        )
        &&& if term.0 > self.term().0 {
            self.yields(after.node->0.role)
        } else {
            after.node->0.role == self.node->0.role
        }
    }

    /// Whether `result` answers a candidate that is in `term`, whose log ends
    /// as given, and that asks whether it would get a vote.
    pub open spec fn answers_pre_vote(
        self,
        term: Term,
        last_index: LogIndex,
        last_term: Term,
        result: RequestVoteResult,
    ) -> bool {
        &&& result.term == self.term()
        &&& result.vote_granted == self.would_support(term, last_index, last_term)
    }

    /// Whether the node leads and `after` is the node after it has taken
    /// `command` in at `index`.
    pub open spec fn takes_command(
        self,
        after: LogicalView,
        command: Seq<u8>,
        index: LogIndex,
    ) -> bool {
        let n = self.node->0;
        &&& n.role is Leader
        &&& index.0 == n.log.last_index() + 1
        &&& after == self.with_node(
            n.with_log(
                n.log.appended(
                    seq![
                        EntryView {
                            index: index.0,
                            term: n.log.current_term.0,
                            data: command,
                        },
                    ],
                ),
            ),
        )
    }

    /// Whether `role` is that of a node that has just begun to follow, without
    /// knowing whom.
    pub open spec fn yields(self, role: RoleView) -> bool {
        &&& role is Follower
        &&& role->leader_id is None
        &&& role->last_heartbeat == self.tick
        &&& self.thresholds.admits(role->Follower_timeout)
    }

    /// Whether the node follows, and would support a candidate that is in
    /// `term` and whose log ends as given.
    pub open spec fn would_support(
        self,
        term: Term,
        last_index: LogIndex,
        last_term: Term,
    ) -> bool {
        &&& self.node->0.role is Follower
        &&& term.0 >= self.term().0
        &&& up_to_date(self.node->0.log, last_term, last_index)
    }

    /// The node after it has begun to ask its peers for promises, if it
    /// follows. The campaign lasts for one heartbeat interval.
    pub open spec fn sounding_out(self) -> LogicalView {
        match self.node {
            Some(n) => if n.role is Follower {
                self.with_node(
                    n.in_role(
                        RoleView::PreCandidate {
                            campaign_start: self.tick,
                            timeout: self.thresholds.heartbeat_interval,
                        },
                    ),
                )
            } else {
                self
            },
            None => self,
        }
    }

    /// The node with its timer started anew, if its role has one.
    pub open spec fn refreshed(self) -> LogicalView {
        match self.node {
            Some(n) => match n.role {
                RoleView::Follower { leader_id, last_heartbeat: _, timeout } => self.with_node(
                    n.in_role(
                        RoleView::Follower { leader_id, last_heartbeat: self.tick, timeout },
                    ),
                ),
                RoleView::Leader(l) => self.with_node(
                    n.in_role(
                        RoleView::Leader(LeaderView { last_heartbeat: self.tick, ..l }),
                    ),
                ),
                _ => self,
            },
            None => self,
        }
    }

    /// Whether the node leads the term that `leader` claims to lead.
    pub open spec fn rivals(self, term: Term) -> bool {
        term == self.term() && self.node->0.role is Leader
    }

    /// What the clock tells the node to do.
    pub open spec fn due(self) -> TickAction {
        match self.node {
            None => TickAction::Stop,
            Some(n) => match n.role {
                RoleView::Follower { leader_id: _, last_heartbeat, timeout } => {
                    if self.tick.reached(last_heartbeat, timeout) {
                        TickAction::StartElection
                    } else {
                        TickAction::Idle
                    }
                },
                RoleView::PreCandidate { campaign_start, timeout } => {
                    if self.tick.reached(campaign_start, timeout) {
                        TickAction::StepDown
                    } else {
                        TickAction::Idle
                    }
                },
                RoleView::Candidate { votes: _, election_start, timeout } => {
                    if self.tick.reached(election_start, timeout) {
                        TickAction::StartElection
                    } else {
                        TickAction::Idle
                    }
                },
                RoleView::Leader(l) => {
                    if self.tick.reached(l.last_heartbeat, self.thresholds.heartbeat_interval) {
                        TickAction::SendHeartbeat
                    } else {
                        TickAction::Idle
                    }
                },
            },
        }
    }

    /// What the node reports of its progress.
    pub open spec fn progress(self) -> ConsensusProgress {
        match self.node {
            None => ConsensusProgress {
                term: Term(0),
                role: NodeRole::Poisoned,
                last_log_index: LogIndex(0),
                last_committed: LogIndex(0),
                last_applied: LogIndex(0),
                leader_hint: None,
                confirmed_read_epoch: 0,
            },
            Some(n) => ConsensusProgress {
                term: n.log.current_term,
                role: match n.role {
                    RoleView::Follower { .. } => NodeRole::Follower,
                    RoleView::PreCandidate { .. } => NodeRole::PreCandidate,
                    RoleView::Candidate { .. } => NodeRole::Candidate,
                    RoleView::Leader(_) => NodeRole::Leader,
                },
                last_log_index: LogIndex(n.log.last_index()),
                last_committed: n.last_committed,
                last_applied: n.last_applied,
                leader_hint: match n.role {
                    RoleView::Follower { leader_id, .. } => leader_id,
                    RoleView::Leader(_) => Some(n.identity.node),
                    _ => None,
                },
                confirmed_read_epoch: match n.role {
                    RoleView::Leader(l) => l.confirmed_read_epoch,
                    _ => 0,
                },
            },
        }
    }
}

impl NodeView {
    /// The node after it was asked for its vote.
    pub open spec fn voting(self, granted: bool, candidate: NodeId) -> NodeView {
        if granted {
            self.with_log(self.log.with_hard_state(self.log.current_term, Some(candidate)))
        } else {
            self
        }
    }

    /// The node at the start of its lead over `peers`.
    pub open spec fn leading(self, peers: Set<u64>, now: Tick) -> NodeView {
        self.in_role(
            RoleView::Leader(fresh_leader(peers, LogIndex(self.log.last_index()), now)),
        )
    }
}

/// A Raft node with its clock, its timers and the source of its randomness.
#[derive(Debug)]
pub struct LogicalNode<L: LogStorage> {
    state: RoleState<L>,
    current_tick: Tick,
    thresholds: TickThresholds,
    rng: StdRng,
    snapshot_count: u32,
}

impl<L: LogStorage> View for LogicalNode<L> {
    type V = LogicalView;

    closed spec fn view(&self) -> LogicalView {
        LogicalView {
            node: self.state.node(),
            tick: self.current_tick,
            thresholds: self.thresholds,
            freezes: self.snapshot_count,
        }
    }
}

impl<L: LogStorage> LogicalNode<L> {
    /// An election timeout can be drawn, and nothing is applied that was not
    /// committed.
    pub closed spec fn wf(&self) -> bool {
        &&& self.state.wf()
        &&& self.thresholds.wf()
        &&& self@.node matches Some(n) ==> n.last_applied.0 <= n.last_committed.0
    }

    /// Whether the log store of the node never fails.
    pub closed spec fn reliable(&self) -> bool {
        self.state.reliable()
    }

    /// Whether the node has halted.
    pub open spec fn poisoned(&self) -> bool {
        self@.node is None
    }

    /// Whether a failing call on the store has halted the node.
    pub open spec fn storage_halt(before: LogicalNode<L>, after: LogicalNode<L>, e: NodeError) -> bool {
        e is Storage && !before.reliable() && after@ == before@.halted()
    }

    /// A sound node has applied nothing that it has not committed.
    pub proof fn lemma_applied_within_committed(&self)
        requires
            self.wf(),
            !self.poisoned(),
        ensures
            self@.node->0.last_applied.0 <= self@.node->0.last_committed.0,
    {
    }

    /// A node that recovers from its log store and follows.
    pub fn try_new<F: StateMachine>(
        identity: NodeIdentity,
        fsm: &F,
        log_store: L,
        thresholds: TickThresholds,
        rng: StdRng,
    ) -> (r: Result<LogicalNode<L>, NodeError>)
        requires
            thresholds.wf(),
        ensures
            match r {
                Ok(n) => {
                    &&& n@.recovers(
                        identity@,
                        log_store.model(),
                        fsm.applied_index(),
                        thresholds,
                    )
                    &&& n.wf()
                    &&& n.reliable() == log_store.reliable()
                },
                Err(NodeError::Storage(_)) => !log_store.reliable(),
                Err(NodeError::Protocol(ProtocolError::FsmFailure { cause: _ })) => !fsm.reliable(),
                Err(e) => fsm.applied_index().0 > log_store.model().last_committed.0 && e
                    == NodeError::Protocol(
                    ProtocolError::FsmAheadOfLog {
                        applied: fsm.applied_index(),
                        committed: log_store.model().last_committed,
                    },
                ),
            },
    {
        let mut rng: StdRng = rng;
        let timeout: TickDuration = thresholds.generate_election_timeout(&mut rng);
        let node = RaftNode::<Follower, L>::try_new(
            identity,
            fsm,
            log_store,
            Tick::zero(),
            timeout,
        )?;
        Ok(
            LogicalNode {
                state: RoleState::Follower(node),
                current_tick: Tick::zero(),
                thresholds,
                rng,
                snapshot_count: 0,
            },
        )
    }

    // --- Halting ---

    /// Halts the node and hands the reason back.
    pub fn apply_fatal<T>(&mut self, err: NodeError) -> (r: Result<T, NodeError>)
        ensures
            r == Err::<T, NodeError>(err),
            final(self)@ == old(self)@.halted(),
            old(self)@.upholds(final(self)@),
            old(self).wf() ==> final(self).wf(),
            final(self).reliable(),
    {
        self.state = RoleState::Poisoned;
        Err(err)
    }

    /// Halts the node.
    pub fn poison(&mut self)
        ensures
            final(self)@ == old(self)@.halted(),
            old(self)@.upholds(final(self)@),
            old(self).wf() ==> final(self).wf(),
            final(self).reliable(),
    {
        self.state = RoleState::Poisoned;
    }

    pub fn is_poisoned(&self) -> (r: bool)
        ensures
            r == self.poisoned(),
    {
        self.state.is_poisoned()
    }

    // --- Role changes ---

    /// Replaces the role state by what `f` makes of it. While `f` runs the
    /// node is halted.
    pub fn transition<F: FnOnce(RoleState<L>) -> RoleState<L>>(&mut self, f: F)
        requires
            f.requires((old(self).role_state(),)),
        ensures
            f.ensures((old(self).role_state(),), final(self).role_state()),
            final(self)@ == (LogicalView { node: final(self).role_state().node(), ..old(self)@ }),
            old(self).wf() && final(self).role_state().wf() && (final(self)@.node matches Some(n)
                ==> n.last_applied.0 <= n.last_committed.0) ==> final(self).wf(),
    {
        let mut old_state: RoleState<L> = RoleState::Poisoned;
        std::mem::swap(&mut old_state, &mut self.state);
        self.state = f(old_state);
    }

    /// The role state.
    pub closed spec fn role_state(&self) -> RoleState<L> {
        self.state
    }

    pub fn state(&self) -> (r: &RoleState<L>)
        ensures
            *r == self.role_state(),
            r.node() == self@.node,
            self.wf() ==> r.wf(),
            r.reliable() == self.reliable(),
    {
        &self.state
    }

    /// Follows `leader_id` in `term` with a fresh election timeout, whatever
    /// the role was. A lower term halts the node.
    pub fn into_follower(&mut self, term: Term, leader_id: Option<NodeId>) -> (r: Result<
        (),
        NodeError,
    >)
        requires
            old(self).wf(),
            !old(self).poisoned(),
        ensures
            match r {
                Ok(()) => old(self)@.term().0 <= term.0 && old(self)@.follows(
                    final(self)@,
                    term,
                    leader_id,
                ),
                Err(NodeError::Storage(_)) => !old(self).reliable() && final(self)@
                    == old(self)@.halted(),
                Err(e) => term.0 < old(self)@.term().0 && final(self)@ == old(self)@.halted() && e
                    == NodeError::Protocol(
                    ProtocolError::TermRegression { current: old(self)@.term(), new: term },
                ),
            },
            old(self)@.upholds(final(self)@),
            final(self).wf(),
            old(self).reliable() ==> final(self).reliable(),
    {
        let timeout: TickDuration = self.thresholds.generate_election_timeout(&mut self.rng);
        self.into_follower_for(term, leader_id, timeout)
    }

    /// Follows `leader_id` in `term` with the given election timeout.
    pub fn into_follower_for(
        &mut self,
        term: Term,
        leader_id: Option<NodeId>,
        timeout: TickDuration,
    ) -> (r: Result<(), NodeError>)
        requires
            old(self).wf(),
            !old(self).poisoned(),
        ensures
            match r {
                Ok(()) => old(self)@.term().0 <= term.0 && final(self)@ == old(self)@.with_node(
                    old(self)@.node->0.with_term(term).in_role(
                        RoleView::Follower { leader_id, last_heartbeat: old(self)@.tick, timeout },
                    ),
                ),
                Err(NodeError::Storage(_)) => !old(self).reliable() && final(self)@
                    == old(self)@.halted(),
                Err(e) => term.0 < old(self)@.term().0 && final(self)@ == old(self)@.halted() && e
                    == NodeError::Protocol(
                    ProtocolError::TermRegression { current: old(self)@.term(), new: term },
                ),
            },
            old(self)@.upholds(final(self)@),
            final(self).wf(),
            old(self).reliable() ==> final(self).reliable(),
    {
        let tick: Tick = self.current_tick;
        let mut old_state: RoleState<L> = RoleState::Poisoned;
        std::mem::swap(&mut old_state, &mut self.state);
        let new: Result<RaftNode<Follower, L>, NodeError> = match old_state {
            RoleState::Follower(n) => n.try_into_follower(term, leader_id, tick, timeout),
            RoleState::PreCandidate(n) => n.try_into_follower(term, leader_id, tick, timeout),
            RoleState::Candidate(n) => n.try_into_follower(term, leader_id, tick, timeout),
            RoleState::Leader(n) => n.try_into_follower(term, leader_id, tick, timeout),
            RoleState::Poisoned => vstd::pervasive::unreached(),
        };
        match new {
            Ok(n) => {
                self.state = RoleState::Follower(n);
                Ok(())
            },
            Err(e) => Err(e),
        }
    }

    /// Asks the peers for promises, if the node follows; the campaign lasts
    /// for one heartbeat interval.
    pub fn into_pre_candidate(&mut self)
        requires
            old(self).wf(),
        ensures
            final(self)@ == old(self)@.sounding_out(),
            old(self)@.upholds(final(self)@),
            final(self).wf(),
            old(self).reliable() ==> final(self).reliable(),
    {
        let tick: Tick = self.current_tick;
        let mut old_state: RoleState<L> = RoleState::Poisoned;
        std::mem::swap(&mut old_state, &mut self.state);
        self.state =
        match old_state {
            RoleState::Follower(n) => {
                match n.try_into_pre_candidate(tick, self.thresholds.heartbeat_interval) {
                    Ok(new) => RoleState::PreCandidate(new),
                    Err(_) => RoleState::Poisoned,
                }
            },
            other => other,
        };
    }

    /// Starts an election with a fresh timeout, unless the node leads or has
    /// halted.
    pub fn into_candidate(&mut self) -> (r: Result<(), NodeError>)
        requires
            old(self).wf(),
        ensures
            match r {
                Ok(()) => old(self)@.runs_for_leader(final(self)@),
                Err(NodeError::Storage(_)) => {
                    &&& old(self)@.node matches Some(n) && !(n.role is Leader)
                    &&& !old(self).reliable()
                    &&& final(self)@ == old(self)@.halted()
                },
                Err(e) => {
                    &&& e == NodeError::Arithmetic(ArithmeticError::Overflow)
                    &&& old(self)@.node matches Some(n) && !(n.role is Leader)
                        && n.log.current_term.0 == u64::MAX
                    &&& final(self)@ == old(self)@.halted()
                },
            },
            old(self)@.upholds(final(self)@),
            final(self).wf(),
            old(self).reliable() ==> final(self).reliable(),
    {
        let timeout: TickDuration = self.thresholds.generate_election_timeout(&mut self.rng);
        self.into_candidate_for(timeout)
    }

    /// Starts an election with the given timeout, unless the node leads or has
    /// halted.
    pub fn into_candidate_for(&mut self, timeout: TickDuration) -> (r: Result<(), NodeError>)
        requires
            old(self).wf(),
        ensures
            match r {
                Ok(()) => match old(self)@.node {
                    Some(n) => if n.role is Leader {
                        final(self)@ == old(self)@
                    } else {
                        n.log.current_term.0 < u64::MAX && final(self)@ == old(self)@.with_node(
                            n.campaigning(old(self)@.tick, timeout),
                        )
                    },
                    None => final(self)@ == old(self)@,
                },
                Err(NodeError::Storage(_)) => {
                    &&& old(self)@.node matches Some(n) && !(n.role is Leader)
                    &&& !old(self).reliable()
                    &&& final(self)@ == old(self)@.halted()
                },
                Err(e) => {
                    &&& e == NodeError::Arithmetic(ArithmeticError::Overflow)
                    &&& old(self)@.node matches Some(n) && !(n.role is Leader)
                        && n.log.current_term.0 == u64::MAX
                    &&& final(self)@ == old(self)@.halted()
                },
            },
            old(self)@.upholds(final(self)@),
            final(self).wf(),
            old(self).reliable() ==> final(self).reliable(),
    {
        let tick: Tick = self.current_tick;
        let mut old_state: RoleState<L> = RoleState::Poisoned;
        std::mem::swap(&mut old_state, &mut self.state);
        let new: Result<RaftNode<Candidate, L>, NodeError> = match old_state {
            RoleState::Follower(n) => n.try_into_candidate(tick, timeout),
            RoleState::PreCandidate(n) => n.try_into_candidate(tick, timeout),
            RoleState::Candidate(n) => n.try_into_restarted_candidate(tick, timeout),
            other => {
                self.state = other;
                return Ok(());
            },
        };
        match new {
            Ok(n) => {
                self.state = RoleState::Candidate(n);
                Ok(())
            },
            Err(e) => Err(e),
        }
    }

    /// Takes the lead over `peer_ids`, if the node is a candidate.
    pub fn into_leader(&mut self, peer_ids: Vec<NodeId>) -> (r: Result<(), NodeError>)
        requires
            old(self).wf(),
        ensures
            match r {
                Ok(()) => old(self)@.takes_lead(final(self)@, peer_ids@),
                Err(NodeError::Storage(_)) => {
                    &&& old(self)@.node matches Some(n) && n.role is Candidate
                    &&& !old(self).reliable()
                    &&& final(self)@ == old(self)@.halted()
                },
                Err(e) => {
                    &&& e == NodeError::Arithmetic(ArithmeticError::Overflow)
                    &&& old(self)@.node matches Some(n) && n.role is Candidate
                        && n.log.last_index() == u64::MAX
                    &&& peer_ids.len() > 0
                    &&& final(self)@ == old(self)@.halted()
                },
            },
            old(self)@.upholds(final(self)@),
            final(self).wf(),
            old(self).reliable() ==> final(self).reliable(),
    {
        let tick: Tick = self.current_tick;
        let mut old_state: RoleState<L> = RoleState::Poisoned;
        std::mem::swap(&mut old_state, &mut self.state);
        match old_state {
            RoleState::Candidate(n) => match n.try_into_leader(peer_ids, tick) {
                Ok(new) => {
                    self.state = RoleState::Leader(new);
                    Ok(())
                },
                Err(e) => Err(e),
            },
            other => {
                self.state = other;
                Ok(())
            },
        }
    }

    // --- The clock ---

    /// Moves the clock on by one tick and says what is due.
    pub fn tick(&mut self) -> (r: TickAction)
        requires
            old(self).wf(),
        ensures
            final(self)@ == (LogicalView { tick: old(self)@.tick.next(), ..old(self)@ }),
            r == final(self)@.due(),
            old(self)@.upholds(final(self)@),
            final(self).wf(),
            final(self).reliable() == old(self).reliable(),
    {
        self.current_tick.increment();
        let now: Tick = self.current_tick;
        match &self.state {
            RoleState::Follower(n) => n.state().evaluate_tick(now),
            RoleState::PreCandidate(n) => n.state().evaluate_tick(now),
            RoleState::Candidate(n) => n.state().evaluate_tick(now),
            RoleState::Leader(n) => n.state().evaluate_tick(
                now,
                self.thresholds.heartbeat_interval,
            ),
            RoleState::Poisoned => TickAction::Stop,
        }
    }

    /// Starts the timer of a follower or a leader anew.
    pub fn reset_heartbeat(&mut self)
        requires
            old(self).wf(),
        ensures
            final(self)@ == old(self)@.refreshed(),
            old(self)@.upholds(final(self)@),
            final(self).wf(),
            final(self).reliable() == old(self).reliable(),
    {
        let tick: Tick = self.current_tick;
        match &mut self.state {
            RoleState::Follower(n) => n.state_mut().reset_heartbeat(tick),
            RoleState::Leader(n) => n.state_mut().reset_heartbeat(tick),
            _ => {},
        }
    }

    // --- Requests of a leader ---

    /// Checks the term of a leader's request. A term that has passed makes the
    /// request stale; otherwise the node follows that leader. A node that leads
    /// the very term halts.
    pub fn validate_leader_rpc_term(&mut self, req_term: Term, leader_id: NodeId, rpc: LeaderRpc)
        -> (r: Result<TermCheckResult, NodeError>)
        requires
            old(self).wf(),
            !old(self).poisoned(),
        ensures
            match r {
                Ok(TermCheckResult::Stale) => req_term.0 < old(self)@.term().0 && final(self)@
                    == old(self)@,
                Ok(TermCheckResult::Valid) => req_term.0 >= old(self)@.term().0 && !old(
                    self,
                )@.rivals(req_term) && old(self)@.hears(final(self)@, req_term, leader_id),
                Err(NodeError::Storage(_)) => !old(self).reliable() && final(self)@
                    == old(self)@.halted(),
                Err(e) => old(self)@.rivals(req_term) && final(self)@ == old(self)@.halted() && e
                    == NodeError::Protocol(
                    ProtocolError::RivalLeader { leader: leader_id, term: req_term, rpc },
                ),
            },
            old(self)@.upholds(final(self)@),
            final(self).wf(),
            old(self).reliable() ==> final(self).reliable(),
    {
        let current_term: Term = self.current_term()?;
        if req_term.0 < current_term.0 {
            return Ok(TermCheckResult::Stale);
        }
        if req_term.0 > current_term.0 {
            self.into_follower(req_term, Some(leader_id))?;
            return Ok(TermCheckResult::Valid);
        }
        match &mut self.state {
            RoleState::Follower(n) => {
                n.state_mut().set_leader_id(Some(leader_id));
                return Ok(TermCheckResult::Valid);
            },
            RoleState::Leader(_) => {
                return self.apply_fatal(
                    NodeError::Protocol(
                        ProtocolError::RivalLeader { leader: leader_id, term: req_term, rpc },
                    ),
                );
            },
            _ => {},
        }
        self.into_follower(req_term, Some(leader_id))?;
        Ok(TermCheckResult::Valid)
    }

    /// Answers InstallSnapshot. Restoring an accepted snapshot is left to the
    /// caller.
    pub fn handle_install_snapshot(
        &mut self,
        leader_id: NodeId,
        req_term: Term,
        last_included_index: LogIndex,
    ) -> (r: Result<InstallSnapshotResult, NodeError>)
        requires
            old(self).wf(),
            !old(self).poisoned(),
        ensures
            match r {
                Ok(result) => old(self)@.answers_snapshot(
                    final(self)@,
                    leader_id,
                    req_term,
                    last_included_index,
                    result,
                ),
                Err(NodeError::Storage(_)) => !old(self).reliable() && final(self)@
                    == old(self)@.halted(),
                Err(e) => old(self)@.rivals(req_term) && final(self)@ == old(self)@.halted() && e
                    == NodeError::Protocol(
                    ProtocolError::RivalLeader {
                        leader: leader_id,
                        term: req_term,
                        rpc: LeaderRpc::InstallSnapshot,
                    },
                ),
            },
            old(self)@.upholds(final(self)@),
            final(self).wf(),
            old(self).reliable() ==> final(self).reliable(),
    {
        let current_term: Term = self.current_term()?;
        match self.validate_leader_rpc_term(req_term, leader_id, LeaderRpc::InstallSnapshot)? {
            TermCheckResult::Stale => return Ok(InstallSnapshotResult::rejected(current_term)),
            TermCheckResult::Valid => {},
        }
        if last_included_index.0 <= self.last_applied().0 {
            return Ok(InstallSnapshotResult::stale(current_term));
        }
        self.reset_heartbeat();
        Ok(InstallSnapshotResult::accepted(self.current_term()?))
    }

    /// Answers AppendEntries: follows the leader and brings the log in step
    /// with it.
    pub fn handle_append_entries(
        &mut self,
        leader_id: NodeId,
        req_term: Term,
        req_prev_log_index: LogIndex,
        req_prev_log_term: Term,
        entries: Vec<LogEntry>,
        req_leader_commit: LogIndex,
    ) -> (r: Result<AppendEntriesResult, NodeError>)
        requires
            old(self).wf(),
            !old(self).poisoned(),
        ensures
            match r {
                Ok(result) => {
                    &&& old(self)@.answers_append(
                        final(self)@,
                        (AppendView {
                            term: req_term,
                            leader_id,
                            prev_log_index: req_prev_log_index,
                            prev_log_term: req_prev_log_term,
                            entries: entry_views(entries@),
                            leader_commit: req_leader_commit,
                        }),
                        result,
                    )
                    &&& result.success ==> {
                        let log = old(self)@.node->0.log;
                        &&& req_term.0 >= log.current_term.0
                        &&& req_prev_log_index.0 > 0 ==> log.term_at(req_prev_log_index.0)
                            == req_prev_log_term.0
                        &&& final(self)@.node->0.last_committed.0 > old(
                            self,
                        )@.node->0.last_committed.0 ==> final(self)@.node->0.last_committed.0
                            <= req_leader_commit.0
                    }
                },
                Err(NodeError::Storage(_)) => !old(self).reliable() && final(self)@
                    == old(self)@.halted(),
                Err(NodeError::Arithmetic(e)) => {
                    let base = old(self)@.node->0.with_term(req_term);
                    &&& e == ArithmeticError::Overflow
                    &&& req_term.0 >= old(self)@.term().0
                    &&& !old(self)@.rivals(req_term)
                    &&& consistent_at(base.log, req_prev_log_index, req_prev_log_term)
                    &&& log_extension(base.log, entry_views(entries@)) is Overflow
                    &&& final(self)@ == old(self)@.halted()
                },
                Err(e) => old(self)@.rivals(req_term) && final(self)@ == old(self)@.halted() && e
                    == NodeError::Protocol(
                    ProtocolError::RivalLeader {
                        leader: leader_id,
                        term: req_term,
                        rpc: LeaderRpc::AppendEntries,
                    },
                ),
            },
            old(self)@.upholds(final(self)@),
            final(self).wf(),
            old(self).reliable() ==> final(self).reliable(),
    {
        let current_term: Term = self.current_term()?;
        match self.validate_leader_rpc_term(req_term, leader_id, LeaderRpc::AppendEntries)? {
            TermCheckResult::Stale => return Ok(AppendEntriesResult::stale_term(current_term)),
            TermCheckResult::Valid => {},
        }
        self.reset_heartbeat();
        let outcome: Result<ReconciliationResult, NodeError> = match &mut self.state {
            RoleState::Follower(n) => n.reconcile_log(
                req_prev_log_index,
                req_prev_log_term,
                entries,
                req_leader_commit,
            ),
            _ => vstd::pervasive::unreached(),
        };
        match outcome {
            Ok(result) => {
                let term: Term = self.current_term()?;
                if result.success {
                    Ok(AppendEntriesResult::success(term, result.last_index))
                } else {
                    Ok(AppendEntriesResult::inconsistent(term, result.last_index))
                }
            },
            Err(e) => self.apply_fatal(e),
        }
    }

    // --- Requests of a candidate ---

    /// Answers RequestVote: a higher term is adopted first, then a follower
    /// votes if it may.
    pub fn handle_request_vote(
        &mut self,
        candidate_id: NodeId,
        req_term: Term,
        req_last_log_index: LogIndex,
        req_last_log_term: Term,
    ) -> (r: Result<RequestVoteResult, NodeError>)
        requires
            old(self).wf(),
            !old(self).poisoned(),
        ensures
            match r {
                Ok(result) => {
                    &&& old(self)@.answers_vote(
                        final(self)@,
                        candidate_id,
                        req_term,
                        req_last_log_index,
                        req_last_log_term,
                        result,
                    )
                    &&& result.vote_granted ==> {
                        &&& final(self)@.node->0.log.current_term == req_term
                        &&& final(self)@.node->0.log.voted_for == Some(candidate_id)
                        &&& up_to_date(
                            old(self)@.node->0.log,
                            req_last_log_term,
                            req_last_log_index,
                        )
                    }
                },
                Err(e) => Self::storage_halt(*old(self), *final(self), e),
            },
            old(self)@.upholds(final(self)@),
            final(self).wf(),
            old(self).reliable() ==> final(self).reliable(),
    {
        let current_term: Term = self.current_term()?;
        if req_term.0 > current_term.0 {
            self.into_follower(req_term, None)?;
        }
        let outcome: Result<bool, NodeError> = match &mut self.state {
            RoleState::Follower(n) => n.attempt_grant_vote(
                candidate_id,
                req_term,
                req_last_log_index,
                req_last_log_term,
            ),
            _ => Ok(false),
        };
        match outcome {
            Ok(granted) => {
                let term: Term = self.current_term()?;
                if granted {
                    Ok(RequestVoteResult::granted(term))
                } else {
                    Ok(RequestVoteResult::rejected(term))
                }
            },
            Err(e) => self.apply_fatal(e),
        }
    }

    /// Answers PreVote: whether a follower would support a candidate that is in
    /// `req_term` now. Nothing is promised and nothing changes; a candidate of
    /// a term that has passed is turned down.
    pub fn handle_pre_vote(
        &mut self,
        candidate_id: NodeId,
        req_term: Term,
        req_last_log_index: LogIndex,
        req_last_log_term: Term,
    ) -> (r: Result<RequestVoteResult, NodeError>)
        requires
            old(self).wf(),
            !old(self).poisoned(),
        ensures
            match r {
                Ok(result) => {
                    &&& old(self)@.answers_pre_vote(
                        req_term,
                        req_last_log_index,
                        req_last_log_term,
                        result,
                    )
                    &&& *final(self) == *old(self)
                },
                Err(e) => Self::storage_halt(*old(self), *final(self), e),
            },
            old(self)@.upholds(final(self)@),
            final(self).wf(),
            old(self).reliable() ==> final(self).reliable(),
    {
        let current_term: Term = self.current_term()?;
        if req_term.0 < current_term.0 {
            return Ok(RequestVoteResult::rejected(current_term));
        }
        let outcome: Result<bool, NodeError> = match &self.state {
            RoleState::Follower(n) => n.is_log_up_to_date(req_last_log_term, req_last_log_index),
            _ => Ok(false),
        };
        match outcome {
            Ok(granted) => {
                if granted {
                    Ok(RequestVoteResult::granted(current_term))
                } else {
                    Ok(RequestVoteResult::rejected(current_term))
                }
            },
            Err(e) => self.apply_fatal(e),
        }
    }

    // --- Commands ---

    /// Appends `command` to the log of a leader and returns its index. Any
    /// other node names the node it last voted for.
    pub fn propose(&mut self, command: Vec<u8>) -> (r: Result<LogIndex, NodeError>)
        requires
            old(self).wf(),
            !old(self).poisoned(),
        ensures
            match r {
                Ok(index) => old(self)@.takes_command(final(self)@, command@, index),
                Err(NodeError::NotLeader { leader_hint }) => {
                    &&& old(self)@.refers_to(leader_hint)
                    &&& final(self)@ == old(self)@
                },
                Err(NodeError::Storage(_)) => !old(self).reliable() && final(self)@
                    == old(self)@.halted(),
                Err(e) => {
                    &&& e == NodeError::Arithmetic(ArithmeticError::Overflow)
                    &&& old(self)@.node->0.role is Leader
                    &&& old(self)@.node->0.log.last_index() == u64::MAX
                    &&& final(self)@ == old(self)@.halted()
                },
            },
            old(self)@.upholds(final(self)@),
            final(self).wf(),
            old(self).reliable() ==> final(self).reliable(),
    {
        let outcome: Result<LogIndex, NodeError> = match &mut self.state {
            RoleState::Leader(n) => n.propose(command),
            _ => {
                let leader_hint: Option<NodeId> = self.voted_for()?;
                return Err(NodeError::NotLeader { leader_hint });
            },
        };
        match outcome {
            Ok(index) => Ok(index),
            Err(e) => self.apply_fatal(e),
        }
    }

    // --- The commit boundary ---

    /// Moves the commit boundary to `index`; an index beyond the log halts the
    /// node. The state machine catches up later.
    pub fn advance_last_committed(&mut self, index: LogIndex) -> (r: Result<(), NodeError>)
        requires
            old(self).wf(),
            !old(self).poisoned(),
        ensures
            Self::commit_ensures(*old(self), *final(self), index, r),
    {
        self.update_commit_index_only(index)
    }

    /// What committing `index` gives.
    pub open spec fn commit_ensures(
        before: LogicalNode<L>,
        after: LogicalNode<L>,
        index: LogIndex,
        r: Result<(), NodeError>,
    ) -> bool {
        &&& match r {
            Ok(()) => (index.0 < before@.node->0.last_committed.0 || index.0
                <= before@.node->0.log.last_index()) && after@ == before@.with_node(
                before@.node->0.committed_to(index),
            ),
            Err(NodeError::Storage(_)) => index.0 >= before@.node->0.last_committed.0
                && !before.reliable() && after@ == before@.halted(),
            Err(e) => commit_refused(before@.node->0, index, e) && after@ == before@.halted(),
        }
        &&& before@.upholds(after@)
        &&& after.wf()
        &&& before.reliable() ==> after.reliable()
    }

    /// Moves the commit boundary to `index`; an index beyond the log halts the
    /// node.
    pub fn update_commit_index_only(&mut self, index: LogIndex) -> (r: Result<(), NodeError>)
        requires
            old(self).wf(),
            !old(self).poisoned(),
        ensures
            Self::commit_ensures(*old(self), *final(self), index, r),
    {
        match self.state.update_commit_index_only(index) {
            Ok(()) => Ok(()),
            Err(e) => self.apply_fatal(e),
        }
    }

    /// Records that the state machine stands at `index`. A refusal is reported
    /// and leaves the node as it was.
    pub fn advance_horizon_after_snapshot(&mut self, index: LogIndex) -> (r: Result<(), NodeError>)
        requires
            old(self).wf(),
            !old(self).poisoned(),
        ensures
            match r {
                Ok(()) => (index.0 < old(self)@.node->0.last_committed.0 || index.0
                    <= old(self)@.node->0.log.last_index()) && final(self)@ == old(self)@.with_node(
                    old(self)@.node->0.committed_to(index).applied_to(index),
                ),
                Err(NodeError::Storage(_)) => {
                    &&& index.0 >= old(self)@.node->0.last_committed.0
                    &&& !old(self).reliable()
                    &&& final(self)@ == old(self)@.with_node(
                        old(self)@.node->0.with_log(final(self)@.node->0.log),
                    )
                },
                Err(e) => commit_refused(old(self)@.node->0, index, e) && final(self)@
                    == old(self)@,
            },
            r is Ok || old(self).reliable() ==> old(self)@.upholds(final(self)@),
            !final(self).poisoned(),
            final(self).wf(),
            old(self).reliable() ==> final(self).reliable(),
    {
        self.state.advance_horizon_after_snapshot(index)
    }

    // --- Freezing the state machine ---

    pub fn is_snapshotting(&self) -> (r: bool)
        ensures
            r == (self@.freezes > 0),
    {
        self.snapshot_count > 0
    }

    /// Counts one more snapshot task, or one less. A count that leaves its
    /// range halts the node.
    pub fn set_snapshotting(&mut self, active: bool) -> (r: Result<(), NodeError>)
        requires
            old(self).wf(),
        ensures
            match r {
                Ok(()) => if active {
                    old(self)@.freezes < u32::MAX && final(self)@ == (LogicalView {
                        freezes: (old(self)@.freezes + 1) as u32,
                        ..old(self)@
                    })
                } else {
                    old(self)@.freezes > 0 && final(self)@ == (LogicalView {
                        freezes: (old(self)@.freezes - 1) as u32,
                        ..old(self)@
                    })
                },
                Err(e) => {
                    &&& if active {
                        old(self)@.freezes == u32::MAX && e == NodeError::Protocol(
                            ProtocolError::FreezeOverflow,
                        )
                    } else {
                        old(self)@.freezes == 0 && e == NodeError::Protocol(
                            ProtocolError::FreezeUnderflow,
                        )
                    }
                    &&& final(self)@ == old(self)@.halted()
                },
            },
            old(self)@.upholds(final(self)@),
            final(self).wf(),
            old(self).reliable() ==> final(self).reliable(),
    {
        if active {
            match self.snapshot_count.checked_add(1) {
                Some(count) => {
                    self.snapshot_count = count;
                    Ok(())
                },
                None => self.apply_fatal(NodeError::Protocol(ProtocolError::FreezeOverflow)),
            }
        } else {
            match self.snapshot_count.checked_sub(1) {
                Some(count) => {
                    self.snapshot_count = count;
                    Ok(())
                },
                None => self.apply_fatal(NodeError::Protocol(ProtocolError::FreezeUnderflow)),
            }
        }
    }

    // --- Reading the store: a failure halts the node ---

    pub fn current_term(&mut self) -> (r: Result<Term, NodeError>)
        requires
            old(self).wf(),
            !old(self).poisoned(),
        ensures
            match r {
                Ok(v) => v == old(self)@.term() && *final(self) == *old(self),
                Err(e) => Self::storage_halt(*old(self), *final(self), e),
            },
            old(self)@.upholds(final(self)@),
            final(self).wf(),
            old(self).reliable() ==> final(self).reliable(),
    {
        match self.state.current_term() {
            Ok(v) => Ok(v),
            Err(e) => self.apply_fatal(e),
        }
    }

    pub fn voted_for(&mut self) -> (r: Result<Option<NodeId>, NodeError>)
        requires
            old(self).wf(),
            !old(self).poisoned(),
        ensures
            match r {
                Ok(v) => v == old(self)@.node->0.log.voted_for && *final(self) == *old(self),
                Err(e) => Self::storage_halt(*old(self), *final(self), e),
            },
            old(self)@.upholds(final(self)@),
            final(self).wf(),
            old(self).reliable() ==> final(self).reliable(),
    {
        match self.state.voted_for() {
            Ok(v) => Ok(v),
            Err(e) => self.apply_fatal(e),
        }
    }

    pub fn last_log_index(&mut self) -> (r: Result<LogIndex, NodeError>)
        requires
            old(self).wf(),
            !old(self).poisoned(),
        ensures
            match r {
                Ok(v) => v.0 == old(self)@.node->0.log.last_index() && *final(self) == *old(self),
                Err(e) => Self::storage_halt(*old(self), *final(self), e),
            },
            old(self)@.upholds(final(self)@),
            final(self).wf(),
            old(self).reliable() ==> final(self).reliable(),
    {
        match self.state.last_log_index() {
            Ok(v) => Ok(v),
            Err(e) => self.apply_fatal(e),
        }
    }

    pub fn last_log_term(&mut self) -> (r: Result<Term, NodeError>)
        requires
            old(self).wf(),
            !old(self).poisoned(),
        ensures
            match r {
                Ok(v) => v.0 == old(self)@.node->0.log.last_term() && *final(self) == *old(self),
                Err(e) => Self::storage_halt(*old(self), *final(self), e),
            },
            old(self)@.upholds(final(self)@),
            final(self).wf(),
            old(self).reliable() ==> final(self).reliable(),
    {
        match self.state.last_log_term() {
            Ok(v) => Ok(v),
            Err(e) => self.apply_fatal(e),
        }
    }

    pub fn last_included_index(&mut self) -> (r: Result<LogIndex, NodeError>)
        requires
            old(self).wf(),
            !old(self).poisoned(),
        ensures
            match r {
                Ok(v) => v == old(self)@.node->0.log.included_index && *final(self) == *old(self),
                Err(e) => Self::storage_halt(*old(self), *final(self), e),
            },
            old(self)@.upholds(final(self)@),
            final(self).wf(),
            old(self).reliable() ==> final(self).reliable(),
    {
        match self.state.last_included_index() {
            Ok(v) => Ok(v),
            Err(e) => self.apply_fatal(e),
        }
    }

    pub fn last_included_term(&mut self) -> (r: Result<Term, NodeError>)
        requires
            old(self).wf(),
            !old(self).poisoned(),
        ensures
            match r {
                Ok(v) => v == old(self)@.node->0.log.included_term && *final(self) == *old(self),
                Err(e) => Self::storage_halt(*old(self), *final(self), e),
            },
            old(self)@.upholds(final(self)@),
            final(self).wf(),
            old(self).reliable() ==> final(self).reliable(),
    {
        match self.state.last_included_term() {
            Ok(v) => Ok(v),
            Err(e) => self.apply_fatal(e),
        }
    }

    pub fn get_term_at(&mut self, index: LogIndex) -> (r: Result<Term, NodeError>)
        requires
            old(self).wf(),
            !old(self).poisoned(),
        ensures
            match r {
                Ok(v) => v.0 == old(self)@.node->0.log.term_at(index.0) && *final(self) == *old(self),
                Err(e) => index.0 != 0 && Self::storage_halt(*old(self), *final(self), e),
            },
            old(self)@.upholds(final(self)@),
            final(self).wf(),
            old(self).reliable() ==> final(self).reliable(),
    {
        match self.state.get_term_at(index) {
            Ok(v) => Ok(v),
            Err(e) => self.apply_fatal(e),
        }
    }

    pub fn read_entries(&mut self, start: LogIndex, end: LogIndex) -> (r: Result<Vec<LogEntry>, NodeError>)
        requires
            old(self).wf(),
            !old(self).poisoned(),
        ensures
            match r {
                Ok(v) => entry_views(v@) == old(self)@.node->0.log.range(start.0, end.0 as int) && *final(self) == *old(self),
                Err(e) => Self::storage_halt(*old(self), *final(self), e),
            },
            old(self)@.upholds(final(self)@),
            final(self).wf(),
            old(self).reliable() ==> final(self).reliable(),
    {
        match self.state.read_entries(start, end) {
            Ok(v) => Ok(v),
            Err(e) => self.apply_fatal(e),
        }
    }

    /// Records up to where the latest snapshot reaches.
    pub fn save_snapshot_metadata(&mut self, index: LogIndex, term: Term) -> (r: Result<
        (),
        NodeError,
    >)
        requires
            old(self).wf(),
            !old(self).poisoned(),
        ensures
            match r {
                Ok(()) => final(self)@ == old(self)@.with_node(
                    old(self)@.node->0.with_log(
                        old(self)@.node->0.log.with_snapshot(index, term),
                    ),
                ),
                Err(e) => Self::storage_halt(*old(self), *final(self), e),
            },
            old(self)@.upholds(final(self)@),
            final(self).wf(),
            old(self).reliable() ==> final(self).reliable(),
    {
        match self.state.save_snapshot_metadata(index, term) {
            Ok(()) => Ok(()),
            Err(e) => self.apply_fatal(e),
        }
    }

    /// Drops the entries up to and including `index`, which the recorded
    /// snapshot has to cover. A failure is only reported; the caller halts.
    pub fn truncate_log_front(&mut self, index: LogIndex) -> (r: Result<(), LogStorageError>)
        requires
            old(self).wf(),
            !old(self).poisoned(),
            index.0 <= old(self)@.node->0.log.included_index.0,
        ensures
            match r {
                Ok(()) => final(self)@ == old(self)@.with_node(
                    old(self)@.node->0.with_log(old(self)@.node->0.log.front_truncated(index)),
                ),
                Err(_) => !old(self).reliable() && final(self)@ == old(self)@.with_node(
                    old(self)@.node->0.with_log(final(self)@.node->0.log),
                ),
            },
            r is Ok ==> old(self)@.upholds(final(self)@),
            !final(self).poisoned(),
            final(self).wf(),
            old(self).reliable() ==> final(self).reliable(),
    {
        self.state.truncate_log_front(index)
    }

    pub fn consensus_progress(&mut self) -> (r: Result<ConsensusProgress, NodeError>)
        requires
            old(self).wf(),
        ensures
            match r {
                Ok(p) => p == old(self)@.progress() && *final(self) == *old(self),
                Err(e) => !old(self).poisoned() && Self::storage_halt(*old(self), *final(self), e),
            },
            old(self)@.upholds(final(self)@),
            final(self).wf(),
            old(self).reliable() ==> final(self).reliable(),
    {
        match self.try_consensus_progress() {
            Ok(p) => Ok(p),
            Err(e) => self.apply_fatal(e),
        }
    }

    // --- Reading the store: a failure is only reported ---

    pub fn try_current_term(&self) -> (r: Result<Term, NodeError>)
        requires
            !self.poisoned(),
        ensures
            match r {
                Ok(v) => v == self@.term(),
                Err(e) => e is Storage && !self.reliable(),
            },
    {
        self.state.current_term()
    }

    pub fn try_last_log_index(&self) -> (r: Result<LogIndex, NodeError>)
        requires
            !self.poisoned(),
        ensures
            match r {
                Ok(v) => v.0 == self@.node->0.log.last_index(),
                Err(e) => e is Storage && !self.reliable(),
            },
    {
        self.state.last_log_index()
    }

    pub fn try_last_log_term(&self) -> (r: Result<Term, NodeError>)
        requires
            !self.poisoned(),
        ensures
            match r {
                Ok(v) => v.0 == self@.node->0.log.last_term(),
                Err(e) => e is Storage && !self.reliable(),
            },
    {
        self.state.last_log_term()
    }

    /// How far the node has come; a halted node reports zeros.
    pub fn try_consensus_progress(&self) -> (r: Result<ConsensusProgress, NodeError>)
        requires
            self.wf(),
        ensures
            match r {
                Ok(p) => p == self@.progress(),
                Err(e) => !self.poisoned() && e is Storage && !self.reliable(),
            },
    {
        let (leader_hint, confirmed_read_epoch): (Option<NodeId>, u64) = match &self.state {
            RoleState::Poisoned => {
                return Ok(
                    ConsensusProgress {
                        term: Term(0),
                        role: NodeRole::Poisoned,
                        last_log_index: LogIndex(0),
                        last_committed: LogIndex(0),
                        last_applied: LogIndex(0),
                        leader_hint: None,
                        confirmed_read_epoch: 0,
                    },
                );
            },
            RoleState::Follower(n) => (n.state().leader_id(), 0),
            RoleState::PreCandidate(_) => (None, 0),
            RoleState::Candidate(_) => (None, 0),
            RoleState::Leader(n) => (Some(n.node_id()), n.state().confirmed_read_epoch()),
        };
        Ok(
            ConsensusProgress {
                term: self.state.current_term()?,
                role: self.state.node_role(),
                last_log_index: self.state.last_log_index()?,
                last_committed: self.state.last_committed(),
                last_applied: self.state.last_applied(),
                leader_hint,
                confirmed_read_epoch,
            },
        )
    }

    // --- In memory ---

    pub fn cluster_id(&self) -> (r: &ClusterId)
        requires
            !self.poisoned(),
        ensures
            r@ == self@.node->0.identity.cluster,
    {
        self.state.cluster_id()
    }

    pub fn node_id(&self) -> (r: NodeId)
        requires
            !self.poisoned(),
        ensures
            r == self@.node->0.identity.node,
    {
        self.state.node_id()
    }

    pub fn identity(&self) -> (r: &NodeIdentity)
        requires
            !self.poisoned(),
        ensures
            r@ == self@.node->0.identity,
    {
        self.state.identity()
    }

    pub fn last_committed(&self) -> (r: LogIndex)
        requires
            !self.poisoned(),
        ensures
            r == self@.node->0.last_committed,
    {
        self.state.last_committed()
    }

    pub fn last_applied(&self) -> (r: LogIndex)
        requires
            !self.poisoned(),
        ensures
            r == self@.node->0.last_applied,
    {
        self.state.last_applied()
    }

    pub fn log_store(&self) -> (r: &L)
        requires
            !self.poisoned(),
        ensures
            r.model() == self@.node->0.log,
            r.reliable() == self.reliable(),
    {
        self.state.log_store()
    }

    pub fn node_role(&self) -> (r: NodeRole)
        requires
            self.wf(),
        ensures
            r == self@.progress().role,
    {
        self.state.node_role()
    }

    pub fn current_tick(&self) -> (r: Tick)
        ensures
            r == self@.tick,
    {
        self.current_tick
    }

    /// The node as a leader, if it leads.
    pub fn as_leader(&self) -> (r: Option<&RaftNode<Leader, L>>)
        requires
            self.wf(),
        ensures
            match r {
                Some(n) => self@.node == Some(n@) && n@.role is Leader && n.wf() && n.reliable()
                    == self.reliable(),
                None => !(self@.node matches Some(n) && n.role is Leader),
            },
    {
        match &self.state {
            RoleState::Leader(n) => Some(n),
            _ => None,
        }
    }

    /// The node as a leader, if it leads; as long as what is done to it leaves
    /// it a leader and keeps its boundaries in order, the node stays sound.
    pub fn as_leader_mut(&mut self) -> (r: Option<&mut RaftNode<Leader, L>>)
        requires
            old(self).wf(),
        ensures
            match r {
                Some(n) => {
                    &&& old(self)@.node == Some((*n)@)
                    &&& (*n)@.role is Leader
                    &&& n.wf()
                    &&& n.reliable() == old(self).reliable()
                    &&& final(self)@ == old(self)@.with_node(final(n)@)
                    &&& final(self).reliable() == final(n).reliable()
                    &&& final(n)@.role is Leader && final(n).wf() ==> final(self).wf()
                },
                None => !(old(self)@.node matches Some(n) && n.role is Leader) && *final(self)
                    == *old(self),
            },
    {
        match &mut self.state {
            RoleState::Leader(n) => Some(n),
            _ => None,
        }
    }

    /// The node as a candidate, if it is one.
    pub fn as_candidate(&self) -> (r: Option<&RaftNode<Candidate, L>>)
        requires
            self.wf(),
        ensures
            match r {
                Some(n) => self@.node == Some(n@) && n@.role is Candidate && n.wf() && n.reliable()
                    == self.reliable(),
                None => !(self@.node matches Some(n) && n.role is Candidate),
            },
    {
        match &self.state {
            RoleState::Candidate(n) => Some(n),
            _ => None,
        }
    }

    /// The node as a candidate, if it is one; as long as what is done to it
    /// leaves it a candidate and keeps its boundaries in order, the node stays
    /// sound.
    pub fn as_candidate_mut(&mut self) -> (r: Option<&mut RaftNode<Candidate, L>>)
        requires
            old(self).wf(),
        ensures
            match r {
                Some(n) => {
                    &&& old(self)@.node == Some((*n)@)
                    &&& (*n)@.role is Candidate
                    &&& n.wf()
                    &&& n.reliable() == old(self).reliable()
                    &&& final(self)@ == old(self)@.with_node(final(n)@)
                    &&& final(self).reliable() == final(n).reliable()
                    &&& final(n)@.role is Candidate && final(n).wf() ==> final(self).wf()
                },
                None => !(old(self)@.node matches Some(n) && n.role is Candidate) && *final(self)
                    == *old(self),
            },
    {
        match &mut self.state {
            RoleState::Candidate(n) => Some(n),
            _ => None,
        }
    }
}

} // verus!
