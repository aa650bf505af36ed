//! The physical node: durable log, commit boundary and role.
//!
//! A [`RaftNode`] carries its role in its type, so that what only a leader or
//! only a follower may do is not even expressible in another role. It performs
//! no network I/O and sends no signals.
use vstd::prelude::*;

use crate::errors::LogStorageError;
use crate::errors::NodeError;
use crate::errors::ProtocolError;
use crate::storage::LogStorage;
use crate::tick::Tick;
use crate::tick::TickDuration;
use crate::types::ClusterId;
use crate::types::LogEntry;
use crate::types::LogIndex;
use crate::types::NodeId;
use crate::types::NodeIdentity;
use crate::types::Term;

pub mod candidate;
pub mod follower;
pub mod fsm_ops;
pub mod leader;
pub mod pre_candidate;

pub use candidate::Candidate;
pub use follower::Follower;
pub use follower::ReconciliationResult;
pub use leader::Leader;
pub use pre_candidate::PreCandidate;

verus! {

use crate::storage::LogState;
use crate::types::ArithmeticError;
use crate::types::IdentityView;
use crate::types::entry_views;

/// What the tick loop has to do next.
#[derive(Clone, Copy, Debug, PartialEq, Eq, Structural)]
pub enum TickAction {
    /// Nothing; keep ticking.
    Idle,
    /// The election timeout ran out: become a candidate and campaign.
    StartElection,
    /// Ask the peers whether an election would succeed, before the term moves.
    StartPreVote,
    /// The pre-vote campaign ran out of time: return to following.
    StepDown,
    /// The heartbeat interval ran out: send entries to all peers.
    SendHeartbeat,
    /// The node has halted: stop ticking.
    Stop,
}

/// What a leader knows of its peers.
#[verifier::ext_equal]
pub struct LeaderView {
    /// The next index to send, by peer.
    pub next_index: Map<u64, LogIndex>,
    /// The highest index known to be replicated, by peer.
    pub match_index: Map<u64, LogIndex>,
    pub last_heartbeat: Tick,
    /// The latest heartbeat round that was started for a read.
    pub current_read_epoch: u64,
    /// The latest heartbeat round that a majority answered.
    pub confirmed_read_epoch: u64,
    /// Who answered the current round.
    pub acks: Set<u64>,
}

/// The role of a node with everything that belongs to it.
#[verifier::ext_equal]
pub enum RoleView {
    Follower { leader_id: Option<NodeId>, last_heartbeat: Tick, timeout: TickDuration },
    PreCandidate { campaign_start: Tick, timeout: TickDuration },
    Candidate { votes: Set<u64>, election_start: Tick, timeout: TickDuration },
    Leader(LeaderView),
}

/// The role of a node.
pub trait NodeState {
    spec fn role(&self) -> RoleView;
}

/// Everything a node knows.
#[verifier::ext_equal]
pub struct NodeView {
    pub identity: IdentityView,
    pub log: LogState,
    pub last_committed: LogIndex,
    pub last_applied: LogIndex,
    pub role: RoleView,
}

impl NodeView {
    /// The node in another role.
    pub open spec fn in_role(self, role: RoleView) -> NodeView {
        NodeView { role, ..self }
    }

    /// The node with another durable state.
    pub open spec fn with_log(self, log: LogState) -> NodeView {
        NodeView { log, ..self }
    }

    /// The node after it has heard of `term`: a higher term is adopted and
    /// voids the vote.
    pub open spec fn with_term(self, term: Term) -> NodeView {
        if term.0 > self.log.current_term.0 {
            self.with_log(self.log.with_hard_state(term, None))
        } else {
            self
        }
    }

    /// The node after it has started an election: a candidate of the next
    /// term that has its own vote.
    pub open spec fn campaigning(self, election_start: Tick, timeout: TickDuration) -> NodeView {
        self.with_log(
            self.log.with_hard_state(
                Term((self.log.current_term.0 + 1) as u64),
                Some(self.identity.node),
            ),
        ).in_role(
            RoleView::Candidate { votes: set![self.identity.node@], election_start, timeout },
        )
    }
}

/// A node in role `R` on top of the log store `L`.
#[derive(Debug)]
pub struct RaftNode<R: NodeState, L: LogStorage> {
    identity: NodeIdentity,
    log_store: L,
    last_committed: LogIndex,
    last_applied: LogIndex,
    state: R,
}

/// The result of a call on the log store, as a result of the node.
pub(crate) fn stored<T>(r: Result<T, LogStorageError>) -> (q: Result<T, NodeError>)
    ensures
        match r {
            Ok(v) => q == Ok::<T, NodeError>(v),
            Err(e) => q == Err::<T, NodeError>(NodeError::Storage(e)),
        },
{
    match r {
        Ok(v) => Ok(v),
        Err(e) => Err(NodeError::Storage(e)),
    }
}

impl<R: NodeState, L: LogStorage> View for RaftNode<R, L> {
    type V = NodeView;

    closed spec fn view(&self) -> NodeView {
        NodeView {
            identity: self.identity@,
            log: self.log_store.model(),
            last_committed: self.last_committed,
            last_applied: self.last_applied,
            role: self.state.role(),
        }
    }
}

impl<R: NodeState, L: LogStorage> RaftNode<R, L> {
    /// Nothing is applied that was not committed.
    pub open spec fn wf(&self) -> bool {
        self@.last_applied.0 <= self@.last_committed.0
    }

    /// Whether the log store of this node never fails.
    pub closed spec fn reliable(&self) -> bool {
        self.log_store.reliable()
    }

    // --- Accessors ---

    pub fn cluster_id(&self) -> (r: &ClusterId)
        ensures
            r@ == self@.identity.cluster,
    {
        self.identity.cluster_id()
    }

    pub fn node_id(&self) -> (r: NodeId)
        ensures
            r == self@.identity.node,
    {
        self.identity.node_id()
    }

    pub fn identity(&self) -> (r: &NodeIdentity)
        ensures
            r@ == self@.identity,
    {
        &self.identity
    }

    pub fn log_store(&self) -> (r: &L)
        ensures
            r.model() == self@.log,
            r.reliable() == self.reliable(),
    {
        &self.log_store
    }

    pub fn last_committed(&self) -> (r: LogIndex)
        ensures
            r == self@.last_committed,
    {
        self.last_committed
    }

    pub fn last_applied(&self) -> (r: LogIndex)
        ensures
            r == self@.last_applied,
    {
        self.last_applied
    }

    pub fn state(&self) -> (r: &R)
        ensures
            r.role() == self@.role,
    {
        &self.state
    }

    /// Gives access to the role; nothing but the role can change through it.
    pub fn state_mut(&mut self) -> (r: &mut R)
        ensures
            r.role() == old(self)@.role,
            final(self)@ == old(self)@.in_role(final(r).role()),
            final(self).reliable() == old(self).reliable(),
    {
        &mut self.state
    }

    pub fn current_term(&self) -> (r: Result<Term, NodeError>)
        ensures
            match r {
                Ok(t) => t == self@.log.current_term,
                Err(e) => e is Storage && !self.reliable(),
            },
    {
        stored(self.log_store.current_term())
    }

    pub fn voted_for(&self) -> (r: Result<Option<NodeId>, NodeError>)
        ensures
            match r {
                Ok(v) => v == self@.log.voted_for,
                Err(e) => e is Storage && !self.reliable(),
            },
    {
        stored(self.log_store.voted_for())
    }

    pub fn last_included_index(&self) -> (r: Result<LogIndex, NodeError>)
        ensures
            match r {
                Ok(i) => i == self@.log.included_index,
                Err(e) => e is Storage && !self.reliable(),
            },
    {
        stored(self.log_store.last_included_index())
    }

    pub fn last_included_term(&self) -> (r: Result<Term, NodeError>)
        ensures
            match r {
                Ok(t) => t == self@.log.included_term,
                Err(e) => e is Storage && !self.reliable(),
            },
    {
        stored(self.log_store.last_included_term())
    }

    // --- Log queries ---

    pub fn last_log_index(&self) -> (r: Result<LogIndex, NodeError>)
        ensures
            match r {
                Ok(i) => i.0 == self@.log.last_index(),
                Err(e) => e is Storage && !self.reliable(),
            },
    {
        stored(self.log_store.last_log_index())
    }

    pub fn last_log_term(&self) -> (r: Result<Term, NodeError>)
        ensures
            match r {
                Ok(t) => t.0 == self@.log.last_term(),
                Err(e) => e is Storage && !self.reliable(),
            },
    {
        stored(self.log_store.last_log_term())
    }

    /// The term of the entry at `index`: the snapshot answers for the history
    /// that was cut off, the log for the rest.
    pub fn get_term_at(&self, index: LogIndex) -> (r: Result<Term, NodeError>)
        ensures
            match r {
                Ok(t) => t.0 == self@.log.term_at(index.0),
                Err(e) => index.0 != 0 && e is Storage && !self.reliable(),
            },
    {
        if index.0 == 0 {
            return Ok(Term(0));
        }
        let included: LogIndex = stored(self.log_store.last_included_index())?;
        if index.0 == included.0 {
            return stored(self.log_store.last_included_term());
        }
        match stored(self.log_store.read_entry(index))? {
            Some(entry) => Ok(Term(entry.term)),
            None => Ok(Term(0)),
        }
    }

    /// The entries from `start` to `end`, both included.
    pub fn read_entries(&self, start: LogIndex, end: LogIndex) -> (r: Result<
        Vec<LogEntry>,
        NodeError,
    >)
        ensures
            match r {
                Ok(v) => entry_views(v@) == self@.log.range(start.0, end.0 as int),
                Err(e) => e is Storage && !self.reliable(),
            },
    {
        stored(self.log_store.read_entries(start, end))
    }

    // --- Physical mutations ---

    /// Drops the entries from `index` on.
    pub fn truncate_log(&mut self, index: LogIndex) -> (r: Result<(), NodeError>)
        ensures
            match r {
                Ok(()) => final(self)@ == old(self)@.with_log(old(self)@.log.truncated(index)),
                Err(e) => e is Storage && !old(self).reliable(),
            },
            final(self)@ == old(self)@.with_log(final(self)@.log),
            old(self).reliable() ==> final(self).reliable(),
    {
        stored(self.log_store.truncate_log(index))
    }

    /// Drops the entries up to and including `index`, which the recorded
    /// snapshot has to cover.
    pub fn truncate_log_front(&mut self, index: LogIndex) -> (r: Result<(), LogStorageError>)
        requires
            index.0 <= old(self)@.log.included_index.0,
        ensures
            match r {
                Ok(()) => final(self)@ == old(self)@.with_log(
                    old(self)@.log.front_truncated(index),
                ),
                Err(_) => !old(self).reliable(),
            },
            final(self)@ == old(self)@.with_log(final(self)@.log),
            old(self).reliable() ==> final(self).reliable(),
    {
        self.log_store.truncate_log_front(index)
    }

    /// Writes `entries`, each under its own index.
    pub fn append_entries(&mut self, entries: Vec<LogEntry>) -> (r: Result<(), NodeError>)
        ensures
            match r {
                Ok(()) => final(self)@ == old(self)@.with_log(
                    old(self)@.log.appended(entry_views(entries@)),
                ),
                Err(e) => e is Storage && !old(self).reliable(),
            },
            final(self)@ == old(self)@.with_log(final(self)@.log),
            old(self).reliable() ==> final(self).reliable(),
    {
        stored(self.log_store.append_entries(entries))
    }

    /// Records up to where the latest snapshot reaches.
    pub fn save_snapshot_metadata(&mut self, index: LogIndex, term: Term) -> (r: Result<
        (),
        NodeError,
    >)
        ensures
            match r {
                Ok(()) => final(self)@ == old(self)@.with_log(
                    old(self)@.log.with_snapshot(index, term),
                ),
                Err(e) => e is Storage && !old(self).reliable(),
            },
            final(self)@ == old(self)@.with_log(final(self)@.log),
            old(self).reliable() ==> final(self).reliable(),
    {
        stored(self.log_store.save_snapshot_metadata(index, term))
    }

    /// Adopts `term`. A higher term voids the vote, the current one changes
    /// nothing, a lower one is refused.
    pub fn advance_term(&mut self, term: Term) -> (r: Result<(), NodeError>)
        ensures
            match r {
                Ok(()) => old(self)@.log.current_term.0 <= term.0 && final(self)@
                    == old(self)@.with_term(term),
                Err(NodeError::Storage(_)) => !old(self).reliable(),
                Err(e) => term.0 < old(self)@.log.current_term.0 && final(self)@ == old(self)@ && e
                    == NodeError::Protocol(
                    ProtocolError::TermRegression {
                        current: old(self)@.log.current_term,
                        new: term,
                    },
                ),
            },
            final(self)@ == old(self)@.with_log(final(self)@.log),
            old(self).reliable() ==> final(self).reliable(),
    {
        let current: Term = stored(self.log_store.current_term())?;
        if term.0 < current.0 {
            return Err(NodeError::Protocol(ProtocolError::TermRegression { current, new: term }));
        }
        if term.0 > current.0 {
            stored(self.log_store.save_hard_state(term, None))?;
        }
        Ok(())
    }

    /// Adopts `term` and votes for `candidate_id` in it, in one durable step.
    pub fn advance_term_and_vote(&mut self, term: Term, candidate_id: NodeId) -> (r: Result<
        (),
        NodeError,
    >)
        ensures
            match r {
                Ok(()) => old(self)@.log.current_term.0 <= term.0 && final(self)@
                    == old(self)@.with_log(
                    old(self)@.log.with_hard_state(term, Some(candidate_id)),
                ),
                Err(NodeError::Storage(_)) => !old(self).reliable(),
                Err(e) => term.0 < old(self)@.log.current_term.0 && final(self)@ == old(self)@ && e
                    == NodeError::Protocol(
                    ProtocolError::TermRegression {
                        current: old(self)@.log.current_term,
                        new: term,
                    },
                ),
            },
            final(self)@ == old(self)@.with_log(final(self)@.log),
            old(self).reliable() ==> final(self).reliable(),
    {
        let current: Term = stored(self.log_store.current_term())?;
        if term.0 < current.0 {
            return Err(NodeError::Protocol(ProtocolError::TermRegression { current, new: term }));
        }
        stored(self.log_store.save_hard_state(term, Some(candidate_id)))
    }

    /// Votes for `candidate_id` in the current term.
    pub fn persist_vote(&mut self, candidate_id: NodeId) -> (r: Result<(), NodeError>)
        ensures
            match r {
                Ok(()) => final(self)@ == old(self)@.with_log(
                    old(self)@.log.with_hard_state(
                        old(self)@.log.current_term,
                        Some(candidate_id),
                    ),
                ),
                Err(e) => e is Storage && !old(self).reliable(),
            },
            final(self)@ == old(self)@.with_log(final(self)@.log),
            old(self).reliable() ==> final(self).reliable(),
    {
        let term: Term = stored(self.log_store.current_term())?;
        stored(self.log_store.save_hard_state(term, Some(candidate_id)))
    }

    // --- Role changes ---

    /// The same node in another role.
    pub fn transition<Next: NodeState>(self, next_state: Next) -> (r: RaftNode<Next, L>)
        ensures
            r@ == self@.in_role(next_state.role()),
            r.reliable() == self.reliable(),
    {
        RaftNode {
            identity: self.identity,
            log_store: self.log_store,
            last_committed: self.last_committed,
            last_applied: self.last_applied,
            state: next_state,
        }
    }

    /// Follows `leader_id` in `term`, whatever the role was. A lower term is
    /// refused.
    pub fn try_into_follower(
        self,
        term: Term,
        leader_id: Option<NodeId>,
        last_heartbeat: Tick,
        timeout: TickDuration,
    ) -> (r: Result<RaftNode<Follower, L>, NodeError>)
        ensures
            match r {
                Ok(n) => self@.log.current_term.0 <= term.0 && n@ == self@.with_term(term).in_role(
                    RoleView::Follower { leader_id, last_heartbeat, timeout },
                ) && (self.reliable() ==> n.reliable()),
                Err(NodeError::Storage(_)) => !self.reliable(),
                Err(e) => term.0 < self@.log.current_term.0 && e == NodeError::Protocol(
                    ProtocolError::TermRegression { current: self@.log.current_term, new: term },
                ),
            },
    {
        let mut node = self.transition(Follower::new(leader_id, last_heartbeat, timeout));
        node.advance_term(term)?;
        Ok(node)
    }

    /// Starts an election: the next term, with the node's own vote.
    pub(crate) fn campaign(self, election_start: Tick, timeout: TickDuration) -> (r: Result<
        RaftNode<Candidate, L>,
        NodeError,
    >)
        ensures
            self.campaign_ensures(election_start, timeout, r),
    {
        let current: Term = self.current_term()?;
        let mut node = self.transition(Candidate::new(election_start, timeout));
        let new_term: Term = match current.checked_add(1) {
            Ok(t) => t,
            Err(e) => return Err(NodeError::Arithmetic(e)),
        };
        let node_id: NodeId = node.node_id();
        node.advance_term_and_vote(new_term, node_id)?;
        node.state_mut().add_vote(node_id);
        Ok(node)
    }

    /// What starting an election at `election_start` gives.
    pub open spec fn campaign_ensures(
        &self,
        election_start: Tick,
        timeout: TickDuration,
        r: Result<RaftNode<Candidate, L>, NodeError>,
    ) -> bool {
        match r {
            Ok(n) => self@.log.current_term.0 < u64::MAX && n@ == self@.campaigning(
                election_start,
                timeout,
            ) && (self.reliable() ==> n.reliable()),
            Err(NodeError::Storage(_)) => !self.reliable(),
            Err(e) => self@.log.current_term.0 == u64::MAX && e == NodeError::Arithmetic(
                ArithmeticError::Overflow,
            ),
        }
    }
}

} // verus!
