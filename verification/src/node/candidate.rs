//! Campaigning for leadership.
use std::collections::HashSet;

use vstd::prelude::*;

use super::Leader;
use super::NodeState;
use super::RaftNode;
use super::TickAction;
use crate::errors::NodeError;
use crate::storage::LogStorage;
use crate::tick::Tick;
use crate::tick::TickDuration;
use crate::types::LogIndex;
use crate::types::NodeId;

verus! {

use super::RoleView;
use super::leader::fresh_leader;
use super::leader::id_set;
use crate::types::ArithmeticError;

broadcast use vstd::std_specs::hash::group_hash_axioms;

/// Collects votes for the current term.
#[derive(Debug)]
pub struct Candidate {
    votes_received: HashSet<u64>,
    election_start: Tick,
    timeout: TickDuration,
}

impl NodeState for Candidate {
    closed spec fn role(&self) -> RoleView {
        RoleView::Candidate {
            votes: self.votes_received@,
            election_start: self.election_start,
            timeout: self.timeout,
        }
    }
}

impl Candidate {
    /// The nodes that have voted for this candidate.
    pub open spec fn votes(&self) -> Set<u64> {
        self.role()->votes
    }

    pub fn new(election_start: Tick, timeout: TickDuration) -> (r: Candidate)
        ensures
            r.role() == (RoleView::Candidate { votes: Set::empty(), election_start, timeout }),
    {
        Candidate { votes_received: HashSet::new(), election_start, timeout }
    }

    pub fn election_start(&self) -> (r: Tick)
        ensures
            r == self.role()->election_start,
    {
        self.election_start
    }

    pub fn timeout(&self) -> (r: TickDuration)
        ensures
            r == self.role()->Candidate_timeout,
    {
        self.timeout
    }

    /// Counts the vote of `peer_id`; a second vote of the same node changes
    /// nothing.
    pub fn add_vote(&mut self, peer_id: NodeId)
        ensures
            final(self).role() == (RoleView::Candidate {
                votes: old(self).votes().insert(peer_id@),
                election_start: old(self).role()->election_start,
                timeout: old(self).role()->Candidate_timeout,
            }),
    {
        self.votes_received.insert(peer_id.as_u64());
    }

    pub fn vote_count(&self) -> (r: usize)
        ensures
            r == self.votes().len(),
    {
        self.votes_received.len()
    }

    pub fn evaluate_tick(&self, now: Tick) -> (r: TickAction)
        ensures
            r == (if now.reached(self.role()->election_start, self.role()->Candidate_timeout) {
                TickAction::StartElection
            } else {
                TickAction::Idle
            }),
    {
        if now.has_reached(self.election_start, self.timeout) {
            TickAction::StartElection
        } else {
            TickAction::Idle
        }
    }
}

impl<L: LogStorage> RaftNode<Candidate, L> {
    /// Gives the lost election up and starts the next one.
    pub fn try_into_restarted_candidate(self, election_start: Tick, timeout: TickDuration) -> (r:
        Result<RaftNode<Candidate, L>, NodeError>)
        ensures
            self.campaign_ensures(election_start, timeout, r),
    {
        self.campaign(election_start, timeout)
    }

    /// Takes the lead over `peer_ids`.
    pub fn try_into_leader(self, peer_ids: Vec<NodeId>, last_heartbeat: Tick) -> (r: Result<
        RaftNode<Leader, L>,
        NodeError,
    >)
        ensures
            match r {
                Ok(n) => (peer_ids.len() == 0 || self@.log.last_index() < u64::MAX) && n@
                    == self@.in_role(
                    RoleView::Leader(
                        fresh_leader(
                            id_set(peer_ids@),
                            LogIndex(self@.log.last_index()),
                            last_heartbeat,
                        ),
                    ),
                ) && n.reliable() == self.reliable(),
                Err(NodeError::Storage(_)) => !self.reliable(),
                Err(e) => peer_ids.len() > 0 && self@.log.last_index() == u64::MAX && e
                    == NodeError::Arithmetic(ArithmeticError::Overflow),
            },
    {
        let last_log_index: LogIndex = self.last_log_index()?;
        let leader: Leader = Leader::new(peer_ids, last_log_index, last_heartbeat)?;
        Ok(self.transition(leader))
    }
}

} // verus!
