//! Asking whether an election would succeed.
//!
//! A pre-candidate solicits votes without moving its term, so that a node that
//! cannot win does not disturb the others. If the campaign runs out of time the
//! node goes back to following, in the term it was in.
use vstd::prelude::*;

use super::Candidate;
use super::Follower;
use super::NodeState;
use super::RaftNode;
use super::TickAction;
use crate::errors::NodeError;
use crate::storage::LogStorage;
use crate::tick::Tick;
use crate::tick::TickDuration;

verus! {

use super::RoleView;

/// Collects promises of votes.
#[derive(Debug)]
pub struct PreCandidate {
    campaign_start: Tick,
    timeout: TickDuration,
}

impl NodeState for PreCandidate {
    closed spec fn role(&self) -> RoleView {
        RoleView::PreCandidate { campaign_start: self.campaign_start, timeout: self.timeout }
    }
}

impl PreCandidate {
    pub fn new(campaign_start: Tick, timeout: TickDuration) -> (r: PreCandidate)
        ensures
            r.role() == (RoleView::PreCandidate { campaign_start, timeout }),
    {
        PreCandidate { campaign_start, timeout }
    }

    pub fn campaign_start(&self) -> (r: Tick)
        ensures
            r == self.role()->campaign_start,
    {
        self.campaign_start
    }

    pub fn timeout(&self) -> (r: TickDuration)
        ensures
            r == self.role()->PreCandidate_timeout,
    {
        self.timeout
    }

    pub fn evaluate_tick(&self, now: Tick) -> (r: TickAction)
        ensures
            r == (if now.reached(self.role()->campaign_start, self.role()->PreCandidate_timeout) {
                TickAction::StepDown
            } else {
                TickAction::Idle
            }),
    {
        if now.has_reached(self.campaign_start, self.timeout) {
            TickAction::StepDown
        } else {
            TickAction::Idle
        }
    }
}

impl<L: LogStorage> RaftNode<PreCandidate, L> {
    pub fn campaign_start(&self) -> (r: Tick)
        ensures
            r == self@.role->campaign_start,
    {
        self.state.campaign_start
    }

    pub fn timeout(&self) -> (r: TickDuration)
        ensures
            r == self@.role->PreCandidate_timeout,
    {
        self.state.timeout
    }

    /// Starts the election that the peers have promised to support.
    pub fn try_into_candidate(self, election_start: Tick, timeout: TickDuration) -> (r: Result<
        RaftNode<Candidate, L>,
        NodeError,
    >)
        ensures
            self.campaign_ensures(election_start, timeout, r),
    {
        self.campaign(election_start, timeout)
    }
}

impl<L: LogStorage> RaftNode<Follower, L> {
    /// Starts a pre-vote campaign; neither term nor vote change.
    pub fn try_into_pre_candidate(self, campaign_start: Tick, timeout: TickDuration) -> (r: Result<
        RaftNode<PreCandidate, L>,
        NodeError,
    >)
        ensures
            match r {
                Ok(n) => n@ == self@.in_role(RoleView::PreCandidate { campaign_start, timeout })
                    && n.reliable() == self.reliable(),
                Err(_) => false,
            },
    {
        Ok(self.transition(PreCandidate::new(campaign_start, timeout)))
    }
}

} // verus!
