//! Winning an election, and finding out beforehand whether one can be won.
use vstd::prelude::*;

use super::types::PreVoteAction;
use super::types::RpcResult;
use super::types::VoteAction;
use super::types::VoteReply;
use crate::engine::LogicalNode;
use crate::errors::NodeError;
use crate::quorum::quorum_with_peers;
use crate::storage::LogStorage;
use crate::types::NodeId;
use crate::types::Term;

verus! {

use crate::engine::LogicalView;
use crate::errors::ProtocolError;
use crate::node::NodeView;
use crate::node::RoleView;
use crate::node::leader::id_set;
use crate::quorum::quorum;
use crate::types::ArithmeticError;

impl NodeView {
    /// The candidate with one more vote.
    pub open spec fn with_vote(self, voter: u64) -> NodeView {
        self.in_role(
            RoleView::Candidate {
                votes: self.role->votes.insert(voter),
                election_start: self.role->election_start,
                timeout: self.role->Candidate_timeout,
            },
        )
    }
}

impl LogicalView {
    /// Whether the node still campaigns for `term`.
    pub open spec fn campaigns_for(self, term: Term) -> bool {
        &&& self.node is Some
        &&& self.node->0.role is Candidate
        &&& self.term() == term
    }

    /// Whether the node campaigns for `term` and a majority of itself and
    /// `peers` others has voted for it.
    pub open spec fn elected(self, term: Term, peers: nat) -> bool {
        &&& self.campaigns_for(term)
        &&& self.node->0.role->votes.len() >= quorum(peers + 1)
    }
}

impl LogicalView {
    /// Whether `action` is where the election for `term` stands, and `after`
    /// is the node then: a majority of votes makes a candidate leader.
    pub open spec fn settles(
        self,
        after: LogicalView,
        term: Term,
        peer_ids: Seq<NodeId>,
        action: VoteAction,
    ) -> bool {
        match action {
            VoteAction::QuorumReached => {
                &&& self.elected(term, peer_ids.len())
                &&& peer_ids.len() == 0 || self.node->0.log.last_index() < u64::MAX
                &&& after == self.with_node(
                    self.node->0.leading(id_set(peer_ids), self.tick),
                )
            },
            VoteAction::Continue => !self.elected(term, peer_ids.len()) && after == self,
            VoteAction::Demoted => false,
        }
    }

    /// Whether `action` is where the election for `term` stands after `peer`
    /// has answered with `reply`, and `after` is the node then. A higher term
    /// ends the campaign; a granted vote counts if the node still campaigns for
    /// `term`.
    pub open spec fn counts_reply(
        self,
        after: LogicalView,
        term: Term,
        peer_ids: Seq<NodeId>,
        peer: NodeId,
        reply: VoteReply,
        action: VoteAction,
    ) -> bool {
        if reply.term.0 > term.0 {
            &&& action == VoteAction::Demoted
            &&& reply.term.0 >= self.term().0
            &&& self.follows(after, reply.term, None)
        } else if reply.vote_granted && self.campaigns_for(term) {
            self.with_node(self.node->0.with_vote(peer@)).settles(after, term, peer_ids, action)
        } else {
            action == VoteAction::Continue && after == self
        }
    }
}

impl LogicalView {
    /// Whether `action` is where a pre-vote campaign stands with the promises
    /// of `tally`, and `after` is the node then: enough promises start the real
    /// election.
    pub open spec fn concludes_pre_vote(
        self,
        after: LogicalView,
        tally: TallyView,
        action: PreVoteAction,
    ) -> bool {
        match action {
            PreVoteAction::Continue => !tally.complete() && after == self,
            PreVoteAction::PreVoteQuorumReached => tally.complete() && self.runs_for_leader(after),
        }
    }
}

/// What concluding an election gives.
pub open spec fn concludes<L: LogStorage>(
    before: LogicalNode<L>,
    counted: LogicalView,
    after: LogicalNode<L>,
    term: Term,
    peer_ids: Seq<NodeId>,
    r: Result<VoteAction, NodeError>,
) -> bool {
    match r {
        Ok(action) => counted.settles(after@, term, peer_ids, action),
        Err(NodeError::Storage(_)) => !before.reliable() && after@ == before@.halted(),
        Err(e) => {
            &&& e == NodeError::Arithmetic(ArithmeticError::Overflow)
            &&& counted.elected(term, peer_ids.len())
            &&& peer_ids.len() > 0
            &&& counted.node->0.log.last_index() == u64::MAX
            &&& after@ == before@.halted()
        },
    }
}

/// Takes the lead if the node campaigns for `term` and has its majority. A
/// cluster of one node needs no other vote, so this also opens a campaign.
pub fn conclude_election<L: LogStorage>(
    node: &mut LogicalNode<L>,
    term: Term,
    peer_ids: &Vec<NodeId>,
) -> (r: Result<VoteAction, NodeError>)
    requires
        old(node).wf(),
        !old(node).poisoned(),
    ensures
        concludes(*old(node), old(node)@, *final(node), term, peer_ids@, r),
        old(node)@.upholds(final(node)@),
        final(node).wf(),
        old(node).reliable() ==> final(node).reliable(),
{
    let current_term: Term = node.current_term()?;
    let votes: usize = match node.as_candidate() {
        Some(n) => n.state().vote_count(),
        None => return Ok(VoteAction::Continue),
    };
    if current_term.0 == term.0 && votes >= quorum_with_peers(peer_ids.len()) {
        let peers: Vec<NodeId> = peer_ids.clone();
        assert(peers@ =~= peer_ids@);
        node.into_leader(peers)?;
        return Ok(VoteAction::QuorumReached);
    }
    Ok(VoteAction::Continue)
}

/// Takes in one answer to RequestVote. A higher term ends the campaign; a
/// granted vote counts if the node still campaigns for `term`, and the vote
/// that completes the majority makes it leader.
pub fn process_vote_response<L: LogStorage>(
    node: &mut LogicalNode<L>,
    term: Term,
    peer_ids: &Vec<NodeId>,
    peer_id: NodeId,
    res: RpcResult<VoteReply>,
) -> (r: Result<VoteAction, NodeError>)
    requires
        old(node).wf(),
        !old(node).poisoned(),
    ensures
        match res {
            Err(_) => r == Ok::<VoteAction, NodeError>(VoteAction::Continue) && *final(node)
                == *old(node),
            Ok(reply) => if reply.term.0 > term.0 {
                match r {
                    Ok(action) => old(node)@.counts_reply(
                        final(node)@,
                        term,
                        peer_ids@,
                        peer_id,
                        reply,
                        action,
                    ),
                    Err(NodeError::Storage(_)) => !old(node).reliable() && final(node)@
                        == old(node)@.halted(),
                    Err(e) => {
                        &&& reply.term.0 < old(node)@.term().0
                        &&& e == NodeError::Protocol(
                            ProtocolError::TermRegression {
                                current: old(node)@.term(),
                                new: reply.term,
                            },
                        )
                        &&& final(node)@ == old(node)@.halted()
                    },
                }
            } else if reply.vote_granted && old(node)@.campaigns_for(term) {
                concludes(
                    *old(node),
                    old(node)@.with_node(old(node)@.node->0.with_vote(peer_id@)),
                    *final(node),
                    term,
                    peer_ids@,
                    r,
                )
            } else {
                match r {
                    Ok(action) => old(node)@.counts_reply(
                        final(node)@,
                        term,
                        peer_ids@,
                        peer_id,
                        reply,
                        action,
                    ),
                    Err(e) => reply.vote_granted && LogicalNode::storage_halt(
                        *old(node),
                        *final(node),
                        e,
                    ),
                }
            },
        },
        res is Ok && r is Ok ==> old(node)@.counts_reply(
            final(node)@,
            term,
            peer_ids@,
            peer_id,
            res->Ok_0,
            r->Ok_0,
        ),
        old(node)@.upholds(final(node)@),
        final(node).wf(),
        old(node).reliable() ==> final(node).reliable(),
{
    let reply: VoteReply = match res {
        Ok(v) => v,
        Err(_) => return Ok(VoteAction::Continue),
    };
    if reply.term.0 > term.0 {
        node.into_follower(reply.term, None)?;
        return Ok(VoteAction::Demoted);
    }
    if !reply.vote_granted {
        return Ok(VoteAction::Continue);
    }
    let current_term: Term = node.current_term()?;
    if current_term.0 != term.0 {
        return Ok(VoteAction::Continue);
    }
    match node.as_candidate_mut() {
        Some(n) => {
            n.state_mut().add_vote(peer_id);
        },
        None => return Ok(VoteAction::Continue),
    }
    conclude_election(node, term, peer_ids)
}

/// The promises that a pre-vote campaign has collected.
#[derive(Clone, Copy, Debug, PartialEq, Eq, Structural)]
pub struct PreVoteTally {
    granted: usize,
    needed: usize,
}

/// The contents of a [`PreVoteTally`].
pub struct TallyView {
    /// The promises so far.
    pub granted: nat,
    /// The promises that are needed.
    pub needed: nat,
}

impl TallyView {
    /// A campaign among a node and `peers` others before anyone has answered.
    pub open spec fn opened(peers: nat) -> TallyView {
        TallyView {
            granted: if peers == 0 {
                1
            } else {
                0
            },
            needed: quorum(peers + 1),
        }
    }

    /// The campaign after one more answer.
    pub open spec fn recorded(self, res: RpcResult<VoteReply>) -> TallyView {
        TallyView {
            granted: if promises(res) {
                self.granted + 1
            } else {
                self.granted
            },
            ..self
        }
    }

    /// Whether the promises are enough.
    pub open spec fn complete(self) -> bool {
        self.granted >= self.needed
    }
}

impl View for PreVoteTally {
    type V = TallyView;

    closed spec fn view(&self) -> TallyView {
        TallyView { granted: self.granted as nat, needed: self.needed as nat }
    }
}

impl PreVoteTally {
    /// The promises so far.
    pub open spec fn granted(&self) -> nat {
        self@.granted
    }

    /// The promises that make a majority.
    pub open spec fn needed(&self) -> nat {
        self@.needed
    }

    /// Whether the promises make a majority.
    pub open spec fn complete(&self) -> bool {
        self@.complete()
    }

    /// A campaign among this node and `peers` others. A majority of them all
    /// has to promise its vote, and the node does not count itself; a node
    /// without peers has nobody to ask and needs no promise.
    pub fn new(peers: usize) -> (r: PreVoteTally)
        ensures
            r@ == TallyView::opened(peers as nat),
            r.granted() == (if peers == 0 {
                1nat
            } else {
                0nat
            }),
            r.needed() == quorum((peers + 1) as nat),
            2 * r.needed() > peers + 1,
            2 * (r.needed() - 1) <= peers + 1,
            r.complete() <==> peers == 0,
    {
        let granted: usize = if peers == 0 {
            1
        } else {
            0
        };
        PreVoteTally { granted, needed: quorum_with_peers(peers) }
    }

    /// Where the campaign stands.
    pub fn status(&self) -> (r: PreVoteAction)
        ensures
            r == (if self.complete() {
                PreVoteAction::PreVoteQuorumReached
            } else {
                PreVoteAction::Continue
            }),
    {
        if self.granted >= self.needed {
            PreVoteAction::PreVoteQuorumReached
        } else {
            PreVoteAction::Continue
        }
    }

    /// Takes in one answer to PreVote. Unlike a vote it cannot end the
    /// campaign: the term of the answer does not matter.
    pub fn record(&mut self, res: RpcResult<VoteReply>) -> (r: PreVoteAction)
        requires
            !old(self).complete(),
        ensures
            final(self)@ == old(self)@.recorded(res),
            final(self).needed() == old(self).needed(),
            final(self).granted() == old(self).granted() + (if promises(res) {
                1nat
            } else {
                0nat
            }),
            r == (if final(self).complete() {
                PreVoteAction::PreVoteQuorumReached
            } else {
                PreVoteAction::Continue
            }),
    {
        if process_pre_vote_response(res) {
            self.granted = self.granted + 1;
        }
        self.status()
    }
}

/// Whether an answer to PreVote is a promise.
pub open spec fn promises(res: RpcResult<VoteReply>) -> bool {
    res matches Ok(reply) && reply.vote_granted
}

/// Whether an answer to PreVote is a promise; a failed call is none.
pub fn process_pre_vote_response(res: RpcResult<VoteReply>) -> (r: bool)
    ensures
        r == promises(res),
{
    match res {
        Ok(reply) => reply.vote_granted,
        Err(_) => false,
    }
}

/// Starts the real election once the promises make a majority; a node that
/// leads by now is left alone.
pub fn conclude_pre_vote<L: LogStorage>(node: &mut LogicalNode<L>, tally: &PreVoteTally) -> (r:
    Result<PreVoteAction, NodeError>)
    requires
        old(node).wf(),
    ensures
        match r {
            Ok(action) => {
                &&& old(node)@.concludes_pre_vote(final(node)@, tally@, action)
                &&& action == PreVoteAction::Continue ==> *final(node) == *old(node)
            },
            Err(NodeError::Storage(_)) => {
                &&& tally.complete()
                &&& old(node)@.node matches Some(n) && !(n.role is Leader)
                &&& !old(node).reliable()
                &&& final(node)@ == old(node)@.halted()
            },
            Err(e) => {
                &&& tally.complete()
                &&& e == NodeError::Arithmetic(ArithmeticError::Overflow)
                &&& old(node)@.node matches Some(n) && !(n.role is Leader)
                    && n.log.current_term.0 == u64::MAX
                &&& final(node)@ == old(node)@.halted()
            },
        },
        old(node)@.upholds(final(node)@),
        final(node).wf(),
        old(node).reliable() ==> final(node).reliable(),
{
    match tally.status() {
        PreVoteAction::Continue => Ok(PreVoteAction::Continue),
        PreVoteAction::PreVoteQuorumReached => {
            node.into_candidate()?;
            Ok(PreVoteAction::PreVoteQuorumReached)
        },
    }
}

} // verus!
