//! Elections: what a campaign asks with, who gets a vote, and who leads.
use std::time::Duration;

use vstd::prelude::*;

verus! {

use crate::config::RaftConfig;
use crate::consensus::election::TallyView;
use crate::consensus::election::promises;
use crate::consensus::lifecycle::TickPlan;
use crate::consensus::types::PreVoteAction;
use crate::consensus::types::PreVoteCampaignParams;
use crate::consensus::types::RpcResult;
use crate::consensus::types::VoteAction;
use crate::consensus::types::VoteReply;
use crate::engine::LogicalView;
use crate::engine::RequestVoteResult;
use crate::node::NodeView;
use crate::node::leader::id_set;
use crate::reconciliation::up_to_date;
use crate::storage::LogState;
use crate::storage::lemma_last_index;
use crate::storage::lemma_last_index_unique;
use crate::tick::TickThresholds;
use crate::types::LogIndex;
use crate::types::NodeId;
use crate::types::Term;
use crate::types::TraceId;

/// Whether the log, counting what its snapshot stands for, ends at `index` with
/// an entry of `term`.
pub open spec fn ends_with(log: LogState, index: u64, term: u64) -> bool {
    &&& forall|k: u64| #[trigger] log.entries.contains_key(k) ==> k <= index
    &&& log.included_index.0 <= index
    &&& if log.entries.contains_key(index) {
        log.entries[index].term == term
    } else {
        log.included_index.0 == index && log.included_term.0 == term
    }
}

/// Whether an end of `term` at `index` is no less recent than one of
/// `other_term` at `other_index`: the later term decides, then the length.
pub open spec fn no_less_recent(index: u64, term: u64, other_index: u64, other_term: u64) -> bool {
    term > other_term || (term == other_term && index >= other_index)
}

/// Every log has one end.
proof fn lemma_end(log: LogState)
    ensures
        ends_with(log, log.last_index(), log.last_term()),
        forall|i: u64, t: u64| #[trigger]
            ends_with(log, i, t) ==> i == log.last_index() && t == log.last_term(),
{
    lemma_last_index(log);
    assert forall|i: u64, t: u64| #[trigger] ends_with(log, i, t) implies i == log.last_index() && t
        == log.last_term() by {
        assert(log.ends_at(i));
        lemma_last_index_unique(log, i);
    }
}

/// Recency compares the ends of two logs as they are: a log is judged at least
/// as recent as another exactly if its last entry has a later term, or the same
/// term and no lower index.
pub proof fn law_recency_compares_the_ends(
    a: LogState,
    a_index: u64,
    a_term: u64,
    b: LogState,
    b_index: u64,
    b_term: u64,
)
    requires
        ends_with(a, a_index, a_term),
        ends_with(b, b_index, b_term),
    ensures
        up_to_date(b, Term(a_term), LogIndex(a_index)) <==> no_less_recent(
            a_index,
            a_term,
            b_index,
            b_term,
        ),
{
    lemma_end(a);
    lemma_end(b);
}

/// A log that has grown by an entry of no earlier term is strictly more recent
/// than it was.
pub proof fn law_growing_log_becomes_more_recent(
    before: LogState,
    index: u64,
    term: u64,
    after: LogState,
    new_index: u64,
    new_term: u64,
)
    requires
        ends_with(before, index, term),
        ends_with(after, new_index, new_term),
        new_index > index,
        new_term >= term,
    ensures
        up_to_date(before, Term(new_term), LogIndex(new_index)),
        !up_to_date(after, Term(term), LogIndex(index)),
{
    lemma_end(before);
    lemma_end(after);
}

/// An election is won only by a log that is no less recent than any entry that
/// more than half of the cluster holds: if the voters, more than half as well,
/// have found the winner's log at least as recent as their own, its last entry
/// has a later term than that entry, or the same term and no lower index. Terms
/// do not fall along a log, so no holder's log ends in an earlier term.
pub proof fn law_winner_is_no_less_recent_than_what_most_hold(
    cluster: Set<u64>,
    logs: Map<u64, LogState>,
    holders: Set<u64>,
    voters: Set<u64>,
    index: u64,
    term: u64,
    winner: LogState,
    last_index: u64,
    last_term: u64,
)
    requires
        cluster.finite(),
        holders.subset_of(cluster),
        voters.subset_of(cluster),
        2 * holders.len() > cluster.len(),
        2 * voters.len() > cluster.len(),
        ends_with(winner, last_index, last_term),
        forall|n: u64| #[trigger]
            holders.contains(n) ==> logs[n].entries.contains_key(index)
                && logs[n].entries[index].term == term,
        forall|n: u64, i: u64, t: u64|
            holders.contains(n) && #[trigger] ends_with(logs[n], i, t) ==> t >= term,
        forall|n: u64| #[trigger]
            voters.contains(n) ==> up_to_date(logs[n], Term(last_term), LogIndex(last_index)),
    ensures
        no_less_recent(last_index, last_term, index, term),
{
    crate::quorum::law_majorities_intersect(cluster, holders, voters);
    let n = choose|n: u64| holders.contains(n) && voters.contains(n);
    lemma_end(logs[n]);
    assert(logs[n].entries.contains_key(index));
    assert(up_to_date(logs[n], Term(last_term), LogIndex(last_index)));
    assert(ends_with(logs[n], logs[n].last_index(), logs[n].last_term()));
}

/// An election campaign is opened in the next term, with the node's own vote
/// and nobody else's, and asks with the end of the candidate's own log as it is
/// stored: whoever finds the values that are handed over recent enough finds
/// the candidate's log recent enough.
pub proof fn law_campaign_asks_with_the_own_log(
    before: LogicalView,
    after: LogicalView,
    config: RaftConfig,
    trace_id: TraceId,
    plan: TickPlan,
)
    requires
        before.node is Some,
        before.node->0.log.current_term.0 < u64::MAX,
        before.beats(after, config, trace_id, plan),
        plan.handoff is Campaign,
    ensures
        ({
            let asked = plan.handoff->Campaign_0;
            let own = before.node->0;
            &&& ends_with(own.log, asked.last_log_index.0, asked.last_log_term.0)
            &&& asked.term.0 == own.log.current_term.0 + 1
            &&& asked.node_id == own.identity.node
            &&& asked.trace_id == trace_id
            &&& after.node is Some
            &&& after.node->0.log.current_term == asked.term
            &&& after.node->0.log.voted_for == Some(own.identity.node)
            &&& after.node->0.log.entries == own.log.entries
            &&& after.node->0.log.included_index == own.log.included_index
            &&& after.node->0.role is Candidate
            &&& after.node->0.role->votes == set![own.identity.node@]
            &&& after.node->0.role->election_start == after.tick
            &&& before.thresholds.min_election.0 <= after.node->0.role->Candidate_timeout.0
                <= before.thresholds.max_election.0
            &&& !(own.role is Leader)
            &&& forall|voter: LogState, index: u64, term: u64| #[trigger]
                ends_with(voter, index, term) && #[trigger] up_to_date(
                    voter,
                    asked.last_log_term,
                    asked.last_log_index,
                ) ==> (forall|i: u64, t: u64| #[trigger]
                    ends_with(own.log, i, t) ==> no_less_recent(i, t, index, term))
        }),
{
    let asked = plan.handoff->Campaign_0;
    let own = before.node->0.log;
    let stored = after.node->0.log;
    lemma_end(own);
    lemma_end(stored);
    assert(stored.last_index() == own.last_index());
    assert forall|voter: LogState, index: u64, term: u64| #[trigger]
        ends_with(voter, index, term) && #[trigger] up_to_date(
            voter,
            asked.last_log_term,
            asked.last_log_index,
        ) implies (forall|i: u64, t: u64| #[trigger]
        ends_with(own, i, t) ==> no_less_recent(i, t, index, term)) by {
        lemma_end(voter);
    }
}

/// A pre-vote campaign asks with the end of the own log as it is stored, and
/// with the term that the node is in; a follower that opens it becomes a
/// pre-candidate from now on.
pub proof fn law_pre_vote_asks_with_the_own_log(
    before: LogicalView,
    after: LogicalView,
    rpc_timeout: Duration,
    trace_id: TraceId,
    asked: PreVoteCampaignParams,
)
    requires
        before.node is Some,
        before.opens_pre_vote(after, rpc_timeout, trace_id, asked),
    ensures
        ends_with(before.node->0.log, asked.last_log_index.0, asked.last_log_term.0),
        asked.term == before.node->0.log.current_term,
        asked.node_id == before.node->0.identity.node,
        asked.rpc_timeout == rpc_timeout,
        asked.trace_id == trace_id,
        after.node is Some,
        after.node->0.log == before.node->0.log,
        before.node->0.role is Follower ==> after.node->0.role is PreCandidate
            && after.node->0.role->campaign_start == before.tick,
        !(before.node->0.role is Follower) ==> after == before,
{
    lemma_end(before.node->0.log);
}

/// Promises start an election only if they are enough, and then they do: the
/// node runs in the next term, unless it leads.
pub proof fn law_enough_promises_start_the_election(
    before: LogicalView,
    after: LogicalView,
    tally: TallyView,
    action: PreVoteAction,
)
    requires
        before.node is Some,
        before.concludes_pre_vote(after, tally, action),
    ensures
        action == PreVoteAction::PreVoteQuorumReached <==> tally.granted >= tally.needed,
        tally.granted < tally.needed ==> after == before,
        tally.granted >= tally.needed && !(before.node->0.role is Leader) ==> after.node is Some
            && after.node->0.role is Candidate && after.node->0.log.current_term.0
            == before.node->0.log.current_term.0 + 1,
{
}

/// A vote is given in the term that was asked for, by a node that has not voted
/// for another candidate in it, to a candidate whose log is no less recent than
/// its own; and it is on durable storage.
pub proof fn law_granted_vote_is_stored(
    before: LogicalView,
    after: LogicalView,
    candidate: NodeId,
    term: Term,
    last_index: LogIndex,
    last_term: Term,
    result: RequestVoteResult,
)
    requires
        before.node is Some,
        before.answers_vote(after, candidate, term, last_index, last_term, result),
        result.vote_granted,
    ensures
        result.term == term,
        after.node is Some,
        after.node->0.log.current_term == term,
        after.node->0.log.voted_for == Some(candidate),
        after.node->0.log.entries == before.node->0.log.entries,
        after.node->0.role is Follower,
        term.0 >= before.node->0.log.current_term.0,
        term == before.node->0.log.current_term ==> before.node->0.log.voted_for is None
            || before.node->0.log.voted_for == Some(candidate),
        forall|i: u64, t: u64| #[trigger]
            ends_with(before.node->0.log, i, t) ==> no_less_recent(
                last_index.0,
                last_term.0,
                i,
                t,
            ),
{
    lemma_end(before.node->0.log);
    let base = before.node->0.with_term(term).log;
    assert(base.last_index() == before.node->0.log.last_index());
}

/// A vote is owed to a candidate of a term that has not passed, whose log is no
/// less recent, by a node that has no vote of its own to keep in that term: a
/// follower that has not voted for another, or anyone whom the term is new to.
pub proof fn law_vote_is_owed(
    before: LogicalView,
    after: LogicalView,
    candidate: NodeId,
    term: Term,
    last_index: LogIndex,
    last_term: Term,
    result: RequestVoteResult,
    own_index: u64,
    own_term: u64,
)
    requires
        before.node is Some,
        before.answers_vote(after, candidate, term, last_index, last_term, result),
        ends_with(before.node->0.log, own_index, own_term),
        no_less_recent(last_index.0, last_term.0, own_index, own_term),
        term.0 > before.node->0.log.current_term.0 || (term == before.node->0.log.current_term
            && before.node->0.role is Follower && (before.node->0.log.voted_for is None
            || before.node->0.log.voted_for == Some(candidate))),
    ensures
        result.vote_granted,
{
    lemma_end(before.node->0.log);
    let base = before.node->0.with_term(term).log;
    assert(base.last_index() == before.node->0.log.last_index());
}

/// A request for a vote, granted or not, brings the node to the higher of the
/// two terms; a new term voids the vote and ends every role but following; a
/// refusal changes nothing else, and no request touches the log.
pub proof fn law_vote_request_spreads_the_term(
    before: LogicalView,
    after: LogicalView,
    candidate: NodeId,
    term: Term,
    last_index: LogIndex,
    last_term: Term,
    result: RequestVoteResult,
)
    requires
        before.node is Some,
        before.answers_vote(after, candidate, term, last_index, last_term, result),
    ensures
        after.node is Some,
        result.term == after.node->0.log.current_term,
        after.node->0.log.current_term.0 == if term.0 > before.node->0.log.current_term.0 {
            term.0
        } else {
            before.node->0.log.current_term.0
        },
        after.node->0.log.entries == before.node->0.log.entries,
        after.node->0.last_committed == before.node->0.last_committed,
        after.node->0.last_applied == before.node->0.last_applied,
        after.node->0.identity == before.node->0.identity,
        term.0 > before.node->0.log.current_term.0 ==> {
            &&& after.node->0.role is Follower
            &&& after.node->0.role->leader_id is None
            &&& after.node->0.role->last_heartbeat == before.tick
            &&& before.thresholds.min_election.0 <= after.node->0.role->Follower_timeout.0
                <= before.thresholds.max_election.0
            &&& !result.vote_granted ==> after.node->0.log.voted_for is None
        },
        term.0 <= before.node->0.log.current_term.0 ==> after.node->0.role == before.node->0.role,
        term.0 <= before.node->0.log.current_term.0 && !result.vote_granted ==> after == before,
        term.0 < before.node->0.log.current_term.0 ==> !result.vote_granted,
{
}

/// The answer to a pre-vote foretells the vote: a follower that would support a
/// candidate votes for it as soon as it asks in a new term, and one that would
/// not does not.
pub proof fn law_pre_vote_foretells_the_vote(
    node: LogicalView,
    after: LogicalView,
    candidate: NodeId,
    asked_in: Term,
    campaign: Term,
    last_index: LogIndex,
    last_term: Term,
    promise: RequestVoteResult,
    vote: RequestVoteResult,
)
    requires
        node.node is Some,
        node.node->0.role is Follower,
        asked_in.0 >= node.node->0.log.current_term.0,
        campaign.0 > asked_in.0,
        node.answers_pre_vote(asked_in, last_index, last_term, promise),
        node.answers_vote(after, candidate, campaign, last_index, last_term, vote),
    ensures
        promise.vote_granted == vote.vote_granted,
        promise.term == node.node->0.log.current_term,
{
    lemma_end(node.node->0.log);
    let base = node.node->0.with_term(campaign).log;
    assert(base.last_index() == node.node->0.log.last_index());
}

/// No promise is made to a candidate of a term that has passed, nor by a node
/// that does not follow.
pub proof fn law_no_promise_to_the_past(
    node: LogicalView,
    asked_in: Term,
    last_index: LogIndex,
    last_term: Term,
    promise: RequestVoteResult,
)
    requires
        node.node is Some,
        node.answers_pre_vote(asked_in, last_index, last_term, promise),
        asked_in.0 < node.node->0.log.current_term.0 || !(node.node->0.role is Follower),
    ensures
        !promise.vote_granted,
        promise.term == node.node->0.log.current_term,
{
}

/// What a granted vote does to a campaign: it adds the voter and nobody else,
/// and makes the candidate leader exactly if the voters are then more than half
/// of the cluster.
pub proof fn law_vote_counts_once(
    before: LogicalView,
    after: LogicalView,
    term: Term,
    peer_ids: Seq<NodeId>,
    peer: NodeId,
    reply: VoteReply,
    action: VoteAction,
)
    requires
        before.node is Some,
        before.node->0.role is Candidate,
        before.node->0.log.current_term == term,
        reply.term.0 <= term.0,
        reply.vote_granted,
        before.counts_reply(after, term, peer_ids, peer, reply, action),
    ensures
        after.node is Some,
        after.node->0.log == before.node->0.log,
        after.node->0.identity == before.node->0.identity,
        ({
            let voters = before.node->0.role->votes.insert(peer@);
            let cluster = peer_ids.len() + 1;
            if 2 * voters.len() > cluster {
                &&& action == VoteAction::QuorumReached
                &&& after.node->0.role is Leader
            } else {
                &&& action == VoteAction::Continue
                &&& after.node->0.role is Candidate
                &&& after.node->0.role->votes == voters
                &&& after.node->0.role->election_start == before.node->0.role->election_start
                &&& after.node->0.role->Candidate_timeout == before.node->0.role->Candidate_timeout
            }
        }),
{
}

/// Nothing but a granted vote in the term of the campaign counts: a refusal, a
/// late answer, and an answer to a node that no longer campaigns change
/// nothing.
pub proof fn law_only_votes_of_the_campaign_count(
    before: LogicalView,
    after: LogicalView,
    term: Term,
    peer_ids: Seq<NodeId>,
    peer: NodeId,
    reply: VoteReply,
    action: VoteAction,
)
    requires
        before.node is Some,
        reply.term.0 <= term.0,
        !reply.vote_granted || !(before.node->0.role is Candidate)
            || before.node->0.log.current_term != term,
        before.counts_reply(after, term, peer_ids, peer, reply, action),
    ensures
        after == before,
        action == VoteAction::Continue,
{
}

/// An answer from a higher term ends the campaign: the node follows in that
/// term and has not voted in it.
pub proof fn law_higher_term_ends_the_campaign(
    before: LogicalView,
    after: LogicalView,
    term: Term,
    peer_ids: Seq<NodeId>,
    peer: NodeId,
    reply: VoteReply,
    action: VoteAction,
)
    requires
        before.node is Some,
        reply.term.0 > term.0,
        before.counts_reply(after, term, peer_ids, peer, reply, action),
    ensures
        action == VoteAction::Demoted,
        after.node is Some,
        after.node->0.role is Follower,
        after.node->0.role->leader_id is None,
        after.node->0.role->last_heartbeat == before.tick,
        after.node->0.log.current_term == reply.term,
        reply.term.0 > before.node->0.log.current_term.0 ==> after.node->0.log.voted_for is None,
        after.node->0.log.entries == before.node->0.log.entries,
        after.node->0.last_committed == before.node->0.last_committed,
{
}

/// A new leader knows nothing of its peers yet: it will send each of them what
/// follows its own log, counts nothing as replicated, and has no heartbeat
/// round behind it.
pub proof fn law_leader_starts_from_its_own_log(
    before: LogicalView,
    after: LogicalView,
    term: Term,
    peer_ids: Seq<NodeId>,
    end: u64,
    end_term: u64,
    p: u64,
)
    requires
        before.node is Some,
        ends_with(before.node->0.log, end, end_term),
        before.settles(after, term, peer_ids, VoteAction::QuorumReached),
        peer_ids.len() > 0,
    ensures
        after.node is Some,
        after.node->0.role is Leader,
        ({
            let l = after.node->0.role->Leader_0;
            let known = exists|i: int|
                0 <= i < peer_ids.len() && (#[trigger] peer_ids[i])@ == p;
            &&& l.next_index.contains_key(p) <==> known
            &&& l.match_index.contains_key(p) <==> known
            &&& known ==> l.next_index[p].0 == end + 1 && l.match_index[p].0 == 0
            &&& l.last_heartbeat == before.tick
            &&& l.confirmed_read_epoch == 0 && l.current_read_epoch == 0
            &&& l.acks == Set::<u64>::empty()
        }),
        before.node->0.role is Candidate,
        before.node->0.log.current_term == term,
        2 * before.node->0.role->votes.len() > peer_ids.len() + 1,
        after.node->0.log == before.node->0.log,
{
    lemma_end(before.node->0.log);
    let ids = peer_ids.map_values(|id: NodeId| id@);
    if exists|i: int| 0 <= i < peer_ids.len() && (#[trigger] peer_ids[i])@ == p {
        let i = choose|i: int| 0 <= i < peer_ids.len() && (#[trigger] peer_ids[i])@ == p;
        assert(ids[i] == p);
        assert(id_set(peer_ids).contains(p));
    }
    if id_set(peer_ids).contains(p) {
        let i = ids.index_of(p);
        assert(peer_ids[i]@ == p);
    }
}

/// Following brings a node to the given term, never back; a new term voids the
/// vote, the log stays, and the election timer starts anew.
pub proof fn law_following_adopts_the_term(
    before: LogicalView,
    after: LogicalView,
    term: Term,
    leader: Option<NodeId>,
)
    requires
        before.node is Some,
        before.follows(after, term, leader),
    ensures
        term.0 >= before.node->0.log.current_term.0,
        after.node is Some,
        after.node->0.role is Follower,
        after.node->0.role->leader_id == leader,
        after.node->0.role->last_heartbeat == before.tick,
        before.thresholds.min_election.0 <= after.node->0.role->Follower_timeout.0
            <= before.thresholds.max_election.0,
        after.node->0.log.current_term == term,
        after.node->0.log.voted_for == (if term == before.node->0.log.current_term {
            before.node->0.log.voted_for
        } else {
            None
        }),
        after.node->0.log.entries == before.node->0.log.entries,
        after.node->0.log.last_committed == before.node->0.log.last_committed,
        after.node->0.last_committed == before.node->0.last_committed,
        after.node->0.last_applied == before.node->0.last_applied,
        after.node->0.identity == before.node->0.identity,
        after.tick == before.tick,
        after.freezes == before.freezes,
{
}

/// Starting an election takes a node that does not lead to the next term, as a
/// candidate that has voted for itself and has its own vote only; its log and
/// its boundaries stay. A leader goes on leading.
pub proof fn law_election_opens_the_next_term(before: LogicalView, after: LogicalView)
    requires
        before.node is Some,
        before.runs_for_leader(after),
    ensures
        after.node is Some,
        before.node->0.role is Leader ==> after == before,
        !(before.node->0.role is Leader) ==> {
            &&& after.node->0.role is Candidate
            &&& after.node->0.log.current_term.0 == before.node->0.log.current_term.0 + 1
            &&& after.node->0.log.voted_for == Some(before.node->0.identity.node)
            &&& after.node->0.role->votes == set![before.node->0.identity.node@]
            &&& after.node->0.role->election_start == before.tick
            &&& before.thresholds.min_election.0 <= after.node->0.role->Candidate_timeout.0
                <= before.thresholds.max_election.0
        },
        after.node->0.identity == before.node->0.identity,
        after.node->0.log.entries == before.node->0.log.entries,
        after.node->0.log.included_index == before.node->0.log.included_index,
        after.node->0.log.last_committed == before.node->0.log.last_committed,
        after.node->0.last_committed == before.node->0.last_committed,
        after.node->0.last_applied == before.node->0.last_applied,
        after.tick == before.tick,
        after.freezes == before.freezes,
{
}

/// A restart loses nothing that is durable: a node that recovers from the store
/// of a node that ran before it is in the same term, has the same vote and the
/// same log, and has committed what was committed on durable storage; it follows
/// nobody yet, and waits a whole election timeout.
pub proof fn law_restart_loses_nothing(
    before: NodeView,
    after: LogicalView,
    applied: LogIndex,
    thresholds: TickThresholds,
)
    requires
        before.last_committed == before.log.last_committed,
        after.recovers(before.identity, before.log, applied, thresholds),
    ensures
        after.node is Some,
        after.node->0.identity == before.identity,
        after.node->0.log.current_term == before.log.current_term,
        after.node->0.log.voted_for == before.log.voted_for,
        after.node->0.log.entries == before.log.entries,
        after.node->0.log.included_index == before.log.included_index,
        after.node->0.log.included_term == before.log.included_term,
        after.node->0.last_committed == before.last_committed,
        after.node->0.last_applied == applied,
        after.node->0.last_applied.0 <= after.node->0.last_committed.0,
        after.node->0.role is Follower,
        after.node->0.role->leader_id is None,
        after.node->0.role->last_heartbeat == after.tick,
        thresholds.min_election.0 <= after.node->0.role->Follower_timeout.0
            <= thresholds.max_election.0,
        after.thresholds == thresholds,
        after.freezes == 0,
{
}

/// Whoever brings a command to a node that does not lead is told whom the node
/// voted for: after it has given its vote away, the candidate who got it.
pub proof fn law_command_is_referred_to_the_elected(
    before: LogicalView,
    after: LogicalView,
    candidate: NodeId,
    term: Term,
    last_index: LogIndex,
    last_term: Term,
    result: RequestVoteResult,
    hint: Option<NodeId>,
)
    requires
        before.node is Some,
        before.answers_vote(after, candidate, term, last_index, last_term, result),
        result.vote_granted,
        after.refers_to(hint),
    ensures
        hint == Some(candidate),
{
}

/// An answer to a pre-vote is a promise exactly if the peer said so; a call that
/// failed is none.
pub proof fn law_only_a_grant_is_a_promise(res: RpcResult<VoteReply>)
    ensures
        res matches Ok(reply) ==> (promises(res) <==> reply.vote_granted),
        res is Err ==> !promises(res),
{
}

/// How many of the answers to a pre-vote campaign are promises.
pub open spec fn promised(answers: Seq<RpcResult<VoteReply>>) -> nat
    decreases answers.len(),
{
    if answers.len() == 0 {
        0
    } else {
        let rest = promised(answers.drop_last());
        match answers.last() {
            Ok(reply) => if reply.vote_granted {
                rest + 1
            } else {
                rest
            },
            Err(_) => rest,
        }
    }
}

/// A pre-vote campaign among a node and `peers` others after these answers.
pub open spec fn tally_after(peers: nat, answers: Seq<RpcResult<VoteReply>>) -> TallyView
    decreases answers.len(),
{
    if answers.len() == 0 {
        TallyView::opened(peers)
    } else {
        tally_after(peers, answers.drop_last()).recorded(answers.last())
    }
}

/// A pre-vote campaign succeeds exactly if the peers that have promised their
/// vote are more than half of the cluster, not counting the node itself. A node
/// without peers needs no promise.
pub proof fn law_pre_vote_needs_most_of_the_cluster(
    peers: nat,
    answers: Seq<RpcResult<VoteReply>>,
)
    ensures
        peers > 0 ==> (tally_after(peers, answers).complete() <==> 2 * promised(answers) > peers
            + 1),
        peers == 0 ==> tally_after(peers, answers).complete(),
{
    lemma_tally(peers, answers);
}

/// A tally counts the promises.
proof fn lemma_tally(peers: nat, answers: Seq<RpcResult<VoteReply>>)
    ensures
        tally_after(peers, answers).granted == promised(answers) + TallyView::opened(peers).granted,
        tally_after(peers, answers).needed == TallyView::opened(peers).needed,
    decreases answers.len(),
{
    if answers.len() > 0 {
        lemma_tally(peers, answers.drop_last());
    }
}

/// Nobody but a candidate takes the lead: a node in any other role stays as it
/// is, and a candidate leads its own term with its log as it was.
pub proof fn law_only_a_candidate_takes_the_lead(
    before: LogicalView,
    after: LogicalView,
    peer_ids: Seq<NodeId>,
)
    requires
        before.node is Some,
        before.takes_lead(after, peer_ids),
    ensures
        after.node is Some,
        !(before.node->0.role is Candidate) ==> after == before,
        before.node->0.role is Candidate ==> after.node->0.role is Leader,
        after.node->0.log == before.node->0.log,
        after.node->0.last_committed == before.node->0.last_committed,
        after.node->0.last_applied == before.node->0.last_applied,
        after.node->0.identity == before.node->0.identity,
{
}

} // verus!
