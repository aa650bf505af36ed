//! Commitment: what a leader learns from an answer and what it commits, and how
//! snapshots move the boundaries of a node.
use vstd::prelude::*;

verus! {

use super::lemma_majority_index_exists;
use super::logs::drawn_from;
use super::logs::knows_term;
use crate::consensus::replication::ProbeDecision;
use crate::consensus::replication::ReplicationStep;
use crate::consensus::replication::ReplyEffect;
use crate::consensus::replication::outcome_of;
use crate::consensus::replication::probe_judged;
use crate::consensus::replication::wraps_snapshot;
use crate::consensus::rpc::echoes;
use crate::consensus::types::AppendEntriesReply;
use crate::consensus::types::AppendView;
use crate::consensus::types::InstallSnapshotRequest;
use crate::consensus::types::ReplicationAction;
use crate::consensus::types::ReplicationOutcome;
use crate::consensus::types::ReplicationRoundParams;
use crate::consensus::types::RpcResult;
use crate::consensus::types::RpcStatus;
use crate::engine::InstallSnapshotResult;
use crate::engine::LogicalNode;
use crate::engine::LogicalView;
use crate::engine::SnapshotAction;
use crate::engine::role::commit_refused;
use crate::errors::FsmError;
use crate::errors::LogStorageError;
use crate::errors::NodeError;
use crate::errors::ProtocolError;
use crate::node::LeaderView;
use crate::node::NodeView;
use crate::node::fsm_ops::commands;
use crate::orchestration::InstallStep;
use crate::orchestration::applied_everything;
use crate::orchestration::given_through;
use crate::quorum::copies;
use crate::quorum::holders;
use crate::quorum::is_majority_index;
use crate::quorum::majority_index;
use crate::quorum::quorum;
use crate::state_machine::StateMachine;
use crate::storage::LogStorage;
use crate::storage::lemma_last_index;
use crate::types::LogIndex;
use crate::types::NodeId;
use crate::types::Term;
use crate::types::TraceId;

/// A majority is more than half, and the smallest number that is.
pub proof fn law_majority_is_just_over_half(total: nat)
    ensures
        2 * quorum(total) > total,
        2 * (quorum(total) - 1) <= total,
{
}

/// The peers that are known to hold the entry at `index`.
pub open spec fn known_holders(l: LeaderView, index: u64) -> Set<u64> {
    l.match_index.dom().filter(|p: u64| l.match_index[p].0 >= index)
}

/// Whether the leader and the peers that are known to hold the entry at `index`
/// are more than half of the cluster.
pub open spec fn held_by_most(l: LeaderView, index: u64) -> bool {
    2 * (known_holders(l, index).len() + 1) > l.match_index.dom().len() + 1
}

/// An answer from a higher term ends the lead: the node follows in that term.
pub proof fn law_higher_term_ends_the_lead(
    before: LogicalView,
    after: LogicalView,
    term: Term,
    peer: NodeId,
    outcome: ReplicationOutcome,
    action: ReplicationAction,
)
    requires
        before.node is Some,
        outcome.term().0 > term.0,
        before.hears_of_reply(after, term, peer, outcome, action),
    ensures
        action == ReplicationAction::Demoted,
        after.node is Some,
        after.node->0.role is Follower,
        after.node->0.role->leader_id is None,
        after.node->0.log.current_term == outcome.term(),
        outcome.term().0 > before.node->0.log.current_term.0
            ==> after.node->0.log.voted_for is None,
        after.node->0.log.entries == before.node->0.log.entries,
        after.node->0.last_committed == before.node->0.last_committed,
{
}

/// An answer to a term that the node no longer leads changes nothing.
pub proof fn law_late_answer_changes_nothing(
    before: LogicalView,
    after: LogicalView,
    term: Term,
    peer: NodeId,
    outcome: ReplicationOutcome,
    action: ReplicationAction,
)
    requires
        before.node is Some,
        outcome.term().0 <= term.0,
        !(before.node->0.role is Leader) || before.node->0.log.current_term != term,
        before.hears_of_reply(after, term, peer, outcome, action),
    ensures
        after == before,
        action == ReplicationAction::Continue,
{
}

/// What a leader learns of a peer from its answer. A peer that accepted a
/// request holds the log up to the last entry that was sent, and is sent what
/// follows; one that accepted a snapshot, up to where it ends; one that
/// rejected is tried earlier, right after the end of its log if that lies
/// further back. What is known of other peers stays, and the log stays.
pub proof fn law_answer_moves_the_peer(
    before: LogicalView,
    after: LogicalView,
    term: Term,
    peer: NodeId,
    outcome: ReplicationOutcome,
    action: ReplicationAction,
    other: u64,
)
    requires
        before.node is Some,
        before.node->0.role is Leader,
        before.node->0.log.current_term == term,
        outcome.term().0 <= term.0,
        before.hears_of_reply(after, term, peer, outcome, action),
        before.node->0.role->Leader_0.next_index.contains_key(peer@),
        before.node->0.role->Leader_0.match_index.contains_key(peer@),
        before.node->0.role->Leader_0.next_index[peer@].0 >= 1,
    ensures
        after.node is Some,
        after.node->0.role is Leader,
        after.node->0.log.entries == before.node->0.log.entries,
        after.node->0.log.current_term == before.node->0.log.current_term,
        after.node->0.last_applied == before.node->0.last_applied,
        ({
            let old_l = before.node->0.role->Leader_0;
            let new_l = after.node->0.role->Leader_0;
            let p = peer@;
            &&& new_l.next_index.contains_key(p)
            &&& new_l.match_index.contains_key(p)
            &&& new_l.last_heartbeat == old_l.last_heartbeat
            &&& other != p ==> {
                &&& new_l.next_index.contains_key(other) == old_l.next_index.contains_key(other)
                &&& new_l.match_index.contains_key(other) == old_l.match_index.contains_key(other)
                &&& old_l.next_index.contains_key(other) ==> new_l.next_index[other]
                    == old_l.next_index[other]
                &&& old_l.match_index.contains_key(other) ==> new_l.match_index[other]
                    == old_l.match_index[other]
            }
            &&& match outcome {
                ReplicationOutcome::AppendEntries {
                    sent_prev_index,
                    sent_entries_len,
                    response,
                } => {
                    let reached = sent_prev_index.0 + sent_entries_len;
                    if response.success {
                        if reached > old_l.match_index[p].0 {
                            &&& new_l.match_index[p].0 == reached
                            &&& new_l.next_index[p].0 == reached + 1
                        } else {
                            &&& new_l.match_index[p] == old_l.match_index[p]
                            &&& new_l.next_index[p] == old_l.next_index[p]
                        }
                    } else {
                        let next = old_l.next_index[p].0;
                        let last = response.last_log_index.0;
                        &&& new_l.match_index[p] == old_l.match_index[p]
                        &&& 1 <= new_l.next_index[p].0 <= next
                        &&& next > 1 ==> new_l.next_index[p].0 < next
                        &&& last > 0 && next > 1 ==> new_l.next_index[p].0 <= last + 1
                        &&& new_l.next_index[p].0 + 1 >= next || new_l.next_index[p].0 == last + 1
                    }
                },
                ReplicationOutcome::InstallSnapshot { last_included_index, .. } => {
                    &&& new_l.match_index[p] == last_included_index
                    &&& new_l.next_index[p].0 == last_included_index.0 + 1
                },
            }
        }),
{
}

/// What a leader commits is an entry of its own term that it and the peers known
/// to hold it, more than half of the cluster, have; and the boundary is on
/// durable storage.
pub proof fn law_leader_commits_what_most_hold(
    before: LogicalView,
    after: LogicalView,
    term: Term,
    peer: NodeId,
    outcome: ReplicationOutcome,
    action: ReplicationAction,
)
    requires
        before.node is Some,
        before.node->0.role is Leader,
        before.node->0.log.current_term == term,
        term.0 >= 1,
        outcome.term().0 <= term.0,
        before.node->0.role->Leader_0.match_index.dom().finite(),
        before.hears_of_reply(after, term, peer, outcome, action),
    ensures
        after.node is Some,
        after.node->0.role is Leader,
        after.node->0.last_committed.0 >= before.node->0.last_committed.0,
        after.node->0.last_committed.0 > before.node->0.last_committed.0 ==> {
            let index = after.node->0.last_committed.0;
            &&& knows_term(before.node->0.log, index, term.0)
            &&& held_by_most(after.node->0.role->Leader_0, index)
            &&& after.node->0.log.last_committed.0 == index
        },
{
    let acked = before.acked_by(peer@);
    if let ReplyEffect::Advanced(l) = acked.absorb(peer, term, outcome) {
        let n = before.with_leader(l).node->0;
        let last = n.log.last_index();
        lemma_last_index(n.log);
        assert(l.match_index.dom().finite());
        lemma_majority_index_exists(l.match_index, last, u64::MAX);
        let m = majority_index(l.match_index, last);
        assert(is_majority_index(l.match_index, last, m));
        assert(holders(l.match_index, m) =~= known_holders(l, m));
        law_majority_is_just_over_half(l.match_index.dom().len() + 1);
    }
}

/// A leader commits all that it may: if an answer has added to what a peer is
/// known to hold, an entry of the leader's own term that more than half of the
/// cluster now has is committed. No entry that follows is of another term, as in
/// every log whose terms never fall, and no peer holds more than the leader.
pub proof fn law_leader_commits_all_it_may(
    before: LogicalView,
    after: LogicalView,
    term: Term,
    peer: NodeId,
    outcome: ReplicationOutcome,
    action: ReplicationAction,
    index: u64,
)
    requires
        before.node is Some,
        before.node->0.role is Leader,
        before.node->0.log.current_term == term,
        term.0 >= 1,
        outcome.term().0 <= term.0,
        before.node->0.role->Leader_0.match_index.dom().finite(),
        before.hears_of_reply(after, term, peer, outcome, action),
        after.node->0.role->Leader_0.match_index != before.node->0.role->Leader_0.match_index,
        before.node->0.log.dense(),
        index >= before.node->0.log.included_index.0,
        knows_term(before.node->0.log, index, term.0),
        forall|k: u64, t: u64| #[trigger]
            knows_term(before.node->0.log, k, t) && k >= index ==> t == term.0,
        held_by_most(after.node->0.role->Leader_0, index),
        forall|p: u64| #[trigger]
            after.node->0.role->Leader_0.match_index.contains_key(p)
                ==> after.node->0.role->Leader_0.match_index[p].0
                <= before.node->0.log.last_index(),
    ensures
        after.node->0.last_committed.0 >= index,
{
    let acked = before.acked_by(peer@);
    let l = after.node->0.role->Leader_0;
    assert(acked.absorb(peer, term, outcome) == ReplyEffect::Advanced(l));
    let n = before.with_leader(l).node->0;
    let last = n.log.last_index();
    lemma_last_index(n.log);
    assert(l.match_index.dom().finite());
    lemma_majority_index_exists(l.match_index, last, u64::MAX);
    let m = majority_index(l.match_index, last);
    assert(is_majority_index(l.match_index, last, m));
    assert(holders(l.match_index, index) =~= known_holders(l, index));
    law_majority_is_just_over_half(l.match_index.dom().len() + 1);
    assert(copies(l.match_index, last, index) >= quorum(l.match_index.dom().len() + 1));
    assert(m >= index);
    if m > last {
        assert(holders(l.match_index, m) =~= Set::empty());
        assert(copies(l.match_index, last, m) == 0);
    }
    if m > n.last_committed.0 {
        if m != n.log.included_index.0 {
            assert(n.log.entries.contains_key(m));
            assert(knows_term(before.node->0.log, m, n.log.entries[m].term));
        } else {
            assert(knows_term(before.node->0.log, m, n.log.included_term.0));
        }
        assert(n.log.term_at(m) == term.0);
    }
}

// --- Boundaries ---

/// Committing an index moves the boundary there, on the node and on durable
/// storage, unless it is further already; it moves nothing else.
pub proof fn law_commit_boundary_never_moves_back(node: NodeView, index: LogIndex)
    ensures
        ({
            let after = node.committed_to(index);
            &&& after.last_committed.0 == (if index.0 > node.last_committed.0 {
                index.0
            } else {
                node.last_committed.0
            })
            &&& index.0 > node.last_committed.0 ==> after.log.last_committed == index
            &&& index.0 <= node.last_committed.0 ==> after == node
            &&& after.log.entries == node.log.entries
            &&& after.log.current_term == node.log.current_term
            &&& after.log.voted_for == node.log.voted_for
            &&& after.log.included_index == node.log.included_index
            &&& after.log.included_term == node.log.included_term
            &&& after.last_applied == node.last_applied
            &&& after.role == node.role
            &&& after.identity == node.identity
        }),
        node.applied_to(index).last_applied == index,
        node.applied_to(index) == (NodeView { last_applied: index, ..node }),
{
}

/// What is applied next is the entry right after the last applied one, and
/// nothing once all that is committed was applied.
pub proof fn law_next_command_follows_the_last(v: LogicalView)
    requires
        v.node is Some,
        v.node->0.last_applied.0 <= v.node->0.last_committed.0,
    ensures
        match v.next_applied() {
            Some(k) => k == v.node->0.last_applied.0 + 1 && k <= v.node->0.last_committed.0,
            None => v.node->0.last_applied == v.node->0.last_committed,
        },
{
}

/// Handing commands out one by one, in the order of the log: a state machine
/// that was given the commands through `k` has got one more command for every
/// index after the last applied one, up to `k`, each with the payload of the
/// entry at that index, after all that it had before.
pub proof fn law_every_command_is_handed_out_once<F: StateMachine>(
    n: NodeView,
    before: F,
    after: F,
    k: int,
)
    requires
        given_through(n, before, after, k),
    ensures
        n.last_applied.0 <= k <= n.last_committed.0,
        after.history().len() == before.history().len() + (k - n.last_applied.0),
        forall|i: int|
            0 <= i < before.history().len() ==> #[trigger] after.history()[i]
                == before.history()[i],
        forall|j: u64|
            #![trigger n.log.entries.contains_key(j)]
            n.last_applied.0 < j <= k ==> {
                let given = after.history()[before.history().len() + (j - n.last_applied.0 - 1)];
                &&& n.log.entries.contains_key(j)
                &&& given.index == j
                &&& given.data == n.log.entries[j].data
            },
{
    let from = n.last_applied.0 as int;
    super::law_commands_follow_the_log(n.log, from, k);
    assert forall|j: u64|
        #![trigger n.log.entries.contains_key(j)]
        from < j <= k implies {
        let given = after.history()[before.history().len() + (j - from - 1)];
        &&& n.log.entries.contains_key(j)
        &&& given.index == j
        &&& given.data == n.log.entries[j].data
    } by {
        let i = j - from - 1;
        assert(commands(n.log, from, k)[i].index == from + 1 + i);
        assert(after.history()[before.history().len() + i] == commands(n.log, from, k)[i]);
    }
}

/// A pass over the log applies all that is committed: every committed command
/// that was not applied yet is given to the state machine, each once and in
/// order, and nothing is left to apply.
pub proof fn law_pass_applies_all_that_is_committed<F: StateMachine>(
    before: LogicalView,
    after: LogicalView,
    fsm: F,
    given: F,
)
    requires
        before.node is Some,
        before.node->0.last_applied.0 <= before.node->0.last_committed.0,
        applied_everything(before, after, fsm, given),
    ensures
        after.node is Some,
        after.node->0.last_applied == before.node->0.last_committed,
        after.node->0.last_committed == before.node->0.last_committed,
        after.node->0.log == before.node->0.log,
        after.node->0.role == before.node->0.role,
        given.history().len() == fsm.history().len() + (before.node->0.last_committed.0
            - before.node->0.last_applied.0),
        forall|j: u64|
            #![trigger before.node->0.log.entries.contains_key(j)]
            before.node->0.last_applied.0 < j <= before.node->0.last_committed.0 ==> {
                let command = given.history()[fsm.history().len() + (j
                    - before.node->0.last_applied.0 - 1)];
                &&& before.node->0.log.entries.contains_key(j)
                &&& command.index == j
                &&& command.data == before.node->0.log.entries[j].data
            },
        before.node->0.last_applied == before.node->0.last_committed ==> given.history()
            =~= fsm.history(),
{
    let n = before.node->0;
    law_every_command_is_handed_out_once(n, fsm, given, n.last_committed.0 as int);
    assert forall|j: u64|
        #![trigger n.log.entries.contains_key(j)]
        n.last_applied.0 < j <= n.last_committed.0 implies {
        let command = given.history()[fsm.history().len() + (j - n.last_applied.0 - 1)];
        &&& n.log.entries.contains_key(j)
        &&& command.index == j
        &&& command.data == n.log.entries[j].data
    } by {
        assert(n.log.entries.contains_key(j));
    }
}

/// A command that is handed out is the one that follows the last applied one in
/// the log.
pub proof fn law_handed_out_command_is_the_next(v: LogicalView, index: LogIndex, data: Seq<u8>)
    requires
        v.node is Some,
        v.node->0.last_applied.0 <= v.node->0.last_committed.0,
        v.hands_out(index, data),
    ensures
        index.0 == v.node->0.last_applied.0 + 1,
        index.0 <= v.node->0.last_committed.0,
        v.node->0.log.entries.contains_key(index.0),
        v.node->0.log.entries[index.0].data == data,
{
}

/// A boundary is refused only if the log does not reach that far, and the
/// refusal tells how far it reaches.
pub proof fn law_only_what_is_logged_is_committed(node: NodeView, index: LogIndex, e: NodeError)
    requires
        commit_refused(node, index, e),
    ensures
        index.0 > node.log.included_index.0,
        forall|k: u64| #[trigger] node.log.entries.contains_key(k) ==> k < index.0,
        e == NodeError::Protocol(
            ProtocolError::CommitBeyondLog { index, last: LogIndex(node.log.last_index()) },
        ),
{
    lemma_last_index(node.log);
}

// --- What a leader hears of its requests ---

/// A leader learns of a peer that accepted a request exactly what it sent: that
/// the peer holds the log up to the last entry of the request.
pub proof fn law_leader_learns_what_it_sent(
    before: LogicalView,
    after: LogicalView,
    peer: NodeId,
    req: AppendView,
    response: AppendEntriesReply,
    action: ReplicationAction,
)
    requires
        before.node is Some,
        before.node->0.role is Leader,
        before.node->0.log.current_term == req.term,
        before.node->0.role->Leader_0.match_index.contains_key(peer@),
        drawn_from(req, before.node->0.log),
        req.prev_log_index.0 + req.entries.len() < u64::MAX,
        response.success,
        response.term.0 <= req.term.0,
        before.hears_of_reply(after, req.term, peer, outcome_of(req, response), action),
    ensures
        after.node is Some,
        after.node->0.role is Leader,
        ({
            let reached = req.prev_log_index.0 + req.entries.len();
            let known = after.node->0.role->Leader_0.match_index[peer@].0;
            &&& known >= reached
            &&& known == reached || known
                == before.node->0.role->Leader_0.match_index[peer@].0
            &&& req.entries.len() > 0 && before.node->0.log.wf() ==> req.entries.last().index
                == reached
        }),
{
    if req.entries.len() > 0 {
        let i = req.entries.len() - 1;
        assert(req.entries[i] == before.node->0.log.entries[(req.prev_log_index.0 + 1 + i) as u64]);
        assert(before.node->0.log.entries.contains_key((req.prev_log_index.0 + 1 + i) as u64));
    }
}

/// A snapshot is not serialised for a peer that does not answer the probe, nor
/// for one that answers from a higher term, whose answer then ends the lead.
pub proof fn law_probe_guards_the_snapshot(
    before: LogicalView,
    after: LogicalView,
    term: Term,
    peer: NodeId,
    res: RpcResult<Option<ReplicationOutcome>>,
    action: ReplicationAction,
)
    requires
        before.node is Some,
    ensures
        res is Err <==> probe_judged(term, res) is Abort,
        probe_judged(term, res) matches ProbeDecision::HandOn(outcome) ==> {
            &&& res == Ok::<Option<ReplicationOutcome>, RpcStatus>(Some(outcome))
            &&& outcome.term().0 > term.0
            &&& before.hears_of_reply(after, term, peer, outcome, action) ==> action
                == ReplicationAction::Demoted
        },
        probe_judged(term, res) is Proceed && res is Ok && res->Ok_0 is Some
            ==> res->Ok_0->0.term().0 <= term.0,
{
}

/// An answer cannot be taken in only if an index would leave its range.
pub proof fn law_answers_break_only_at_the_end_of_the_range(
    l: LeaderView,
    peer: NodeId,
    term: Term,
    outcome: ReplicationOutcome,
)
    requires
        l.next_index.contains_key(peer@),
        l.next_index[peer@].0 >= 1,
    ensures
        l.absorb(peer, term, outcome) is Broken <==> match outcome {
            ReplicationOutcome::AppendEntries { sent_prev_index, sent_entries_len, response } => {
                if response.success {
                    sent_prev_index.0 + sent_entries_len >= u64::MAX
                } else {
                    response.last_log_index.0 == u64::MAX
                }
            },
            ReplicationOutcome::InstallSnapshot { last_included_index, .. } => {
                last_included_index.0 == u64::MAX
            },
        },
{
}

/// A peer that nothing is known of is sent the log from its first entry on, and
/// is not counted as holding anything.
pub proof fn law_unknown_peer_is_sent_everything(l: LeaderView, peer: u64)
    ensures
        !l.next_index.contains_key(peer) ==> l.next_for(peer).0 == 1,
        l.next_index.contains_key(peer) ==> l.next_for(peer) == l.next_index[peer],
        !l.match_index.contains_key(peer) ==> l.match_for(peer).0 == 0,
        l.match_index.contains_key(peer) ==> l.match_for(peer) == l.match_index[peer],
{
}

// --- Snapshots ---

/// A snapshot is restored exactly if its leader's term has not passed and it
/// reaches beyond what was applied; in every case the node is told of, and tells
/// of, no term that has passed, and neither its log nor its boundaries change
/// before the snapshot is restored.
pub proof fn law_snapshot_is_taken_if_it_brings_something_new(
    before: LogicalView,
    after: LogicalView,
    leader: NodeId,
    term: Term,
    index: LogIndex,
    result: InstallSnapshotResult,
)
    requires
        before.node is Some,
        before.answers_snapshot(after, leader, term, index, result),
    ensures
        after.node is Some,
        result.action == SnapshotAction::Rejected <==> term.0 < before.node->0.log.current_term.0,
        result.action == SnapshotAction::Accepted <==> term.0
            >= before.node->0.log.current_term.0 && index.0 > before.node->0.last_applied.0,
        after.node->0.log.entries == before.node->0.log.entries,
        after.node->0.log.included_index == before.node->0.log.included_index,
        after.node->0.last_committed == before.node->0.last_committed,
        after.node->0.last_applied == before.node->0.last_applied,
        result.action == SnapshotAction::Rejected ==> after == before && result.term
            == before.node->0.log.current_term,
        result.action != SnapshotAction::Rejected ==> {
            &&& after.node->0.log.current_term == term
            &&& after.node->0.role is Follower
            &&& after.node->0.role->leader_id == Some(leader)
            &&& !(before.node->0.role is Leader && before.node->0.log.current_term == term)
        },
        result.action == SnapshotAction::Accepted ==> result.term == term
            && after.node->0.role->last_heartbeat == before.tick,
        result.action == SnapshotAction::Stale ==> result.term == before.node->0.log.current_term,
        result.action == SnapshotAction::Stale && before.node->0.role is Follower && term
            == before.node->0.log.current_term ==> after.node->0.role->last_heartbeat
            == before.node->0.role->last_heartbeat,
{
}

/// A restored snapshot stands in for the log up to where it ends: that is what
/// was applied, what is committed at the least, and where the next command
/// follows; later entries stay.
pub proof fn law_restored_snapshot_moves_the_boundaries(
    before: LogicalView,
    index: LogIndex,
    term: Term,
)
    requires
        before.node is Some,
        before.freezes > 0,
    ensures
        ({
            let after = before.restored(index, term);
            &&& after.node is Some
            &&& after.node->0.last_applied == index
            &&& after.node->0.last_committed.0 >= index.0
            &&& after.node->0.last_committed.0 >= before.node->0.last_committed.0
            &&& after.node->0.last_committed == index || after.node->0.last_committed
                == before.node->0.last_committed
            &&& after.node->0.log.included_index == index
            &&& after.node->0.log.included_term == term
            &&& after.node->0.log.entries == before.node->0.log.entries
            &&& after.node->0.log.current_term == before.node->0.log.current_term
            &&& after.node->0.log.voted_for == before.node->0.log.voted_for
            &&& after.node->0.log.last_index() >= index.0
            &&& knows_term(after.node->0.log, index.0, term.0) || index.0 == 0
            &&& after.freezes == before.freezes - 1
            &&& after.node->0.role == before.node->0.role
        }),
{
    lemma_last_index(before.restored(index, term).node->0.log);
}

/// The state machine is frozen exactly while a snapshot is restored: an offer
/// that is turned down freezes nothing and changes neither log nor boundaries.
pub proof fn law_restoring_freezes_the_state_machine(
    before: LogicalView,
    after: LogicalView,
    leader: NodeId,
    term: Term,
    index: LogIndex,
    step: InstallStep,
)
    requires
        before.node is Some,
        before.is_offered_snapshot(after, leader, term, index, step),
    ensures
        after.node is Some,
        step is Restore <==> term.0 >= before.node->0.log.current_term.0 && index.0
            > before.node->0.last_applied.0,
        step is Restore ==> after.freezes == before.freezes + 1,
        step is Reply ==> after.freezes == before.freezes,
        step matches InstallStep::Restore(t) ==> t == term,
        step matches InstallStep::Reply(t) ==> t == before.node->0.log.current_term,
        after.node->0.log.entries == before.node->0.log.entries,
        after.node->0.last_committed == before.node->0.last_committed,
        after.node->0.last_applied == before.node->0.last_applied,
        term.0 >= before.node->0.log.current_term.0 ==> after.node->0.log.current_term == term
            && after.node->0.role is Follower && after.node->0.role->leader_id == Some(leader),
{
}

/// A snapshot takes a peer to where the leader's log begins: once the peer has
/// restored what the leader sent it, both know the same term at the index where
/// the snapshot ends, and the peer has applied everything up to there.
pub proof fn law_snapshot_brings_the_peer_to_the_leader(
    leader: NodeView,
    peer: u64,
    params: ReplicationRoundParams,
    step: ReplicationStep,
    req: InstallSnapshotRequest,
    before: LogicalView,
)
    requires
        leader.sends(peer, params, false, step),
        step is SendSnapshot,
        leader.log.included_index.0 > 0,
        wraps_snapshot(
            req,
            params,
            step->last_included_index,
            step->last_included_term,
        ),
        before.node is Some,
        before.freezes > 0,
    ensures
        ({
            let after = before.restored(req.last_included_index, req.last_included_term);
            let end = leader.log.included_index;
            &&& req.term == params.term
            &&& req.leader_id == params.node_id
            &&& after.node->0.last_applied == end
            &&& after.node->0.last_committed.0 >= end.0
            &&& knows_term(after.node->0.log, end.0, leader.log.included_term.0)
            &&& knows_term(leader.log, end.0, leader.log.included_term.0)
        }),
{
}

/// An index is committed only if it is not beyond the end of the log, or was
/// committed before; and a commit that was asked for is refused for no other
/// reason than that.
pub proof fn law_commit_stays_within_the_log<L: LogStorage>(
    before: LogicalNode<L>,
    after: LogicalNode<L>,
    index: LogIndex,
    r: Result<(), NodeError>,
)
    requires
        !before.poisoned(),
        LogicalNode::commit_ensures(before, after, index, r),
    ensures
        r is Ok ==> {
            &&& index.0 < before@.node->0.last_committed.0 || index.0
                <= before@.node->0.log.included_index.0 || exists|k: u64| #[trigger]
                before@.node->0.log.entries.contains_key(k) && index.0 <= k
            &&& after@.node is Some
            &&& after@.node->0.last_committed.0 >= index.0
        },
        r is Err && before.reliable() ==> after@.node is None && index.0
            > before@.node->0.log.included_index.0 && forall|k: u64| #[trigger]
            before@.node->0.log.entries.contains_key(k) ==> k < index.0,
{
    lemma_last_index(before@.node->0.log);
}

/// A state machine that has caught up has applied exactly what is committed,
/// and never claimed more.
pub proof fn law_catching_up_applies_what_is_committed(
    before: NodeView,
    after: NodeView,
    claimed: LogIndex,
)
    requires
        before.catches_up(after, claimed),
    ensures
        claimed.0 <= before.last_committed.0,
        after.last_applied == before.last_committed,
        after.last_committed == before.last_committed,
        after.log == before.log,
        after.role == before.role,
{
}

/// A command that was applied is the last applied one; one that the state
/// machine could not apply halts the node, with the cause.
pub proof fn law_failed_command_halts(
    before: LogicalView,
    after: LogicalView,
    index: LogIndex,
    outcome: Result<(), FsmError>,
    r: Result<(), NodeError>,
)
    requires
        before.node is Some,
        before.records_command(after, index, outcome, r),
    ensures
        outcome matches Err(cause) ==> after.node is None && r == Err::<(), NodeError>(
            NodeError::Protocol(ProtocolError::ApplyFailure { cause }),
        ),
        outcome is Ok && index.0 <= before.node->0.log.last_index() ==> r is Ok,
        r is Ok ==> {
            &&& outcome is Ok
            &&& after.node is Some
            &&& after.node->0.last_applied == index
            &&& after.node->0.last_committed.0 >= index.0
            &&& after.node->0.last_committed.0 >= before.node->0.last_committed.0
            &&& after.node->0.log.entries == before.node->0.log.entries
        },
        r is Err ==> after.node is None,
{
}

/// However the restoration of a snapshot ends, the task that froze the state
/// machine has ended; and a snapshot that could not be restored halts the node,
/// with the cause.
pub proof fn law_failed_restoration_halts(
    before: LogicalView,
    after: LogicalView,
    index: LogIndex,
    term: Term,
    outcome: Result<(), FsmError>,
    r: Result<(), NodeError>,
)
    requires
        before.node is Some,
        before.freezes > 0,
        before.records_snapshot(after, index, term, outcome, r),
    ensures
        after.freezes == before.freezes - 1,
        r is Ok <==> outcome is Ok,
        outcome matches Err(cause) ==> after.node is None && r == Err::<(), NodeError>(
            NodeError::Protocol(ProtocolError::SnapshotRestoration { cause }),
        ),
        outcome is Ok ==> after.node is Some && after.node->0.last_applied == index
            && after.node->0.log.included_index == index && after.node->0.log.included_term
            == term,
{
}

/// However cutting the log ends, the task that froze the state machine has
/// ended; and a log that could not be cut halts the node, with the cause.
pub proof fn law_failed_cut_halts(
    before: LogicalView,
    after: LogicalView,
    index: LogIndex,
    cut: Result<(), LogStorageError>,
    r: Result<(), NodeError>,
)
    requires
        before.freezes > 0,
        before.records_cut(after, index, cut, r),
    ensures
        after.freezes == before.freezes - 1,
        r is Ok <==> cut is Ok,
        cut is Ok ==> after.node == before.node,
        cut matches Err(storage) ==> after.node is None && r == Err::<(), NodeError>(
            NodeError::Protocol(ProtocolError::TruncationFailure { index, storage }),
        ),
{
}

/// Nothing is left to apply exactly if all that is committed was applied.
pub proof fn law_up_to_date_means_all_applied(v: LogicalView)
    requires
        v.node is Some,
        v.node->0.last_applied.0 <= v.node->0.last_committed.0,
    ensures
        v.is_up_to_date() <==> v.node->0.last_applied == v.node->0.last_committed,
{
}

/// An answer belongs to a request exactly if it carries the same trace; one that
/// carries none does not.
pub proof fn law_answer_echoes_the_trace(returned: Option<TraceId>, expected: TraceId)
    ensures
        returned is None ==> !echoes(returned, expected),
        returned matches Some(id) ==> (echoes(returned, expected) <==> id == expected),
{
}

/// However serialising a snapshot ends, the task that froze the state machine
/// has ended; a state machine that failed halts the node, and then nothing is
/// sent.
pub proof fn law_serialization_thaws(
    before: LogicalView,
    after: LogicalView,
    managed: bool,
    sent: bool,
)
    requires
        before.freezes > 0,
        before.ends_serialization(after, managed, sent),
    ensures
        after.freezes == before.freezes - 1,
        sent <==> managed,
        managed ==> after.node == before.node,
        !managed ==> after.node is None,
{
}

} // verus!
