//! Linearizable reads: what a confirmed heartbeat round is worth.
use vstd::prelude::*;

verus! {

use crate::consensus::types::ReplicationAction;
use crate::consensus::types::ReplicationOutcome;
use crate::engine::ConsensusProgress;
use crate::engine::LogicalView;
use crate::engine::NodeRole;
use crate::errors::ConsensusError;
use crate::node::LeaderView;
use crate::orchestration::LeadershipProbe;
use crate::orchestration::judged;
use crate::types::NodeId;
use crate::types::Term;

/// What happens to a leader, as far as its heartbeat rounds are concerned.
pub enum ReadStep {
    /// A read is asked for.
    Ask,
    /// A peer answers; so many nodes make a majority.
    Answer { peer: u64, needed: nat },
    /// Anything else.
    Other,
}

/// Whether `after` is the leader `self_id`, as far as its heartbeat rounds are
/// concerned, after one step from `before`. A read can be asked for as long as
/// there is a number left for the round that it may need.
pub open spec fn takes_read_step(
    before: LeaderView,
    after: LeaderView,
    step: ReadStep,
    self_id: u64,
) -> bool {
    let expected = match step {
        ReadStep::Ask => before.probing(self_id),
        ReadStep::Answer { peer, needed } => before.acknowledged(peer, needed),
        ReadStep::Other => before,
    };
    &&& step is Ask && before.confirmed_read_epoch == before.current_read_epoch
        ==> before.current_read_epoch < u64::MAX
    &&& after.current_read_epoch == expected.current_read_epoch
    &&& after.confirmed_read_epoch == expected.confirmed_read_epoch
    &&& after.acks == expected.acks
}

/// Whether `views` is a leader's history and `steps` is what happened to it.
pub open spec fn is_read_history(
    views: Seq<LeaderView>,
    steps: Seq<ReadStep>,
    self_id: u64,
) -> bool {
    &&& views.len() == steps.len() + 1
    &&& forall|i: int|
        #![trigger steps[i]]
        0 <= i < steps.len() ==> takes_read_step(views[i], views[i + 1], steps[i], self_id)
}

/// The peers that answered in the steps from `from` on and before `to`.
pub open spec fn answered(steps: Seq<ReadStep>, from: int, to: int) -> Set<u64>
    decreases to - from,
{
    if to <= from {
        Set::empty()
    } else {
        match steps[to - 1] {
            ReadStep::Answer { peer, .. } => answered(steps, from, to - 1).insert(peer),
            _ => answered(steps, from, to - 1),
        }
    }
}

/// As long as a round is not confirmed, exactly the leader and the peers that
/// answered since the round was started count as having answered.
proof fn lemma_round_in_progress(
    views: Seq<LeaderView>,
    steps: Seq<ReadStep>,
    self_id: u64,
    start: int,
    now: int,
)
    requires
        is_read_history(views, steps, self_id),
        0 <= start < now <= steps.len(),
        views[start].confirmed_read_epoch <= views[start].current_read_epoch,
        views[start].current_read_epoch < views[start + 1].current_read_epoch,
    ensures
        ({
            let round = views[start + 1].current_read_epoch;
            ||| {
                &&& views[now].current_read_epoch == round
                &&& views[now].confirmed_read_epoch < round
                &&& views[now].acks == answered(steps, start + 1, now).insert(self_id)
            }
            ||| {
                &&& views[now].confirmed_read_epoch >= round
                &&& views[now].current_read_epoch >= views[now].confirmed_read_epoch
            }
        }),
    decreases now,
{
    if now == start + 1 {
        assert(takes_read_step(views[start], views[start + 1], steps[start], self_id));
        assert(views[now].acks =~= answered(steps, start + 1, now).insert(self_id));
    } else {
        lemma_round_in_progress(views, steps, self_id, start, now - 1);
        assert(takes_read_step(views[now - 1], views[now], steps[now - 1], self_id));
        if views[now].confirmed_read_epoch < views[start + 1].current_read_epoch {
            assert(views[now].acks =~= answered(steps, start + 1, now).insert(self_id));
        }
    }
}

/// When a round becomes confirmed, the leader and the distinct peers that have
/// answered since the round was started make a majority. Answers to earlier
/// rounds do not count.
pub proof fn law_confirmed_round_was_answered_by_a_majority(
    views: Seq<LeaderView>,
    steps: Seq<ReadStep>,
    self_id: u64,
    start: int,
    end: int,
)
    requires
        is_read_history(views, steps, self_id),
        0 <= start < end < steps.len(),
        views[start].confirmed_read_epoch <= views[start].current_read_epoch,
        views[start].current_read_epoch < views[start + 1].current_read_epoch,
        views[end].confirmed_read_epoch < views[start + 1].current_read_epoch,
        views[end + 1].confirmed_read_epoch >= views[start + 1].current_read_epoch,
    ensures
        steps[end] is Answer,
        answered(steps, start + 1, end + 1).insert(self_id).len() >= steps[end]->needed,
{
    lemma_round_in_progress(views, steps, self_id, start, end);
    assert(takes_read_step(views[end], views[end + 1], steps[end], self_id));
    let counted = answered(steps, start + 1, end + 1).insert(self_id);
    if let ReadStep::Answer { peer, .. } = steps[end] {
        assert(views[end].acks.insert(peer) =~= counted);
    }
}

/// A round that a majority has answered is confirmed: with the answer of the
/// last peer that is needed, whether or not peers answer more than once.
pub proof fn law_majority_of_answers_confirms_the_round(
    views: Seq<LeaderView>,
    steps: Seq<ReadStep>,
    self_id: u64,
    start: int,
    end: int,
)
    requires
        is_read_history(views, steps, self_id),
        0 <= start < end < steps.len(),
        views[start].confirmed_read_epoch <= views[start].current_read_epoch,
        views[start].current_read_epoch < views[start + 1].current_read_epoch,
        steps[end] is Answer,
        answered(steps, start + 1, end + 1).insert(self_id).len() >= steps[end]->needed,
    ensures
        views[end + 1].confirmed_read_epoch >= views[start + 1].current_read_epoch,
{
    lemma_round_in_progress(views, steps, self_id, start, end);
    assert(takes_read_step(views[end], views[end + 1], steps[end], self_id));
    let counted = answered(steps, start + 1, end + 1).insert(self_id);
    if views[end].confirmed_read_epoch < views[start + 1].current_read_epoch {
        assert(views[end].acks.insert(steps[end]->peer) =~= counted);
    }
}

/// A round that was confirmed stays confirmed, and rounds only ever go up.
pub proof fn law_rounds_only_go_up(
    before: LeaderView,
    after: LeaderView,
    step: ReadStep,
    self_id: u64,
)
    requires
        before.confirmed_read_epoch <= before.current_read_epoch,
        takes_read_step(before, after, step, self_id),
    ensures
        after.confirmed_read_epoch <= after.current_read_epoch,
        before.current_read_epoch <= after.current_read_epoch <= before.current_read_epoch + 1,
        before.confirmed_read_epoch <= after.confirmed_read_epoch,
        !(step is Ask) ==> after.current_read_epoch == before.current_read_epoch,
        !(step is Answer) ==> after.confirmed_read_epoch == before.confirmed_read_epoch,
{
}

/// Every answer of a peer to a leader counts for the current round, with the
/// smallest number of nodes that is more than half of the cluster.
pub proof fn law_answer_counts_for_the_round(
    before: LogicalView,
    after: LogicalView,
    term: Term,
    peer: NodeId,
    outcome: ReplicationOutcome,
    action: ReplicationAction,
) -> (needed: nat)
    requires
        before.node is Some,
        before.node->0.role is Leader,
        before.node->0.log.current_term == term,
        outcome.term().0 <= term.0,
        before.hears_of_reply(after, term, peer, outcome, action),
    ensures
        action == ReplicationAction::Continue,
        after.node is Some,
        after.node->0.role is Leader,
        ({
            let cluster = before.node->0.role->Leader_0.next_index.dom().len() + 1;
            2 * needed > cluster && 2 * (needed - 1) <= cluster
        }),
        takes_read_step(
            before.node->0.role->Leader_0,
            after.node->0.role->Leader_0,
            ReadStep::Answer { peer: peer@, needed },
            before.node->0.identity.node@,
        ),
{
    before.node->0.role->Leader_0.quorum()
}

/// A read that is asked for waits for a round that was not confirmed by then;
/// asking starts one unless one is under way, and changes nothing else.
pub proof fn law_read_waits_for_an_open_round(
    before: LogicalView,
    after: LogicalView,
    probe: LeadershipProbe,
)
    requires
        before.asks_for_read(after, probe),
        before.node->0.role->Leader_0.confirmed_read_epoch
            <= before.node->0.role->Leader_0.current_read_epoch,
        before.node->0.role->Leader_0.current_read_epoch < u64::MAX,
    ensures
        before.node is Some,
        before.node->0.role is Leader,
        after.node is Some,
        after.node->0.role is Leader,
        takes_read_step(
            before.node->0.role->Leader_0,
            after.node->0.role->Leader_0,
            ReadStep::Ask,
            before.node->0.identity.node@,
        ),
        probe.target_epoch == after.node->0.role->Leader_0.current_read_epoch,
        probe.target_epoch > after.node->0.role->Leader_0.confirmed_read_epoch,
        probe.already_in_flight <==> before.node->0.role->Leader_0.current_read_epoch
            == probe.target_epoch,
        probe.term == before.node->0.log.current_term,
        probe.node_id == before.node->0.identity.node,
        probe.last_committed == before.node->0.last_committed,
        after.node->0.log == before.node->0.log,
        after.node->0.last_committed == before.node->0.last_committed,
        after.node->0.last_applied == before.node->0.last_applied,
        after.node->0.role->Leader_0.next_index == before.node->0.role->Leader_0.next_index,
        after.node->0.role->Leader_0.match_index == before.node->0.role->Leader_0.match_index,
{
}

/// A read is served exactly while the node leads the term that the read was
/// asked for in and the round it waits for is confirmed; it fails once the node
/// has left that lead, and waits otherwise.
pub proof fn law_read_is_served_by_a_confirmed_leader(now: LogicalView, probe: LeadershipProbe)
    ensures
        ({
            let leads = now.node is Some && now.node->0.role is Leader
                && now.node->0.log.current_term == probe.term;
            match judged(now.progress(), probe) {
                Ok(served) => leads && (served <==> now.node->0.role->Leader_0.confirmed_read_epoch
                    >= probe.target_epoch),
                Err(e) => !leads && e == ConsensusError::NotLeader,
            }
        }),
{
}

/// What a node reports of itself is what it is: its role, its term, the end of
/// its log and its boundaries; the leader it knows of, which is itself if it
/// leads; and nothing once it has halted.
pub proof fn law_progress_reports_the_node(now: LogicalView, report: ConsensusProgress)
    requires
        report == now.progress(),
    ensures
        now.node is None <==> report.role == NodeRole::Poisoned,
        now.node matches Some(n) ==> {
            &&& n.role is Leader <==> report.role == NodeRole::Leader
            &&& n.role is Candidate <==> report.role == NodeRole::Candidate
            &&& n.role is PreCandidate <==> report.role == NodeRole::PreCandidate
            &&& n.role is Follower <==> report.role == NodeRole::Follower
            &&& report.term == n.log.current_term
            &&& report.last_log_index.0 == n.log.last_index()
            &&& report.last_committed == n.last_committed
            &&& report.last_applied == n.last_applied
            &&& n.role is Leader ==> report.leader_hint == Some(n.identity.node)
                && report.confirmed_read_epoch == n.role->Leader_0.confirmed_read_epoch
            &&& n.role is Follower ==> report.leader_hint == n.role->leader_id
            &&& n.role is Candidate || n.role is PreCandidate ==> report.leader_hint is None
        },
{
}

} // verus!
