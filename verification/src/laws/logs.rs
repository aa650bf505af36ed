//! Logs: what a store gives back, and how the logs of two nodes relate.
use vstd::prelude::*;

verus! {

use super::contiguous;
use super::lemma_full_range;
use super::lemma_reconciled;
use super::termed;
use crate::consensus::replication::ReplicationStep;
use crate::consensus::types::AppendView;
use crate::consensus::types::ReplicationRoundParams;
use crate::engine::AppendEntriesResult;
use crate::engine::LogicalView;
use crate::node::NodeView;
use crate::reconciliation::Extension;
use crate::reconciliation::extension;
use crate::reconciliation::lemma_extension_sticks;
use crate::reconciliation::reconciled;
use crate::reconciliation::without_conflict;
use crate::storage::LogState;
use crate::storage::lemma_last_index;
use crate::types::EntryView;
use crate::types::LogIndex;
use crate::types::NodeId;
use crate::types::Term;

/// Whether the log is known to have had an entry of `term` at `index`: the
/// snapshot tells of the last index that it covers, the entries of all others.
pub open spec fn knows_term(log: LogState, index: u64, term: u64) -> bool {
    &&& index > 0
    &&& if index == log.included_index.0 {
        log.included_term.0 == term
    } else {
        log.entries.contains_key(index) && log.entries[index].term == term
    }
}

/// Whether two logs hold the same entry, in term and data, at every index up to
/// `end` at which neither has a snapshot in place of it and both have one.
pub open spec fn agree_up_to(a: LogState, b: LogState, end: u64) -> bool {
    forall|k: u64|
        #![trigger a.entries[k], b.entries[k]]
        a.included_index.0 < k <= end && b.included_index.0 < k && a.entries.contains_key(k)
            && b.entries.contains_key(k) ==> a.entries[k] == b.entries[k]
}

/// Whether two logs match: where they have the same term at an index, they
/// agree up to there.
pub open spec fn matching(a: LogState, b: LogState) -> bool {
    forall|k: u64, t: u64| #[trigger]
        knows_term(a, k, t) && #[trigger] knows_term(b, k, t) ==> agree_up_to(a, b, k)
}

/// Whether `req` sends a stretch of the log: its entries are those that follow
/// the anchor, and the anchor is an entry of the log, or the beginning.
pub open spec fn drawn_from(req: AppendView, log: LogState) -> bool {
    let prev = req.prev_log_index.0;
    &&& prev >= log.included_index.0
    &&& prev > 0 ==> knows_term(log, prev, req.prev_log_term.0)
    &&& prev + req.entries.len() <= u64::MAX
    &&& forall|i: int|
        #![trigger req.entries[i]]
        0 <= i < req.entries.len() ==> log.entries.contains_key((prev + 1 + i) as u64)
            && req.entries[i] == log.entries[(prev + 1 + i) as u64]
}

// --- What a store gives back ---

/// Each write of a store is read back, and touches nothing else.
pub proof fn law_writes_are_read_back(
    log: LogState,
    term: Term,
    vote: Option<NodeId>,
    index: LogIndex,
)
    ensures
        log.with_hard_state(term, vote).current_term == term,
        log.with_hard_state(term, vote).voted_for == vote,
        log.with_hard_state(term, vote).entries == log.entries,
        log.with_hard_state(term, vote).last_committed == log.last_committed,
        log.with_hard_state(term, vote).included_index == log.included_index,
        log.with_hard_state(term, vote).included_term == log.included_term,
        log.with_committed(index).last_committed == index,
        log.with_committed(index).entries == log.entries,
        log.with_committed(index).current_term == log.current_term,
        log.with_committed(index).voted_for == log.voted_for,
        log.with_committed(index).included_index == log.included_index,
        log.with_committed(index).included_term == log.included_term,
        log.with_snapshot(index, term).included_index == index,
        log.with_snapshot(index, term).included_term == term,
        log.with_snapshot(index, term).entries == log.entries,
        log.with_snapshot(index, term).current_term == log.current_term,
        log.with_snapshot(index, term).voted_for == log.voted_for,
        log.with_snapshot(index, term).last_committed == log.last_committed,
{
}

/// A store that was never written to is in no term, has voted for nobody, and
/// holds no entry, no snapshot and no boundary.
pub proof fn law_new_store_is_empty(k: u64)
    ensures
        LogState::empty().current_term.0 == 0,
        LogState::empty().voted_for is None,
        LogState::empty().last_committed.0 == 0,
        LogState::empty().included_index.0 == 0,
        LogState::empty().included_term.0 == 0,
        !LogState::empty().entries.contains_key(k),
        LogState::empty().last_index() == 0,
        LogState::empty().last_term() == 0,
{
    lemma_last_index(LogState::empty());
}

/// Cutting a log at an index drops the entries from there on and no other;
/// cutting its front off drops the entries up to there and no other. Both leave
/// the rest of the store alone.
pub proof fn law_cutting_drops_one_side(log: LogState, at: LogIndex, k: u64)
    ensures
        log.truncated(at).entries.contains_key(k) <==> log.entries.contains_key(k) && k < at.0,
        log.truncated(at).entries.contains_key(k) ==> log.truncated(at).entries[k]
            == log.entries[k],
        log.front_truncated(at).entries.contains_key(k) <==> log.entries.contains_key(k) && k
            > at.0,
        log.front_truncated(at).entries.contains_key(k) ==> log.front_truncated(at).entries[k]
            == log.entries[k],
        log.truncated(at) == (LogState { entries: log.truncated(at).entries, ..log }),
        log.front_truncated(at) == (LogState { entries: log.front_truncated(at).entries, ..log }),
        log.front_truncated(LogIndex(0)).truncated(LogIndex(u64::MAX)).entries.contains_key(k)
            <==> log.entries.contains_key(k) && 0 < k < u64::MAX,
{
}

/// An appended entry is found under its own index, unless a later one of the
/// same batch has taken its place; every other index is untouched.
pub proof fn law_appended_entries_are_found(log: LogState, new: Seq<EntryView>, k: u64)
    ensures
        (forall|i: int| 0 <= i < new.len() ==> (#[trigger] new[i]).index != k) ==> (
        log.appended(new).entries.contains_key(k) == log.entries.contains_key(k) && (
        log.entries.contains_key(k) ==> log.appended(new).entries[k] == log.entries[k])),
        forall|i: int|
            #![trigger new[i]]
            0 <= i < new.len() && new[i].index == k && (forall|j: int|
                i < j < new.len() ==> (#[trigger] new[j]).index != k) ==> log.appended(
                new,
            ).entries.contains_key(k) && log.appended(new).entries[k] == new[i],
        log.appended(new) == (LogState { entries: log.appended(new).entries, ..log }),
    decreases new.len(),
{
    if new.len() > 0 {
        let front = new.drop_last();
        let last = new.last();
        law_appended_entries_are_found(log, front, k);
        assert(new[new.len() - 1] == last);
        assert(log.appended(new).entries == log.appended(front).entries.insert(last.index, last));
        if last.index != k {
            if forall|i: int| 0 <= i < new.len() ==> (#[trigger] new[i]).index != k {
                assert forall|i: int| 0 <= i < front.len() implies (#[trigger] front[i]).index
                    != k by {
                    assert(new[i].index != k);
                }
            }
            assert forall|i: int|
                #![trigger new[i]]
                0 <= i < new.len() && new[i].index == k && (forall|j: int|
                    i < j < new.len() ==> (#[trigger] new[j]).index
                        != k) implies log.appended(new).entries.contains_key(k) && log.appended(
                new,
            ).entries[k] == new[i] by {
                assert(front[i] == new[i]);
                assert forall|j: int| i < j < front.len() implies (#[trigger] front[j]).index
                    != k by {
                    assert(new[j].index != k);
                }
            }
        }
    }
}

/// A log ends at the highest index that it holds an entry for, or that its
/// snapshot covers.
pub proof fn law_log_ends_at_its_highest_index(log: LogState)
    ensures
        log.last_index() >= log.included_index.0,
        forall|k: u64| #[trigger] log.entries.contains_key(k) ==> k <= log.last_index(),
        log.last_index() == log.included_index.0 || log.entries.contains_key(log.last_index()),
        log.last_index() > log.included_index.0 ==> log.last_term()
            == log.entries[log.last_index()].term,
        !log.entries.contains_key(log.last_index()) ==> log.last_term() == log.included_term.0,
{
    lemma_last_index(log);
}

/// The term that a log gives for an index is that of the entry there, or of the
/// snapshot that ends there; where nothing is known it gives none.
pub proof fn law_term_of_an_index_is_that_of_its_entry(log: LogState, index: u64, term: u64)
    requires
        term >= 1,
    ensures
        log.term_at(index) == term <==> knows_term(log, index, term),
        log.term_at(0) == 0,
{
}

/// Reading a range gives the entries in the order of the log, each that lies in
/// it once, and nothing else.
pub proof fn law_range_lists_entries_in_order(log: LogState, start: u64, end: int)
    requires
        log.wf(),
        end <= u64::MAX,
    ensures
        forall|i: int|
            #![trigger log.range(start, end)[i]]
            0 <= i < log.range(start, end).len() ==> {
                let e = log.range(start, end)[i];
                start <= e.index <= end && log.entries.contains_key(e.index)
                    && log.entries[e.index] == e
            },
        forall|i: int, j: int|
            #![trigger log.range(start, end)[i], log.range(start, end)[j]]
            0 <= i < j < log.range(start, end).len() ==> log.range(start, end)[i].index
                < log.range(start, end)[j].index,
        forall|k: u64|
            start <= k <= end && #[trigger] log.entries.contains_key(k) ==> exists|i: int|
                0 <= i < log.range(start, end).len() && #[trigger] log.range(start, end)[i]
                    == log.entries[k],
    decreases end - start + 1,
{
    if start <= end {
        law_range_lists_entries_in_order(log, start, end - 1);
        let front = log.range(start, end - 1);
        let all = log.range(start, end);
        if log.entries.contains_key(end as u64) {
            assert(all == front.push(log.entries[end as u64]));
            assert(log.entries[end as u64].index == end);
            assert forall|i: int| 0 <= i < all.len() implies start <= (#[trigger] all[i]).index
                <= end && log.entries.contains_key(all[i].index) && log.entries[all[i].index]
                == all[i] by {
                if i < front.len() {
                    assert(all[i] == front[i]);
                }
            }
            assert forall|i: int, j: int| 0 <= i < j < all.len() implies (#[trigger] all[i]).index
                < (#[trigger] all[j]).index by {
                assert(all[i] == front[i]);
                if j < front.len() {
                    assert(all[j] == front[j]);
                }
            }
            assert forall|k: u64| start <= k <= end && #[trigger] log.entries.contains_key(
                k,
            ) implies exists|i: int|
                0 <= i < all.len() && #[trigger] all[i] == log.entries[k] by {
                if k < end {
                    let i = choose|i: int|
                        0 <= i < front.len() && #[trigger] front[i] == log.entries[k];
                    assert(all[i] == log.entries[k]);
                } else {
                    assert(all[front.len() as int] == log.entries[k]);
                }
            }
        } else {
            assert(all == front);
        }
    }
}

// --- Following a leader's log ---

/// A request is accepted only by a log that has, at the index of the anchor, an
/// entry of exactly the anchor's term.
pub proof fn law_accepted_anchor_is_in_the_log(
    before: LogicalView,
    after: LogicalView,
    req: AppendView,
    result: AppendEntriesResult,
)
    requires
        before.node is Some,
        before.answers_append(after, req, result),
        req.prev_log_index.0 > 0,
        req.prev_log_term.0 >= 1,
        result.success,
    ensures
        knows_term(before.node->0.log, req.prev_log_index.0, req.prev_log_term.0),
        req.term.0 >= before.node->0.log.current_term.0,
{
    lemma_same_end(before.node->0, req.term);
}

/// Adopting a term moves neither the entries nor the end of the log.
proof fn lemma_same_end(node: NodeView, term: Term)
    ensures
        node.with_term(term).log.entries == node.log.entries,
        node.with_term(term).log.included_index == node.log.included_index,
        node.with_term(term).log.included_term == node.log.included_term,
        node.with_term(term).log.last_index() == node.log.last_index(),
        forall|k: u64| #[trigger]
            node.with_term(term).log.term_at(k) == node.log.term_at(k),
{
}

/// A request that is not accepted because the anchor is not in the log leaves
/// the log and the commit boundary as they were.
pub proof fn law_unknown_anchor_changes_no_log(
    before: LogicalView,
    after: LogicalView,
    req: AppendView,
    result: AppendEntriesResult,
)
    requires
        before.node is Some,
        before.answers_append(after, req, result),
        req.prev_log_index.0 > 0,
        req.prev_log_term.0 >= 1,
        !knows_term(before.node->0.log, req.prev_log_index.0, req.prev_log_term.0),
    ensures
        !result.success,
        after.node is Some,
        after.node->0.log.entries == before.node->0.log.entries,
        after.node->0.log.included_index == before.node->0.log.included_index,
        after.node->0.last_committed == before.node->0.last_committed,
        after.node->0.log.last_committed == before.node->0.log.last_committed,
        req.term.0 >= before.node->0.log.current_term.0 ==> result.conflict_index.0
            == before.node->0.log.last_index(),
{
    lemma_same_end(before.node->0, req.term);
}

/// The log after an accepted request.
proof fn lemma_log_after(
    before: LogicalView,
    after: LogicalView,
    req: AppendView,
    result: AppendEntriesResult,
)
    requires
        before.node is Some,
        before.answers_append(after, req, result),
        result.success,
    ensures
        after.node is Some,
        after.node->0.log.entries == reconciled(
            before.node->0.with_term(req.term).log,
            req.entries,
        ).entries,
        after.node->0.log.included_index == before.node->0.log.included_index,
        after.node->0.log.included_term == before.node->0.log.included_term,
{
    let base = before.node->0.with_term(req.term).log;
    lemma_reconciled_frame(base, req.entries);
}

/// Reconciling touches nothing but the entries.
proof fn lemma_reconciled_frame(log: LogState, new: Seq<EntryView>)
    ensures
        reconciled(log, new) == (LogState { entries: reconciled(log, new).entries, ..log }),
{
}

/// A request that is drawn from a log has no gaps.
proof fn lemma_drawn(req: AppendView, log: LogState)
    requires
        log.wf(),
        drawn_from(req, log),
    ensures
        contiguous(req.entries, req.prev_log_index),
        termed(req.entries),
{
    let prev = req.prev_log_index.0;
    assert forall|i: int| 0 <= i < req.entries.len() implies (#[trigger] req.entries[i]).index
        == prev + 1 + i && req.entries[i].term >= 1 by {
        assert(req.entries[i] == log.entries[(prev + 1 + i) as u64]);
        assert(log.entries.contains_key((prev + 1 + i) as u64));
    }
}

/// Log matching. If the log of a leader and that of a follower match, and the
/// follower accepts a stretch of the leader's log, then the two hold the same
/// entries, in term and data, at every index up to the last entry that was
/// sent, and they still match.
pub proof fn law_logs_keep_matching(
    leader: LogState,
    before: LogicalView,
    after: LogicalView,
    req: AppendView,
    result: AppendEntriesResult,
)
    requires
        before.node is Some,
        leader.wf(),
        before.node->0.log.wf(),
        before.node->0.log.dense(),
        before.node->0.log.last_index() < u64::MAX,
        drawn_from(req, leader),
        req.prev_log_index.0 > 0 ==> req.prev_log_term.0 >= 1,
        req.prev_log_index.0 + req.entries.len() < u64::MAX,
        matching(leader, before.node->0.log),
        before.answers_append(after, req, result),
        result.success,
    ensures
        agree_up_to(
            leader,
            after.node->0.log,
            (req.prev_log_index.0 + req.entries.len()) as u64,
        ),
        matching(leader, after.node->0.log),
        forall|k: u64|
            #![trigger after.node->0.log.entries.contains_key(k)]
            before.node->0.log.included_index.0 < k <= req.prev_log_index.0 + req.entries.len()
                ==> after.node->0.log.entries.contains_key(k),
{
    let own = before.node->0.log;
    let base = before.node->0.with_term(req.term).log;
    let new = req.entries;
    let prev = req.prev_log_index.0;
    let end = (prev + new.len()) as u64;
    let kept = after.node->0.log;
    lemma_same_end(before.node->0, req.term);
    lemma_drawn(req, leader);
    lemma_log_after(before, after, req, result);
    lemma_reconciled(base, req.prev_log_index, req.prev_log_term, new);
    super::law_reconciled_log_matches_leader(base, req.prev_log_index, req.prev_log_term, new);
    assert(kept.entries == reconciled(base, new).entries);
    if prev > 0 {
        law_accepted_anchor_is_in_the_log(before, after, req, result);
        assert(knows_term(leader, prev, req.prev_log_term.0));
        assert(agree_up_to(leader, own, prev));
    }
    assert forall|k: u64|
        #![trigger leader.entries[k], kept.entries[k]]
        leader.included_index.0 < k <= end && kept.included_index.0 < k
            && leader.entries.contains_key(k) && kept.entries.contains_key(
            k,
        ) implies leader.entries[k] == kept.entries[k] by {
        assert(reconciled(base, new).entries.contains_key(k));
        if prev < k <= end {
            let i = k - prev - 1;
            assert(new[i] == leader.entries[(prev + 1 + i) as u64]);
            assert(new[i].index == k);
            assert(reconciled(base, new).entries[new[i].index].term == new[i].term);
            if kept.entries[k] != new[i] {
                assert(own.entries.contains_key(k) && kept.entries[k] == own.entries[k]);
                let t = new[i].term;
                assert(knows_term(leader, k, t));
                assert(knows_term(own, k, t));
                assert(agree_up_to(leader, own, k));
                assert(leader.entries[k] == own.entries[k]);
            }
        } else {
            assert(own.entries.contains_key(k) && kept.entries[k] == own.entries[k]);
            assert(leader.entries[k] == own.entries[k]);
        }
    }
    assert(agree_up_to(leader, kept, end));
    assert forall|k: u64, t: u64| #[trigger]
        knows_term(leader, k, t) && #[trigger] knows_term(kept, k, t) implies agree_up_to(
        leader,
        kept,
        k,
    ) by {
        if k > end {
            if k != kept.included_index.0 {
                assert(reconciled(base, new).entries.contains_key(k));
                assert(own.entries.contains_key(k) && kept.entries[k] == own.entries[k]);
            }
            assert(knows_term(own, k, t));
            assert(agree_up_to(leader, own, k));
            assert forall|j: u64|
                #![trigger leader.entries[j], kept.entries[j]]
                leader.included_index.0 < j <= k && kept.included_index.0 < j
                    && leader.entries.contains_key(j) && kept.entries.contains_key(
                    j,
                ) implies leader.entries[j] == kept.entries[j] by {
                if j > end {
                    assert(reconciled(base, new).entries.contains_key(j));
                    assert(own.entries.contains_key(j) && kept.entries[j] == own.entries[j]);
                    assert(leader.entries[j] == own.entries[j]);
                }
            }
        }
    }
    assert forall|k: u64|
        #![trigger kept.entries.contains_key(k)]
        own.included_index.0 < k <= end implies kept.entries.contains_key(k) by {
        if k <= prev {
            assert(own.entries.contains_key(k));
            assert(reconciled(base, new).entries.contains_key(k));
        } else {
            let i = k - prev - 1;
            assert(new[i].index == k);
        }
    }
}

/// What an accepted request adds is all that it adds: an entry that was neither
/// in the log before nor sent is not in it afterwards.
pub proof fn law_nothing_is_made_up(
    before: LogicalView,
    after: LogicalView,
    req: AppendView,
    result: AppendEntriesResult,
    leader: LogState,
    k: u64,
)
    requires
        before.node is Some,
        leader.wf(),
        before.node->0.log.wf(),
        before.node->0.log.dense(),
        before.node->0.log.last_index() < u64::MAX,
        drawn_from(req, leader),
        req.prev_log_index.0 + req.entries.len() < u64::MAX,
        before.answers_append(after, req, result),
        result.success,
        after.node->0.log.entries.contains_key(k),
    ensures
        before.node->0.log.entries.contains_key(k) && after.node->0.log.entries[k]
            == before.node->0.log.entries[k] || (req.prev_log_index.0 < k
            && leader.entries.contains_key(k) && after.node->0.log.entries[k]
            == leader.entries[k]),
{
    let base = before.node->0.with_term(req.term).log;
    lemma_same_end(before.node->0, req.term);
    lemma_drawn(req, leader);
    lemma_log_after(before, after, req, result);
    lemma_reconciled(base, req.prev_log_index, req.prev_log_term, req.entries);
    assert(reconciled(base, req.entries).entries.contains_key(k));
    if !(before.node->0.log.entries.contains_key(k) && after.node->0.log.entries[k]
        == before.node->0.log.entries[k]) {
        let i = k - req.prev_log_index.0 - 1;
        assert(req.entries[i] == leader.entries[(req.prev_log_index.0 + 1 + i) as u64]);
    }
}

// --- Sending a log ---

/// A leader sends a peer a stretch of its own log: anchored at one of its own
/// entries, in that entry's term, starting at the index that the peer is to be
/// sent next, and reaching to the end of the log.
pub proof fn law_request_is_drawn_from_the_leader(
    leader: NodeView,
    peer: u64,
    params: ReplicationRoundParams,
    in_flight: bool,
    step: ReplicationStep,
)
    requires
        leader.role is Leader,
        leader.log.wf(),
        leader.log.dense(),
        leader.role->Leader_0.next_index.contains_key(peer),
        leader.log.included_index.0 < leader.role->Leader_0.next_index[peer].0
            <= leader.log.last_index() + 1,
        leader.sends(peer, params, in_flight, step),
    ensures
        step is Send,
        drawn_from(step->Send_0@, leader.log),
        step->Send_0@.prev_log_index.0 + 1 == leader.role->Leader_0.next_index[peer].0,
        forall|k: u64|
            k > step->Send_0@.prev_log_index.0 && #[trigger] leader.log.entries.contains_key(k)
                ==> k <= step->Send_0@.prev_log_index.0 + step->Send_0@.entries.len(),
        step->Send_0@.term == params.term,
        step->Send_0@.leader_id == params.node_id,
        step->Send_0@.leader_commit == params.last_committed,
{
    lemma_last_index(leader.log);
    let req = step->Send_0@;
    let next = leader.role->Leader_0.next_index[peer].0;
    let last = leader.log.last_index();
    assert forall|k: u64| next <= k <= last implies #[trigger] leader.log.entries.contains_key(
        k,
    ) by {}
    lemma_full_range(leader.log, next, last as int);
    assert forall|i: int|
        #![trigger req.entries[i]]
        0 <= i < req.entries.len() implies leader.log.entries.contains_key(
        (req.prev_log_index.0 + 1 + i) as u64,
    ) && req.entries[i] == leader.log.entries[(req.prev_log_index.0 + 1 + i) as u64] by {
        assert(req.entries[i] == leader.log.range(next, last as int)[i]);
        assert(leader.log.entries.contains_key((next + i) as u64));
    }
    if next > 1 && next - 1 > leader.log.included_index.0 {
        assert(leader.log.entries.contains_key((next - 1) as u64));
    }
}

/// A follower whose log has the leader's entry at the anchor accepts what the
/// leader sends it, and then has an entry of the leader's term at every index up
/// to the end of the leader's log.
pub proof fn law_follower_in_step_accepts(
    leader: NodeView,
    peer: u64,
    params: ReplicationRoundParams,
    in_flight: bool,
    step: ReplicationStep,
    before: LogicalView,
    after: LogicalView,
    result: AppendEntriesResult,
)
    requires
        leader.role is Leader,
        leader.log.wf(),
        leader.log.dense(),
        leader.log.last_index() < u64::MAX,
        leader.role->Leader_0.next_index.contains_key(peer),
        leader.log.included_index.0 < leader.role->Leader_0.next_index[peer].0
            <= leader.log.last_index() + 1,
        leader.log.included_index.0 > 0 ==> leader.log.included_term.0 >= 1,
        leader.sends(peer, params, in_flight, step),
        before.node is Some,
        before.node->0.log.wf(),
        before.node->0.log.dense(),
        before.node->0.log.last_index() < u64::MAX,
        before.node->0.log.current_term.0 <= params.term.0,
        before.answers_append(after, step->Send_0@, result),
        forall|t: u64|
            t >= 1 && #[trigger] knows_term(
                leader.log,
                (leader.role->Leader_0.next_index[peer].0 - 1) as u64,
                t,
            ) ==> knows_term(
                before.node->0.log,
                (leader.role->Leader_0.next_index[peer].0 - 1) as u64,
                t,
            ),
    ensures
        result.success,
        result.term == params.term,
        forall|k: u64|
            #![trigger after.node->0.log.entries.contains_key(k)]
            leader.role->Leader_0.next_index[peer].0 <= k <= leader.log.last_index() && k
                > before.node->0.log.included_index.0 ==> after.node->0.log.entries.contains_key(k)
                && after.node->0.log.entries[k].term == leader.log.entries[k].term,
{
    law_request_is_drawn_from_the_leader(leader, peer, params, in_flight, step);
    let req = step->Send_0@;
    let base = before.node->0.with_term(req.term).log;
    let own = before.node->0.log;
    let prev = req.prev_log_index.0;
    lemma_same_end(before.node->0, req.term);
    lemma_last_index(own);
    lemma_last_index(leader.log);
    lemma_drawn(req, leader.log);
    if prev > 0 {
        assert(knows_term(leader.log, prev, req.prev_log_term.0));
        if prev != leader.log.included_index.0 {
            assert(leader.log.entries.contains_key(prev));
        }
        assert(knows_term(own, prev, req.prev_log_term.0));
    }
    assert(prev + req.entries.len() < u64::MAX) by {
        if req.entries.len() > 0 {
            let i = req.entries.len() - 1;
            assert(req.entries[i] == leader.log.entries[(prev + 1 + i) as u64]);
            assert(leader.log.entries.contains_key((prev + 1 + i) as u64));
        }
    }
    assert(crate::reconciliation::consistent_at(base, req.prev_log_index, req.prev_log_term));
    lemma_reconciled(base, req.prev_log_index, req.prev_log_term, req.entries);
    lemma_log_after(before, after, req, result);
    assert forall|k: u64|
        #![trigger after.node->0.log.entries.contains_key(k)]
        prev + 1 <= k <= leader.log.last_index() && k
            > own.included_index.0 implies after.node->0.log.entries.contains_key(k)
        && after.node->0.log.entries[k].term == leader.log.entries[k].term by {
        assert(leader.log.entries.contains_key(k));
        let i = k - prev - 1;
        assert(req.entries[i] == leader.log.entries[(prev + 1 + i) as u64]);
        assert(req.entries[i].index == k);
    }
}

/// A peer is sent a snapshot only if the log no longer holds what it needs
/// next, and never while one is on its way: then it is sent what the log still
/// holds. The snapshot is announced by a request without entries that is
/// anchored where it ends. A node that does not lead sends nothing.
pub proof fn law_snapshot_goes_to_a_peer_left_behind(
    node: NodeView,
    peer: u64,
    params: ReplicationRoundParams,
    in_flight: bool,
    step: ReplicationStep,
)
    requires
        node.sends(peer, params, in_flight, step),
        node.role is Leader ==> node.role->Leader_0.next_index.contains_key(peer),
    ensures
        !(node.role is Leader) ==> step is Skip,
        node.role is Leader && !in_flight ==> (step is SendSnapshot
            <==> node.role->Leader_0.next_index[peer].0 <= node.log.included_index.0),
        node.role is Leader && !in_flight ==> !(step is Skip),
        in_flight ==> !(step is SendSnapshot),
        node.role is Leader && in_flight && node.role->Leader_0.next_index[peer].0 > 0 ==> step
            is Send && step->Send_0@.prev_log_index.0 + 1
            == node.role->Leader_0.next_index[peer].0 && step->Send_0@.term == params.term
            && step->Send_0@.leader_commit == params.last_committed,
        step matches ReplicationStep::SendSnapshot { probe, last_included_index, last_included_term }
            ==> {
            &&& last_included_index == node.log.included_index
            &&& last_included_term == node.log.included_term
            &&& probe@.entries.len() == 0
            &&& probe@.prev_log_index == node.log.included_index
            &&& probe@.prev_log_term == node.log.included_term
            &&& probe@.term == params.term
            &&& probe@.leader_id == params.node_id
            &&& probe@.leader_commit == params.last_committed
        },
{
}

// --- The commit boundary of a follower ---

/// An accepted request takes the follower's commit boundary to where the leader
/// says, or to the end of the follower's log if that comes first; a boundary
/// that is further already stays. What was committed is written to the store.
pub proof fn law_accepted_request_moves_the_boundary(
    before: LogicalView,
    after: LogicalView,
    req: AppendView,
    result: AppendEntriesResult,
)
    requires
        before.node is Some,
        before.answers_append(after, req, result),
        result.success,
    ensures
        after.node is Some,
        after.node->0.last_committed.0 >= before.node->0.last_committed.0,
        after.node->0.last_committed.0 >= req.leader_commit.0 || after.node->0.last_committed.0
            >= after.node->0.log.last_index(),
        after.node->0.last_committed.0 > before.node->0.last_committed.0 ==> {
            &&& after.node->0.last_committed.0 <= req.leader_commit.0
            &&& after.node->0.last_committed.0 <= after.node->0.log.last_index()
            &&& after.node->0.log.last_committed == after.node->0.last_committed
        },
        after.node->0.last_applied == before.node->0.last_applied,
        result.conflict_index.0 == after.node->0.log.last_index(),
{
}

/// A command that a leader takes in stands at the end of its log, in its
/// current term, with the payload that was proposed; the rest of the node is
/// unchanged.
pub proof fn law_command_is_logged(
    before: LogicalView,
    after: LogicalView,
    command: Seq<u8>,
    index: LogIndex,
)
    requires
        before.node is Some,
        before.takes_command(after, command, index),
    ensures
        before.node->0.role is Leader,
        after.node is Some,
        !before.node->0.log.entries.contains_key(index.0),
        after.node->0.log.entries.contains_key(index.0),
        after.node->0.log.entries[index.0].index == index.0,
        after.node->0.log.entries[index.0].term == before.node->0.log.current_term.0,
        after.node->0.log.entries[index.0].data == command,
        forall|k: u64| #[trigger]
            after.node->0.log.entries.contains_key(k) ==> k <= index.0 && (k != index.0 ==> (
            before.node->0.log.entries.contains_key(k) && after.node->0.log.entries[k]
                == before.node->0.log.entries[k])),
        forall|k: u64| #[trigger]
            before.node->0.log.entries.contains_key(k)
                ==> after.node->0.log.entries.contains_key(k),
        index.0 > before.node->0.log.included_index.0,
        after == before.with_node(
            before.node->0.with_log(
                LogState { entries: after.node->0.log.entries, ..before.node->0.log },
            ),
        ),
{
    let log = before.node->0.log;
    let entry = EntryView { index: index.0, term: log.current_term.0, data: command };
    lemma_last_index(log);
    assert forall|k: u64| true implies (#[trigger] log.appended(seq![entry]).entries.contains_key(k)
        <==> log.entries.contains_key(k) || k == index.0) by {
        law_appended_entries_are_found(log, seq![entry], k);
        if k == index.0 {
            assert(seq![entry][0].index == k);
        }
    }
    assert forall|k: u64| #[trigger] log.appended(seq![entry]).entries.contains_key(k) implies (if k
        == index.0 {
        log.appended(seq![entry]).entries[k] == entry
    } else {
        log.appended(seq![entry]).entries[k] == log.entries[k]
    }) by {
        law_appended_entries_are_found(log, seq![entry], k);
        if k == index.0 {
            assert(seq![entry][0].index == k);
        }
    }
}

/// A request whose first entry lies beyond the end of the log is not accepted:
/// no gap is bridged, and nothing is added to the log.
pub proof fn law_gap_is_refused(
    before: LogicalView,
    after: LogicalView,
    req: AppendView,
    result: AppendEntriesResult,
    k: u64,
)
    requires
        before.node is Some,
        before.node->0.log.last_index() < u64::MAX,
        before.answers_append(after, req, result),
        req.entries.len() > 0,
        req.entries[0].index > before.node->0.log.last_index() + 1,
    ensures
        !result.success,
        after.node is Some,
        after.node->0.log.entries.contains_key(k) ==> before.node->0.log.entries.contains_key(k)
            && after.node->0.log.entries[k] == before.node->0.log.entries[k],
        after.node->0.last_committed == before.node->0.last_committed,
{
    let base = before.node->0.with_term(req.term).log;
    let cut = without_conflict(base, req.entries);
    lemma_same_end(before.node->0, req.term);
    lemma_last_index(base);
    lemma_last_index(cut);
    assert(cut.last_index() <= base.last_index());
    let next = (cut.last_index() + 1) as u64;
    let first = req.entries.take(1);
    assert(first.drop_last() =~= Seq::empty());
    assert(first.last() == req.entries[0]);
    assert(extension(first.drop_last(), next) == Extension::Run(Seq::empty()));
    assert(extension(first, next) is Gap);
    lemma_extension_sticks(req.entries, next, 1);
}

} // verus!
