//! What holds of the engine as a whole.
//!
//! The contracts of the functions say what each of them does. The laws here
//! relate them to one another; they are stated over the same models.
use vstd::prelude::*;

pub mod commitment;
pub mod elections;
pub mod logs;
pub mod reads;
pub mod timing;

verus! {

use crate::consensus::replication::ReplyEffect;
use crate::consensus::replication::backed_off;
use crate::consensus::types::ReplicationOutcome;
use crate::engine::LogicalView;
use crate::node::LeaderView;
use crate::node::NodeView;
use crate::node::TickAction;
use crate::node::fsm_ops::commands;
use crate::node::leader::fresh_leader;
use crate::quorum::copies;
use crate::quorum::holders;
use crate::quorum::is_majority_index;
use crate::quorum::law_majorities_intersect;
use crate::quorum::majority_index;
use crate::quorum::quorum;
use crate::reconciliation::Extension;
use crate::reconciliation::conflicts;
use crate::reconciliation::consistent_at;
use crate::reconciliation::extension;
use crate::reconciliation::log_extension;
use crate::reconciliation::reconciled;
use crate::reconciliation::up_to_date;
use crate::reconciliation::without_conflict;
use crate::storage::LogState;
use crate::storage::lemma_last_index;
use crate::storage::lemma_last_index_unique;
use crate::tick::Tick;
use crate::types::EntryView;
use crate::types::LogIndex;
use crate::types::NodeId;
use crate::types::Term;

// --- Logs ---

/// Whether `new` follows the entry at `prev` without a gap.
pub open spec fn contiguous(new: Seq<EntryView>, prev: LogIndex) -> bool {
    forall|i: int| 0 <= i < new.len() ==> (#[trigger] new[i]).index == prev.0 + 1 + i
}

/// Whether every entry of `new` was written in a term.
pub open spec fn termed(new: Seq<EntryView>) -> bool {
    forall|i: int| 0 <= i < new.len() ==> (#[trigger] new[i]).term >= 1
}

/// What appending a run that starts at `start` does to the entries.
proof fn lemma_appended_entries(log: LogState, run: Seq<EntryView>, start: u64)
    requires
        start + run.len() <= u64::MAX,
        forall|i: int| 0 <= i < run.len() ==> (#[trigger] run[i]).index == start + i,
    ensures
        forall|k: u64| #[trigger]
            log.appended(run).entries.contains_key(k) <==> log.entries.contains_key(k) || start <= k
                < start + run.len(),
        forall|k: u64|
            start <= k < start + run.len() ==> #[trigger] log.appended(run).entries[k] == run[k
                - start],
        forall|k: u64|
            log.entries.contains_key(k) && !(start <= k < start + run.len()) ==> #[trigger] log.appended(
                run,
            ).entries[k] == log.entries[k],
    decreases run.len(),
{
    if run.len() > 0 {
        let front = run.drop_last();
        assert forall|i: int| 0 <= i < front.len() implies (#[trigger] front[i]).index == start
            + i by {
            assert(front[i] == run[i]);
        }
        lemma_appended_entries(log, front, start);
        let last = run.last();
        assert(last == run[run.len() - 1]);
        assert(last.index == start + run.len() - 1);
        assert(log.appended(run).entries == log.appended(front).entries.insert(last.index, last));
        assert forall|k: u64| start <= k < start + run.len() implies #[trigger] log.appended(
            run,
        ).entries[k] == run[k - start] by {
            if k < start + front.len() {
                assert(log.appended(front).entries[k] == front[k - start]);
            }
        }
        assert forall|k: u64|
            log.entries.contains_key(k) && !(start <= k < start + run.len()) implies #[trigger] log.appended(
            run,
        ).entries[k] == log.entries[k] by {
            assert(log.appended(front).entries[k] == log.entries[k]);
        }
    }
}

/// A run appended at the end of a log becomes its end.
proof fn lemma_appended_run(log: LogState, run: Seq<EntryView>)
    requires
        log.last_index() + 1 + run.len() <= u64::MAX,
        forall|i: int|
            0 <= i < run.len() ==> (#[trigger] run[i]).index == log.last_index() + 1 + i,
    ensures
        log.appended(run).last_index() == log.last_index() + run.len(),
        log.dense() ==> log.appended(run).dense(),
{
    lemma_last_index(log);
    lemma_appended_entries(log, run, (log.last_index() + 1) as u64);
    let end = (log.last_index() + run.len()) as u64;
    assert(log.appended(run).ends_at(end));
    lemma_last_index_unique(log.appended(run), end);
}

/// Where a log ends after it was cut at `at`.
proof fn lemma_truncated_end(log: LogState, at: LogIndex)
    requires
        log.dense(),
    ensures
        log.truncated(at).last_index() == (if at.0 > log.last_index() {
            log.last_index()
        } else if at.0 <= log.included_index.0 {
            log.included_index.0
        } else {
            (at.0 - 1) as u64
        }),
        log.truncated(at).dense(),
{
    lemma_last_index(log);
    let cut = log.truncated(at);
    let end = if at.0 > log.last_index() {
        log.last_index()
    } else if at.0 <= log.included_index.0 {
        log.included_index.0
    } else {
        (at.0 - 1) as u64
    };
    if log.included_index.0 < at.0 <= log.last_index() && end > log.included_index.0 {
        assert(log.entries.contains_key(end));
    }
    assert(cut.ends_at(end));
    lemma_last_index_unique(cut, end);
    assert forall|k: u64| cut.included_index.0 < k <= cut.last_index() implies #[trigger] cut.entries.contains_key(
        k,
    ) by {
        assert(log.entries.contains_key(k));
    }
}

/// The first entry of `new` that conflicts with the log, if there is one.
proof fn lemma_first_conflict(log: LogState, new: Seq<EntryView>) -> (r: Option<int>)
    ensures
        match r {
            Some(i) => {
                &&& 0 <= i < new.len()
                &&& conflicts(log, new[i])
                &&& forall|j: int| 0 <= j < i ==> !conflicts(log, #[trigger] new[j])
                &&& without_conflict(log, new) == log.truncated(LogIndex(new[i].index))
            },
            None => {
                &&& forall|j: int| 0 <= j < new.len() ==> !conflicts(log, #[trigger] new[j])
                &&& without_conflict(log, new) == log
            },
        },
    decreases new.len(),
{
    if new.len() == 0 {
        None
    } else if conflicts(log, new[0]) {
        Some(0)
    } else {
        let rest = new.drop_first();
        match lemma_first_conflict(log, rest) {
            Some(i) => {
                assert(rest[i] == new[i + 1]);
                assert forall|j: int| 0 <= j < i + 1 implies !conflicts(log, #[trigger] new[j]) by {
                    if j > 0 {
                        assert(rest[j - 1] == new[j]);
                    }
                }
                Some(i + 1)
            },
            None => {
                assert forall|j: int| 0 <= j < new.len() implies !conflicts(
                    log,
                    #[trigger] new[j],
                ) by {
                    if j > 0 {
                        assert(rest[j - 1] == new[j]);
                    }
                }
                None
            },
        }
    }
}

/// What a request without gaps adds to a log that expects `next`.
proof fn lemma_contiguous_extension(new: Seq<EntryView>, prev: LogIndex, next: u64)
    requires
        contiguous(new, prev),
        prev.0 + 1 <= next,
        prev.0 + new.len() < u64::MAX,
    ensures
        extension(new, next) == Extension::Run(
            if next <= prev.0 + new.len() {
                new.skip(next - prev.0 - 1)
            } else {
                Seq::empty()
            },
        ),
    decreases new.len(),
{
    if new.len() > 0 {
        let front = new.drop_last();
        assert forall|i: int| 0 <= i < front.len() implies (#[trigger] front[i]).index == prev.0 + 1
            + i by {
            assert(front[i] == new[i]);
        }
        lemma_contiguous_extension(front, prev, next);
        let last = new.last();
        assert(last == new[new.len() - 1]);
        assert(last.index == prev.0 + new.len());
        if next <= prev.0 + new.len() {
            let skipped = next - prev.0 - 1;
            if next <= prev.0 + front.len() {
                assert(front.skip(skipped).push(last) =~= new.skip(skipped));
            } else {
                assert(Seq::<EntryView>::empty().push(last) =~= new.skip(skipped));
            }
        }
    }
}

/// Everything that reconciling with a request without gaps does.
proof fn lemma_reconciled(log: LogState, prev: LogIndex, prev_term: Term, new: Seq<EntryView>)
    requires
        log.wf(),
        log.dense(),
        consistent_at(log, prev, prev_term),
        contiguous(new, prev),
        termed(new),
        prev.0 + new.len() < u64::MAX,
        log.last_index() < u64::MAX,
    ensures
        log_extension(log, new) is Run,
        reconciled(log, new).wf(),
        reconciled(log, new).dense(),
        forall|i: int|
            0 <= i < new.len() && (#[trigger] new[i]).index > log.included_index.0 ==> reconciled(
                log,
                new,
            ).entries.contains_key(new[i].index) && reconciled(log, new).entries[new[i].index].term
                == new[i].term,
        forall|k: u64|
            k <= prev.0 ==> (#[trigger] reconciled(log, new).entries.contains_key(k)
                <==> log.entries.contains_key(k)),
        forall|k: u64| #[trigger]
            reconciled(log, new).entries.contains_key(k) ==> {
                ||| log.entries.contains_key(k) && reconciled(log, new).entries[k]
                    == log.entries[k]
                ||| prev.0 < k <= prev.0 + new.len() && reconciled(log, new).entries[k] == new[k
                    - prev.0 - 1]
            },
        reconciled(log, new).last_index() >= prev.0 + new.len(),
        reconciled(log, new).last_index() == (if forall|i: int|
            0 <= i < new.len() ==> !conflicts(log, #[trigger] new[i]) {
            if log.last_index() >= prev.0 + new.len() {
                log.last_index() as int
            } else {
                prev.0 + new.len()
            }
        } else {
            if log.included_index.0 >= prev.0 + new.len() {
                log.included_index.0 as int
            } else {
                prev.0 + new.len()
            }
        }),
{
    lemma_last_index(log);
    let base = without_conflict(log, new);
    let at = lemma_first_conflict(log, new);
    if let Some(i) = at {
        lemma_truncated_end(log, LogIndex(new[i].index));
        assert(conflicts(log, new[i]));
        assert(new[i].index <= log.last_index());
    }
    lemma_last_index(base);
    assert(base.last_index() >= prev.0);
    let next = (base.last_index() + 1) as u64;
    lemma_contiguous_extension(new, prev, next);
    let run = extension(new, next)->0;
    assert(log_extension(log, new) == Extension::Run(run));
    assert forall|i: int| 0 <= i < run.len() implies (#[trigger] run[i]).index == base.last_index()
        + 1 + i by {
        assert(run[i] == new[next - prev.0 - 1 + i]);
    }
    lemma_appended_entries(base, run, next);
    lemma_appended_run(base, run);
    let after = reconciled(log, new);
    assert(after == base.appended(run));
    assert forall|k: u64| #[trigger] after.entries.contains_key(k) implies {
        ||| log.entries.contains_key(k) && after.entries[k] == log.entries[k]
        ||| prev.0 < k <= prev.0 + new.len() && after.entries[k] == new[k - prev.0 - 1]
    } by {
        if next <= k < next + run.len() {
            assert(after.entries[k] == run[k - next]);
            assert(run[k - next] == new[k - prev.0 - 1]);
        } else {
            assert(base.entries.contains_key(k));
            assert(after.entries[k] == base.entries[k]);
        }
    }
    assert(after.wf()) by {
        assert forall|k: u64| #[trigger] after.entries.contains_key(k) implies 1 <= k
            && after.entries[k].index == k && after.entries[k].term >= 1 by {
            if prev.0 < k <= prev.0 + new.len() && after.entries[k] == new[k - prev.0 - 1] {
                assert(new[k - prev.0 - 1].index == k);
                assert(new[k - prev.0 - 1].term >= 1);
            }
        }
    }
    assert forall|i: int|
        0 <= i < new.len() && (#[trigger] new[i]).index
            > log.included_index.0 implies after.entries.contains_key(new[i].index)
        && after.entries[new[i].index].term == new[i].term by {
        let k = new[i].index;
        if k < next {
            assert(base.entries.contains_key(k));
            assert(after.entries[k] == base.entries[k]);
            assert(log.term_at(k) == log.entries[k].term);
            if let Some(c) = at {
                assert(k < new[c].index);
            }
            assert(!conflicts(log, new[i]));
        } else {
            assert(after.entries[k] == run[k - next]);
            assert(run[k - next] == new[i]);
        }
    }
    assert forall|k: u64| k <= prev.0 implies (#[trigger] after.entries.contains_key(k)
        <==> log.entries.contains_key(k)) by {
        assert(base.entries.contains_key(k) <==> log.entries.contains_key(k));
    }
}

/// A leader's request that fits the log and has no gaps is always taken in.
/// Afterwards the log holds, beyond the snapshot, an entry of the same term
/// wherever the leader has one; up to `prev` it holds what it held before; and
/// it holds nothing that was neither there before nor sent.
pub proof fn law_reconciled_log_matches_leader(
    log: LogState,
    prev: LogIndex,
    prev_term: Term,
    new: Seq<EntryView>,
)
    requires
        log.wf(),
        log.dense(),
        consistent_at(log, prev, prev_term),
        contiguous(new, prev),
        termed(new),
        prev.0 + new.len() < u64::MAX,
        log.last_index() < u64::MAX,
    ensures
        log_extension(log, new) is Run,
        forall|i: int|
            0 <= i < new.len() && (#[trigger] new[i]).index > log.included_index.0 ==> reconciled(
                log,
                new,
            ).entries.contains_key(new[i].index) && reconciled(log, new).entries[new[i].index].term
                == new[i].term,
        forall|k: u64|
            k <= prev.0 && #[trigger] log.entries.contains_key(k) ==> reconciled(
                log,
                new,
            ).entries.contains_key(k) && reconciled(log, new).entries[k] == log.entries[k],
        forall|k: u64| #[trigger]
            reconciled(log, new).entries.contains_key(k) ==> {
                ||| log.entries.contains_key(k) && reconciled(log, new).entries[k]
                    == log.entries[k]
                ||| prev.0 < k <= prev.0 + new.len() && reconciled(log, new).entries[k] == new[k
                    - prev.0 - 1]
            },
{
    lemma_reconciled(log, prev, prev_term, new);
    assert forall|k: u64| k <= prev.0 && #[trigger] log.entries.contains_key(k) implies reconciled(
        log,
        new,
    ).entries.contains_key(k) && reconciled(log, new).entries[k] == log.entries[k] by {
        assert(reconciled(log, new).entries.contains_key(k));
    }
}

/// Reconciling keeps a log sound: every entry under its own index, no index
/// missing after the snapshot.
pub proof fn law_reconciling_keeps_log_sound(
    log: LogState,
    prev: LogIndex,
    prev_term: Term,
    new: Seq<EntryView>,
)
    requires
        log.wf(),
        log.dense(),
        consistent_at(log, prev, prev_term),
        contiguous(new, prev),
        termed(new),
        prev.0 + new.len() < u64::MAX,
        log.last_index() < u64::MAX,
    ensures
        reconciled(log, new).wf(),
        reconciled(log, new).dense(),
        reconciled(log, new).last_index() >= prev.0 + new.len(),
{
    lemma_reconciled(log, prev, prev_term, new);
}

/// No request tears a hole into a log, whether it fits or not.
pub proof fn law_no_request_tears_a_hole(log: LogState, new: Seq<EntryView>)
    requires
        log.dense(),
    ensures
        reconciled(log, new).dense(),
{
    let base = without_conflict(log, new);
    if let Some(at) = crate::reconciliation::first_conflict(log, new) {
        lemma_truncated_end(log, at);
    }
    if let Extension::Run(run) = log_extension(log, new) {
        crate::reconciliation::lemma_run_is_contiguous(new, (base.last_index() + 1) as u64);
        lemma_appended_run(base, run);
    }
}

/// What a leader agrees with survives its request: if no entry of the request up
/// to `boundary` conflicts with the log, the log holds up to there what it held
/// before. A committed entry that the leader has as well is never lost.
pub proof fn law_agreed_entries_survive(
    log: LogState,
    prev: LogIndex,
    prev_term: Term,
    new: Seq<EntryView>,
    boundary: LogIndex,
)
    requires
        log.wf(),
        log.dense(),
        consistent_at(log, prev, prev_term),
        contiguous(new, prev),
        termed(new),
        prev.0 + new.len() < u64::MAX,
        log.last_index() < u64::MAX,
        forall|i: int|
            0 <= i < new.len() && (#[trigger] new[i]).index <= boundary.0 ==> !conflicts(
                log,
                new[i],
            ),
    ensures
        forall|k: u64|
            k <= boundary.0 && #[trigger] log.entries.contains_key(k) ==> reconciled(
                log,
                new,
            ).entries.contains_key(k) && reconciled(log, new).entries[k] == log.entries[k],
{
    lemma_last_index(log);
    let base = without_conflict(log, new);
    let at = lemma_first_conflict(log, new);
    if let Some(i) = at {
        lemma_truncated_end(log, LogIndex(new[i].index));
        assert(new[i].index > boundary.0);
    }
    lemma_last_index(base);
    let next = (base.last_index() + 1) as u64;
    lemma_contiguous_extension(new, prev, next);
    let run = extension(new, next)->0;
    assert forall|i: int| 0 <= i < run.len() implies (#[trigger] run[i]).index == next + i by {
        assert(run[i] == new[next - prev.0 - 1 + i]);
    }
    lemma_appended_entries(base, run, next);
    assert forall|k: u64| k <= boundary.0 && #[trigger] log.entries.contains_key(k) implies reconciled(
        log,
        new,
    ).entries.contains_key(k) && reconciled(log, new).entries[k] == log.entries[k] by {
        assert(base.entries.contains_key(k));
        assert(k <= base.last_index());
        assert(base.appended(run).entries[k] == base.entries[k]);
    }
}

/// Taking the same request in twice does no more than taking it in once.
pub proof fn law_reconciling_is_idempotent(
    log: LogState,
    prev: LogIndex,
    prev_term: Term,
    new: Seq<EntryView>,
)
    requires
        log.wf(),
        log.dense(),
        consistent_at(log, prev, prev_term),
        contiguous(new, prev),
        termed(new),
        prev.0 + new.len() < u64::MAX,
        log.last_index() < u64::MAX,
    ensures
        reconciled(reconciled(log, new), new) == reconciled(log, new),
{
    lemma_reconciled(log, prev, prev_term, new);
    lemma_last_index(log);
    let base = without_conflict(log, new);
    let first = lemma_first_conflict(log, new);
    if let Some(c) = first {
        lemma_truncated_end(log, LogIndex(new[c].index));
    }
    lemma_last_index(base);
    let next = (base.last_index() + 1) as u64;
    lemma_contiguous_extension(new, prev, next);
    let run = extension(new, next)->0;
    assert forall|i: int| 0 <= i < run.len() implies (#[trigger] run[i]).index == next + i by {
        assert(run[i] == new[next - prev.0 - 1 + i]);
    }
    lemma_appended_entries(base, run, next);
    let after = reconciled(log, new);
    assert(after == base.appended(run));
    match lemma_first_conflict(after, new) {
        None => {
            lemma_contiguous_extension(new, prev, (after.last_index() + 1) as u64);
            assert(extension(new, (after.last_index() + 1) as u64) == Extension::Run(Seq::empty()));
        },
        Some(i) => {
            let at = new[i].index;
            assert(conflicts(after, new[i]));
            if at > log.included_index.0 {
                assert(after.entries[at].term == new[i].term);
            }
            assert(at <= log.included_index.0);
            if at < log.included_index.0 {
                assert(after.entries.contains_key(at));
                assert(base.entries.contains_key(at));
                assert(after.entries[at] == base.entries[at]);
                assert(conflicts(log, new[i]));
                let c = first->0;
                assert(c <= i);
                assert(new[c].index <= at);
            }
            assert(at == log.included_index.0);
            assert(conflicts(log, new[i]));
            let c = first->0;
            assert(c <= i);
            assert(new[c].index <= at);
            let cut = after.truncated(LogIndex(at));
            assert forall|k: u64| cut.entries.contains_key(k) <==> base.entries.contains_key(k) by {
                if base.entries.contains_key(k) {
                    assert(k < new[c].index);
                    assert(after.entries.contains_key(k));
                }
            }
            assert(cut.entries =~= base.entries) by {
                assert forall|k: u64| cut.entries.contains_key(k) implies cut.entries[k]
                    == base.entries[k] by {
                    assert(after.entries[k] == base.entries[k]);
                }
            }
            assert(cut == base);
        },
    }
}

/// A command that a leader appends is the end of the log and can be read back;
/// all that was there before stays.
pub proof fn law_appended_entry_is_read_back(log: LogState, entry: EntryView)
    requires
        entry.index == log.last_index() + 1,
        entry.index < u64::MAX,
    ensures
        log.appended(seq![entry]).last_index() == entry.index,
        log.appended(seq![entry]).last_term() == entry.term,
        log.appended(seq![entry]).range(entry.index, entry.index as int) == seq![entry],
        forall|k: u64| #[trigger]
            log.entries.contains_key(k) ==> log.appended(seq![entry]).entries.contains_key(k)
                && log.appended(seq![entry]).entries[k] == log.entries[k],
{
    let run = seq![entry];
    lemma_last_index(log);
    lemma_appended_entries(log, run, entry.index);
    lemma_appended_run(log, run);
    crate::storage::lemma_range_single(log.appended(run), entry.index);
    assert(log.appended(run).entries[entry.index] == run[0]);
    assert forall|k: u64| #[trigger] log.entries.contains_key(k) implies log.appended(
        run,
    ).entries.contains_key(k) && log.appended(run).entries[k] == log.entries[k] by {
        assert(k <= log.last_index());
        assert(log.appended(run).entries.contains_key(k));
    }
}

/// Compacting a log at an index that it holds forgets nothing but the entries
/// up to there: the log ends where it did, in the same term, every later entry
/// stays, and the term of the last forgotten entry is still known.
pub proof fn law_compaction_keeps_what_follows(log: LogState, at: LogIndex)
    requires
        log.wf(),
        log.dense(),
        log.included_index.0 < at.0 <= log.last_index(),
    ensures
        ({
            let after = log.with_snapshot(at, Term(log.term_at(at.0))).front_truncated(at);
            &&& after.last_index() == log.last_index()
            &&& after.last_term() == log.last_term()
            &&& after.wf()
            &&& after.dense()
            &&& forall|k: u64| k >= at.0 ==> #[trigger] after.term_at(k) == log.term_at(k)
            &&& forall|k: u64|
                k > at.0 && #[trigger] log.entries.contains_key(k) ==> after.entries.contains_key(k)
                    && after.entries[k] == log.entries[k]
        }),
{
    lemma_last_index(log);
    let after = log.with_snapshot(at, Term(log.term_at(at.0))).front_truncated(at);
    assert(log.entries.contains_key(at.0));
    assert(log.entries.contains_key(log.last_index()));
    assert(after.ends_at(log.last_index()));
    lemma_last_index_unique(after, log.last_index());
    assert forall|k: u64| after.included_index.0 < k <= after.last_index() implies #[trigger] after.entries.contains_key(
        k,
    ) by {
        assert(log.entries.contains_key(k));
    }
}

/// A snapshot that reaches beyond the log becomes its end, in the snapshot's
/// term, and leaves no gap.
pub proof fn law_snapshot_beyond_log_is_its_end(log: LogState, index: LogIndex, term: Term)
    requires
        index.0 > log.last_index(),
    ensures
        log.with_snapshot(index, term).last_index() == index.0,
        log.with_snapshot(index, term).last_term() == term.0,
        log.with_snapshot(index, term).term_at(index.0) == term.0,
        log.with_snapshot(index, term).dense(),
{
    lemma_last_index(log);
    let after = log.with_snapshot(index, term);
    assert(after.ends_at(index.0));
    lemma_last_index_unique(after, index.0);
}

// --- Votes and terms ---

/// A vote is given once per term: a node that has voted may vote in the same
/// term for nobody else.
pub proof fn law_one_vote_per_term(
    node: NodeView,
    chosen: NodeId,
    candidate: NodeId,
    term: Term,
    last_index: LogIndex,
    last_term: Term,
)
    requires
        node.log.voted_for == Some(chosen),
        node.may_vote(candidate, term, last_index, last_term),
    ensures
        candidate == chosen,
        term == node.log.current_term,
{
}

/// What no step undoes, no sequence of steps undoes.
pub proof fn law_steps_add_up(first: LogicalView, second: LogicalView, third: LogicalView)
    requires
        first.upholds(second),
        second.upholds(third),
    ensures
        first.upholds(first),
        first.upholds(third),
{
}

/// A vote lasts as long as its term: whatever steps a node takes, as long as it
/// stays in the term it has still voted for the same candidate.
pub proof fn law_vote_lasts_for_its_term(before: LogicalView, after: LogicalView, chosen: NodeId)
    requires
        before.upholds(after),
        after.node is Some,
        before.node->0.log.voted_for == Some(chosen),
        before.term() == after.term(),
    ensures
        after.node->0.log.voted_for == Some(chosen),
{
}

/// A halted node stays halted, whatever steps are tried on it.
pub proof fn law_halt_is_final(before: LogicalView, after: LogicalView)
    requires
        before.upholds(after),
        before.node is None,
    ensures
        after.node is None,
        after.due() == TickAction::Stop,
{
}

/// Two nodes that win an election for the same term in the same cluster are one
/// node: `logs` is what each member has stored, and whoever is counted as a
/// voter has stored its vote.
pub proof fn law_one_winner_per_term(
    cluster: Set<u64>,
    logs: Map<u64, LogState>,
    a: LogicalView,
    b: LogicalView,
    term: Term,
)
    requires
        cluster.finite(),
        cluster.len() >= 1,
        a.elected(term, (cluster.len() - 1) as nat),
        b.elected(term, (cluster.len() - 1) as nat),
        a.node->0.role->votes.subset_of(cluster),
        b.node->0.role->votes.subset_of(cluster),
        forall|n: u64| #[trigger]
            a.node->0.role->votes.contains(n) ==> logs[n].current_term == term
                && logs[n].voted_for == Some(a.node->0.identity.node),
        forall|n: u64| #[trigger]
            b.node->0.role->votes.contains(n) ==> logs[n].current_term == term
                && logs[n].voted_for == Some(b.node->0.identity.node),
    ensures
        a.node->0.identity.node == b.node->0.identity.node,
{
    let first = a.node->0.role->votes;
    let second = b.node->0.role->votes;
    law_majorities_intersect(cluster, first, second);
    let n = choose|n: u64| first.contains(n) && second.contains(n);
    assert(logs[n].voted_for == Some(a.node->0.identity.node));
    assert(logs[n].voted_for == Some(b.node->0.identity.node));
}

/// Whoever wins an election is at least as recent as some node that holds what
/// was committed: `holders` is a majority that holds it, and every voter has
/// found the winner's log, which ends as given, at least as recent as its own.
pub proof fn law_winner_is_as_recent_as_a_holder(
    cluster: Set<u64>,
    logs: Map<u64, LogState>,
    holders: Set<u64>,
    voters: Set<u64>,
    last_term: Term,
    last_index: LogIndex,
)
    requires
        cluster.finite(),
        holders.subset_of(cluster),
        voters.subset_of(cluster),
        holders.len() >= quorum(cluster.len()),
        voters.len() >= quorum(cluster.len()),
        forall|n: u64| #[trigger]
            voters.contains(n) ==> up_to_date(logs[n], last_term, last_index),
    ensures
        exists|n: u64|
            holders.contains(n) && voters.contains(n) && #[trigger] up_to_date(
                logs[n],
                last_term,
                last_index,
            ),
{
    law_majorities_intersect(cluster, holders, voters);
    let n = choose|n: u64| holders.contains(n) && voters.contains(n);
    assert(up_to_date(logs[n], last_term, last_index));
}

/// A log is at least as recent as itself, and of two logs one is at least as
/// recent as the other.
pub proof fn law_recency_is_total(a: LogState, b: LogState)
    ensures
        up_to_date(a, Term(a.last_term()), LogIndex(a.last_index())),
        up_to_date(a, Term(b.last_term()), LogIndex(b.last_index())) || up_to_date(
            b,
            Term(a.last_term()),
            LogIndex(a.last_index()),
        ),
{
}

/// Recency carries over: a log that is at least as recent as a second, which is
/// at least as recent as a third, is at least as recent as the third.
pub proof fn law_recency_is_transitive(a: LogState, b: LogState, c: LogState)
    requires
        up_to_date(b, Term(a.last_term()), LogIndex(a.last_index())),
        up_to_date(c, Term(b.last_term()), LogIndex(b.last_index())),
    ensures
        up_to_date(c, Term(a.last_term()), LogIndex(a.last_index())),
{
}

/// A pre-vote campaign leaves no trace: neither starting it nor, at any later
/// tick, giving it up touches the term, the vote, the log or a boundary of the
/// node.
pub proof fn law_pre_vote_leaves_no_trace(before: LogicalView, now: Tick, after: LogicalView)
    requires
        before.node is Some,
        ({
            let campaigning = LogicalView { tick: now, ..before.sounding_out() };
            campaigning.follows(after, campaigning.term(), None)
        }),
    ensures
        before.sounding_out().node matches Some(n) && n == before.node->0.in_role(n.role),
        after.node matches Some(n) && n == before.node->0.in_role(n.role),
{
}

// --- Timers ---

/// A follower that hears nothing starts no election before the shortest
/// timeout and one at the latest after the longest.
pub proof fn law_election_starts_within_window(v: LogicalView)
    requires
        v.node is Some,
        v.node->0.role is Follower,
        v.thresholds.admits(v.node->0.role->Follower_timeout),
    ensures
        v.tick.since(v.node->0.role->last_heartbeat) < v.thresholds.min_election.0 ==> v.due()
            == TickAction::Idle,
        v.tick.since(v.node->0.role->last_heartbeat) >= v.thresholds.max_election.0 ==> v.due()
            == TickAction::StartElection,
{
}

/// A heartbeat puts the election off: right after it a follower whose timeout
/// is not zero has nothing to do.
pub proof fn law_heartbeat_puts_election_off(v: LogicalView)
    requires
        v.node is Some,
        v.node->0.role is Follower,
        v.node->0.role->Follower_timeout.0 > 0,
    ensures
        v.refreshed().due() == TickAction::Idle,
{
}

/// A leader sends heartbeats one interval apart: none is due before the
/// interval since the last one has passed, and one is due from then on.
pub proof fn law_heartbeats_keep_their_interval(v: LogicalView)
    requires
        v.node is Some,
        v.node->0.role is Leader,
    ensures
        v.due() == (if v.tick.since(v.node->0.role->Leader_0.last_heartbeat)
            < v.thresholds.heartbeat_interval.0 {
            TickAction::Idle
        } else {
            TickAction::SendHeartbeat
        }),
        v.thresholds.heartbeat_interval.0 > 0 ==> v.refreshed().due() == TickAction::Idle,
{
}

// --- Commitment ---

/// Some index is the last that a majority holds.
proof fn lemma_majority_index_exists(
    match_index: Map<u64, LogIndex>,
    own_last: u64,
    bound: u64,
)
    requires
        match_index.dom().finite(),
        forall|y: u64|
            y > bound ==> #[trigger] copies(match_index, own_last, y) < quorum(
                match_index.dom().len() + 1,
            ),
    ensures
        exists|index: u64| is_majority_index(match_index, own_last, index),
    decreases bound,
{
    let needed = quorum(match_index.dom().len() + 1);
    if copies(match_index, own_last, bound) >= needed {
        assert(is_majority_index(match_index, own_last, bound));
    } else if bound == 0 {
        assert(holders(match_index, 0) =~= match_index.dom());
        assert(copies(match_index, own_last, 0) == match_index.dom().len() + 1);
    } else {
        assert forall|y: u64| y > bound - 1 implies #[trigger] copies(match_index, own_last, y)
            < needed by {}
        lemma_majority_index_exists(match_index, own_last, (bound - 1) as u64);
    }
}

/// What a leader commits is new, was written in its own term, is in its own
/// log, and is held by a majority of the cluster.
pub proof fn law_leader_commits_only_what_a_majority_holds(node: NodeView)
    requires
        node.role is Leader,
        node.role->Leader_0.match_index.dom().finite(),
        node.log.current_term.0 >= 1,
        node.commit_point() is Some,
    ensures
        ({
            let index = node.commit_point()->0;
            let l = node.role->Leader_0;
            &&& index.0 > node.last_committed.0
            &&& node.log.term_at(index.0) == node.log.current_term.0
            &&& index.0 <= node.log.last_index()
            &&& copies(l.match_index, node.log.last_index(), index.0) >= quorum(
                l.match_index.dom().len() + 1,
            )
        }),
{
    let l = node.role->Leader_0;
    lemma_last_index(node.log);
    lemma_majority_index_exists(l.match_index, node.log.last_index(), u64::MAX);
    assert(is_majority_index(
        l.match_index,
        node.log.last_index(),
        majority_index(l.match_index, node.log.last_index()),
    ));
}

/// A follower takes over the leader's commit boundary no further than its own
/// log reaches, and never moves its own boundary back.
pub proof fn law_follower_commits_within_its_log(
    node: NodeView,
    prev: LogIndex,
    prev_term: Term,
    new: Seq<EntryView>,
    leader_commit: LogIndex,
)
    ensures
        ({
            let after = node.after_reconciling(prev, prev_term, new, leader_commit);
            &&& after.last_committed.0 >= node.last_committed.0
            &&& after.last_committed.0 > node.last_committed.0 ==> after.last_committed.0
                <= after.log.last_index() && after.last_committed.0 <= leader_commit.0
        }),
{
}

/// Commands are applied in the order of the log, each index once.
pub proof fn law_commands_follow_the_log(log: LogState, from: int, to: int)
    requires
        0 <= from <= to <= u64::MAX,
    ensures
        commands(log, from, to).len() == to - from,
        forall|i: int|
            0 <= i < to - from ==> (#[trigger] commands(log, from, to)[i]).index == from + 1 + i
                && commands(log, from, to)[i].data == log.entries[(from + 1 + i) as u64].data,
    decreases to - from,
{
    if from < to {
        law_commands_follow_the_log(log, from, to - 1);
        assert forall|i: int| 0 <= i < to - from implies (#[trigger] commands(log, from, to)[i]).index
            == from + 1 + i && commands(log, from, to)[i].data == log.entries[(from + 1
            + i) as u64].data by {
            if i < to - 1 - from {
                assert(commands(log, from, to)[i] == commands(log, from, to - 1)[i]);
            }
        }
    }
}

/// Applying in two goes applies the same as in one: what was applied up to
/// `mid`, then up to `to`.
pub proof fn law_applying_can_be_split(log: LogState, from: int, mid: int, to: int)
    requires
        from <= mid <= to,
    ensures
        commands(log, from, mid) + commands(log, mid, to) == commands(log, from, to),
    decreases to - mid,
{
    if mid < to {
        law_applying_can_be_split(log, from, mid, to - 1);
        assert(commands(log, from, mid) + commands(log, mid, to) =~= commands(log, from, to));
    } else {
        assert(commands(log, from, mid) + commands(log, mid, to) =~= commands(log, from, to));
    }
}

// --- Replication ---

impl LeaderView {
    /// Whether no peer is to be sent anything from before the first entry, and
    /// no round was confirmed before it was started.
    pub open spec fn sound(self) -> bool {
        &&& forall|p: u64| #[trigger] self.next_index.contains_key(p) ==> self.next_index[p].0 >= 1
        &&& self.confirmed_read_epoch <= self.current_read_epoch
    }
}

/// The index that a peer is tried at after rejections that reported these ends
/// of its log.
pub open spec fn tried_after(next: u64, reported: Seq<u64>) -> u64
    decreases reported.len(),
{
    if reported.len() == 0 {
        next
    } else {
        tried_after(backed_off(next, reported.first()), reported.drop_first())
    }
}

/// A leader starts out sound, as long as its log can grow at all.
pub proof fn law_fresh_leader_is_sound(peers: Set<u64>, last: LogIndex, now: Tick)
    requires
        last.0 < u64::MAX,
    ensures
        fresh_leader(peers, last, now).sound(),
{
}

/// No answer of a peer makes a sound leader unsound, and the index to send next
/// never has to go back before the first entry.
pub proof fn law_answers_keep_leader_sound(
    l: LeaderView,
    peer: NodeId,
    term: Term,
    outcome: ReplicationOutcome,
)
    requires
        l.sound(),
    ensures
        match l.absorb(peer, term, outcome) {
            ReplyEffect::Adjusted(next) => next.sound(),
            ReplyEffect::Advanced(next) => next.sound(),
            ReplyEffect::Broken(e) => !(e is BackoffUnderflow),
        },
        l.next_for(peer@).0 >= 1,
{
}

/// An accepted request only ever adds to what a peer is known to hold, and the
/// peer is sent what follows.
pub proof fn law_accepted_entries_are_never_forgotten(
    l: LeaderView,
    peer: NodeId,
    term: Term,
    prev: LogIndex,
    len: u64,
    other: u64,
)
    ensures
        match l.absorb_success(peer, term, prev, len) {
            ReplyEffect::Adjusted(next) => next == l,
            ReplyEffect::Advanced(next) => {
                &&& next.match_for(peer@).0 > l.match_for(peer@).0
                &&& next.next_for(peer@).0 == next.match_for(peer@).0 + 1
                &&& other != peer@ ==> next.match_for(other) == l.match_for(other)
                    && next.next_for(other) == l.next_for(other)
            },
            ReplyEffect::Broken(_) => prev.0 + len >= u64::MAX,
        },
{
}

/// A peer that rejects a request is tried further back each time, until the
/// whole log is sent, wherever it says that its own log ends; what it is known
/// to hold stays known, and no other peer is affected.
pub proof fn law_rejections_make_progress(
    l: LeaderView,
    peer: NodeId,
    term: Term,
    last: LogIndex,
    other: u64,
)
    requires
        l.next_for(peer@).0 > 1,
        last.0 < u64::MAX,
    ensures
        match l.absorb_mismatch(peer, term, last) {
            ReplyEffect::Adjusted(next) => {
                &&& 1 <= next.next_for(peer@).0 < l.next_for(peer@).0
                &&& next.match_index == l.match_index
                &&& other != peer@ ==> next.next_for(other) == l.next_for(other)
            },
            _ => false,
        },
{
}

/// Rejected often enough, a peer is tried at the first entry: each rejection
/// takes at least one step back, whatever end of its log the peer reports.
pub proof fn law_rejections_reach_the_first_entry(next: u64, reported: Seq<u64>)
    requires
        next >= 1,
        reported.len() >= next - 1,
        forall|i: int| 0 <= i < reported.len() ==> (#[trigger] reported[i]) < u64::MAX,
    ensures
        tried_after(next, reported) == 1,
    decreases reported.len(),
{
    if reported.len() > 0 {
        if next > 1 {
            law_rejections_reach_the_first_entry(
                backed_off(next, reported.first()),
                reported.drop_first(),
            );
        } else {
            law_rejections_reach_the_first_entry(next, reported.drop_first());
        }
    }
}

/// A range without gaps lists the entries one by one.
proof fn lemma_full_range(log: LogState, start: u64, end: int)
    requires
        start - 1 <= end <= u64::MAX,
        forall|k: u64| start <= k <= end ==> #[trigger] log.entries.contains_key(k),
    ensures
        log.range(start, end).len() == end - start + 1,
        forall|i: int|
            0 <= i <= end - start ==> #[trigger] log.range(start, end)[i] == log.entries[(start
                + i) as u64],
    decreases end - start + 1,
{
    if start <= end {
        lemma_full_range(log, start, end - 1);
        assert(log.entries.contains_key(end as u64));
        assert forall|i: int| 0 <= i <= end - start implies #[trigger] log.range(start, end)[i]
            == log.entries[(start + i) as u64] by {
            if i < end - start {
                assert(log.range(start, end)[i] == log.range(start, end - 1)[i]);
            }
        }
    }
}

/// What a leader sends to a peer that is not behind its snapshot has no gaps,
/// starts right after the entry that the request is anchored at, and ends where
/// the leader's log ends.
pub proof fn law_leader_sends_its_log_without_gaps(
    leader: NodeView,
    peer: u64,
    term: Term,
    leader_id: NodeId,
    commit: LogIndex,
)
    requires
        leader.log.wf(),
        leader.log.dense(),
        leader.log.included_index.0 < leader.next_for(peer).0 <= leader.log.last_index() + 1,
    ensures
        ({
            let sent = leader.request_for(peer, term, leader_id, commit);
            &&& sent.prev_log_index.0 + 1 == leader.next_for(peer).0
            &&& contiguous(sent.entries, sent.prev_log_index)
            &&& termed(sent.entries)
            &&& sent.prev_log_index.0 + sent.entries.len() == leader.log.last_index()
            &&& forall|i: int|
                0 <= i < sent.entries.len() ==> #[trigger] sent.entries[i]
                    == leader.log.entries[(leader.next_for(peer).0 + i) as u64]
        }),
{
    let next = leader.next_for(peer).0;
    let last = leader.log.last_index();
    assert forall|k: u64| next <= k <= last implies #[trigger] leader.log.entries.contains_key(
        k,
    ) by {}
    lemma_full_range(leader.log, next, last as int);
    let sent = leader.request_for(peer, term, leader_id, commit);
    assert forall|i: int| 0 <= i < sent.entries.len() implies (#[trigger] sent.entries[i]).index
        == sent.prev_log_index.0 + 1 + i && sent.entries[i].term >= 1 by {
        assert(leader.log.entries.contains_key((next + i) as u64));
    }
}

/// A follower that takes a leader's request in has, beyond its own snapshot,
/// an entry of the same term as the leader at every index that was sent, up to
/// the end of the leader's log; and that is what the leader then knows of it.
pub proof fn law_accepted_request_replicates_the_leader(
    leader: NodeView,
    follower: LogState,
    peer: NodeId,
    term: Term,
    leader_id: NodeId,
    commit: LogIndex,
)
    requires
        leader.role is Leader,
        leader.log.wf(),
        leader.log.dense(),
        leader.log.last_index() < u64::MAX,
        leader.log.included_index.0 < leader.next_for(peer@).0 <= leader.log.last_index() + 1,
        follower.wf(),
        follower.dense(),
        follower.last_index() < u64::MAX,
        consistent_at(
            follower,
            leader.request_for(peer@, term, leader_id, commit).prev_log_index,
            leader.request_for(peer@, term, leader_id, commit).prev_log_term,
        ),
    ensures
        ({
            let sent = leader.request_for(peer@, term, leader_id, commit);
            let after = reconciled(follower, sent.entries);
            &&& log_extension(follower, sent.entries) is Run
            &&& after.last_index() >= leader.log.last_index()
            &&& forall|k: u64|
                leader.next_for(peer@).0 <= k <= leader.log.last_index() && k
                    > follower.included_index.0 ==> #[trigger] after.term_at(k)
                    == leader.log.term_at(k)
            &&& leader.role->Leader_0.absorb_success(
                peer,
                term,
                sent.prev_log_index,
                sent.entries.len() as u64,
            ) matches ReplyEffect::Advanced(l) ==> l.match_for(peer@).0 == leader.log.last_index()
        }),
{
    let sent = leader.request_for(peer@, term, leader_id, commit);
    law_leader_sends_its_log_without_gaps(leader, peer@, term, leader_id, commit);
    lemma_reconciled(follower, sent.prev_log_index, sent.prev_log_term, sent.entries);
    let after = reconciled(follower, sent.entries);
    let next = leader.next_for(peer@).0;
    assert forall|k: u64|
        next <= k <= leader.log.last_index() && k > follower.included_index.0 implies #[trigger] after.term_at(
        k,
    ) == leader.log.term_at(k) by {
        let i = k - next;
        assert(sent.entries[i] == leader.log.entries[k]);
        assert(sent.entries[i].index == k);
        assert(leader.log.entries.contains_key(k));
    }
}

// --- Linearizable reads ---

/// The round that a read waits for was not confirmed when the read was asked
/// for, and starting it leaves the leader sound.
pub proof fn law_read_waits_for_a_later_round(l: LeaderView, self_id: u64)
    requires
        l.sound(),
        l.confirmed_read_epoch == l.current_read_epoch ==> l.current_read_epoch < u64::MAX,
    ensures
        l.probing(self_id).current_read_epoch > l.confirmed_read_epoch,
        l.probing(self_id).confirmed_read_epoch == l.confirmed_read_epoch,
        l.probing(self_id).sound(),
{
}

/// A round is confirmed by the answer that completes a majority, and by no
/// other; an answer never takes a confirmation back.
pub proof fn law_round_is_confirmed_by_a_majority(l: LeaderView, peer: u64, needed: nat)
    requires
        l.sound(),
    ensures
        l.acknowledged(peer, needed).sound(),
        l.acknowledged(peer, needed).confirmed_read_epoch >= l.confirmed_read_epoch,
        l.acknowledged(peer, needed).confirmed_read_epoch != l.confirmed_read_epoch
            ==> l.acks.insert(peer).len() >= needed,
        l.acks.insert(peer).len() >= needed ==> l.acknowledged(peer, needed).confirmed_read_epoch
            == l.current_read_epoch,
{
}

// --- Freezing ---

/// Ending a snapshot task undoes starting it, and the state machine stays
/// frozen until the last of them has ended.
pub proof fn law_thawing_undoes_freezing(v: LogicalView)
    requires
        v.freezes < u32::MAX,
    ensures
        v.frozen().thawed() == v,
        v.frozen().freezes > 0,
        v.freezes > 0 ==> v.frozen().thawed().freezes > 0,
{
}

} // verus!
