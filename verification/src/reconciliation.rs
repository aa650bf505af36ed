//! What it means to bring a log in step with a leader.
//!
//! Nothing here is executable: this is the mathematics that the follower's
//! contracts speak of.
use vstd::prelude::*;

verus! {

use crate::storage::LogState;
use crate::types::EntryView;
use crate::types::LogIndex;
use crate::types::Term;

/// Whether the log holds another entry than `entry` at the same index: one of
/// another term.
pub open spec fn conflicts(log: LogState, entry: EntryView) -> bool {
    log.term_at(entry.index) != 0 && log.term_at(entry.index) != entry.term
}

/// The index of the first entry of `new` that conflicts with the log.
pub open spec fn first_conflict(log: LogState, new: Seq<EntryView>) -> Option<LogIndex>
    decreases new.len(),
{
    if new.len() == 0 {
        None
    } else if conflicts(log, new.first()) {
        Some(LogIndex(new.first().index))
    } else {
        first_conflict(log, new.drop_first())
    }
}

/// The log without its tail from the first conflict with `new` on.
pub open spec fn without_conflict(log: LogState, new: Seq<EntryView>) -> LogState {
    match first_conflict(log, new) {
        Some(at) => log.truncated(at),
        None => log,
    }
}

/// What `new` adds to a log that expects `next` as its next index.
pub enum Extension {
    /// These entries, which follow one another from `next` on.
    Run(Seq<EntryView>),
    /// Nothing: `new` leaves an index out.
    Gap,
    /// Nothing: `new` reaches the last representable index.
    Overflow,
}

/// Drops from `new` what lies below the expected index, and checks that the
/// rest follows without a gap.
pub open spec fn extension(new: Seq<EntryView>, next: u64) -> Extension
    decreases new.len(),
{
    if new.len() == 0 {
        Extension::Run(Seq::empty())
    } else {
        match extension(new.drop_last(), next) {
            Extension::Run(run) => {
                let expected = next + run.len();
                if new.last().index < expected {
                    Extension::Run(run)
                } else if new.last().index > expected {
                    Extension::Gap
                } else if new.last().index == u64::MAX {
                    Extension::Overflow
                } else {
                    Extension::Run(run.push(new.last()))
                }
            },
            other => other,
        }
    }
}

/// What writing `new` into the log adds to it, once conflicts are cut away.
pub open spec fn log_extension(log: LogState, new: Seq<EntryView>) -> Extension {
    let base = without_conflict(log, new);
    if base.last_index() == u64::MAX {
        Extension::Overflow
    } else {
        extension(new, (base.last_index() + 1) as u64)
    }
}

/// The log after `new` was written into it.
pub open spec fn reconciled(log: LogState, new: Seq<EntryView>) -> LogState {
    match log_extension(log, new) {
        Extension::Run(run) => without_conflict(log, new).appended(run),
        _ => without_conflict(log, new),
    }
}

/// Whether the log agrees with a leader that has an entry of term `term` at
/// `index`.
pub open spec fn consistent_at(log: LogState, index: LogIndex, term: Term) -> bool {
    index.0 == 0 || (index.0 <= log.last_index() && log.term_at(index.0) == term.0)
}

/// Whether a log that ends with an entry of term `term` at `index` is at least
/// as recent as this one: the later term wins, then the longer log.
pub open spec fn up_to_date(log: LogState, term: Term, index: LogIndex) -> bool {
    if term.0 != log.last_term() {
        term.0 > log.last_term()
    } else {
        index.0 >= log.last_index()
    }
}

/// Entries that do not conflict can be passed over.
pub proof fn lemma_first_conflict_skips(log: LogState, new: Seq<EntryView>, n: int)
    requires
        0 <= n <= new.len(),
        forall|i: int| 0 <= i < n ==> !conflicts(log, #[trigger] new[i]),
    ensures
        first_conflict(log, new) == first_conflict(log, new.skip(n)),
    decreases n,
{
    if n == 0 {
        assert(new.skip(0) =~= new);
    } else {
        assert(!conflicts(log, new[0]));
        lemma_first_conflict_skips(log, new.drop_first(), n - 1);
        assert(new.drop_first().skip(n - 1) =~= new.skip(n));
    }
}

/// The entries of a run follow one another, and end below the last index.
pub proof fn lemma_run_is_contiguous(new: Seq<EntryView>, next: u64)
    requires
        extension(new, next) is Run,
    ensures
        forall|i: int|
            0 <= i < extension(new, next)->0.len() ==> (#[trigger] extension(new, next)->0[i]).index
                == next + i,
        next + extension(new, next)->0.len() <= u64::MAX,
        extension(new, next)->0.len() <= new.len(),
    decreases new.len(),
{
    if new.len() > 0 {
        lemma_run_is_contiguous(new.drop_last(), next);
    }
}

/// Once a gap or the end of the index range is met, it stays met.
pub proof fn lemma_extension_sticks(new: Seq<EntryView>, next: u64, n: int)
    requires
        0 <= n <= new.len(),
        !(extension(new.take(n), next) is Run),
    ensures
        extension(new, next) == extension(new.take(n), next),
    decreases new.len() - n,
{
    if n == new.len() {
        assert(new.take(n) =~= new);
    } else {
        assert(new.take(n + 1).drop_last() =~= new.take(n));
        lemma_extension_sticks(new, next, n + 1);
    }
}

} // verus!
