//! The durable state of a node: its term, its vote and its log.
use vstd::prelude::*;

use crate::errors::LogStorageError;
use crate::types::LogEntry;
use crate::types::LogIndex;
use crate::types::NodeId;
use crate::types::Term;

verus! {

use crate::types::EntryView;
use crate::types::entry_views;

/// Whether `index` is the last index of `entries` on top of a snapshot that
/// reaches up to `included`.
pub open spec fn log_ends_at(entries: Map<u64, EntryView>, included: u64, index: u64) -> bool {
    &&& index == included || entries.contains_key(index)
    &&& included <= index
    &&& forall|k: u64| entries.contains_key(k) ==> k <= index
}

/// The last index of `entries` on top of a snapshot that reaches up to
/// `included`.
pub open spec fn log_end(entries: Map<u64, EntryView>, included: u64) -> u64 {
    choose|index: u64| log_ends_at(entries, included, index)
}

/// `entries` with `new` filed in, each under its own index; of two for one
/// index the later counts.
pub open spec fn filed(entries: Map<u64, EntryView>, new: Seq<EntryView>) -> Map<u64, EntryView>
    decreases new.len(),
{
    if new.len() == 0 {
        entries
    } else {
        filed(entries, new.drop_last()).insert(new.last().index, new.last())
    }
}

/// What a log store holds.
#[verifier::ext_equal]
pub struct LogState {
    pub current_term: Term,
    pub voted_for: Option<NodeId>,
    pub last_committed: LogIndex,
    /// The last index that the latest snapshot covers.
    pub included_index: LogIndex,
    /// The term of the entry at `included_index`.
    pub included_term: Term,
    /// The entries that are still in the log, by index.
    pub entries: Map<u64, EntryView>,
}

impl LogState {
    /// The state of a store that was never written to.
    pub open spec fn empty() -> LogState {
        LogState {
            current_term: Term(0),
            voted_for: None,
            last_committed: LogIndex(0),
            included_index: LogIndex(0),
            included_term: Term(0),
            entries: Map::empty(),
        }
    }

    /// Whether the log, counting what the snapshot stands for, ends at `index`.
    pub open spec fn ends_at(self, index: u64) -> bool {
        log_ends_at(self.entries, self.included_index.0, index)
    }

    /// The index at which the log ends.
    pub open spec fn last_index(self) -> u64 {
        log_end(self.entries, self.included_index.0)
    }

    /// The term of the entry at which the log ends.
    pub open spec fn last_term(self) -> u64 {
        if self.entries.contains_key(self.last_index()) {
            self.entries[self.last_index()].term
        } else {
            self.included_term.0
        }
    }

    /// The term that is known for `index`, zero if none is.
    pub open spec fn term_at(self, index: u64) -> u64 {
        if index == 0 {
            0
        } else if index == self.included_index.0 {
            self.included_term.0
        } else if self.entries.contains_key(index) {
            self.entries[index].term
        } else {
            0
        }
    }

    /// Whether every entry is filed under its own index, from 1 on, and was
    /// written in a term, of which the first is 1.
    pub open spec fn wf(self) -> bool {
        forall|k: u64| #[trigger]
            self.entries.contains_key(k) ==> 1 <= k && self.entries[k].index == k
                && self.entries[k].term >= 1
    }

    /// Whether no index between the snapshot and the end of the log is missing.
    pub open spec fn dense(self) -> bool {
        forall|k: u64|
            self.included_index.0 < k <= self.last_index() ==> #[trigger] self.entries.contains_key(
                k,
            )
    }

    /// The state with another term and vote.
    pub open spec fn with_hard_state(self, term: Term, vote: Option<NodeId>) -> LogState {
        LogState { current_term: term, voted_for: vote, ..self }
    }

    /// The state with another commit index.
    pub open spec fn with_committed(self, index: LogIndex) -> LogState {
        LogState { last_committed: index, ..self }
    }

    /// The state with other snapshot coordinates.
    pub open spec fn with_snapshot(self, index: LogIndex, term: Term) -> LogState {
        LogState { included_index: index, included_term: term, ..self }
    }

    /// The state without the entries from `index` on.
    pub open spec fn truncated(self, index: LogIndex) -> LogState {
        LogState {
            entries: Map::new(
                |k: u64| self.entries.contains_key(k) && k < index.0,
                |k: u64| self.entries[k],
            ),
            ..self
        }
    }

    /// The state without the entries up to and including `index`.
    pub open spec fn front_truncated(self, index: LogIndex) -> LogState {
        LogState {
            entries: Map::new(
                |k: u64| self.entries.contains_key(k) && k > index.0,
                |k: u64| self.entries[k],
            ),
            ..self
        }
    }

    /// The state with `new` written, each entry under its own index.
    pub open spec fn appended(self, new: Seq<EntryView>) -> LogState {
        LogState { entries: filed(self.entries, new), ..self }
    }

    /// The entries from `start` to `end`, both included, that are in the log.
    pub open spec fn range(self, start: u64, end: int) -> Seq<EntryView>
        decreases end - start + 1,
    {
        if end < start {
            Seq::empty()
        } else if end <= u64::MAX && self.entries.contains_key(end as u64) {
            self.range(start, end - 1).push(self.entries[end as u64])
        } else {
            self.range(start, end - 1)
        }
    }
}

/// Among the keys of a log up to `bound` there is a last one, or there is none.
proof fn lemma_last_key(entries: Map<u64, EntryView>, bound: u64)
    ensures
        (forall|k: u64| k <= bound ==> !entries.contains_key(k)) || (exists|m: u64|
            #![trigger entries.contains_key(m)]
            m <= bound && entries.contains_key(m) && (forall|k: u64|
                k <= bound && #[trigger] entries.contains_key(k) ==> k <= m)),
    decreases bound,
{
    if entries.contains_key(bound) {
    } else if bound > 0 {
        lemma_last_key(entries, (bound - 1) as u64);
    }
}

/// Every log ends somewhere.
pub proof fn lemma_last_index(log: LogState)
    ensures
        log.ends_at(log.last_index()),
{
    lemma_last_key(log.entries, u64::MAX);
    if forall|k: u64| k <= u64::MAX ==> !log.entries.contains_key(k) {
        assert(log.ends_at(log.included_index.0));
    } else {
        let m = choose|m: u64|
            #![trigger log.entries.contains_key(m)]
            log.entries.contains_key(m) && (forall|k: u64| #[trigger]
                log.entries.contains_key(k) ==> k <= m);
        if m >= log.included_index.0 {
            assert(log.ends_at(m));
        } else {
            assert(log.ends_at(log.included_index.0));
        }
    }
}

/// A log ends at one index only.
pub proof fn lemma_last_index_unique(log: LogState, index: u64)
    requires
        log.ends_at(index),
    ensures
        log.last_index() == index,
{
    lemma_last_index(log);
}

/// Durable storage for the state of a node.
///
/// A store may fail: what a method promises it promises of a call that
/// returned `Ok`. A store that calls itself reliable never fails.
pub trait LogStorage: Sized {
    /// What the store holds.
    spec fn model(&self) -> LogState;

    /// Whether no call on this store fails.
    spec fn reliable(&self) -> bool;

    fn current_term(&self) -> (r: Result<Term, LogStorageError>)
        ensures
            r matches Ok(t) ==> t == self.model().current_term,
            self.reliable() ==> r is Ok,
    ;

    fn voted_for(&self) -> (r: Result<Option<NodeId>, LogStorageError>)
        ensures
            r matches Ok(v) ==> v == self.model().voted_for,
            self.reliable() ==> r is Ok,
    ;

    fn last_log_index(&self) -> (r: Result<LogIndex, LogStorageError>)
        ensures
            r matches Ok(i) ==> i.0 == self.model().last_index(),
            self.reliable() ==> r is Ok,
    ;

    fn last_log_term(&self) -> (r: Result<Term, LogStorageError>)
        ensures
            r matches Ok(t) ==> t.0 == self.model().last_term(),
            self.reliable() ==> r is Ok,
    ;

    fn last_committed(&self) -> (r: Result<LogIndex, LogStorageError>)
        ensures
            r matches Ok(i) ==> i == self.model().last_committed,
            self.reliable() ==> r is Ok,
    ;

    fn last_included_index(&self) -> (r: Result<LogIndex, LogStorageError>)
        ensures
            r matches Ok(i) ==> i == self.model().included_index,
            self.reliable() ==> r is Ok,
    ;

    fn last_included_term(&self) -> (r: Result<Term, LogStorageError>)
        ensures
            r matches Ok(t) ==> t == self.model().included_term,
            self.reliable() ==> r is Ok,
    ;

    /// The entry at `index`, if it is in the log.
    fn read_entry(&self, index: LogIndex) -> (r: Result<Option<LogEntry>, LogStorageError>)
        ensures
            r matches Ok(found) ==> match found {
                Some(e) => self.model().entries.contains_key(index.0) && e@
                    == self.model().entries[index.0],
                None => !self.model().entries.contains_key(index.0),
            },
            self.reliable() ==> r is Ok,
    ;

    /// The entries from `start` to `end`, both included, that are in the log.
    fn read_entries(&self, start: LogIndex, end: LogIndex) -> (r: Result<
        Vec<LogEntry>,
        LogStorageError,
    >)
        ensures
            r matches Ok(v) ==> entry_views(v@) == self.model().range(start.0, end.0 as int),
            self.reliable() ==> r is Ok,
    ;

    /// Replaces term and vote in one step.
    fn save_hard_state(&mut self, term: Term, voted_for: Option<NodeId>) -> (r: Result<
        (),
        LogStorageError,
    >)
        ensures
            r is Ok ==> final(self).model() == old(self).model().with_hard_state(term, voted_for),
            old(self).reliable() ==> r is Ok && final(self).reliable(),
    ;

    fn save_last_committed(&mut self, index: LogIndex) -> (r: Result<(), LogStorageError>)
        ensures
            r is Ok ==> final(self).model() == old(self).model().with_committed(index),
            old(self).reliable() ==> r is Ok && final(self).reliable(),
    ;

    fn save_snapshot_metadata(&mut self, index: LogIndex, term: Term) -> (r: Result<
        (),
        LogStorageError,
    >)
        ensures
            r is Ok ==> final(self).model() == old(self).model().with_snapshot(index, term),
            old(self).reliable() ==> r is Ok && final(self).reliable(),
    ;

    /// Writes `entries`, each under its own index.
    fn append_entries(&mut self, entries: Vec<LogEntry>) -> (r: Result<(), LogStorageError>)
        ensures
            r is Ok ==> final(self).model() == old(self).model().appended(entry_views(entries@)),
            old(self).reliable() ==> r is Ok && final(self).reliable(),
    ;

    /// Drops the entries from `index` on.
    fn truncate_log(&mut self, index: LogIndex) -> (r: Result<(), LogStorageError>)
        ensures
            r is Ok ==> final(self).model() == old(self).model().truncated(index),
            old(self).reliable() ==> r is Ok && final(self).reliable(),
    ;

    /// Drops the entries up to and including `index`, which the recorded
    /// snapshot has to cover.
    fn truncate_log_front(&mut self, index: LogIndex) -> (r: Result<(), LogStorageError>)
        requires
            index.0 <= old(self).model().included_index.0,
        ensures
            r is Ok ==> final(self).model() == old(self).model().front_truncated(index),
            old(self).reliable() ==> r is Ok && final(self).reliable(),
    ;
}

/// A log store that lives in memory and never fails.
#[derive(Debug)]
pub struct MemoryStorage {
    current_term: Term,
    voted_for: Option<NodeId>,
    last_committed: LogIndex,
    included_index: LogIndex,
    included_term: Term,
    /// Ordered by index, no index twice.
    entries: Vec<LogEntry>,
}

/// Whether `entries` is ordered by index, with no index twice.
pub open spec fn ascending(entries: Seq<LogEntry>) -> bool {
    forall|i: int, j: int| 0 <= i < j < entries.len() ==> entries[i].index < entries[j].index
}

/// Whether `entries` holds one for index `k`.
pub open spec fn holds_index(entries: Seq<LogEntry>, k: u64) -> bool {
    exists|i: int| 0 <= i < entries.len() && #[trigger] entries[i].index == k
}

/// Where the entry for index `k` stands in `entries`.
pub open spec fn slot_of(entries: Seq<LogEntry>, k: u64) -> int {
    choose|i: int| 0 <= i < entries.len() && #[trigger] entries[i].index == k
}

/// The entries of an ascending run, by index.
pub open spec fn by_index(entries: Seq<LogEntry>) -> Map<u64, EntryView> {
    Map::new(|k: u64| holds_index(entries, k), |k: u64| entries[slot_of(entries, k)]@)
}

/// In an ascending run each entry is filed under its own index.
proof fn lemma_filed(entries: Seq<LogEntry>, i: int)
    requires
        ascending(entries),
        0 <= i < entries.len(),
    ensures
        by_index(entries).contains_key(entries[i].index),
        by_index(entries)[entries[i].index] == entries[i]@,
{
    let k = entries[i].index;
    assert(holds_index(entries, k));
    let j = slot_of(entries, k);
    assert(0 <= j < entries.len() && entries[j].index == k);
}

impl MemoryStorage {
    #[verifier::type_invariant]
    spec fn inv(self) -> bool {
        ascending(self.entries@)
    }

    /// What the store holds.
    pub closed spec fn contents(&self) -> LogState {
        LogState {
            current_term: self.current_term,
            voted_for: self.voted_for,
            last_committed: self.last_committed,
            included_index: self.included_index,
            included_term: self.included_term,
            entries: by_index(self.entries@),
        }
    }

    /// A store that was never written to.
    pub fn new() -> (r: MemoryStorage)
        ensures
            r.model() == LogState::empty(),
    {
        let r = MemoryStorage {
            current_term: Term(0),
            voted_for: None,
            last_committed: LogIndex(0),
            included_index: LogIndex(0),
            included_term: Term(0),
            entries: Vec::new(),
        };
        assert(r.contents() =~= LogState::empty());
        r
    }
}

/// The number of entries whose index lies below `index`.
fn rank(entries: &Vec<LogEntry>, index: u64) -> (r: usize)
    requires
        ascending(entries@),
    ensures
        r <= entries.len(),
        forall|i: int| 0 <= i < r ==> entries[i].index < index,
        forall|i: int| r <= i < entries.len() ==> entries[i].index >= index,
{
    let mut low: usize = 0;
    let mut high: usize = entries.len();
    while low < high
        invariant
            low <= high <= entries.len(),
            ascending(entries@),
            forall|i: int| 0 <= i < low ==> entries[i].index < index,
            forall|i: int| high <= i < entries.len() ==> entries[i].index >= index,
        decreases high - low,
    {
        let mid: usize = low + (high - low) / 2;
        if entries[mid].index < index {
            low = mid + 1;
        } else {
            high = mid;
        }
    }
    low
}

/// Files one entry under its index, in place of an entry that has the same.
fn file_entry(entries: &mut Vec<LogEntry>, entry: LogEntry)
    requires
        ascending(old(entries)@),
    ensures
        ascending(final(entries)@),
        by_index(final(entries)@) == by_index(old(entries)@).insert(entry.index, entry@),
{
    let ghost before = entries@;
    let ghost filed = entry@;
    let index: u64 = entry.index;
    let slot: usize = rank(entries, index);
    if slot < entries.len() && entries[slot].index == index {
        entries.set(slot, entry);
        proof {
            assert forall|k: u64| holds_index(entries@, k) <==> holds_index(before, k) by {
                if holds_index(before, k) {
                    assert(entries@[slot_of(before, k)].index == k);
                }
                if holds_index(entries@, k) {
                    assert(before[slot_of(entries@, k)].index == k);
                }
            }
            assert(holds_index(before, index)) by {
                assert(before[slot as int].index == index);
            }
        }
    } else {
        entries.insert(slot, entry);
        proof {
            assert(entries@ == before.insert(slot as int, entry));
            assert forall|i: int| 0 <= i < slot implies entries@[i] == before[i] by {}
            assert forall|i: int| slot < i < entries@.len() implies entries@[i] == before[i - 1] by {}
            assert(entries@[slot as int] == entry);
            assert forall|k: u64|
                holds_index(entries@, k) <==> (holds_index(before, k) || k == index) by {
                if holds_index(before, k) {
                    let i = slot_of(before, k);
                    if i < slot {
                        assert(entries@[i].index == k);
                    } else {
                        assert(entries@[i + 1].index == k);
                    }
                }
                if k == index {
                    assert(entries@[slot as int].index == k);
                }
                if holds_index(entries@, k) && k != index {
                    let i = slot_of(entries@, k);
                    if i < slot {
                        assert(before[i].index == k);
                    } else {
                        assert(before[i - 1].index == k);
                    }
                }
            }
        }
    }
    proof {
        assert(ascending(entries@));
        assert forall|k: u64| by_index(entries@).contains_key(k) implies by_index(entries@)[k]
            == by_index(before).insert(index, filed)[k] by {
            let i = slot_of(entries@, k);
            lemma_filed(entries@, i);
            if k != index {
                let j = slot_of(before, k);
                lemma_filed(before, j);
            } else {
                lemma_filed(entries@, slot as int);
            }
        }
        assert(by_index(entries@) =~= by_index(before).insert(index, filed));
    }
}

/// A stretch of indices without entries adds nothing to a range.
proof fn lemma_range_gap(log: LogState, start: u64, from: int, to: int)
    requires
        from <= to,
        forall|k: u64| from < k <= to ==> !log.entries.contains_key(k),
    ensures
        log.range(start, to) == log.range(start, from),
    decreases to - from,
{
    if from < to {
        lemma_range_gap(log, start, from, to - 1);
        if to < start {
            assert(log.range(start, to) =~= log.range(start, from));
        }
    }
}

/// A range that ends before it starts is empty.
proof fn lemma_range_empty(log: LogState, start: u64, end: int)
    requires
        end < start,
    ensures
        log.range(start, end) == Seq::<EntryView>::empty(),
{
}

/// A range of one index holds the entry there, if there is one.
pub proof fn lemma_range_single(log: LogState, index: u64)
    ensures
        log.range(index, index as int) == (if log.entries.contains_key(index) {
            seq![log.entries[index]]
        } else {
            Seq::<EntryView>::empty()
        }),
{
    lemma_range_empty(log, index, index - 1);
    assert(Seq::<EntryView>::empty().push(log.entries[index]) =~= seq![log.entries[index]]);
}

impl LogStorage for MemoryStorage {
    open spec fn model(&self) -> LogState {
        self.contents()
    }

    open spec fn reliable(&self) -> bool {
        true
    }

    fn current_term(&self) -> (r: Result<Term, LogStorageError>) {
        Ok(self.current_term)
    }

    fn voted_for(&self) -> (r: Result<Option<NodeId>, LogStorageError>) {
        Ok(self.voted_for)
    }

    fn last_log_index(&self) -> (r: Result<LogIndex, LogStorageError>) {
        proof {
            use_type_invariant(self);
        }
        let n: usize = self.entries.len();
        if n > 0 && self.entries[n - 1].index > self.included_index.0 {
            let last: u64 = self.entries[n - 1].index;
            proof {
                lemma_filed(self.entries@, n - 1);
                assert(self.contents().ends_at(last));
                lemma_last_index_unique(self.contents(), last);
            }
            Ok(LogIndex(last))
        } else {
            proof {
                assert(self.contents().ends_at(self.included_index.0));
                lemma_last_index_unique(self.contents(), self.included_index.0);
            }
            Ok(self.included_index)
        }
    }

    fn last_log_term(&self) -> (r: Result<Term, LogStorageError>) {
        proof {
            use_type_invariant(self);
        }
        let n: usize = self.entries.len();
        if n > 0 && self.entries[n - 1].index >= self.included_index.0 {
            let last: u64 = self.entries[n - 1].index;
            proof {
                lemma_filed(self.entries@, n - 1);
                assert(self.contents().ends_at(last));
                lemma_last_index_unique(self.contents(), last);
            }
            Ok(Term(self.entries[n - 1].term))
        } else {
            proof {
                assert(self.contents().ends_at(self.included_index.0));
                lemma_last_index_unique(self.contents(), self.included_index.0);
            }
            Ok(self.included_term)
        }
    }

    fn last_committed(&self) -> (r: Result<LogIndex, LogStorageError>) {
        Ok(self.last_committed)
    }

    fn last_included_index(&self) -> (r: Result<LogIndex, LogStorageError>) {
        Ok(self.included_index)
    }

    fn last_included_term(&self) -> (r: Result<Term, LogStorageError>) {
        Ok(self.included_term)
    }

    fn read_entry(&self, index: LogIndex) -> (r: Result<Option<LogEntry>, LogStorageError>) {
        proof {
            use_type_invariant(self);
        }
        let slot: usize = rank(&self.entries, index.0);
        if slot < self.entries.len() && self.entries[slot].index == index.0 {
            proof {
                lemma_filed(self.entries@, slot as int);
            }
            Ok(Some(self.entries[slot].clone()))
        } else {
            proof {
                if holds_index(self.entries@, index.0) {
                    let i = slot_of(self.entries@, index.0);
                    assert(self.entries@[i].index == index.0);
                    assert(i >= slot);
                    if i > slot {
                        assert(self.entries@[slot as int].index < self.entries@[i].index);
                    }
                }
            }
            Ok(None)
        }
    }

    fn read_entries(&self, start: LogIndex, end: LogIndex) -> (r: Result<
        Vec<LogEntry>,
        LogStorageError,
    >) {
        proof {
            use_type_invariant(self);
        }
        let ghost log = self.contents();
        let first: usize = rank(&self.entries, start.0);
        let mut slot: usize = first;
        let mut found: Vec<LogEntry> = Vec::new();
        let ghost mut upto: int = start.0 - 1;
        proof {
            lemma_range_empty(log, start.0, upto);
            assert(entry_views(found@) =~= log.range(start.0, upto));
        }
        while slot < self.entries.len() && self.entries[slot].index <= end.0
            invariant
                first <= slot <= self.entries.len(),
                ascending(self.entries@),
                log == self.contents(),
                forall|i: int| 0 <= i < first ==> self.entries[i].index < start.0,
                forall|i: int| first <= i < self.entries.len() ==> self.entries[i].index >= start.0,
                start.0 - 1 <= upto,
                slot == first ==> upto == start.0 - 1,
                slot > first ==> upto == self.entries[slot - 1].index && upto <= end.0,
                entry_views(found@) == log.range(start.0, upto),
            decreases self.entries.len() - slot,
        {
            let ghost before = found@;
            found.push(self.entries[slot].clone());
            proof {
                let next = self.entries@[slot as int].index;
                lemma_filed(self.entries@, slot as int);
                assert forall|k: u64| upto < k <= next - 1 implies !log.entries.contains_key(k) by {
                    if holds_index(self.entries@, k) {
                        let i = slot_of(self.entries@, k);
                        assert(self.entries@[i].index == k);
                        if i < slot {
                            if i < first {
                            } else if i < slot - 1 {
                                assert(self.entries@[i].index < self.entries@[slot - 1].index);
                            }
                        } else if i > slot {
                            assert(self.entries@[slot as int].index < self.entries@[i].index);
                        }
                    }
                }
                lemma_range_gap(log, start.0, upto, next - 1);
                assert(entry_views(found@) =~= entry_views(before).push(
                    self.entries@[slot as int]@,
                ));
                upto = next as int;
            }
            slot = slot + 1;
        }
        proof {
            assert forall|k: u64| upto < k <= end.0 implies !log.entries.contains_key(k) by {
                if holds_index(self.entries@, k) {
                    let i = slot_of(self.entries@, k);
                    assert(self.entries@[i].index == k);
                    if i < slot {
                        if i < first {
                        } else if i < slot - 1 {
                            assert(self.entries@[i].index < self.entries@[slot - 1].index);
                        }
                    } else if i > slot {
                        assert(self.entries@[slot as int].index < self.entries@[i].index);
                    }
                }
            }
            if upto <= end.0 {
                lemma_range_gap(log, start.0, upto, end.0 as int);
            } else {
                lemma_range_empty(log, start.0, end.0 as int);
            }
        }
        Ok(found)
    }

    fn save_hard_state(&mut self, term: Term, voted_for: Option<NodeId>) -> (r: Result<
        (),
        LogStorageError,
    >) {
        proof {
            use_type_invariant(&*self);
        }
        self.current_term = term;
        self.voted_for = voted_for;
        Ok(())
    }

    fn save_last_committed(&mut self, index: LogIndex) -> (r: Result<(), LogStorageError>) {
        proof {
            use_type_invariant(&*self);
        }
        self.last_committed = index;
        Ok(())
    }

    fn save_snapshot_metadata(&mut self, index: LogIndex, term: Term) -> (r: Result<
        (),
        LogStorageError,
    >) {
        proof {
            use_type_invariant(&*self);
        }
        self.included_index = index;
        self.included_term = term;
        Ok(())
    }

    fn append_entries(&mut self, entries: Vec<LogEntry>) -> (r: Result<(), LogStorageError>) {
        proof {
            use_type_invariant(&*self);
        }
        let ghost log = self.contents();
        let ghost all = entry_views(entries@);
        let mut stored: Vec<LogEntry> = Vec::new();
        std::mem::swap(&mut stored, &mut self.entries);
        let mut i: usize = 0;
        proof {
            assert(all.take(0) =~= Seq::empty());
        }
        while i < entries.len()
            invariant
                i <= entries.len(),
                ascending(stored@),
                all == entry_views(entries@),
                by_index(stored@) == filed(log.entries, all.take(i as int)),
            decreases entries.len() - i,
        {
            proof {
                assert(all.take(i + 1).drop_last() =~= all.take(i as int));
                assert(all.take(i + 1).last() == entries@[i as int]@);
            }
            file_entry(&mut stored, entries[i].clone());
            i = i + 1;
        }
        self.entries = stored;
        proof {
            assert(all.take(i as int) =~= all);
        }
        Ok(())
    }

    fn truncate_log(&mut self, index: LogIndex) -> (r: Result<(), LogStorageError>) {
        proof {
            use_type_invariant(&*self);
        }
        let ghost before = self.entries@;
        let mut stored: Vec<LogEntry> = Vec::new();
        std::mem::swap(&mut stored, &mut self.entries);
        let keep: usize = rank(&stored, index.0);
        stored.truncate(keep);
        self.entries = stored;
        proof {
            let kept = before.take(keep as int);
            assert(self.entries@ =~= kept);
            assert forall|k: u64| holds_index(kept, k) <==> holds_index(before, k) && k < index.0 by {
                if holds_index(kept, k) {
                    assert(before[slot_of(kept, k)].index == k);
                }
                if holds_index(before, k) && k < index.0 {
                    assert(kept[slot_of(before, k)].index == k);
                }
            }
            assert forall|k: u64| holds_index(kept, k) implies by_index(kept)[k] == by_index(
                before,
            )[k] by {
                lemma_filed(kept, slot_of(kept, k));
                lemma_filed(before, slot_of(kept, k));
            }
            assert(self.contents() =~= old(self).contents().truncated(index));
        }
        Ok(())
    }

    fn truncate_log_front(&mut self, index: LogIndex) -> (r: Result<(), LogStorageError>) {
        proof {
            use_type_invariant(&*self);
        }
        let ghost before = self.entries@;
        let mut stored: Vec<LogEntry> = Vec::new();
        std::mem::swap(&mut stored, &mut self.entries);
        let mut drop: usize = rank(&stored, index.0);
        if drop < stored.len() && stored[drop].index == index.0 {
            drop = drop + 1;
        }
        let kept: Vec<LogEntry> = stored.split_off(drop);
        self.entries = kept;
        proof {
            let rest = before.subrange(drop as int, before.len() as int);
            assert(self.entries@ == rest);
            assert forall|i: int| 0 <= i < drop implies before[i].index <= index.0 by {}
            assert forall|i: int| drop <= i < before.len() implies before[i].index > index.0 by {
                if drop > 0 {
                    assert(before[drop - 1].index < before[i].index);
                }
            }
            assert forall|k: u64| holds_index(rest, k) <==> holds_index(before, k) && k > index.0 by {
                if holds_index(rest, k) {
                    assert(before[slot_of(rest, k) + drop].index == k);
                }
                if holds_index(before, k) && k > index.0 {
                    assert(rest[slot_of(before, k) - drop].index == k);
                }
            }
            assert forall|k: u64| holds_index(rest, k) implies by_index(rest)[k] == by_index(
                before,
            )[k] by {
                lemma_filed(rest, slot_of(rest, k));
                lemma_filed(before, slot_of(rest, k) + drop);
            }
            assert(self.contents() =~= old(self).contents().front_truncated(index));
        }
        Ok(())
    }
}

} // verus!
