//! Majorities.
use std::collections::HashMap;

use vstd::prelude::*;

use crate::types::LogIndex;

verus! {

use vstd::std_specs::iter::IteratorSpec;

broadcast use vstd::std_specs::hash::group_hash_axioms;

/// The size of a majority among `total` nodes.
pub open spec fn quorum(total: nat) -> nat {
    total / 2 + 1
}

/// The size of a majority in a cluster of this node and `peers` others.
pub fn quorum_with_peers(peers: usize) -> (r: usize)
    ensures
        r == quorum((peers + 1) as nat),
{
    peers / 2 + peers % 2 + 1
}

/// The peers that are known to hold the entry at `index`.
pub open spec fn holders(match_index: Map<u64, LogIndex>, index: u64) -> Set<u64> {
    match_index.dom().filter(|k: u64| match_index[k].0 >= index)
}

/// How many nodes hold the entry at `index`: those peers, and this node if its
/// own log reaches that far.
pub open spec fn copies(match_index: Map<u64, LogIndex>, own_last: u64, index: u64) -> nat {
    holders(match_index, index).len() + if own_last >= index {
        1nat
    } else {
        0nat
    }
}

/// Whether `index` is the last that a majority holds.
pub open spec fn is_majority_index(
    match_index: Map<u64, LogIndex>,
    own_last: u64,
    index: u64,
) -> bool {
    let needed = quorum(match_index.dom().len() + 1);
    &&& copies(match_index, own_last, index) >= needed
    &&& forall|y: u64| y > index ==> #[trigger] copies(match_index, own_last, y) < needed
}

/// The last index that a majority holds.
pub open spec fn majority_index(match_index: Map<u64, LogIndex>, own_last: u64) -> u64 {
    choose|index: u64| is_majority_index(match_index, own_last, index)
}

/// There is only one such index.
pub proof fn lemma_majority_index_unique(match_index: Map<u64, LogIndex>, own_last: u64, index: u64)
    requires
        is_majority_index(match_index, own_last, index),
    ensures
        majority_index(match_index, own_last) == index,
{
    let other = majority_index(match_index, own_last);
    assert(is_majority_index(match_index, own_last, other));
    assert(copies(match_index, own_last, index) >= 0);
    assert(copies(match_index, own_last, other) >= 0);
}

/// How many of `values` are at least `bound`.
spec fn count_from(values: Seq<u64>, bound: u64) -> nat
    decreases values.len(),
{
    if values.len() == 0 {
        0
    } else {
        count_from(values.drop_last(), bound) + if values.last() >= bound {
            1nat
        } else {
            0nat
        }
    }
}

/// All values are at least zero.
proof fn lemma_count_from_zero(values: Seq<u64>)
    ensures
        count_from(values, 0) == values.len(),
    decreases values.len(),
{
    if values.len() > 0 {
        lemma_count_from_zero(values.drop_last());
    }
}

/// A bound that no value meets exactly can be raised.
proof fn lemma_count_from_raise(values: Seq<u64>, bound: u64)
    requires
        bound < u64::MAX,
        forall|i: int| 0 <= i < values.len() ==> values[i] != bound,
    ensures
        count_from(values, bound) == count_from(values, (bound + 1) as u64),
    decreases values.len(),
{
    if values.len() > 0 {
        assert(values.last() == values[values.len() - 1]);
        assert forall|i: int| 0 <= i < values.drop_last().len() implies values.drop_last()[i]
            != bound by {
            assert(values.drop_last()[i] == values[i]);
        }
        lemma_count_from_raise(values.drop_last(), bound);
    }
}

/// A positive count means that some value reaches the bound.
proof fn lemma_count_from_witness(values: Seq<u64>, bound: u64)
    requires
        count_from(values, bound) > 0,
    ensures
        exists|i: int| 0 <= i < values.len() && #[trigger] values[i] >= bound,
    decreases values.len(),
{
    if values.last() >= bound {
        assert(values[values.len() - 1] >= bound);
    } else {
        lemma_count_from_witness(values.drop_last(), bound);
        let i = choose|i: int|
            0 <= i < values.drop_last().len() && #[trigger] values.drop_last()[i] >= bound;
        assert(values[i] >= bound);
    }
}

/// A count is attained by one of the values.
proof fn lemma_count_from_attained(values: Seq<u64>, bound: u64) -> (i: int)
    requires
        count_from(values, bound) > 0,
    ensures
        0 <= i < values.len(),
        values[i] >= bound,
        count_from(values, values[i]) == count_from(values, bound),
    decreases u64::MAX - bound,
{
    lemma_count_from_witness(values, bound);
    if exists|i: int| 0 <= i < values.len() && values[i] == bound {
        choose|i: int| 0 <= i < values.len() && values[i] == bound
    } else {
        let j = choose|j: int| 0 <= j < values.len() && #[trigger] values[j] >= bound;
        assert(values[j] != bound);
        lemma_count_from_raise(values, bound);
        lemma_count_from_attained(values, (bound + 1) as u64)
    }
}

/// Counting along a list of distinct peers counts the holders.
proof fn lemma_count_holders(keys: Seq<u64>, match_index: Map<u64, LogIndex>, index: u64)
    requires
        keys.no_duplicates(),
    ensures
        keys.to_set().filter(|k: u64| match_index[k].0 >= index).len() == count_from(
            keys.map_values(|k: u64| match_index[k].0),
            index,
        ),
        keys.to_set().filter(|k: u64| match_index[k].0 >= index).finite(),
    decreases keys.len(),
{
    let p = |k: u64| match_index[k].0 >= index;
    let f = |k: u64| match_index[k].0;
    if keys.len() == 0 {
        assert(keys.to_set().filter(p) =~= Set::empty());
    } else {
        let front = keys.drop_last();
        let last = keys.last();
        lemma_count_holders(front, match_index, index);
        assert(keys.map_values(f).drop_last() =~= front.map_values(f));
        assert forall|k: u64| keys.to_set().contains(k) <==> front.to_set().contains(k) || k
            == last by {
            if keys.contains(k) {
                let i = keys.index_of(k);
                if i < front.len() {
                    assert(front[i] == k);
                }
            }
            if front.contains(k) {
                let i = front.index_of(k);
                assert(keys[i] == k);
            }
            if k == last {
                assert(keys[keys.len() - 1] == k);
            }
        }
        assert(!front.to_set().contains(last)) by {
            if front.contains(last) {
                let i = front.index_of(last);
                assert(keys[i] == keys[keys.len() - 1]);
            }
        }
        if p(last) {
            assert(keys.to_set().filter(p) =~= front.to_set().filter(p).insert(last));
        } else {
            assert(keys.to_set().filter(p) =~= front.to_set().filter(p));
        }
    }
}

/// How many of `values` are at least `bound`.
fn count_at_least(values: &Vec<u64>, bound: u64) -> (r: usize)
    ensures
        r == count_from(values@, bound),
{
    let mut count: usize = 0;
    let mut i: usize = 0;
    assert(values@.take(0) =~= Seq::empty());
    while i < values.len()
        invariant
            i <= values.len(),
            count <= i,
            count == count_from(values@.take(i as int), bound),
        decreases values.len() - i,
    {
        assert(values@.take(i + 1).drop_last() =~= values@.take(i as int));
        if values[i] >= bound {
            count = count + 1;
        }
        i = i + 1;
    }
    assert(values@.take(i as int) =~= values@);
    count
}

/// The largest of `values` that `needed` of them reach; zero if there is none.
fn largest_reached(values: &Vec<u64>, needed: usize) -> (r: u64)
    requires
        1 <= needed <= values.len(),
    ensures
        count_from(values@, r) >= needed,
        forall|y: u64| y > r ==> #[trigger] count_from(values@, y) < needed,
{
    let mut best: u64 = 0;
    let mut i: usize = 0;
    proof {
        lemma_count_from_zero(values@);
    }
    while i < values.len()
        invariant
            i <= values.len(),
            count_from(values@, best) >= needed,
            forall|j: int|
                0 <= j < i && count_from(values@, #[trigger] values[j]) >= needed ==> values[j]
                    <= best,
        decreases values.len() - i,
    {
        let value: u64 = values[i];
        if value > best && count_at_least(values, value) >= needed {
            best = value;
        }
        i = i + 1;
    }
    proof {
        assert forall|y: u64| y > best implies #[trigger] count_from(values@, y) < needed by {
            if count_from(values@, y) >= needed {
                let j = lemma_count_from_attained(values@, y);
                assert(values[j] <= best);
            }
        }
    }
    best
}

/// The last index that a majority of the peers and this node hold, given how
/// far each peer is known to be and where the own log ends.
pub fn find_majority_index(match_index: &HashMap<u64, LogIndex>, own_last: LogIndex) -> (r: LogIndex)
    ensures
        is_majority_index(match_index@, own_last.0, r.0),
        r.0 == majority_index(match_index@, own_last.0),
{
    let mut values: Vec<u64> = Vec::new();
    let ghost keys = match_index.keys().remaining().unref();
    let ghost dom = match_index@.dom();
    for k in it: match_index.keys()
        invariant
            it.seq().unref() == keys,
            keys.to_set() == dom,
            dom == match_index@.dom(),
            values.len() == it.index(),
            forall|j: int|
                0 <= j < values.len() ==> #[trigger] values[j] == match_index@[keys[j]].0,
    {
        proof {
            assert(keys[it.index() as int] == *k);
            assert(keys.to_set().contains(*k));
        }
        match match_index.get(k) {
            Some(v) => values.push(v.0),
            None => {},
        }
    }
    let ghost mapped = keys.map_values(|k: u64| match_index@[k].0);
    let peers: usize = values.len();
    proof {
        assert(values@ =~= mapped);
        keys.unique_seq_to_set();
    }
    values.push(own_last.0);
    proof {
        assert(values@.drop_last() =~= mapped);
        assert forall|y: u64| #[trigger] copies(match_index@, own_last.0, y) == count_from(
            values@,
            y,
        ) by {
            lemma_count_holders(keys, match_index@, y);
        }
    }
    let r: u64 = largest_reached(&values, quorum_with_peers(peers));
    proof {
        assert(copies(match_index@, own_last.0, r) == count_from(values@, r));
        assert forall|y: u64| y > r implies #[trigger] copies(match_index@, own_last.0, y) < quorum(
            (peers + 1) as nat,
        ) by {
            assert(copies(match_index@, own_last.0, y) == count_from(values@, y));
        }
        lemma_majority_index_unique(match_index@, own_last.0, r);
    }
    LogIndex(r)
}

/// Any two majorities of a cluster have a node in common.
pub proof fn law_majorities_intersect(cluster: Set<u64>, a: Set<u64>, b: Set<u64>)
    requires
        cluster.finite(),
        a.subset_of(cluster),
        b.subset_of(cluster),
        a.len() >= quorum(cluster.len()),
        b.len() >= quorum(cluster.len()),
    ensures
        exists|n: u64| a.contains(n) && b.contains(n),
{
    vstd::set_lib::lemma_len_subset(a, cluster);
    vstd::set_lib::lemma_len_subset(b, cluster);
    if forall|n: u64| !(a.contains(n) && b.contains(n)) {
        vstd::set_lib::lemma_set_disjoint_lens(a, b);
        assert((a + b).subset_of(cluster));
        vstd::set_lib::lemma_len_subset(a + b, cluster);
    }
}

} // verus!
