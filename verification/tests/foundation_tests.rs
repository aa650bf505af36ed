//! Tests of the building blocks: counters, identities, time, storage, quorums
//! and the texts of errors.
use raft_engine::errors::FsmError;
use raft_engine::errors::LeaderRpc;
use raft_engine::errors::LogStorageError;
use raft_engine::errors::NodeError;
use raft_engine::errors::ProtocolError;
use raft_engine::quorum::find_majority_index;
use raft_engine::quorum::quorum_with_peers;
use raft_engine::storage::LogStorage;
use raft_engine::storage::MemoryStorage;
use raft_engine::text::render_u64;
use raft_engine::text::with_u64;
use raft_engine::tick::Tick;
use raft_engine::tick::TickDuration;
use raft_engine::tick::TickThresholds;
use raft_engine::types::ArithmeticError;
use raft_engine::types::ClusterId;
use raft_engine::types::IdentityError;
use raft_engine::types::LogEntry;
use raft_engine::types::LogIndex;
use raft_engine::types::NodeId;
use raft_engine::types::NodeIdentity;
use raft_engine::types::Term;
use rand::rngs::StdRng;
use rand::SeedableRng;
use std::collections::HashMap;

fn id(value: u64) -> NodeId {
    NodeId::try_new(value).unwrap()
}

fn entry(index: u64, term: u64) -> LogEntry {
    LogEntry { index, term, data: vec![index as u8] }
}

fn filled(count: u64) -> MemoryStorage {
    let mut store = MemoryStorage::new();
    store
        .append_entries((1..=count).map(|i| entry(i, i)).collect())
        .unwrap();
    store
}

#[test]
fn counters_are_checked() {
    assert_eq!(Term::new(3).checked_add(2), Ok(Term::new(5)));
    assert_eq!(Term::new(u64::MAX).checked_add(1), Err(ArithmeticError::Overflow));
    assert_eq!(Term::new(3).checked_sub(3), Ok(Term::zero()));
    assert_eq!(Term::zero().checked_sub(1), Err(ArithmeticError::Underflow));
    assert_eq!(LogIndex::new(3).checked_add(2), Ok(LogIndex::new(5)));
    assert_eq!(LogIndex::new(u64::MAX).checked_add(1), Err(ArithmeticError::Overflow));
    assert_eq!(LogIndex::new(1).checked_sub(2), Err(ArithmeticError::Underflow));
    assert_eq!(ArithmeticError::Overflow.message(), "arithmetic overflow");
    assert_eq!(ArithmeticError::Underflow.message(), "arithmetic underflow");
}

#[test]
fn identities_are_never_blank() {
    assert_eq!(NodeId::try_new(0), Err(IdentityError::ZeroNodeId));
    assert_eq!(NodeId::try_new(9).unwrap().as_u64(), 9);
    assert!(id(4).same(&id(4)));
    assert!(!id(4).same(&id(5)));
    let identity = NodeIdentity::new(ClusterId::try_new("c").unwrap(), id(4));
    assert_eq!(identity.cluster_id().as_str(), "c");
    assert_eq!(identity.clone().node_id(), id(4));
}

#[test]
fn numbers_are_rendered_in_decimal() {
    assert_eq!(render_u64(0), "0");
    assert_eq!(render_u64(1090), "1090");
    assert_eq!(render_u64(u64::MAX), "18446744073709551615");
    assert_eq!(with_u64("n=".to_string(), 42), "n=42");
}

#[test]
fn clock_saturates() {
    let mut now = Tick::new(u64::MAX);
    now.increment();
    assert_eq!(now, Tick::new(u64::MAX));
    assert_eq!(Tick::new(7).elapsed_since(Tick::new(3)), TickDuration::new(4));
    assert_eq!(Tick::new(3).elapsed_since(Tick::new(7)), TickDuration::new(0));
    assert!(Tick::new(7).has_reached(Tick::new(3), TickDuration::new(4)));
    assert!(!Tick::new(6).has_reached(Tick::new(3), TickDuration::new(4)));
}

#[test]
fn election_timeouts_fill_their_window() {
    let thresholds = TickThresholds {
        heartbeat_interval: TickDuration::new(10),
        min_election: TickDuration::new(15),
        max_election: TickDuration::new(18),
    };
    let mut rng = StdRng::seed_from_u64(11);
    let mut seen: Vec<u64> = Vec::new();
    for _ in 0..200 {
        let drawn = thresholds.generate_election_timeout(&mut rng).as_u64();
        assert!(15 <= drawn && drawn <= 18);
        if !seen.contains(&drawn) {
            seen.push(drawn);
        }
    }
    seen.sort();
    assert_eq!(seen, vec![15, 16, 17, 18]);
}

#[test]
fn window_of_one_value_is_that_value() {
    let thresholds = TickThresholds {
        heartbeat_interval: TickDuration::new(1),
        min_election: TickDuration::new(9),
        max_election: TickDuration::new(9),
    };
    let mut rng = StdRng::seed_from_u64(1);
    assert_eq!(
        thresholds.generate_election_timeout(&mut rng),
        TickDuration::new(9)
    );
}

#[test]
fn empty_store_is_blank() {
    let store = MemoryStorage::new();
    assert_eq!(store.current_term(), Ok(Term::zero()));
    assert_eq!(store.voted_for(), Ok(None));
    assert_eq!(store.last_log_index(), Ok(LogIndex::zero()));
    assert_eq!(store.last_log_term(), Ok(Term::zero()));
    assert_eq!(store.last_committed(), Ok(LogIndex::zero()));
    assert_eq!(store.last_included_index(), Ok(LogIndex::zero()));
    assert_eq!(store.last_included_term(), Ok(Term::zero()));
    assert_eq!(store.read_entry(LogIndex::new(1)), Ok(None));
    assert_eq!(store.read_entries(LogIndex::zero(), LogIndex::new(9)), Ok(vec![]));
}

#[test]
fn written_entries_are_read_back() {
    let store = filled(3);
    assert_eq!(store.last_log_index(), Ok(LogIndex::new(3)));
    assert_eq!(store.last_log_term(), Ok(Term::new(3)));
    assert_eq!(store.read_entry(LogIndex::new(2)), Ok(Some(entry(2, 2))));
    assert_eq!(
        store.read_entries(LogIndex::new(2), LogIndex::new(3)),
        Ok(vec![entry(2, 2), entry(3, 3)])
    );
}

#[test]
fn rewritten_entry_replaces_the_old_one() {
    let mut store = filled(2);
    store.append_entries(vec![entry(2, 9)]).unwrap();
    assert_eq!(store.read_entry(LogIndex::new(2)), Ok(Some(entry(2, 9))));
    assert_eq!(store.last_log_index(), Ok(LogIndex::new(2)));
}

#[test]
fn truncation_keeps_what_comes_before() {
    let mut store = filled(4);
    store.truncate_log(LogIndex::new(3)).unwrap();
    assert_eq!(store.last_log_index(), Ok(LogIndex::new(2)));
    assert_eq!(store.read_entry(LogIndex::new(3)), Ok(None));
    assert_eq!(store.read_entry(LogIndex::new(2)), Ok(Some(entry(2, 2))));
}

#[test]
fn compaction_keeps_what_comes_after() {
    let mut store = filled(4);
    store.save_snapshot_metadata(LogIndex::new(2), Term::new(2)).unwrap();
    store.truncate_log_front(LogIndex::new(2)).unwrap();
    assert_eq!(
        store.read_entries(LogIndex::new(1), LogIndex::new(4)),
        Ok(vec![entry(3, 3), entry(4, 4)])
    );
    assert_eq!(store.last_log_index(), Ok(LogIndex::new(4)));
    assert_eq!(store.last_log_term(), Ok(Term::new(4)));
}

#[test]
fn snapshot_beyond_the_log_is_its_end() {
    let mut store = filled(2);
    store.save_snapshot_metadata(LogIndex::new(10), Term::new(7)).unwrap();
    store.truncate_log_front(LogIndex::new(10)).unwrap();
    assert_eq!(store.last_log_index(), Ok(LogIndex::new(10)));
    assert_eq!(store.last_log_term(), Ok(Term::new(7)));
}

#[test]
fn hard_state_is_one_record() {
    let mut store = MemoryStorage::new();
    store.save_hard_state(Term::new(4), Some(id(2))).unwrap();
    store.save_hard_state(Term::new(5), None).unwrap();
    assert_eq!(store.current_term(), Ok(Term::new(5)));
    assert_eq!(store.voted_for(), Ok(None));
}

#[test]
fn quorums_are_strict_majorities() {
    assert_eq!(quorum_with_peers(0), 1);
    assert_eq!(quorum_with_peers(1), 2);
    assert_eq!(quorum_with_peers(2), 2);
    assert_eq!(quorum_with_peers(3), 3);
    assert_eq!(quorum_with_peers(4), 3);
}

fn matches_of(values: Vec<u64>) -> HashMap<u64, LogIndex> {
    values
        .iter()
        .enumerate()
        .map(|(i, v)| (i as u64 + 2, LogIndex::new(*v)))
        .collect()
}

#[test]
fn majority_index_is_what_a_majority_holds() {
    assert_eq!(
        find_majority_index(&matches_of(vec![4, 1]), LogIndex::new(5)),
        LogIndex::new(4)
    );
    assert_eq!(
        find_majority_index(&matches_of(vec![]), LogIndex::new(5)),
        LogIndex::new(5)
    );
    assert_eq!(
        find_majority_index(&matches_of(vec![3]), LogIndex::new(5)),
        LogIndex::new(3)
    );
    assert_eq!(
        find_majority_index(&matches_of(vec![9, 7, 2, 0]), LogIndex::new(8)),
        LogIndex::new(7)
    );
    assert_eq!(
        find_majority_index(&matches_of(vec![6, 6, 1]), LogIndex::new(6)),
        LogIndex::new(6)
    );
}

#[test]
fn majority_index_does_not_depend_on_order() {
    for values in [vec![5, 2, 8, 1], vec![1, 8, 2, 5], vec![8, 5, 1, 2]] {
        assert_eq!(
            find_majority_index(&matches_of(values), LogIndex::new(9)),
            LogIndex::new(5)
        );
    }
}

#[test]
fn protocol_errors_read_as_documented() {
    let i = LogIndex::new(5);
    let j = LogIndex::new(4);
    let t = Term::new(3);
    let cases = vec![
        (
            ProtocolError::TermRegression { current: t, new: Term::new(2) },
            "Term regression detected! current=3 new=2",
        ),
        (
            ProtocolError::FsmAheadOfLog { applied: i, committed: j },
            "Causal invariant violation: FSM applied index 5 is ahead of LogStore committed index 4",
        ),
        (
            ProtocolError::CommitBeyondLog { index: i, last: j },
            "Attempted to commit index 5 but last_log_index is 4",
        ),
        (
            ProtocolError::FsmAheadOfCommit { fsm: i, committed: j },
            "FSM index 5 is ahead of last_committed 4. Possible log regression.",
        ),
        (
            ProtocolError::EntryMissingDuringApply { index: i },
            "Committed entry 5 missing from log during apply",
        ),
        (
            ProtocolError::EntryMissingFromStorage { index: i },
            "Committed entry 5 missing from log storage",
        ),
        (
            ProtocolError::RivalLeader { leader: id(2), term: t, rpc: LeaderRpc::InstallSnapshot },
            "CRITICAL SAFETY VIOLATION: Rival leader 2 detected for term 3 during \
             InstallSnapshot. Halting node.",
        ),
        (
            ProtocolError::FreezeOverflow,
            "Structural Invariant Violation: snapshot_count overflow",
        ),
        (
            ProtocolError::NextOverflow { peer: id(2), matched: i, term: t },
            "Arithmetic overflow calculating next_index for peer=2 (match=5) in term=3: \
             arithmetic overflow",
        ),
        (
            ProtocolError::BackoffOverflow { peer: id(2), last_log: i, term: t },
            "Arithmetic overflow calculating next_index backoff for peer=2 (last_log=5) in \
             term=3: arithmetic overflow",
        ),
        (
            ProtocolError::BackoffUnderflow { peer: id(2), current_next: i, term: t },
            "Arithmetic underflow calculating next_index backoff for peer=2 (current_next=5) in \
             term=3: arithmetic underflow",
        ),
        (
            ProtocolError::SnapshotNextOverflow { peer: id(2), matched: i, term: t },
            "Arithmetic overflow calculating next_index after snapshot for peer=2 (match=5) in \
             term=3: arithmetic overflow",
        ),
        (
            ProtocolError::TruncationFailure {
                index: i,
                storage: LogStorageError::persistence("disk"),
            },
            "Log truncation failure at index 5: Persistence failure: disk",
        ),
        (
            ProtocolError::ApplyFailure { cause: FsmError::violation("x") },
            "Apply failure: Invariant violation: x",
        ),
    ];
    for (error, text) in cases {
        assert_eq!(error.message(), text);
    }
}

#[test]
fn node_errors_carry_their_cause() {
    assert!(NodeError::Storage(LogStorageError::persistence("disk"))
        .message()
        .contains("Persistence failure: disk"));
    assert!(NodeError::Protocol(ProtocolError::FsmFailure { cause: FsmError::violation("bad") })
        .message()
        .contains("Invariant violation: bad"));
    assert!(NodeError::Arithmetic(ArithmeticError::Overflow)
        .message()
        .contains("arithmetic overflow"));
    assert_ne!(
        NodeError::NotLeader { leader_hint: None }.message(),
        NodeError::NotLeader { leader_hint: Some(id(2)) }.message()
    );
}
