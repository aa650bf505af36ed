//! Tests of the node in its roles.
use raft_engine::errors::FsmError;
use raft_engine::errors::LogStorageError;
use raft_engine::errors::NodeError;
use raft_engine::node::Candidate;
use raft_engine::node::Follower;
use raft_engine::node::Leader;
use raft_engine::node::NodeState;
use raft_engine::node::PreCandidate;
use raft_engine::node::RaftNode;
use raft_engine::node::TickAction;
use raft_engine::state_machine::History;
use raft_engine::state_machine::StateMachine;
use raft_engine::storage::LogState;
use raft_engine::storage::LogStorage;
use raft_engine::storage::MemoryStorage;
use raft_engine::tick::Tick;
use raft_engine::tick::TickDuration;
use raft_engine::types::ArithmeticError;
use raft_engine::types::ClusterId;
use raft_engine::types::LogEntry;
use raft_engine::types::LogIndex;
use raft_engine::types::NodeId;
use raft_engine::types::NodeIdentity;
use raft_engine::types::Term;
use raft_engine::types::TraceId;

#[derive(Debug, Default)]
struct MockFsm {
    applied: u64,
    applied_indices: Vec<LogIndex>,
    applied_data: Vec<Vec<u8>>,
}

impl StateMachine for MockFsm {
    fn applied_index(&self) -> LogIndex {
        unreachable!()
    }

    fn history(&self) -> History {
        unreachable!()
    }

    fn reliable(&self) -> bool {
        unreachable!()
    }

    fn last_applied_index(&self) -> Result<LogIndex, FsmError> {
        Ok(LogIndex::new(self.applied))
    }

    fn apply(&mut self, index: LogIndex, data: &Vec<u8>) -> Result<(), FsmError> {
        self.applied_indices.push(index);
        self.applied_data.push(data.clone());
        Ok(())
    }

    fn snapshot(&self) -> Result<Vec<u8>, FsmError> {
        Ok(vec![])
    }

    fn install_snapshot(&mut self, _: LogIndex, _: &Vec<u8>, _: TraceId) -> Result<(), FsmError> {
        Ok(())
    }
}

#[derive(Debug, Default)]
struct FailingApplyFsm;

impl StateMachine for FailingApplyFsm {
    fn applied_index(&self) -> LogIndex {
        unreachable!()
    }

    fn history(&self) -> History {
        unreachable!()
    }

    fn reliable(&self) -> bool {
        unreachable!()
    }

    fn last_applied_index(&self) -> Result<LogIndex, FsmError> {
        Ok(LogIndex::zero())
    }

    fn apply(&mut self, _: LogIndex, _: &Vec<u8>) -> Result<(), FsmError> {
        Err(FsmError::violation("Simulated FSM failure"))
    }

    fn snapshot(&self) -> Result<Vec<u8>, FsmError> {
        Ok(vec![])
    }

    fn install_snapshot(&mut self, _: LogIndex, _: &Vec<u8>, _: TraceId) -> Result<(), FsmError> {
        Ok(())
    }
}

/// A store in which chosen writes fail.
#[derive(Debug, Default)]
struct FailingStorage {
    fail_hard_state: bool,
    fail_append: bool,
}

impl LogStorage for FailingStorage {
    fn model(&self) -> LogState {
        unreachable!()
    }

    fn reliable(&self) -> bool {
        unreachable!()
    }

    fn current_term(&self) -> Result<Term, LogStorageError> {
        Ok(Term::new(1))
    }

    fn voted_for(&self) -> Result<Option<NodeId>, LogStorageError> {
        Ok(None)
    }

    fn last_log_index(&self) -> Result<LogIndex, LogStorageError> {
        Ok(LogIndex::zero())
    }

    fn last_log_term(&self) -> Result<Term, LogStorageError> {
        Ok(Term::zero())
    }

    fn last_committed(&self) -> Result<LogIndex, LogStorageError> {
        Ok(LogIndex::zero())
    }

    fn read_entry(&self, _: LogIndex) -> Result<Option<LogEntry>, LogStorageError> {
        Ok(None)
    }

    fn read_entries(&self, _: LogIndex, _: LogIndex) -> Result<Vec<LogEntry>, LogStorageError> {
        Ok(vec![])
    }

    fn save_hard_state(&mut self, _: Term, _: Option<NodeId>) -> Result<(), LogStorageError> {
        if self.fail_hard_state {
            Err(LogStorageError::persistence("Simulated IO Error"))
        } else {
            Ok(())
        }
    }

    fn save_last_committed(&mut self, _: LogIndex) -> Result<(), LogStorageError> {
        Ok(())
    }

    fn append_entries(&mut self, _: Vec<LogEntry>) -> Result<(), LogStorageError> {
        if self.fail_append {
            Err(LogStorageError::persistence("Simulated Append Failure"))
        } else {
            Ok(())
        }
    }

    fn truncate_log(&mut self, _: LogIndex) -> Result<(), LogStorageError> {
        Ok(())
    }

    fn truncate_log_front(&mut self, _: LogIndex) -> Result<(), LogStorageError> {
        Ok(())
    }

    fn save_snapshot_metadata(&mut self, _: LogIndex, _: Term) -> Result<(), LogStorageError> {
        Ok(())
    }

    fn last_included_index(&self) -> Result<LogIndex, LogStorageError> {
        Ok(LogIndex::zero())
    }

    fn last_included_term(&self) -> Result<Term, LogStorageError> {
        Ok(Term::zero())
    }
}

fn id(value: u64) -> NodeId {
    NodeId::try_new(value).unwrap()
}

fn identity(value: u64) -> NodeIdentity {
    NodeIdentity::new(ClusterId::try_new("test-cluster").unwrap(), id(value))
}

fn entry(index: u64, term: u64, data: Vec<u8>) -> LogEntry {
    LogEntry { index, term, data }
}

fn store_with(entries: Vec<LogEntry>) -> MemoryStorage {
    let mut store = MemoryStorage::new();
    store.append_entries(entries).unwrap();
    store
}

fn follower(store: MemoryStorage) -> RaftNode<Follower, MemoryStorage> {
    RaftNode::try_new(
        identity(1),
        &MockFsm::default(),
        store,
        Tick::new(0),
        TickDuration::new(100),
    )
    .unwrap()
}

fn candidate(store: MemoryStorage) -> RaftNode<Candidate, MemoryStorage> {
    follower(store)
        .try_into_candidate(Tick::new(0), TickDuration::new(150))
        .unwrap()
}

fn leader(store: MemoryStorage) -> RaftNode<Leader, MemoryStorage> {
    candidate(store).try_into_leader(vec![], Tick::new(0)).unwrap()
}

fn check_term_at_zero() {
    let node = follower(MemoryStorage::new());
    assert_eq!(node.get_term_at(LogIndex::zero()).unwrap(), Term::zero());
}

fn check_term_at_snapshot() {
    let snapshot_index = LogIndex::new(10);
    let snapshot_term = Term::new(2);
    let mut store = MemoryStorage::new();
    store.save_snapshot_metadata(snapshot_index, snapshot_term).unwrap();

    let node = follower(store);

    assert_eq!(node.get_term_at(snapshot_index).unwrap(), snapshot_term);
}

fn check_term_at_recent() {
    let node = follower(store_with(vec![entry(1, 1, vec![])]));

    assert_eq!(node.get_term_at(LogIndex::new(1)).unwrap(), Term::new(1));
}

fn check_heartbeat_reset() {
    let mut node = follower(MemoryStorage::new());
    let initial_time = node.state().last_heartbeat();

    node.state_mut().reset_heartbeat(Tick::new(10));

    assert_eq!(node.state().last_heartbeat(), Tick::new(10));
    assert!(node.state().last_heartbeat() > initial_time);
}

fn check_demotion_resets_vote() {
    let mut store = MemoryStorage::new();
    store.save_hard_state(Term::new(1), Some(id(1))).unwrap();

    let demoted = follower(store)
        .try_into_follower(Term::new(2), None, Tick::new(0), TickDuration::new(100))
        .unwrap();

    assert_eq!(demoted.current_term().unwrap(), Term::new(2));
    assert_eq!(demoted.voted_for().unwrap(), None);
}

fn check_demotion_preserves_vote() {
    let mut store = MemoryStorage::new();
    store.save_hard_state(Term::new(1), Some(id(3))).unwrap();

    let demoted = follower(store)
        .try_into_follower(Term::new(1), None, Tick::new(0), TickDuration::new(100))
        .unwrap();

    assert_eq!(demoted.voted_for().unwrap(), Some(id(3)));
}

fn check_vote_persisted() {
    let mut node = follower(MemoryStorage::new());
    let candidate_id = id(2);

    node.persist_vote(candidate_id).unwrap();

    assert_eq!(node.voted_for().unwrap(), Some(candidate_id));
    assert_eq!(node.log_store().voted_for().unwrap(), Some(candidate_id));
}

fn check_recovery() {
    let mut store = MemoryStorage::new();
    store.save_hard_state(Term::new(7), Some(id(2))).unwrap();

    let node = follower(store);

    assert_eq!(node.current_term().unwrap(), Term::new(7));
    assert_eq!(node.voted_for().unwrap(), Some(id(2)));
}

fn check_fsm_ahead_of_store() {
    let fsm = MockFsm { applied: 100, ..MockFsm::default() };
    let result = RaftNode::<Follower, MemoryStorage>::try_new(
        identity(1),
        &fsm,
        MemoryStorage::new(),
        Tick::new(0),
        TickDuration::new(100),
    );

    assert!(result.is_err());
    let message = result.unwrap_err().message();
    assert!(message.contains("Causal invariant violation"));
    assert_eq!(
        message,
        "Causal invariant violation: FSM applied index 100 is ahead of LogStore committed index 0"
    );
}

fn check_voting_state_respected() {
    let mut node = follower(MemoryStorage::new());
    node.advance_term(Term::new(1)).unwrap();
    node.persist_vote(id(3)).unwrap();

    let granted = node
        .attempt_grant_vote(id(2), Term::new(1), LogIndex::zero(), Term::zero())
        .unwrap();
    assert!(!granted);

    let granted = node
        .attempt_grant_vote(id(3), Term::new(1), LogIndex::zero(), Term::zero())
        .unwrap();
    assert!(granted);
}

fn node_with_log(last_idx: u64, last_term: u64) -> RaftNode<Follower, MemoryStorage> {
    let mut entries = Vec::new();
    for i in 1..last_idx {
        entries.push(entry(i, 1, vec![]));
    }
    if last_idx > 0 {
        entries.push(entry(last_idx, last_term, vec![]));
    }
    follower(store_with(entries))
}

fn check_stale_last_term() {
    let node = node_with_log(5, 2);
    assert!(!node.is_log_up_to_date(Term::new(1), LogIndex::new(10)).unwrap());
}

fn check_higher_last_term() {
    let node = node_with_log(5, 2);
    assert!(node.is_log_up_to_date(Term::new(3), LogIndex::new(1)).unwrap());
}

fn check_equal_last_term() {
    let node = node_with_log(5, 2);
    assert!(!node.is_log_up_to_date(Term::new(2), LogIndex::new(4)).unwrap());
    assert!(node.is_log_up_to_date(Term::new(2), LogIndex::new(5)).unwrap());
    assert!(node.is_log_up_to_date(Term::new(2), LogIndex::new(6)).unwrap());
}

fn check_promotion() {
    let candidate = follower(MemoryStorage::new())
        .try_into_candidate(Tick::new(0), TickDuration::new(150))
        .unwrap();

    assert_eq!(candidate.current_term().unwrap(), Term::new(1));
    assert_eq!(candidate.voted_for().unwrap(), Some(id(1)));
    assert_eq!(candidate.state().vote_count(), 1);
}

fn check_election_restart() {
    let node = candidate(MemoryStorage::new());
    let initial_term = node.current_term().unwrap();

    let restarted = node
        .try_into_restarted_candidate(Tick::new(0), TickDuration::new(150))
        .unwrap();

    assert_eq!(
        restarted.current_term().unwrap(),
        initial_term.checked_add(1).unwrap()
    );
    assert_eq!(restarted.voted_for().unwrap(), Some(restarted.node_id()));
    assert_eq!(restarted.state().vote_count(), 1);
}

fn check_leader_start() {
    let node = candidate(store_with(vec![entry(1, 1, vec![]), entry(2, 1, vec![])]));
    let peer_ids = vec![id(2), id(3)];

    let leader = node.try_into_leader(peer_ids.clone(), Tick::new(0)).unwrap();

    assert_eq!(leader.last_log_index().unwrap(), LogIndex::new(2));
    for peer_id in peer_ids {
        assert_eq!(
            *leader.state().next_index().get(&peer_id.as_u64()).unwrap(),
            LogIndex::new(3)
        );
        assert_eq!(
            *leader.state().match_index().get(&peer_id.as_u64()).unwrap(),
            LogIndex::zero()
        );
    }
}

fn check_duplicate_vote() {
    let mut node = candidate(MemoryStorage::new());

    node.state_mut().add_vote(id(2));
    node.state_mut().add_vote(id(2));

    assert_eq!(node.state().vote_count(), 2);
}

fn check_proposal() {
    let mut node = leader(MemoryStorage::new());
    let current_term = node.current_term().unwrap();

    let index = node.propose(vec![42]).unwrap();

    assert_eq!(index, LogIndex::new(1));
    assert_eq!(node.last_log_index().unwrap(), LogIndex::new(1));
    let entry = node.read_entries(index, index).unwrap().remove(0);
    assert_eq!(Term::new(entry.term), current_term);
    assert_eq!(entry.data, vec![42]);
}

fn failing_node(store: FailingStorage) -> RaftNode<Follower, FailingStorage> {
    RaftNode::try_new(
        identity(1),
        &MockFsm::default(),
        store,
        Tick::new(0),
        TickDuration::new(100),
    )
    .unwrap()
}

fn check_failed_proposal() {
    let store = FailingStorage { fail_append: true, ..FailingStorage::default() };
    let mut node = failing_node(store)
        .transition(Leader::new(vec![], LogIndex::zero(), Tick::new(0)).unwrap());

    let result = node.propose(vec![1]);
    assert!(result.is_err());
    assert!(result.unwrap_err().message().contains("Append Failure"));
}

fn check_read_epochs() {
    let mut node = candidate(MemoryStorage::new())
        .try_into_leader(vec![id(2), id(3)], Tick::new(0))
        .unwrap();
    let self_id = node.node_id();

    assert_eq!(node.state().current_read_epoch(), 0);
    assert_eq!(node.state().confirmed_read_epoch(), 0);

    let target = node.state_mut().prepare_read_probe(self_id);
    assert_eq!(target, 1);

    node.state_mut().acknowledge_heartbeat(id(2), 2);
    assert_eq!(node.state().confirmed_read_epoch(), 1);

    let target2 = node.state_mut().prepare_read_probe(self_id);
    assert_eq!(target2, 2);
    assert_eq!(node.state().confirmed_read_epoch(), 1);

    node.state_mut().acknowledge_heartbeat(id(3), 2);
    assert_eq!(node.state().confirmed_read_epoch(), 2);
}

fn one_entry() -> MemoryStorage {
    store_with(vec![entry(1, 1, vec![1])])
}

fn three_entries() -> MemoryStorage {
    store_with(vec![entry(1, 1, vec![1]), entry(2, 1, vec![2]), entry(3, 1, vec![3])])
}

fn check_commit_persisted<R: NodeState>(mut node: RaftNode<R, MemoryStorage>) {
    node.advance_last_committed(LogIndex::new(1)).unwrap();

    assert_eq!(node.log_store().last_committed().unwrap(), LogIndex::new(1));
}

fn check_commit_does_not_apply<R: NodeState>(
    mut node: RaftNode<R, MemoryStorage>,
    index: LogIndex,
) {
    let fsm = MockFsm::default();

    node.advance_last_committed(index).unwrap();

    assert_eq!(node.last_committed(), index);
    assert_eq!(fsm.applied_indices.len(), 0);
    assert_eq!(node.last_applied(), LogIndex::zero());
}

fn check_stale_commit_ignored<R: NodeState>(mut node: RaftNode<R, MemoryStorage>) {
    node.advance_last_committed(LogIndex::new(1)).unwrap();

    node.advance_last_committed(LogIndex::zero()).unwrap();

    assert_eq!(node.last_committed(), LogIndex::new(1));
}

fn check_commit_beyond_log<R: NodeState>(mut node: RaftNode<R, MemoryStorage>) {
    let result = node.advance_last_committed(LogIndex::new(1));
    assert!(result.is_err());
    let message = result.unwrap_err().message();
    assert!(message.contains("last_log_index"));
    assert_eq!(message, "Attempted to commit index 1 but last_log_index is 0");
}

fn check_fsm_ahead_of_commit<R: NodeState>(mut node: RaftNode<R, MemoryStorage>) {
    let mut fsm = MockFsm { applied: 100, ..MockFsm::default() };
    let result = node.apply_to_state_machine(&mut fsm);
    assert!(result.is_err());
    let message = result.unwrap_err().message();
    assert!(message.contains("ahead of last_committed"));
    assert_eq!(
        message,
        "FSM index 100 is ahead of last_committed 0. Possible log regression."
    );
}

fn committed_without_entries() -> MemoryStorage {
    let mut store = MemoryStorage::new();
    store.save_last_committed(LogIndex::new(5)).unwrap();
    store
}

fn check_missing_entry<R: NodeState>(mut node: RaftNode<R, MemoryStorage>) {
    let mut fsm = MockFsm::default();
    let result = node.apply_to_state_machine(&mut fsm);
    assert!(result.is_err());
    let message = result.unwrap_err().message();
    assert!(message.contains("missing from log"));
    assert_eq!(message, "Committed entry 1 missing from log during apply");
}

fn check_failing_apply<R: NodeState>(mut node: RaftNode<R, MemoryStorage>) {
    node.advance_last_committed(LogIndex::new(1)).unwrap();
    let result = node.apply_to_state_machine(&mut FailingApplyFsm);
    assert!(result.is_err());
    let err = result.unwrap_err();
    assert!(
        matches!(err, NodeError::Protocol(_)),
        "Expected NodeError::Protocol, got {:?}",
        err
    );
    assert!(err.message().contains("Simulated FSM failure"));
    assert_eq!(node.last_applied(), LogIndex::zero());
}

fn voted_at(term: u64, vote: Option<NodeId>) -> MemoryStorage {
    let mut store = MemoryStorage::new();
    store.save_hard_state(Term::new(term), vote).unwrap();
    store
}

fn check_higher_term_resets_vote<R: NodeState>(mut node: RaftNode<R, MemoryStorage>) {
    node.advance_term(Term::new(6)).unwrap();
    assert_eq!(node.current_term().unwrap(), Term::new(6));
    assert_eq!(node.voted_for().unwrap(), None);
}

fn check_same_term_keeps_vote<R: NodeState>(mut node: RaftNode<R, MemoryStorage>) {
    node.advance_term(Term::new(5)).unwrap();
    assert_eq!(node.current_term().unwrap(), Term::new(5));
    assert_eq!(node.voted_for().unwrap(), Some(id(2)));
}

fn with_other_vote<R: NodeState>(
    mut node: RaftNode<R, MemoryStorage>,
) -> RaftNode<R, MemoryStorage> {
    node.advance_term(Term::new(5)).unwrap();
    node.persist_vote(id(2)).unwrap();
    node
}

fn check_lower_term_refused<R: NodeState>(mut node: RaftNode<R, MemoryStorage>) {
    node.advance_term(Term::new(10)).unwrap();

    let result = node.advance_term(Term::new(5));

    assert!(result.is_err());
    let message = result.unwrap_err().message();
    assert!(message.contains("regression"));
    assert_eq!(message, "Term regression detected! current=10 new=5");
}

fn check_persistence_error<R: NodeState>(mut node: RaftNode<R, FailingStorage>) {
    let result = node.advance_term(Term::new(2));

    assert!(result.is_err());
    assert!(result.unwrap_err().message().contains("Simulated IO Error"));
}

fn failing_hard_state() -> FailingStorage {
    FailingStorage { fail_hard_state: true, ..FailingStorage::default() }
}

fn check_inconsistent_prev_rejected() {
    let mut node = follower(MemoryStorage::new());
    let result = node
        .reconcile_log(LogIndex::new(1), Term::new(1), vec![], LogIndex::zero())
        .unwrap();
    assert!(!result.success);
}

fn check_conflict_truncated() {
    let mut node = follower(store_with(vec![entry(1, 1, vec![1]), entry(2, 1, vec![2])]));

    let result = node
        .reconcile_log(
            LogIndex::new(1),
            Term::new(1),
            vec![entry(2, 2, vec![3])],
            LogIndex::zero(),
        )
        .unwrap();

    assert!(result.success);
    assert_eq!(result.last_index, LogIndex::new(2));
    assert_eq!(node.get_term_at(LogIndex::new(2)).unwrap(), Term::new(2));
}

fn check_conflicting_suffix_truncated() {
    let mut node = follower(store_with(vec![
        entry(1, 1, vec![]),
        entry(2, 1, vec![]),
        entry(3, 1, vec![]),
    ]));

    let result = node
        .reconcile_log(
            LogIndex::new(1),
            Term::new(1),
            vec![entry(2, 2, vec![])],
            LogIndex::zero(),
        )
        .unwrap();

    assert!(result.success);
    assert_eq!(result.last_index, LogIndex::new(2));
    assert_eq!(node.get_term_at(LogIndex::new(2)).unwrap(), Term::new(2));
    assert_eq!(node.last_log_index().unwrap(), LogIndex::new(2));
}

fn check_duplicate_entries() {
    let mut node = follower(store_with(vec![entry(1, 1, vec![1])]));

    let result = node
        .reconcile_log(
            LogIndex::zero(),
            Term::zero(),
            vec![entry(1, 1, vec![1])],
            LogIndex::zero(),
        )
        .unwrap();

    assert!(result.success);
    assert_eq!(node.last_log_index().unwrap(), LogIndex::new(1));
}

fn check_non_contiguous_rejected() {
    let mut node = follower(MemoryStorage::new());

    let result = node
        .reconcile_log(
            LogIndex::new(1),
            Term::new(1),
            vec![entry(2, 1, vec![]), entry(3, 1, vec![])],
            LogIndex::zero(),
        )
        .unwrap();

    assert!(!result.success);
    assert_eq!(node.last_log_index().unwrap(), LogIndex::zero());
}

fn check_gap_rejected() {
    let mut node = follower(store_with(vec![entry(1, 1, vec![])]));

    let result = node
        .reconcile_log(
            LogIndex::new(1),
            Term::new(1),
            vec![entry(3, 1, vec![])],
            LogIndex::zero(),
        )
        .unwrap();

    assert!(!result.success);
}

fn check_commit_capped() {
    let mut node = follower(store_with(vec![entry(1, 1, vec![])]));

    node.reconcile_log(
        LogIndex::new(1),
        Term::new(1),
        vec![entry(2, 1, vec![])],
        LogIndex::new(10),
    )
    .unwrap();

    assert_eq!(node.last_committed(), LogIndex::new(2));
}

#[test]
fn shared_tests_should_return_zero_when_index_is_zero() {
    check_term_at_zero();
}

#[test]
fn tests_should_return_zero_when_index_is_zero() {
    check_term_at_zero();
}

#[test]
fn shared_tests_should_return_term_from_snapshot_when_index_is_truncated() {
    check_term_at_snapshot();
}

#[test]
fn tests_should_return_term_from_snapshot_when_index_is_truncated() {
    check_term_at_snapshot();
}

#[test]
fn shared_tests_should_return_term_from_log_when_index_is_recent() {
    check_term_at_recent();
}

#[test]
fn tests_should_return_term_from_log_when_index_is_recent() {
    check_term_at_recent();
}

#[test]
fn reset_heartbeat_updates_timer() {
    check_heartbeat_reset();
}

#[test]
fn shared_tests_should_update_timer_when_invoked() {
    check_heartbeat_reset();
}

#[test]
fn tests_should_update_timer_when_invoked() {
    check_heartbeat_reset();
}

#[test]
fn demotion_resets_voting_state_on_new_term() {
    check_demotion_resets_vote();
}

#[test]
fn shared_tests_should_reset_voting_state_when_demoted_on_new_term() {
    check_demotion_resets_vote();
}

#[test]
fn tests_should_reset_voting_state_when_demoted_on_new_term() {
    check_demotion_resets_vote();
}

#[test]
fn demotion_preserves_vote_on_same_term() {
    check_demotion_preserves_vote();
}

#[test]
fn shared_tests_should_preserve_vote_when_demoted_on_same_term() {
    check_demotion_preserves_vote();
}

#[test]
fn tests_should_preserve_vote_when_demoted_on_same_term() {
    check_demotion_preserves_vote();
}

#[test]
fn persists_vote_to_log_store() {
    check_vote_persisted();
}

#[test]
fn shared_tests_should_persist_to_log_store_when_invoked() {
    check_vote_persisted();
}

#[test]
fn tests_should_persist_to_log_store_when_invoked() {
    check_vote_persisted();
}

#[test]
fn recovers_state_from_log_store_on_initialization() {
    check_recovery();
}

#[test]
fn follower_should_recover_state_from_log_store_on_initialization() {
    check_recovery();
}

#[test]
fn tests_should_recover_state_from_log_store_on_initialization() {
    check_recovery();
}

#[test]
fn returns_error_when_fsm_is_ahead_of_log_store() {
    check_fsm_ahead_of_store();
}

#[test]
fn follower_should_return_error_when_fsm_is_ahead_of_log_store() {
    check_fsm_ahead_of_store();
}

#[test]
fn tests_should_return_error_when_fsm_is_ahead_of_log_store() {
    check_fsm_ahead_of_store();
}

#[test]
fn grant_vote_respects_voting_state() {
    check_voting_state_respected();
}

#[test]
fn follower_should_respect_voting_state_when_attempting_to_grant_vote() {
    check_voting_state_respected();
}

#[test]
fn tests_should_respect_voting_state_when_attempting_to_grant_vote() {
    check_voting_state_respected();
}

#[test]
fn rejects_stale_last_term() {
    check_stale_last_term();
}

#[test]
fn follower_should_reject_vote_when_last_term_is_stale() {
    check_stale_last_term();
}

#[test]
fn tests_should_reject_vote_when_last_term_is_stale() {
    check_stale_last_term();
}

#[test]
fn accepts_higher_last_term() {
    check_higher_last_term();
}

#[test]
fn follower_should_accept_vote_when_last_term_is_higher() {
    check_higher_last_term();
}

#[test]
fn tests_should_accept_vote_when_last_term_is_higher() {
    check_higher_last_term();
}

#[test]
fn handles_equal_terms_with_index_check() {
    check_equal_last_term();
}

#[test]
fn follower_should_handle_index_check_when_terms_are_equal() {
    check_equal_last_term();
}

#[test]
fn tests_should_handle_index_check_when_terms_are_equal() {
    check_equal_last_term();
}

#[test]
fn promotion_preserves_invariants() {
    check_promotion();
}

#[test]
fn follower_should_preserve_invariants_when_promoting_to_candidate() {
    check_promotion();
}

#[test]
fn tests_should_preserve_invariants_when_promoting_to_candidate() {
    check_promotion();
}

#[test]
fn increments_term_and_votes_for_self() {
    check_election_restart();
}

#[test]
fn candidate_should_increment_term_and_vote_for_self_on_election_restart() {
    check_election_restart();
}

#[test]
fn tests_should_increment_term_and_vote_for_self_on_election_restart() {
    check_election_restart();
}

#[test]
fn initializes_leader_state_with_next_index_at_end_of_log() {
    check_leader_start();
}

#[test]
fn candidate_should_initialize_leader_state_with_next_index_at_end_of_log() {
    check_leader_start();
}

#[test]
fn tests_should_initialize_leader_state_with_next_index_at_end_of_log() {
    check_leader_start();
}

#[test]
fn add_vote_is_idempotent_per_peer() {
    check_duplicate_vote();
}

#[test]
fn candidate_should_be_idempotent_when_adding_vote_per_peer() {
    check_duplicate_vote();
}

#[test]
fn tests_should_be_idempotent_when_adding_vote_per_peer() {
    check_duplicate_vote();
}

#[test]
fn increments_log_length_and_uses_current_term() {
    check_proposal();
}

#[test]
fn leader_should_increment_log_length_and_use_current_term() {
    check_proposal();
}

#[test]
fn tests_should_increment_log_length_and_use_current_term() {
    check_proposal();
}

#[test]
fn returns_error_when_storage_fails() {
    check_failed_proposal();
}

#[test]
fn leader_should_return_error_when_storage_fails() {
    check_failed_proposal();
}

#[test]
fn tests_should_return_error_when_storage_fails() {
    check_failed_proposal();
}

#[test]
fn leader_should_advance_epoch_when_quorum_is_reached() {
    check_read_epochs();
}

#[test]
fn tests_should_advance_epoch_when_quorum_is_reached() {
    check_read_epochs();
}

#[test]
fn rejects_inconsistent_prev_index() {
    check_inconsistent_prev_rejected();
}

#[test]
fn follower_should_reject_append_entries_when_prev_index_is_inconsistent() {
    check_inconsistent_prev_rejected();
}

#[test]
fn tests_should_reject_append_entries_when_prev_index_is_inconsistent() {
    check_inconsistent_prev_rejected();
}

#[test]
fn detects_conflicts_and_truncates() {
    check_conflict_truncated();
}

#[test]
fn follower_should_detect_conflicts_and_truncate_log() {
    check_conflict_truncated();
}

#[test]
fn tests_should_detect_conflicts_and_truncate_log() {
    check_conflict_truncated();
}

#[test]
fn truncates_conflicting_suffix() {
    check_conflicting_suffix_truncated();
}

#[test]
fn follower_should_truncate_conflicting_suffix() {
    check_conflicting_suffix_truncated();
}

#[test]
fn tests_should_truncate_conflicting_suffix() {
    check_conflicting_suffix_truncated();
}

#[test]
fn is_idempotent_for_duplicate_entries() {
    check_duplicate_entries();
}

#[test]
fn follower_should_be_idempotent_when_duplicate_entries_received() {
    check_duplicate_entries();
}

#[test]
fn tests_should_be_idempotent_when_duplicate_entries_received() {
    check_duplicate_entries();
}

#[test]
fn rejects_non_contiguous_append() {
    check_non_contiguous_rejected();
}

#[test]
fn follower_should_reject_non_contiguous_append() {
    check_non_contiguous_rejected();
}

#[test]
fn tests_should_reject_non_contiguous_append() {
    check_non_contiguous_rejected();
}

#[test]
fn rejects_gap_between_prev_index_and_entries() {
    check_gap_rejected();
}

#[test]
fn follower_should_reject_append_when_gap_exists_between_prev_index_and_entries() {
    check_gap_rejected();
}

#[test]
fn tests_should_reject_append_when_gap_exists_between_prev_index_and_entries() {
    check_gap_rejected();
}

#[test]
fn caps_last_committed_at_local_log_length() {
    check_commit_capped();
}

#[test]
fn follower_should_cap_last_committed_at_local_log_length() {
    check_commit_capped();
}

#[test]
fn tests_should_cap_last_committed_at_local_log_length() {
    check_commit_capped();
}

#[test]
fn persists_to_log_store_when_index_is_valid_as_follower() {
    check_commit_persisted(follower(store_with(vec![entry(1, 1, vec![])])));
}

#[test]
fn shared_tests_should_persist_to_log_store_when_index_is_valid_as_follower() {
    check_commit_persisted(follower(store_with(vec![entry(1, 1, vec![])])));
}

#[test]
fn tests_should_persist_to_log_store_when_index_is_valid_as_follower() {
    check_commit_persisted(follower(store_with(vec![entry(1, 1, vec![])])));
}

#[test]
fn persists_to_log_store_when_index_is_valid_as_candidate() {
    check_commit_persisted(candidate(store_with(vec![entry(1, 1, vec![])])));
}

#[test]
fn shared_tests_should_persist_to_log_store_when_index_is_valid_as_candidate() {
    check_commit_persisted(candidate(store_with(vec![entry(1, 1, vec![])])));
}

#[test]
fn tests_should_persist_to_log_store_when_index_is_valid_as_candidate() {
    check_commit_persisted(candidate(store_with(vec![entry(1, 1, vec![])])));
}

#[test]
fn persists_to_log_store_when_index_is_valid_as_leader() {
    check_commit_persisted(leader(store_with(vec![entry(1, 1, vec![])])));
}

#[test]
fn shared_tests_should_persist_to_log_store_when_index_is_valid_as_leader() {
    check_commit_persisted(leader(store_with(vec![entry(1, 1, vec![])])));
}

#[test]
fn tests_should_persist_to_log_store_when_index_is_valid_as_leader() {
    check_commit_persisted(leader(store_with(vec![entry(1, 1, vec![])])));
}

#[test]
fn should_not_apply_to_fsm_when_index_is_valid_as_follower() {
    check_commit_does_not_apply(follower(one_entry()), LogIndex::new(1));
}

#[test]
fn should_not_apply_to_fsm_when_index_is_valid_as_candidate() {
    check_commit_does_not_apply(candidate(one_entry()), LogIndex::new(1));
}

#[test]
fn should_not_apply_to_fsm_when_index_is_valid_as_leader() {
    check_commit_does_not_apply(leader(one_entry()), LogIndex::new(1));
}

#[test]
fn should_not_apply_multiple_entries_when_index_jumps_ahead_as_follower() {
    check_commit_does_not_apply(follower(three_entries()), LogIndex::new(3));
}

#[test]
fn should_not_apply_multiple_entries_when_index_jumps_ahead_as_candidate() {
    check_commit_does_not_apply(candidate(three_entries()), LogIndex::new(3));
}

#[test]
fn should_not_apply_multiple_entries_when_index_jumps_ahead_as_leader() {
    check_commit_does_not_apply(leader(three_entries()), LogIndex::new(3));
}

#[test]
fn ignores_update_when_index_is_lower_than_current_as_follower() {
    check_stale_commit_ignored(follower(store_with(vec![entry(1, 1, vec![])])));
}

#[test]
fn shared_tests_should_ignore_update_when_index_is_lower_than_current_as_follower() {
    check_stale_commit_ignored(follower(store_with(vec![entry(1, 1, vec![])])));
}

#[test]
fn tests_should_ignore_update_when_index_is_lower_than_current_as_follower() {
    check_stale_commit_ignored(follower(store_with(vec![entry(1, 1, vec![])])));
}

#[test]
fn ignores_update_when_index_is_lower_than_current_as_candidate() {
    check_stale_commit_ignored(candidate(store_with(vec![entry(1, 1, vec![])])));
}

#[test]
fn shared_tests_should_ignore_update_when_index_is_lower_than_current_as_candidate() {
    check_stale_commit_ignored(candidate(store_with(vec![entry(1, 1, vec![])])));
}

#[test]
fn tests_should_ignore_update_when_index_is_lower_than_current_as_candidate() {
    check_stale_commit_ignored(candidate(store_with(vec![entry(1, 1, vec![])])));
}

#[test]
fn ignores_update_when_index_is_lower_than_current_as_leader() {
    check_stale_commit_ignored(leader(store_with(vec![entry(1, 1, vec![])])));
}

#[test]
fn shared_tests_should_ignore_update_when_index_is_lower_than_current_as_leader() {
    check_stale_commit_ignored(leader(store_with(vec![entry(1, 1, vec![])])));
}

#[test]
fn tests_should_ignore_update_when_index_is_lower_than_current_as_leader() {
    check_stale_commit_ignored(leader(store_with(vec![entry(1, 1, vec![])])));
}

#[test]
fn returns_error_when_index_exceeds_last_log_index_as_follower() {
    check_commit_beyond_log(follower(MemoryStorage::new()));
}

#[test]
fn shared_tests_should_return_error_when_index_exceeds_last_log_index_as_follower() {
    check_commit_beyond_log(follower(MemoryStorage::new()));
}

#[test]
fn tests_should_return_error_when_index_exceeds_last_log_index_as_follower() {
    check_commit_beyond_log(follower(MemoryStorage::new()));
}

#[test]
fn returns_error_when_index_exceeds_last_log_index_as_candidate() {
    check_commit_beyond_log(candidate(MemoryStorage::new()));
}

#[test]
fn shared_tests_should_return_error_when_index_exceeds_last_log_index_as_candidate() {
    check_commit_beyond_log(candidate(MemoryStorage::new()));
}

#[test]
fn tests_should_return_error_when_index_exceeds_last_log_index_as_candidate() {
    check_commit_beyond_log(candidate(MemoryStorage::new()));
}

#[test]
fn returns_error_when_index_exceeds_last_log_index_as_leader() {
    check_commit_beyond_log(leader(MemoryStorage::new()));
}

#[test]
fn shared_tests_should_return_error_when_index_exceeds_last_log_index_as_leader() {
    check_commit_beyond_log(leader(MemoryStorage::new()));
}

#[test]
fn tests_should_return_error_when_index_exceeds_last_log_index_as_leader() {
    check_commit_beyond_log(leader(MemoryStorage::new()));
}

#[test]
fn returns_error_when_fsm_index_is_ahead_of_last_committed_as_follower() {
    check_fsm_ahead_of_commit(follower(MemoryStorage::new()));
}

#[test]
fn shared_tests_should_return_error_when_fsm_index_is_ahead_of_last_committed_as_follower() {
    check_fsm_ahead_of_commit(follower(MemoryStorage::new()));
}

#[test]
fn tests_should_return_error_when_fsm_index_is_ahead_of_last_committed_as_follower() {
    check_fsm_ahead_of_commit(follower(MemoryStorage::new()));
}

#[test]
fn returns_error_when_fsm_index_is_ahead_of_last_committed_as_candidate() {
    check_fsm_ahead_of_commit(candidate(MemoryStorage::new()));
}

#[test]
fn shared_tests_should_return_error_when_fsm_index_is_ahead_of_last_committed_as_candidate() {
    check_fsm_ahead_of_commit(candidate(MemoryStorage::new()));
}

#[test]
fn tests_should_return_error_when_fsm_index_is_ahead_of_last_committed_as_candidate() {
    check_fsm_ahead_of_commit(candidate(MemoryStorage::new()));
}

#[test]
fn returns_error_when_fsm_index_is_ahead_of_last_committed_as_leader() {
    check_fsm_ahead_of_commit(leader(MemoryStorage::new()));
}

#[test]
fn shared_tests_should_return_error_when_fsm_index_is_ahead_of_last_committed_as_leader() {
    check_fsm_ahead_of_commit(leader(MemoryStorage::new()));
}

#[test]
fn tests_should_return_error_when_fsm_index_is_ahead_of_last_committed_as_leader() {
    check_fsm_ahead_of_commit(leader(MemoryStorage::new()));
}

#[test]
fn returns_error_when_committed_entry_is_missing_from_log_store_as_follower() {
    check_missing_entry(follower(committed_without_entries()));
}

#[test]
fn shared_tests_should_return_error_when_committed_entry_is_missing_from_log_store_as_follower() {
    check_missing_entry(follower(committed_without_entries()));
}

#[test]
fn tests_should_return_error_when_committed_entry_is_missing_from_log_store_as_follower() {
    check_missing_entry(follower(committed_without_entries()));
}

#[test]
fn returns_error_when_committed_entry_is_missing_from_log_store_as_candidate() {
    check_missing_entry(candidate(committed_without_entries()));
}

#[test]
fn shared_tests_should_return_error_when_committed_entry_is_missing_from_log_store_as_candidate() {
    check_missing_entry(candidate(committed_without_entries()));
}

#[test]
fn tests_should_return_error_when_committed_entry_is_missing_from_log_store_as_candidate() {
    check_missing_entry(candidate(committed_without_entries()));
}

#[test]
fn returns_error_when_committed_entry_is_missing_from_log_store_as_leader() {
    check_missing_entry(leader(committed_without_entries()));
}

#[test]
fn shared_tests_should_return_error_when_committed_entry_is_missing_from_log_store_as_leader() {
    check_missing_entry(leader(committed_without_entries()));
}

#[test]
fn tests_should_return_error_when_committed_entry_is_missing_from_log_store_as_leader() {
    check_missing_entry(leader(committed_without_entries()));
}

#[test]
fn returns_error_when_state_machine_apply_fails_as_follower() {
    check_failing_apply(follower(one_entry()));
}

#[test]
fn should_return_error_when_state_machine_apply_fails_as_follower() {
    check_failing_apply(follower(one_entry()));
}

#[test]
fn returns_error_when_state_machine_apply_fails_as_candidate() {
    check_failing_apply(candidate(one_entry()));
}

#[test]
fn should_return_error_when_state_machine_apply_fails_as_candidate() {
    check_failing_apply(candidate(one_entry()));
}

#[test]
fn returns_error_when_state_machine_apply_fails_as_leader() {
    check_failing_apply(leader(one_entry()));
}

#[test]
fn should_return_error_when_state_machine_apply_fails_as_leader() {
    check_failing_apply(leader(one_entry()));
}

#[test]
fn returns_error_when_new_term_is_lower_than_current_as_follower() {
    check_lower_term_refused(follower(MemoryStorage::new()));
}

#[test]
fn shared_tests_should_return_error_when_new_term_is_lower_than_current_as_follower() {
    check_lower_term_refused(follower(MemoryStorage::new()));
}

#[test]
fn tests_should_return_error_when_new_term_is_lower_than_current_as_follower() {
    check_lower_term_refused(follower(MemoryStorage::new()));
}

#[test]
fn returns_error_when_new_term_is_lower_than_current_as_candidate() {
    check_lower_term_refused(candidate(MemoryStorage::new()));
}

#[test]
fn shared_tests_should_return_error_when_new_term_is_lower_than_current_as_candidate() {
    check_lower_term_refused(candidate(MemoryStorage::new()));
}

#[test]
fn tests_should_return_error_when_new_term_is_lower_than_current_as_candidate() {
    check_lower_term_refused(candidate(MemoryStorage::new()));
}

#[test]
fn returns_error_when_new_term_is_lower_than_current_as_leader() {
    check_lower_term_refused(leader(MemoryStorage::new()));
}

#[test]
fn shared_tests_should_return_error_when_new_term_is_lower_than_current_as_leader() {
    check_lower_term_refused(leader(MemoryStorage::new()));
}

#[test]
fn tests_should_return_error_when_new_term_is_lower_than_current_as_leader() {
    check_lower_term_refused(leader(MemoryStorage::new()));
}

#[test]
fn persists_new_term_and_resets_voted_for_as_follower() {
    check_higher_term_resets_vote(follower(voted_at(5, Some(id(2)))));
}

#[test]
fn shared_tests_should_persist_new_term_and_reset_voted_for_as_follower() {
    check_higher_term_resets_vote(follower(voted_at(5, Some(id(2)))));
}

#[test]
fn tests_should_persist_new_term_and_reset_voted_for_as_follower() {
    check_higher_term_resets_vote(follower(voted_at(5, Some(id(2)))));
}

#[test]
fn preserves_current_term_and_voting_state_as_follower() {
    check_same_term_keeps_vote(follower(voted_at(5, Some(id(2)))));
}

#[test]
fn shared_tests_should_preserve_current_term_and_voting_state_as_follower() {
    check_same_term_keeps_vote(follower(voted_at(5, Some(id(2)))));
}

#[test]
fn tests_should_preserve_current_term_and_voting_state_as_follower() {
    check_same_term_keeps_vote(follower(voted_at(5, Some(id(2)))));
}

#[test]
fn propagates_persistence_error_when_storage_fails_as_follower() {
    check_persistence_error(failing_node(failing_hard_state()));
}

#[test]
fn shared_tests_should_propagate_persistence_error_when_storage_fails_as_follower() {
    check_persistence_error(failing_node(failing_hard_state()));
}

#[test]
fn tests_should_propagate_persistence_error_when_storage_fails_as_follower() {
    check_persistence_error(failing_node(failing_hard_state()));
}

#[test]
fn persists_new_term_and_resets_voted_for_as_candidate() {
    check_higher_term_resets_vote(with_other_vote(candidate(voted_at(4, Some(id(2))))));
}

#[test]
fn shared_tests_should_persist_new_term_and_reset_voted_for_as_candidate() {
    check_higher_term_resets_vote(with_other_vote(candidate(voted_at(4, Some(id(2))))));
}

#[test]
fn tests_should_persist_new_term_and_reset_voted_for_as_candidate() {
    check_higher_term_resets_vote(with_other_vote(candidate(voted_at(4, Some(id(2))))));
}

#[test]
fn preserves_current_term_and_voting_state_as_candidate() {
    check_same_term_keeps_vote(with_other_vote(candidate(voted_at(4, None))));
}

#[test]
fn shared_tests_should_preserve_current_term_and_voting_state_as_candidate() {
    check_same_term_keeps_vote(with_other_vote(candidate(voted_at(4, None))));
}

#[test]
fn tests_should_preserve_current_term_and_voting_state_as_candidate() {
    check_same_term_keeps_vote(with_other_vote(candidate(voted_at(4, None))));
}

#[test]
fn propagates_persistence_error_when_storage_fails_as_candidate() {
    check_persistence_error(
        failing_node(failing_hard_state())
            .transition(Candidate::new(Tick::new(0), TickDuration::new(150))),
    );
}

#[test]
fn shared_tests_should_propagate_persistence_error_when_storage_fails_as_candidate() {
    check_persistence_error(
        failing_node(failing_hard_state())
            .transition(Candidate::new(Tick::new(0), TickDuration::new(150))),
    );
}

#[test]
fn tests_should_propagate_persistence_error_when_storage_fails_as_candidate() {
    check_persistence_error(
        failing_node(failing_hard_state())
            .transition(Candidate::new(Tick::new(0), TickDuration::new(150))),
    );
}

#[test]
fn persists_new_term_and_resets_voted_for_as_leader() {
    check_higher_term_resets_vote(with_other_vote(leader(voted_at(4, Some(id(2))))));
}

#[test]
fn shared_tests_should_persist_new_term_and_reset_voted_for_as_leader() {
    check_higher_term_resets_vote(with_other_vote(leader(voted_at(4, Some(id(2))))));
}

#[test]
fn tests_should_persist_new_term_and_reset_voted_for_as_leader() {
    check_higher_term_resets_vote(with_other_vote(leader(voted_at(4, Some(id(2))))));
}

#[test]
fn preserves_current_term_and_voting_state_as_leader() {
    check_same_term_keeps_vote(with_other_vote(leader(voted_at(4, None))));
}

#[test]
fn shared_tests_should_preserve_current_term_and_voting_state_as_leader() {
    check_same_term_keeps_vote(with_other_vote(leader(voted_at(4, None))));
}

#[test]
fn tests_should_preserve_current_term_and_voting_state_as_leader() {
    check_same_term_keeps_vote(with_other_vote(leader(voted_at(4, None))));
}

#[test]
fn propagates_persistence_error_when_storage_fails_as_leader() {
    check_persistence_error(
        failing_node(failing_hard_state())
            .transition(Leader::new(vec![], LogIndex::zero(), Tick::new(0)).unwrap()),
    );
}

#[test]
fn shared_tests_should_propagate_persistence_error_when_storage_fails_as_leader() {
    check_persistence_error(
        failing_node(failing_hard_state())
            .transition(Leader::new(vec![], LogIndex::zero(), Tick::new(0)).unwrap()),
    );
}

#[test]
fn tests_should_propagate_persistence_error_when_storage_fails_as_leader() {
    check_persistence_error(
        failing_node(failing_hard_state())
            .transition(Leader::new(vec![], LogIndex::zero(), Tick::new(0)).unwrap()),
    );
}

#[test]
fn committed_commands_are_applied_once_and_in_order() {
    let mut node = leader(three_entries());
    let mut fsm = MockFsm::default();
    node.advance_last_committed(LogIndex::new(3)).unwrap();

    node.apply_to_state_machine(&mut fsm).unwrap();
    node.apply_to_state_machine(&mut fsm).unwrap();

    assert_eq!(
        fsm.applied_indices,
        vec![LogIndex::new(1), LogIndex::new(2), LogIndex::new(3)]
    );
    assert_eq!(fsm.applied_data, vec![vec![1], vec![2], vec![3]]);
    assert_eq!(node.last_applied(), LogIndex::new(3));
}

#[test]
fn horizon_moves_both_boundaries() {
    let mut store = MemoryStorage::new();
    store.save_snapshot_metadata(LogIndex::new(7), Term::new(2)).unwrap();
    let mut node = follower(store);

    node.advance_horizon_after_snapshot(LogIndex::new(7)).unwrap();

    assert_eq!(node.last_committed(), LogIndex::new(7));
    assert_eq!(node.last_applied(), LogIndex::new(7));
}

#[test]
fn gap_after_conflict_leaves_the_log_cut() {
    let mut node = follower(three_entries());

    let result = node
        .reconcile_log(
            LogIndex::new(1),
            Term::new(1),
            vec![entry(2, 2, vec![]), entry(4, 2, vec![])],
            LogIndex::new(4),
        )
        .unwrap();

    assert!(!result.success);
    assert_eq!(result.last_index, LogIndex::new(1));
    assert_eq!(node.last_committed(), LogIndex::zero());
}

#[test]
fn longer_log_survives_a_shorter_request() {
    let mut node = follower(three_entries());

    let result = node
        .reconcile_log(
            LogIndex::zero(),
            Term::zero(),
            vec![entry(1, 1, vec![1])],
            LogIndex::new(2),
        )
        .unwrap();

    assert!(result.success);
    assert_eq!(result.last_index, LogIndex::new(3));
    assert_eq!(node.last_committed(), LogIndex::new(2));
}

#[test]
fn entry_at_the_last_index_overflows() {
    let mut store = MemoryStorage::new();
    store.save_snapshot_metadata(LogIndex::new(u64::MAX), Term::new(1)).unwrap();
    let mut node = follower(store);

    let result = node.reconcile_log(LogIndex::zero(), Term::zero(), vec![], LogIndex::zero());

    assert_eq!(result, Err(NodeError::Arithmetic(ArithmeticError::Overflow)));
}

#[test]
fn last_term_cannot_be_campaigned_past() {
    let result = follower(voted_at(u64::MAX, None))
        .try_into_candidate(Tick::new(0), TickDuration::new(1));

    assert_eq!(
        result.err(),
        Some(NodeError::Arithmetic(ArithmeticError::Overflow))
    );
}

#[test]
fn full_log_cannot_be_led() {
    let mut store = MemoryStorage::new();
    store.save_snapshot_metadata(LogIndex::new(u64::MAX), Term::new(1)).unwrap();

    let result = candidate(store).try_into_leader(vec![id(2)], Tick::new(0));

    assert_eq!(
        result.err(),
        Some(NodeError::Arithmetic(ArithmeticError::Overflow))
    );
}

#[test]
fn pre_candidate_keeps_term_and_vote() {
    let node = follower(voted_at(4, Some(id(3))))
        .try_into_pre_candidate(Tick::new(2), TickDuration::new(10))
        .unwrap();

    assert_eq!(node.current_term().unwrap(), Term::new(4));
    assert_eq!(node.voted_for().unwrap(), Some(id(3)));
    assert_eq!(node.campaign_start(), Tick::new(2));
    assert_eq!(node.timeout(), TickDuration::new(10));
}

#[test]
fn pre_candidate_steps_down_at_its_timeout() {
    let role = PreCandidate::new(Tick::new(5), TickDuration::new(10));

    assert_eq!(role.campaign_start(), Tick::new(5));
    assert_eq!(role.timeout(), TickDuration::new(10));
    assert_eq!(role.evaluate_tick(Tick::new(14)), TickAction::Idle);
    assert_eq!(role.evaluate_tick(Tick::new(15)), TickAction::StepDown);
    assert_eq!(role.evaluate_tick(Tick::new(3)), TickAction::Idle);
}

#[test]
fn pre_candidate_can_start_the_election() {
    let node = follower(voted_at(4, Some(id(3))))
        .try_into_pre_candidate(Tick::new(0), TickDuration::new(10))
        .unwrap()
        .try_into_candidate(Tick::new(1), TickDuration::new(20))
        .unwrap();

    assert_eq!(node.current_term().unwrap(), Term::new(5));
    assert_eq!(node.voted_for().unwrap(), Some(id(1)));
    assert_eq!(node.state().election_start(), Tick::new(1));
    assert_eq!(node.state().timeout(), TickDuration::new(20));
}

#[test]
fn follower_knows_its_leader() {
    let mut node = follower(MemoryStorage::new());
    assert_eq!(node.state().leader_id(), None);
    node.state_mut().set_leader_id(Some(id(2)));
    assert_eq!(node.state().leader_id(), Some(id(2)));
    assert_eq!(node.state().timeout(), TickDuration::new(100));
    assert_eq!(node.cluster_id().as_str(), "test-cluster");
    assert_eq!(node.identity().node_id(), id(1));
}

#[test]
fn compacted_front_is_gone() {
    let mut node = leader(three_entries());
    node.save_snapshot_metadata(LogIndex::new(2), Term::new(1)).unwrap();
    node.truncate_log_front(LogIndex::new(2)).unwrap();

    assert_eq!(node.last_included_index().unwrap(), LogIndex::new(2));
    assert_eq!(node.last_included_term().unwrap(), Term::new(1));
    assert_eq!(node.last_log_index().unwrap(), LogIndex::new(3));
    assert_eq!(node.last_log_term().unwrap(), Term::new(1));
    assert_eq!(
        node.read_entries(LogIndex::new(1), LogIndex::new(3)).unwrap(),
        vec![entry(3, 1, vec![3])]
    );
}
