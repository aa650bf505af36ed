//! Tests of elections, replication and the lifecycle of a node.
use raft_engine::config::RaftConfig;
use raft_engine::consensus::election::conclude_election;
use raft_engine::consensus::election::conclude_pre_vote;
use raft_engine::consensus::election::process_pre_vote_response;
use raft_engine::consensus::election::process_vote_response;
use raft_engine::consensus::election::PreVoteTally;
use raft_engine::consensus::lifecycle::begin_pre_vote;
use raft_engine::consensus::lifecycle::begin_compaction;
use raft_engine::consensus::lifecycle::compact_log;
use raft_engine::consensus::lifecycle::drive_tick;
use raft_engine::consensus::lifecycle::finish_compaction;
use raft_engine::consensus::lifecycle::should_compact_log;
use raft_engine::consensus::lifecycle::step_down;
use raft_engine::consensus::lifecycle::CompactionTarget;
use raft_engine::consensus::lifecycle::Handoff;
use raft_engine::consensus::replication::append_outcome;
use raft_engine::consensus::replication::finish_snapshot_serialization;
use raft_engine::consensus::replication::judge_probe;
use raft_engine::consensus::replication::plan_replication;
use raft_engine::consensus::replication::process_replication_response;
use raft_engine::consensus::replication::ProbeDecision;
use raft_engine::consensus::replication::ReplicationStep;
use raft_engine::consensus::rpc::build_append_entries_request;
use raft_engine::consensus::rpc::determine_node_role_name;
use raft_engine::consensus::rpc::determine_replication_strategy;
use raft_engine::consensus::rpc::update_leader_last_committed;
use raft_engine::consensus::rpc::verify_trace_integrity;
use raft_engine::consensus::types::AppendEntriesReply;
use raft_engine::consensus::types::PreVoteAction;
use raft_engine::consensus::types::ReplicationAction;
use raft_engine::consensus::types::ReplicationOutcome;
use raft_engine::consensus::types::ReplicationRoundParams;
use raft_engine::consensus::types::ReplicationStrategy;
use raft_engine::consensus::types::RpcCode;
use raft_engine::consensus::types::RpcStatus;
use raft_engine::consensus::types::VoteAction;
use raft_engine::consensus::types::VoteReply;
use raft_engine::engine::LogicalNode;
use raft_engine::engine::NodeRole;
use raft_engine::engine::RoleState;
use raft_engine::errors::ConsensusError;
use raft_engine::errors::LogStorageError;
use raft_engine::errors::NodeError;
use raft_engine::errors::ProtocolError;
use raft_engine::node::TickAction;
use raft_engine::orchestration::apply_committed;
use raft_engine::orchestration::begin_install_snapshot;
use raft_engine::orchestration::begin_leadership_check;
use raft_engine::orchestration::finish_apply;
use raft_engine::orchestration::finish_install_snapshot;
use raft_engine::orchestration::judge_leadership;
use raft_engine::orchestration::next_to_apply;
use raft_engine::orchestration::ApplyTask;
use raft_engine::orchestration::InstallStep;
use raft_engine::storage::LogState;
use std::cell::Cell;
use std::rc::Rc;
use raft_engine::errors::FsmError;
use raft_engine::state_machine::History;
use raft_engine::state_machine::StateMachine;
use raft_engine::storage::LogStorage;
use raft_engine::storage::MemoryStorage;
use raft_engine::tick::TickDuration;
use raft_engine::tick::TickThresholds;
use raft_engine::types::ClusterId;
use raft_engine::types::LogEntry;
use raft_engine::types::LogIndex;
use raft_engine::types::NodeId;
use raft_engine::types::NodeIdentity;
use raft_engine::types::Term;
use raft_engine::types::TraceId;
use rand::rngs::StdRng;
use rand::SeedableRng;

#[derive(Debug, Default)]
struct MockFsm {
    applied: u64,
    applied_indices: Vec<LogIndex>,
    applied_data: Vec<Vec<u8>>,
}

impl StateMachine for MockFsm {
    fn applied_index(&self) -> LogIndex {
        unreachable!()
    }

    fn history(&self) -> History {
        unreachable!()
    }

    fn reliable(&self) -> bool {
        unreachable!()
    }

    fn last_applied_index(&self) -> Result<LogIndex, FsmError> {
        Ok(LogIndex::new(self.applied))
    }

    fn apply(&mut self, index: LogIndex, data: &Vec<u8>) -> Result<(), FsmError> {
        self.applied_indices.push(index);
        self.applied_data.push(data.clone());
        Ok(())
    }

    fn snapshot(&self) -> Result<Vec<u8>, FsmError> {
        Ok(vec![])
    }

    fn install_snapshot(&mut self, _: LogIndex, _: &Vec<u8>, _: TraceId) -> Result<(), FsmError> {
        Ok(())
    }
}

#[derive(Debug, Default)]
struct PoisonApplyFsm;

impl StateMachine for PoisonApplyFsm {
    fn applied_index(&self) -> LogIndex {
        unreachable!()
    }

    fn history(&self) -> History {
        unreachable!()
    }

    fn reliable(&self) -> bool {
        unreachable!()
    }

    fn last_applied_index(&self) -> Result<LogIndex, FsmError> {
        Ok(LogIndex::zero())
    }

    fn apply(&mut self, _: LogIndex, _: &Vec<u8>) -> Result<(), FsmError> {
        Err(FsmError::violation("Simulated FSM apply failure"))
    }

    fn snapshot(&self) -> Result<Vec<u8>, FsmError> {
        Ok(vec![])
    }

    fn install_snapshot(&mut self, _: LogIndex, _: &Vec<u8>, _: TraceId) -> Result<(), FsmError> {
        Ok(())
    }
}

/// A state machine that cannot apply the second command.
#[derive(Debug, Default)]
struct StumblingFsm {
    applied: Vec<u64>,
    tried: u64,
}

impl StateMachine for StumblingFsm {
    fn applied_index(&self) -> LogIndex {
        unreachable!()
    }

    fn history(&self) -> History {
        unreachable!()
    }

    fn reliable(&self) -> bool {
        unreachable!()
    }

    fn last_applied_index(&self) -> Result<LogIndex, FsmError> {
        Ok(LogIndex::zero())
    }

    fn apply(&mut self, index: LogIndex, _: &Vec<u8>) -> Result<(), FsmError> {
        self.tried += 1;
        if index.as_u64() == 2 {
            return Err(FsmError::violation("Stumbled"));
        }
        self.applied.push(index.as_u64());
        Ok(())
    }

    fn snapshot(&self) -> Result<Vec<u8>, FsmError> {
        Ok(vec![])
    }

    fn install_snapshot(&mut self, _: LogIndex, _: &Vec<u8>, _: TraceId) -> Result<(), FsmError> {
        Ok(())
    }
}

/// A store that can be read only while the switch is off, and whose front may
/// refuse to be cut.
#[derive(Debug)]
struct FailingReadStorage {
    inner: MemoryStorage,
    armed: Rc<Cell<bool>>,
    uncuttable: bool,
}

impl FailingReadStorage {
    fn alive(&self) -> Result<(), LogStorageError> {
        if self.armed.get() {
            return Err(LogStorageError::persistence("Simulated read failure"));
        }
        Ok(())
    }
}

impl LogStorage for FailingReadStorage {
    fn model(&self) -> LogState {
        unreachable!()
    }

    fn reliable(&self) -> bool {
        unreachable!()
    }

    fn current_term(&self) -> Result<Term, LogStorageError> {
        self.alive()?;
        self.inner.current_term()
    }

    fn voted_for(&self) -> Result<Option<NodeId>, LogStorageError> {
        self.alive()?;
        self.inner.voted_for()
    }

    fn last_log_index(&self) -> Result<LogIndex, LogStorageError> {
        self.alive()?;
        self.inner.last_log_index()
    }

    fn last_log_term(&self) -> Result<Term, LogStorageError> {
        self.alive()?;
        self.inner.last_log_term()
    }

    fn last_committed(&self) -> Result<LogIndex, LogStorageError> {
        self.alive()?;
        self.inner.last_committed()
    }

    fn read_entry(&self, index: LogIndex) -> Result<Option<LogEntry>, LogStorageError> {
        self.alive()?;
        self.inner.read_entry(index)
    }

    fn read_entries(
        &self,
        start: LogIndex,
        end: LogIndex,
    ) -> Result<Vec<LogEntry>, LogStorageError> {
        self.alive()?;
        self.inner.read_entries(start, end)
    }

    fn save_hard_state(&mut self, term: Term, vote: Option<NodeId>) -> Result<(), LogStorageError> {
        self.inner.save_hard_state(term, vote)
    }

    fn save_last_committed(&mut self, index: LogIndex) -> Result<(), LogStorageError> {
        self.inner.save_last_committed(index)
    }

    fn append_entries(&mut self, entries: Vec<LogEntry>) -> Result<(), LogStorageError> {
        self.inner.append_entries(entries)
    }

    fn truncate_log(&mut self, index: LogIndex) -> Result<(), LogStorageError> {
        self.inner.truncate_log(index)
    }

    fn truncate_log_front(&mut self, index: LogIndex) -> Result<(), LogStorageError> {
        if self.uncuttable {
            return Err(LogStorageError::persistence("Simulated cut failure"));
        }
        self.inner.truncate_log_front(index)
    }

    fn save_snapshot_metadata(&mut self, index: LogIndex, term: Term) -> Result<(), LogStorageError> {
        self.inner.save_snapshot_metadata(index, term)
    }

    fn last_included_index(&self) -> Result<LogIndex, LogStorageError> {
        self.alive()?;
        self.inner.last_included_index()
    }

    fn last_included_term(&self) -> Result<Term, LogStorageError> {
        self.alive()?;
        self.inner.last_included_term()
    }
}

fn id(value: u64) -> NodeId {
    NodeId::try_new(value).unwrap()
}

fn test_identity(value: u64) -> NodeIdentity {
    NodeIdentity::new(ClusterId::try_new("test-cluster").unwrap(), id(value))
}

fn test_thresholds() -> TickThresholds {
    TickThresholds {
        heartbeat_interval: TickDuration::new(10),
        min_election: TickDuration::new(15),
        max_election: TickDuration::new(30),
    }
}

fn node_on(storage: MemoryStorage, applied: u64) -> LogicalNode<MemoryStorage> {
    LogicalNode::try_new(
        test_identity(1),
        &MockFsm { applied, ..MockFsm::default() },
        storage,
        test_thresholds(),
        StdRng::seed_from_u64(1),
    )
    .unwrap()
}

fn setup_node() -> LogicalNode<MemoryStorage> {
    node_on(MemoryStorage::new(), 0)
}

fn leader_of(peers: Vec<NodeId>) -> LogicalNode<MemoryStorage> {
    let mut node = setup_node();
    node.into_candidate().unwrap();
    node.into_leader(peers).unwrap();
    node
}

fn failing_node() -> (LogicalNode<FailingReadStorage>, Rc<Cell<bool>>) {
    let armed = Rc::new(Cell::new(false));
    let storage = FailingReadStorage {
        inner: MemoryStorage::new(),
        armed: armed.clone(),
        uncuttable: true,
    };
    let node = LogicalNode::try_new(
        test_identity(1),
        &MockFsm::default(),
        storage,
        test_thresholds(),
        StdRng::seed_from_u64(1),
    )
    .unwrap();
    (node, armed)
}

fn mock_config() -> RaftConfig {
    RaftConfig {
        election_timeout_min_ms: 50,
        election_timeout_max_ms: 100,
        snapshot_threshold: 20,
        ..RaftConfig::default()
    }
}

fn trace() -> TraceId {
    TraceId::new(77)
}

fn round(term: u64) -> ReplicationRoundParams {
    ReplicationRoundParams {
        term: Term::new(term),
        node_id: id(1),
        last_committed: LogIndex::zero(),
        trace_id: trace(),
    }
}

fn appended(prev: u64, len: u64, term: u64, success: bool, last: u64) -> ReplicationOutcome {
    ReplicationOutcome::AppendEntries {
        sent_prev_index: LogIndex::new(prev),
        sent_entries_len: len,
        response: AppendEntriesReply {
            term: Term::new(term),
            success,
            last_log_index: LogIndex::new(last),
        },
    }
}

fn progress_of(node: &LogicalNode<MemoryStorage>, peer: NodeId) -> (LogIndex, LogIndex) {
    let leader = node.as_leader().unwrap();
    (
        *leader.state().match_index().get(&peer.as_u64()).unwrap(),
        *leader.state().next_index().get(&peer.as_u64()).unwrap(),
    )
}

fn store_of(count: u64) -> MemoryStorage {
    let mut store = MemoryStorage::new();
    let entries: Vec<LogEntry> = (1..=count)
        .map(|i| LogEntry { index: i, term: 1, data: vec![] })
        .collect();
    store.append_entries(entries).unwrap();
    store
}

fn check_election_won() {
    let mut node = setup_node();
    node.into_candidate().unwrap();
    let peers = vec![id(2)];

    let opening = conclude_election(&mut node, Term::new(1), &peers).unwrap();
    assert_eq!(opening, VoteAction::Continue);
    let action = process_vote_response(
        &mut node,
        Term::new(1),
        &peers,
        id(2),
        Ok(VoteReply { term: Term::new(1), vote_granted: true }),
    )
    .unwrap();

    assert_eq!(action, VoteAction::QuorumReached);
    assert!(matches!(node.state(), RoleState::Leader(_)));
}

fn check_election_storage_failure() {
    let (mut node, armed) = failing_node();
    armed.set(true);

    let result = conclude_election(&mut node, Term::new(1), &vec![]);

    assert!(result.is_err(), "Expected Err from storage failure");
}

fn check_tally_storage_failure() {
    let (mut node, armed) = failing_node();
    node.into_candidate().unwrap();
    armed.set(true);

    let result = process_vote_response(
        &mut node,
        Term::new(1),
        &vec![id(2), id(3)],
        id(2),
        Ok(VoteReply { term: Term::new(1), vote_granted: true }),
    );

    assert!(result.is_err(), "Expected a halt");
    assert!(matches!(node.state(), RoleState::Poisoned));
}

fn check_reply_storage_failure() {
    let (mut node, armed) = failing_node();
    node.into_candidate().unwrap();
    node.into_leader(vec![id(2)]).unwrap();
    armed.set(true);

    let result = process_replication_response(
        &mut node,
        Term::new(1),
        id(2),
        Ok(Some(appended(0, 1, 1, true, 0))),
    );

    assert!(result.is_err(), "Expected a halt");
    assert!(matches!(node.state(), RoleState::Poisoned));
}

fn check_halt_mandate() {
    check_tally_storage_failure();
    check_reply_storage_failure();
}

fn check_demotion_by_vote_reply() {
    let mut node = setup_node();

    let action = process_vote_response(
        &mut node,
        Term::new(1),
        &vec![],
        id(2),
        Ok(VoteReply { term: Term::new(2), vote_granted: false }),
    )
    .unwrap();

    assert_eq!(action, VoteAction::Demoted);
    assert_eq!(node.try_current_term().unwrap(), Term::new(2));
}

fn check_majority_of_votes() {
    let mut node = setup_node();
    node.into_candidate().unwrap();

    let action = process_vote_response(
        &mut node,
        Term::new(1),
        &vec![id(2), id(3)],
        id(2),
        Ok(VoteReply { term: Term::new(1), vote_granted: true }),
    )
    .unwrap();

    assert_eq!(action, VoteAction::QuorumReached);
    assert!(matches!(node.state(), RoleState::Leader(_)));
}

fn check_accepted_entries() {
    let mut node = leader_of(vec![id(2)]);

    process_replication_response(
        &mut node,
        Term::new(1),
        id(2),
        Ok(Some(appended(0, 1, 1, true, 0))),
    )
    .unwrap();

    assert_eq!(progress_of(&node, id(2)), (LogIndex::new(1), LogIndex::new(2)));
}

fn check_backoff() {
    let mut node = leader_of(vec![id(2)]);
    node.as_leader_mut()
        .unwrap()
        .state_mut()
        .next_index_mut()
        .insert(2, LogIndex::new(11));

    process_replication_response(
        &mut node,
        Term::new(1),
        id(2),
        Ok(Some(appended(10, 0, 1, false, 5))),
    )
    .unwrap();

    assert_eq!(progress_of(&node, id(2)).1, LogIndex::new(6));
}

fn check_snapshot_reply() {
    let mut node = leader_of(vec![id(2)]);

    process_replication_response(
        &mut node,
        Term::new(1),
        id(2),
        Ok(Some(ReplicationOutcome::InstallSnapshot {
            last_included_index: LogIndex::new(50),
            response_term: Term::new(1),
        })),
    )
    .unwrap();

    assert_eq!(progress_of(&node, id(2)), (LogIndex::new(50), LogIndex::new(51)));
}

fn check_probe_higher_term() {
    let higher_term = Term::new(10);

    let decision = judge_probe(Term::new(3), Ok(Some(appended(0, 0, 10, false, 0))));

    match decision {
        ProbeDecision::HandOn(outcome) => assert_eq!(outcome.response_term(), higher_term),
        other => panic!("expected the answer to be handed on, got {:?}", other),
    }
}

fn check_probe_passed() {
    let mut node = setup_node();

    assert_eq!(
        judge_probe(Term::new(3), Ok(Some(appended(0, 0, 1, true, 0)))),
        ProbeDecision::Proceed
    );
    node.set_snapshotting(true).unwrap();
    let request = finish_snapshot_serialization(
        &mut node,
        id(2),
        round(3),
        LogIndex::new(10),
        Term::new(2),
        Ok(vec![1, 2]),
    )
    .unwrap();

    assert_eq!(request.last_included_index, LogIndex::new(10));
    assert_eq!(request.last_included_term, Term::new(2));
    assert_eq!(request.term, Term::new(3));
    assert_eq!(request.leader_id, id(1));
    assert_eq!(request.data, vec![1, 2]);
}

fn check_freeze_around_serialization() {
    let mut node = setup_node();

    node.set_snapshotting(true).unwrap();
    assert!(node.is_snapshotting(), "Flag should be true during snapshot()");
    finish_snapshot_serialization(
        &mut node,
        id(2),
        round(3),
        LogIndex::new(10),
        Term::new(2),
        Ok(vec![]),
    )
    .unwrap();

    assert!(
        !node.is_snapshotting(),
        "Flag should be false after snapshot completes"
    );
}

fn check_serialization_failure() {
    let mut node = setup_node();
    node.set_snapshotting(true).unwrap();

    let result = finish_snapshot_serialization(
        &mut node,
        id(2),
        round(3),
        LogIndex::new(10),
        Term::new(2),
        Err(FsmError::persistence("Simulated failure")),
    );

    assert_eq!(
        result.unwrap_err().message(),
        "Snapshot serialization failed for peer=2 at index=10 in term=3: Persistence failure: \
         Simulated failure"
    );
    assert!(node.is_poisoned());
}

fn check_commit_by_majority() {
    let mut node = node_on(store_of(5), 0);
    node.into_candidate().unwrap();
    node.into_leader(vec![id(2), id(3)]).unwrap();
    {
        let leader = node.as_leader_mut().unwrap();
        leader.state_mut().match_index_mut().insert(2, LogIndex::new(4));
        leader.state_mut().match_index_mut().insert(3, LogIndex::new(1));
    }

    update_leader_last_committed(&mut node).unwrap();

    assert_eq!(node.last_committed(), LogIndex::new(4));
}

fn check_matching_trace() {
    assert!(verify_trace_integrity(Some(trace()), trace()).is_ok());
}

fn check_differing_trace() {
    let res = verify_trace_integrity(Some(TraceId::new(78)), trace());
    assert!(res.is_err());
    assert_eq!(res.unwrap_err().code, RpcCode::DataLoss);
}

fn check_absent_trace() {
    let res = verify_trace_integrity(None, trace());
    assert!(res.is_err());
    assert_eq!(res.unwrap_err().code, RpcCode::DataLoss);
}

fn lagging_leader() -> LogicalNode<MemoryStorage> {
    let mut node = leader_of(vec![id(2)]);
    node.save_snapshot_metadata(LogIndex::new(10), Term::new(1)).unwrap();
    node.as_leader_mut()
        .unwrap()
        .state_mut()
        .next_index_mut()
        .insert(2, LogIndex::new(5));
    node
}

fn check_snapshot_fallback() {
    let mut node = lagging_leader();

    let strategy = determine_replication_strategy(&mut node, id(2), round(1)).unwrap().unwrap();

    assert_eq!(
        strategy,
        ReplicationStrategy::InstallSnapshot {
            last_included_index: LogIndex::new(10),
            last_included_term: Term::new(1),
        }
    );
}

fn compactable(entries: u64, applied: u64) -> LogicalNode<MemoryStorage> {
    let mut node = node_on(store_of(entries), 0);
    node.advance_horizon_after_snapshot(LogIndex::new(applied)).unwrap();
    node
}

fn check_compaction(entries: u64, applied: u64, frozen: bool, expected: bool) {
    let mut node = compactable(entries, applied);
    assert_eq!(
        should_compact_log(&mut node, &mock_config(), frozen).unwrap(),
        expected
    );
}

fn check_dead_probe() {
    let mut node = lagging_leader();

    let step = plan_replication(&mut node, id(2), round(1), false).unwrap();
    match step {
        ReplicationStep::SendSnapshot { probe, last_included_index, .. } => {
            assert_eq!(last_included_index, LogIndex::new(10));
            assert!(probe.entries.is_empty());
        },
        other => panic!("expected a snapshot, got {:?}", other),
    }
    let decision = judge_probe(
        Term::new(1),
        Err(RpcStatus::new(RpcCode::DeadlineExceeded, "no answer")),
    );

    assert_eq!(decision, ProbeDecision::Abort, "Should have aborted before heavy work");
    assert!(!node.is_snapshotting());
}

fn check_failing_applier() {
    let mut storage = MemoryStorage::new();
    storage
        .append_entries(vec![LogEntry { index: 1, term: 1, data: vec![1] }])
        .unwrap();
    let mut node = node_on(storage, 0);
    node.advance_last_committed(LogIndex::new(1)).unwrap();

    let result = apply_committed(&mut node, &mut PoisonApplyFsm);

    assert!(result.is_err(), "Expected a halt on FSM failure");
    assert!(node.is_poisoned());
}

#[test]
fn consensus_should_transition_to_leader_when_quorum_reached() {
    check_election_won();
}

#[test]
fn tests_should_transition_to_leader_when_quorum_reached() {
    check_election_won();
}

#[test]
fn consensus_returns_error_propagated_to_start_election_campaign() {
    check_election_storage_failure();
}

#[test]
fn tests_returns_error_propagated_to_start_election_campaign() {
    check_election_storage_failure();
}

#[test]
fn consensus_triggers_halt_mandate() {
    check_halt_mandate();
}

#[test]
fn tests_triggers_halt_mandate() {
    check_halt_mandate();
}

#[test]
fn consensus_should_demote_to_follower_when_peer_has_newer_term() {
    check_demotion_by_vote_reply();
}

#[test]
fn tests_should_demote_to_follower_when_peer_has_newer_term() {
    check_demotion_by_vote_reply();
}

#[test]
fn consensus_should_transition_to_leader_when_majority_votes_granted() {
    check_majority_of_votes();
}

#[test]
fn tests_should_transition_to_leader_when_majority_votes_granted() {
    check_majority_of_votes();
}

#[test]
fn consensus_should_advance_indices_when_peer_accepts_entries() {
    check_accepted_entries();
}

#[test]
fn tests_should_advance_indices_when_peer_accepts_entries() {
    check_accepted_entries();
}

#[test]
fn consensus_should_optimize_backoff_when_peer_rejects_due_to_mismatch() {
    check_backoff();
}

#[test]
fn tests_should_optimize_backoff_when_peer_rejects_due_to_mismatch() {
    check_backoff();
}

#[test]
fn consensus_should_advance_indices_to_snapshot_horizon_when_installation_succeeds() {
    check_snapshot_reply();
}

#[test]
fn tests_should_advance_indices_to_snapshot_horizon_when_installation_succeeds() {
    check_snapshot_reply();
}

#[test]
fn consensus_should_abort_and_return_outcome_when_probe_discovers_higher_term() {
    check_probe_higher_term();
}

#[test]
fn tests_should_abort_and_return_outcome_when_probe_discovers_higher_term() {
    check_probe_higher_term();
}

#[test]
fn consensus_should_proceed_when_probe_is_successful_with_current_term() {
    check_probe_passed();
}

#[test]
fn tests_should_proceed_when_probe_is_successful_with_current_term() {
    check_probe_passed();
}

#[test]
fn consensus_should_toggle_freeze_flag_during_serialization() {
    check_freeze_around_serialization();
}

#[test]
fn tests_should_toggle_freeze_flag_during_serialization() {
    check_freeze_around_serialization();
}

#[test]
fn consensus_should_apply_fatal_with_rich_forensic_context_when_snapshot_fails() {
    check_serialization_failure();
}

#[test]
fn tests_should_apply_fatal_with_rich_forensic_context_when_snapshot_fails() {
    check_serialization_failure();
}

#[test]
fn consensus_should_advance_commit_index_when_majority_matches_index() {
    check_commit_by_majority();
}

#[test]
fn tests_should_advance_commit_index_when_majority_matches_index() {
    check_commit_by_majority();
}

#[test]
fn consensus_should_pass_when_returned_trace_matches_expected() {
    check_matching_trace();
}

#[test]
fn tests_should_pass_when_returned_trace_matches_expected() {
    check_matching_trace();
}

#[test]
fn consensus_should_fail_with_data_loss_when_returned_trace_differs() {
    check_differing_trace();
}

#[test]
fn tests_should_fail_with_data_loss_when_returned_trace_differs() {
    check_differing_trace();
}

#[test]
fn consensus_should_fail_with_data_loss_when_trace_id_is_absent() {
    check_absent_trace();
}

#[test]
fn tests_should_fail_with_data_loss_when_trace_id_is_absent() {
    check_absent_trace();
}

#[test]
fn consensus_should_fallback_to_install_snapshot_when_next_index_is_behind_horizon() {
    check_snapshot_fallback();
}

#[test]
fn tests_should_fallback_to_install_snapshot_when_next_index_is_behind_horizon() {
    check_snapshot_fallback();
}

#[test]
fn consensus_should_trigger_compaction_when_applied_entries_exceed_threshold() {
    check_compaction(21, 21, false, true);
}

#[test]
fn tests_should_trigger_compaction_when_applied_entries_exceed_threshold() {
    check_compaction(21, 21, false, true);
}

#[test]
fn consensus_should_not_trigger_compaction_when_applied_index_is_below_threshold() {
    check_compaction(5, 5, false, false);
}

#[test]
fn tests_should_not_trigger_compaction_when_applied_index_is_below_threshold() {
    check_compaction(5, 5, false, false);
}

#[test]
fn consensus_should_not_trigger_compaction_when_log_is_long_but_applied_is_low() {
    check_compaction(100, 5, false, false);
}

#[test]
fn tests_should_not_trigger_compaction_when_log_is_long_but_applied_is_low() {
    check_compaction(100, 5, false, false);
}

#[test]
fn consensus_should_inhibit_compaction_when_snapshot_is_in_progress() {
    check_compaction(25, 25, true, false);
}

#[test]
fn tests_should_inhibit_compaction_when_snapshot_is_in_progress() {
    check_compaction(25, 25, true, false);
}

#[test]
fn consensus_should_abort_snapshot_when_reachability_probe_fails() {
    check_dead_probe();
}

#[test]
fn tests_should_abort_snapshot_when_reachability_probe_fails() {
    check_dead_probe();
}

#[test]
fn consensus_should_poison_node_when_fsm_apply_fails_via_background_applier() {
    check_failing_applier();
}

#[test]
fn tests_should_poison_node_when_fsm_apply_fails_via_background_applier() {
    check_failing_applier();
}

#[test]
fn partitioned_node_does_not_disrupt_cluster_term() {
    let mut node = setup_node();
    node.into_follower(Term::new(5), None).unwrap();
    node.into_candidate().unwrap();
    node.into_leader(vec![id(2)]).unwrap();

    let mut tally = PreVoteTally::new(1);
    let denied = Ok(VoteReply { term: Term::new(5), vote_granted: false });
    assert_eq!(tally.record(denied), PreVoteAction::Continue);
    let action = conclude_pre_vote(&mut node, &tally).unwrap();

    assert_eq!(action, PreVoteAction::Continue);
    assert_eq!(
        node.try_current_term().unwrap(),
        Term::new(6),
        "Cluster term must remain stable during asymmetrical network partitions"
    );
    assert!(
        matches!(node.state(), RoleState::Leader(_)),
        "Existing leader must not be demoted by a stale pre-vote request"
    );

    let answer = node
        .handle_pre_vote(id(2), Term::new(3), LogIndex::new(1), Term::new(3))
        .unwrap();
    assert!(!answer.vote_granted);
    assert_eq!(node.try_current_term().unwrap(), Term::new(6));
    assert!(matches!(node.state(), RoleState::Leader(_)));
}

#[test]
fn pre_vote_quorum_triggers_real_election() {
    let mut node = setup_node();
    node.into_pre_candidate();

    let tally = PreVoteTally::new(0);
    assert_eq!(tally.status(), PreVoteAction::PreVoteQuorumReached);
    conclude_pre_vote(&mut node, &tally).unwrap();

    assert!(
        matches!(node.state(), RoleState::Candidate(_)),
        "Pre-vote campaign should have transitioned to Candidate"
    );
    assert_eq!(
        node.try_current_term().unwrap(),
        Term::new(1),
        "Candidate term should be 1"
    );

    conclude_election(&mut node, Term::new(1), &vec![]).unwrap();

    assert!(
        matches!(node.state(), RoleState::Leader(_)),
        "Node should become Leader after pre-vote quorum and real election"
    );
    assert_eq!(node.try_current_term().unwrap(), Term::new(1), "Term should be 1");
}

#[test]
fn pre_vote_no_quorum_returns_to_follower_without_term_change() {
    let mut node = setup_node();
    node.into_pre_candidate();

    let mut tally = PreVoteTally::new(1);
    tally.record(Ok(VoteReply { term: Term::zero(), vote_granted: false }));
    assert_eq!(conclude_pre_vote(&mut node, &tally).unwrap(), PreVoteAction::Continue);

    for _ in 0..10 {
        if node.node_role() == NodeRole::PreCandidate && node.tick() == TickAction::StepDown {
            node.into_follower(Term::zero(), None).unwrap();
            break;
        }
    }

    assert!(
        matches!(node.state(), RoleState::Follower(_)),
        "Node should return to Follower after failed pre-vote"
    );
    assert_eq!(
        node.try_current_term().unwrap(),
        Term::zero(),
        "Term must remain unchanged after failed pre-vote"
    );
}

#[test]
fn pre_vote_tally_counts_grants_only() {
    let mut tally = PreVoteTally::new(4);
    let failed = Err(RpcStatus::new(RpcCode::Unavailable, "down"));
    assert_eq!(tally.record(failed), PreVoteAction::Continue);
    let granted = Ok(VoteReply { term: Term::zero(), vote_granted: true });
    assert!(process_pre_vote_response(granted));
    let granted = Ok(VoteReply { term: Term::zero(), vote_granted: true });
    assert_eq!(tally.record(granted), PreVoteAction::Continue);
    let granted = Ok(VoteReply { term: Term::zero(), vote_granted: true });
    assert_eq!(tally.record(granted), PreVoteAction::Continue);
    let granted = Ok(VoteReply { term: Term::zero(), vote_granted: true });
    assert_eq!(tally.record(granted), PreVoteAction::PreVoteQuorumReached);
}

#[test]
fn pre_vote_counts_no_vote_of_its_own() {
    let mut node = setup_node();
    node.into_pre_candidate();
    let granted = || Ok(VoteReply { term: Term::zero(), vote_granted: true });

    let mut tally = PreVoteTally::new(2);
    assert_eq!(tally.status(), PreVoteAction::Continue);
    assert_eq!(tally.record(granted()), PreVoteAction::Continue);
    conclude_pre_vote(&mut node, &tally).unwrap();
    assert_eq!(node.node_role(), NodeRole::PreCandidate);

    assert_eq!(tally.record(granted()), PreVoteAction::PreVoteQuorumReached);
    conclude_pre_vote(&mut node, &tally).unwrap();
    assert_eq!(node.node_role(), NodeRole::Candidate);
}

#[test]
fn late_vote_of_another_term_is_not_counted() {
    let mut node = setup_node();
    node.into_candidate().unwrap();
    node.into_candidate().unwrap();

    let action = process_vote_response(
        &mut node,
        Term::new(1),
        &vec![id(2), id(3)],
        id(2),
        Ok(VoteReply { term: Term::new(1), vote_granted: true }),
    )
    .unwrap();

    assert_eq!(action, VoteAction::Continue);
    assert_eq!(node.as_candidate().unwrap().state().vote_count(), 1);
}

#[test]
fn lost_vote_request_changes_nothing() {
    let mut node = setup_node();
    node.into_candidate().unwrap();

    let action = process_vote_response(
        &mut node,
        Term::new(1),
        &vec![id(2), id(3)],
        id(2),
        Err(RpcStatus::new(RpcCode::Unavailable, "down")),
    )
    .unwrap();

    assert_eq!(action, VoteAction::Continue);
    assert_eq!(node.node_role(), NodeRole::Candidate);
}

#[test]
fn reply_of_a_higher_term_demotes_the_leader() {
    let mut node = leader_of(vec![id(2)]);

    let action = process_replication_response(
        &mut node,
        Term::new(1),
        id(2),
        Ok(Some(appended(0, 0, 4, false, 0))),
    )
    .unwrap();

    assert_eq!(action, ReplicationAction::Demoted);
    assert_eq!(node.node_role(), NodeRole::Follower);
    assert_eq!(node.current_term().unwrap(), Term::new(4));
}

#[test]
fn late_acceptance_does_not_lower_a_match() {
    let mut node = leader_of(vec![id(2)]);
    for outcome in [appended(4, 3, 1, true, 7), appended(0, 2, 1, true, 2)] {
        process_replication_response(&mut node, Term::new(1), id(2), Ok(Some(outcome))).unwrap();
    }
    assert_eq!(progress_of(&node, id(2)), (LogIndex::new(7), LogIndex::new(8)));
}

fn next_after_rejection(next: u64, last: u64) -> u64 {
    let mut node = leader_of(vec![id(2)]);
    {
        let leader = node.as_leader_mut().unwrap();
        leader.state_mut().next_index_mut().insert(2, LogIndex::new(next));
        leader.state_mut().match_index_mut().insert(2, LogIndex::new(1));
    }
    process_replication_response(
        &mut node,
        Term::new(1),
        id(2),
        Ok(Some(appended(next - 1, 0, 1, false, last))),
    )
    .unwrap();
    let (matched, tried) = progress_of(&node, id(2));
    assert_eq!(matched, LogIndex::new(1));
    tried.as_u64()
}

#[test]
fn every_rejection_is_answered_further_back() {
    assert_eq!(next_after_rejection(11, 5), 6);
    assert_eq!(next_after_rejection(11, 9), 10);
    assert_eq!(next_after_rejection(11, 10), 10);
    assert_eq!(next_after_rejection(11, 11), 10);
    assert_eq!(next_after_rejection(11, 500), 10);
    assert_eq!(next_after_rejection(11, 0), 10);
    assert_eq!(next_after_rejection(2, 7), 1);
    assert_eq!(next_after_rejection(1, 7), 1);
    assert_eq!(next_after_rejection(1, 0), 1);
}

#[test]
fn conflicting_log_of_the_same_length_is_repaired() {
    let mut leader = member(1, store_of(3));
    leader.into_candidate().unwrap();
    leader.into_candidate().unwrap();
    leader.into_leader(vec![id(2)]).unwrap();
    leader.propose(vec![9]).unwrap();
    let mut storage = MemoryStorage::new();
    let rival = (1..=5).map(|i| LogEntry { index: i, term: if i < 3 { 1 } else { 7 }, data: vec![] });
    storage.append_entries(rival.collect()).unwrap();
    let mut follower = member(2, storage);

    let mut rounds = 0;
    loop {
        rounds += 1;
        assert!(rounds < 10);
        let request = match plan_replication(&mut leader, id(2), round(2), false).unwrap() {
            ReplicationStep::Send(request) => request,
            other => panic!("expected entries, got {:?}", other),
        };
        let answer = follower
            .handle_append_entries(
                request.leader_id,
                request.term,
                request.prev_log_index,
                request.prev_log_term,
                request.entries.iter().map(|e| e.clone()).collect(),
                request.leader_commit,
            )
            .unwrap();
        let reply = AppendEntriesReply {
            term: answer.term,
            success: answer.success,
            last_log_index: answer.conflict_index,
        };
        let outcome = append_outcome(&request, reply);
        process_replication_response(&mut leader, Term::new(2), id(2), Ok(Some(outcome))).unwrap();
        if answer.success {
            break;
        }
    }

    assert_eq!(
        follower.read_entries(LogIndex::new(1), LogIndex::new(9)).unwrap(),
        leader.read_entries(LogIndex::new(1), LogIndex::new(9)).unwrap()
    );
}

#[test]
fn rejection_at_the_last_index_is_reported() {
    let mut node = leader_of(vec![id(2)]);

    let result = process_replication_response(
        &mut node,
        Term::new(1),
        id(2),
        Ok(Some(appended(0, 0, 1, false, u64::MAX))),
    );

    assert_eq!(
        result,
        Err(NodeError::Protocol(ProtocolError::BackoffOverflow {
            peer: id(2),
            last_log: LogIndex::new(u64::MAX),
            term: Term::new(1),
        }))
    );
}

#[test]
fn match_index_overflow_is_reported() {
    let mut node = leader_of(vec![id(2)]);

    let result = process_replication_response(
        &mut node,
        Term::new(1),
        id(2),
        Ok(Some(appended(u64::MAX, 1, 1, true, 0))),
    );

    assert_eq!(
        result.unwrap_err().message(),
        "Arithmetic overflow calculating match_index for peer=2 (prev=18446744073709551615 len=1) \
         in term=1: arithmetic overflow"
    );
    assert!(!node.is_poisoned());
}

#[test]
fn next_index_overflow_is_reported() {
    let mut node = leader_of(vec![id(2)]);

    let result = process_replication_response(
        &mut node,
        Term::new(1),
        id(2),
        Ok(Some(appended(u64::MAX, 0, 1, true, 0))),
    );

    assert_eq!(
        result,
        Err(NodeError::Protocol(ProtocolError::NextOverflow {
            peer: id(2),
            matched: LogIndex::new(u64::MAX),
            term: Term::new(1),
        }))
    );
}

#[test]
fn snapshot_at_the_last_index_is_reported() {
    let mut node = leader_of(vec![id(2)]);

    let result = process_replication_response(
        &mut node,
        Term::new(1),
        id(2),
        Ok(Some(ReplicationOutcome::InstallSnapshot {
            last_included_index: LogIndex::new(u64::MAX),
            response_term: Term::new(1),
        })),
    );

    assert_eq!(
        result,
        Err(NodeError::Protocol(ProtocolError::SnapshotNextOverflow {
            peer: id(2),
            matched: LogIndex::new(u64::MAX),
            term: Term::new(1),
        }))
    );
}

#[test]
fn old_term_is_not_committed_by_counting() {
    let mut node = node_on(store_of(2), 0);
    node.into_candidate().unwrap();
    node.into_candidate().unwrap();
    node.into_leader(vec![id(2), id(3)]).unwrap();
    {
        let leader = node.as_leader_mut().unwrap();
        leader.state_mut().match_index_mut().insert(2, LogIndex::new(2));
    }

    update_leader_last_committed(&mut node).unwrap();

    assert_eq!(node.last_committed(), LogIndex::zero());

    let index = node.propose(vec![5]).unwrap();
    node.as_leader_mut()
        .unwrap()
        .state_mut()
        .match_index_mut()
        .insert(2, index);
    update_leader_last_committed(&mut node).unwrap();
    assert_eq!(node.last_committed(), LogIndex::new(3));
}

#[test]
fn request_holds_everything_from_next_index_on() {
    let mut node = node_on(store_of(4), 0);
    node.into_candidate().unwrap();
    node.into_leader(vec![id(2)]).unwrap();
    node.as_leader_mut()
        .unwrap()
        .state_mut()
        .next_index_mut()
        .insert(2, LogIndex::new(3));

    let request = build_append_entries_request(
        &mut node,
        id(2),
        Term::new(1),
        id(1),
        LogIndex::new(2),
    )
    .unwrap();

    assert_eq!(request.prev_log_index, LogIndex::new(2));
    assert_eq!(request.prev_log_term, Term::new(1));
    assert_eq!(
        request.entries,
        vec![
            LogEntry { index: 3, term: 1, data: vec![] },
            LogEntry { index: 4, term: 1, data: vec![] },
        ]
    );
    assert_eq!(request.leader_commit, LogIndex::new(2));
    assert_eq!(
        append_outcome(
            &request,
            AppendEntriesReply {
                term: Term::new(1),
                success: true,
                last_log_index: LogIndex::new(4),
            }
        ),
        appended(2, 2, 1, true, 4)
    );
}

#[test]
fn what_the_leader_sends_the_follower_takes() {
    let mut leader = node_on(store_of(4), 0);
    leader.into_candidate().unwrap();
    leader.into_leader(vec![id(2)]).unwrap();
    leader
        .as_leader_mut()
        .unwrap()
        .state_mut()
        .next_index_mut()
        .insert(2, LogIndex::new(3));
    let request =
        build_append_entries_request(&mut leader, id(2), Term::new(1), id(1), LogIndex::zero())
            .unwrap();

    let mut follower = node_on(store_of(2), 0);
    let reply = follower
        .handle_append_entries(
            request.leader_id,
            request.term,
            request.prev_log_index,
            request.prev_log_term,
            request.entries,
            request.leader_commit,
        )
        .unwrap();

    assert!(reply.success);
    assert_eq!(
        follower.read_entries(LogIndex::new(1), LogIndex::new(4)).unwrap(),
        leader.read_entries(LogIndex::new(1), LogIndex::new(4)).unwrap()
    );
}

#[test]
fn one_snapshot_per_peer_is_in_flight() {
    let mut node = lagging_leader();
    let step = plan_replication(&mut node, id(2), round(1), true).unwrap();
    match step {
        ReplicationStep::Send(request) => {
            assert_eq!(request.prev_log_index, LogIndex::new(4));
            assert!(request.entries.is_empty());
        },
        other => panic!("expected a heartbeat, got {:?}", other),
    }
}

#[test]
fn follower_has_nothing_to_replicate() {
    let mut node = setup_node();
    let step = plan_replication(&mut node, id(2), round(1), false).unwrap();
    assert_eq!(step, ReplicationStep::Skip);
}

#[test]
fn role_names_follow_the_role() {
    let mut node = setup_node();
    assert_eq!(determine_node_role_name(&node), "follower_session");
    node.into_pre_candidate();
    assert_eq!(determine_node_role_name(&node), "pre_candidate_session");
    node.into_candidate().unwrap();
    assert_eq!(determine_node_role_name(&node), "candidate_session");
    node.into_leader(vec![]).unwrap();
    assert_eq!(determine_node_role_name(&node), "leader_idle_session");
}

#[test]
fn beat_of_a_timed_out_follower_opens_a_campaign() {
    let mut node = setup_node();
    let config = RaftConfig::default();
    let mut campaign = None;
    for _ in 0..30 {
        let plan = drive_tick(&mut node, &config, trace()).unwrap();
        if let Handoff::Campaign(params) = plan.handoff {
            campaign = Some(params);
            break;
        }
    }

    let params = campaign.unwrap();
    assert_eq!(params.term, Term::new(1));
    assert_eq!(params.node_id, id(1));
    assert_eq!(params.last_log_index, LogIndex::zero());
    assert_eq!(params.trace_id, trace());
    assert_eq!(node.node_role(), NodeRole::Candidate);
}

#[test]
fn beat_of_a_leader_replicates_once_per_interval() {
    let mut node = leader_of(vec![id(2)]);
    let config = RaftConfig::default();
    let mut rounds = 0;
    for _ in 0..20 {
        let plan = drive_tick(&mut node, &config, trace()).unwrap();
        if let Handoff::Replicate(params) = plan.handoff {
            assert_eq!(params.term, Term::new(1));
            rounds += 1;
        }
    }
    assert_eq!(rounds, 2);
}

#[test]
fn beat_gives_a_lost_pre_vote_up() {
    let mut node = setup_node();
    node.into_follower(Term::new(4), None).unwrap();
    node.into_pre_candidate();
    let config = RaftConfig::default();
    for _ in 0..9 {
        let plan = drive_tick(&mut node, &config, trace()).unwrap();
        assert_eq!(plan.action, TickAction::Idle);
    }
    let plan = drive_tick(&mut node, &config, trace()).unwrap();

    assert_eq!(plan.action, TickAction::StepDown);
    assert!(matches!(plan.handoff, Handoff::Nothing));
    assert_eq!(node.node_role(), NodeRole::Follower);
    assert_eq!(node.current_term().unwrap(), Term::new(4));
}

#[test]
fn beat_of_a_halted_node_stops() {
    let mut node = setup_node();
    node.poison();
    let plan = drive_tick(&mut node, &RaftConfig::default(), trace()).unwrap();
    assert_eq!(plan.action, TickAction::Stop);
    assert!(matches!(plan.handoff, Handoff::Nothing));
}

#[test]
fn beat_freezes_before_a_compaction() {
    let mut node = compactable(21, 21);
    let plan = drive_tick(&mut node, &mock_config(), trace()).unwrap();

    assert_eq!(
        plan.compaction,
        Some(CompactionTarget { index: LogIndex::new(21), term: Term::new(1) })
    );
    assert!(node.is_snapshotting());
}

#[test]
fn compaction_cuts_the_log_and_keeps_its_end() {
    let mut node = compactable(21, 21);
    node.set_snapshotting(true).unwrap();
    let target = CompactionTarget { index: LogIndex::new(20), term: Term::new(1) };

    compact_log(&mut node, target).unwrap();

    assert_eq!(node.last_included_index().unwrap(), LogIndex::new(20));
    assert_eq!(node.last_included_term().unwrap(), Term::new(1));
    assert_eq!(node.last_log_index().unwrap(), LogIndex::new(21));
    assert_eq!(node.get_term_at(LogIndex::new(20)).unwrap(), Term::new(1));
    assert_eq!(
        node.read_entries(LogIndex::new(1), LogIndex::new(21)).unwrap().len(),
        1
    );
}

#[test]
fn failed_cut_thaws_and_halts() {
    let (mut node, _) = failing_node();
    node.set_snapshotting(true).unwrap();
    let target = CompactionTarget { index: LogIndex::new(4), term: Term::new(1) };

    let result = compact_log(&mut node, target);

    assert_eq!(
        result.unwrap_err().message(),
        "Log truncation failure at index 4: Persistence failure: Simulated cut failure"
    );
    assert!(!node.is_snapshotting());
    assert!(node.is_poisoned());
}

#[test]
fn compaction_in_steps_ends_like_one_in_one_go() {
    let target = CompactionTarget { index: LogIndex::new(20), term: Term::new(1) };
    let mut at_once = compactable(21, 21);
    at_once.set_snapshotting(true).unwrap();
    compact_log(&mut at_once, target).unwrap();

    let mut stepwise = compactable(21, 21);
    stepwise.set_snapshotting(true).unwrap();
    begin_compaction(&mut stepwise, target).unwrap();
    assert_eq!(stepwise.last_included_index().unwrap(), LogIndex::new(20));
    assert_eq!(stepwise.last_included_term().unwrap(), Term::new(1));
    assert!(stepwise.is_snapshotting());
    let cut = stepwise.truncate_log_front(target.index);
    finish_compaction(&mut stepwise, target.index, cut).unwrap();

    assert!(!stepwise.is_snapshotting());
    for node in [&mut at_once, &mut stepwise] {
        let left = node.read_entries(LogIndex::new(1), LogIndex::new(30)).unwrap();
        assert_eq!(left.len(), 1);
        assert_eq!(left[0].index, 21);
    }
}

#[test]
fn compaction_without_a_freeze_halts() {
    let mut node = compactable(21, 21);
    let target = CompactionTarget { index: LogIndex::new(20), term: Term::new(1) };

    let result = compact_log(&mut node, target);

    assert_eq!(result, Err(NodeError::Protocol(ProtocolError::FreezeUnderflow)));
    assert!(node.is_poisoned());
}

#[test]
fn nothing_is_applied_after_a_failed_command() {
    let mut storage = MemoryStorage::new();
    storage
        .append_entries((1..=3).map(|i| LogEntry { index: i, term: 1, data: vec![i as u8] }).collect())
        .unwrap();
    let mut node = node_on(storage, 0);
    node.advance_last_committed(LogIndex::new(3)).unwrap();
    let mut fsm = StumblingFsm { applied: vec![], tried: 0 };

    let result = apply_committed(&mut node, &mut fsm);

    assert_eq!(
        result.unwrap_err().message(),
        "Apply failure: Invariant violation: Stumbled"
    );
    assert_eq!(fsm.applied, vec![1]);
    assert_eq!(fsm.tried, 2);
    assert!(node.is_poisoned());
    let plan = drive_tick(&mut node, &RaftConfig::default(), trace()).unwrap();
    assert_eq!(plan.action, TickAction::Stop);
}

#[test]
fn pre_vote_opens_without_a_new_term() {
    let mut node = setup_node();
    node.into_follower(Term::new(4), None).unwrap();

    let params = begin_pre_vote(&mut node, &RaftConfig::default(), trace()).unwrap();

    assert_eq!(params.term, Term::new(4));
    assert_eq!(params.rpc_timeout, RaftConfig::default().rpc_timeout());
    assert_eq!(node.node_role(), NodeRole::PreCandidate);
    assert_eq!(node.current_term().unwrap(), Term::new(4));

    step_down(&mut node).unwrap();
    assert_eq!(node.node_role(), NodeRole::Follower);
    assert_eq!(node.current_term().unwrap(), Term::new(4));
}

#[test]
fn committed_commands_reach_the_state_machine_in_order() {
    let mut storage = MemoryStorage::new();
    storage
        .append_entries(vec![
            LogEntry { index: 1, term: 1, data: vec![1] },
            LogEntry { index: 2, term: 1, data: vec![2] },
        ])
        .unwrap();
    let mut node = node_on(storage, 0);
    node.advance_last_committed(LogIndex::new(2)).unwrap();
    let mut fsm = MockFsm::default();

    apply_committed(&mut node, &mut fsm).unwrap();

    assert_eq!(fsm.applied_indices, vec![LogIndex::new(1), LogIndex::new(2)]);
    assert_eq!(fsm.applied_data, vec![vec![1], vec![2]]);
    assert_eq!(node.last_applied(), LogIndex::new(2));
    assert_eq!(next_to_apply(&mut node).unwrap(), None);
}

#[test]
fn application_can_go_step_by_step() {
    let mut storage = MemoryStorage::new();
    storage
        .append_entries(vec![LogEntry { index: 1, term: 1, data: vec![8] }])
        .unwrap();
    let mut node = node_on(storage, 0);
    assert_eq!(next_to_apply(&mut node).unwrap(), None);
    node.advance_last_committed(LogIndex::new(1)).unwrap();

    assert_eq!(
        next_to_apply(&mut node).unwrap(),
        Some(ApplyTask { index: LogIndex::new(1), data: vec![8] })
    );
    finish_apply(&mut node, LogIndex::new(1), Ok(())).unwrap();

    assert_eq!(node.last_applied(), LogIndex::new(1));
}

#[test]
fn missing_committed_entry_halts_the_applier() {
    let mut storage = MemoryStorage::new();
    storage.save_last_committed(LogIndex::new(5)).unwrap();
    let mut node = node_on(storage, 0);

    let result = next_to_apply(&mut node);

    assert_eq!(
        result.unwrap_err().message(),
        "Committed entry 1 missing from log storage"
    );
    assert!(node.is_poisoned());
}

#[test]
fn failed_apply_is_reported_with_its_cause() {
    let mut node = node_on(store_of(1), 0);
    node.advance_last_committed(LogIndex::new(1)).unwrap();

    let result = finish_apply(&mut node, LogIndex::new(1), Err(FsmError::violation("x")));

    assert_eq!(result.unwrap_err().message(), "Apply failure: Invariant violation: x");
    assert!(node.is_poisoned());
}

#[test]
fn snapshot_installation_moves_the_horizon() {
    let mut node = setup_node();
    let step =
        begin_install_snapshot(&mut node, id(2), Term::new(3), LogIndex::new(9)).unwrap();
    assert_eq!(step, InstallStep::Restore(Term::new(3)));

    finish_install_snapshot(&mut node, LogIndex::new(9), Term::new(2), Ok(())).unwrap();

    assert_eq!(node.last_included_index().unwrap(), LogIndex::new(9));
    assert_eq!(node.last_included_term().unwrap(), Term::new(2));
    assert_eq!(node.last_committed(), LogIndex::new(9));
    assert_eq!(node.last_applied(), LogIndex::new(9));
    assert_eq!(node.last_log_index().unwrap(), LogIndex::new(9));
}

#[test]
fn stale_snapshot_is_answered_without_a_restore() {
    let mut node = setup_node();
    node.into_follower(Term::new(5), None).unwrap();
    let step =
        begin_install_snapshot(&mut node, id(2), Term::new(3), LogIndex::new(9)).unwrap();
    assert_eq!(step, InstallStep::Reply(Term::new(5)));
}

#[test]
fn failed_restoration_halts() {
    let mut node = setup_node();
    begin_install_snapshot(&mut node, id(2), Term::new(3), LogIndex::new(9)).unwrap();

    let result = finish_install_snapshot(
        &mut node,
        LogIndex::new(9),
        Term::new(2),
        Err(FsmError::persistence("disk")),
    );

    assert_eq!(
        result.unwrap_err().message(),
        "Background snapshot restoration failure: Persistence failure: disk"
    );
    assert!(node.is_poisoned());
}

#[test]
fn leadership_is_confirmed_by_a_later_round() {
    let mut node = leader_of(vec![id(2), id(3)]);

    let probe = begin_leadership_check(&mut node).unwrap();
    let before = node.try_consensus_progress().unwrap();
    assert_eq!(judge_leadership(&before, &probe), Ok(false));

    node.as_leader_mut().unwrap().state_mut().acknowledge_heartbeat(id(2), 2);
    let after = node.try_consensus_progress().unwrap();
    assert_eq!(judge_leadership(&after, &probe), Ok(true));
}

#[test]
fn leadership_check_needs_a_leader() {
    let mut node = setup_node();
    assert_eq!(begin_leadership_check(&mut node), Err(ConsensusError::NotLeader));
    node.poison();
    assert_eq!(begin_leadership_check(&mut node), Err(ConsensusError::Poisoned));
}

#[test]
fn leadership_check_reports_a_dead_store() {
    let (mut node, armed) = failing_node();
    node.into_candidate().unwrap();
    node.into_leader(vec![id(2)]).unwrap();
    armed.set(true);

    assert_eq!(
        begin_leadership_check(&mut node),
        Err(ConsensusError::Internal("Leadership verification failed".to_string()))
    );
    assert!(!node.is_poisoned());
    assert_eq!(node.as_leader().unwrap().state().current_read_epoch(), 0);
}

#[test]
fn what_needs_no_store_succeeds_on_a_dead_one() {
    let (mut node, armed) = failing_node();
    let mut fsm = MockFsm::default();
    armed.set(true);

    assert_eq!(begin_leadership_check(&mut node), Err(ConsensusError::NotLeader));
    assert_eq!(
        plan_replication(&mut node, id(2), round(1), false).unwrap(),
        ReplicationStep::Skip
    );
    assert_eq!(next_to_apply(&mut node).unwrap(), None);
    apply_committed(&mut node, &mut fsm).unwrap();
    node.into_leader(vec![id(2)]).unwrap();
    assert_eq!(node.get_term_at(LogIndex::zero()).unwrap(), Term::zero());
    let denied = Ok(VoteReply { term: Term::zero(), vote_granted: false });
    assert_eq!(
        process_vote_response(&mut node, Term::zero(), &vec![id(2)], id(2), denied).unwrap(),
        VoteAction::Continue
    );
    assert_eq!(node.node_role(), NodeRole::Follower);

    armed.set(false);
    node.into_candidate().unwrap();
    node.into_leader(vec![id(2)]).unwrap();
    node.propose(vec![1]).unwrap();
    node.propose(vec![2]).unwrap();
    node.advance_last_committed(LogIndex::new(2)).unwrap();
    armed.set(true);
    node.into_candidate().unwrap();
    assert_eq!(node.node_role(), NodeRole::Leader);
    node.advance_last_committed(LogIndex::new(1)).unwrap();
    node.advance_horizon_after_snapshot(LogIndex::new(1)).unwrap();
    assert_eq!(node.last_committed(), LogIndex::new(2));
    assert_eq!(node.last_applied(), LogIndex::new(1));

    node.poison();
    assert_eq!(node.consensus_progress().unwrap().role, NodeRole::Poisoned);
    let plan = drive_tick(&mut node, &RaftConfig::default(), trace()).unwrap();
    assert_eq!(plan.action, TickAction::Stop);
}

#[test]
fn dead_store_halts_what_needs_it() {
    let (mut node, armed) = failing_node();
    armed.set(true);
    let result = plan_replication(&mut node, id(2), round(1), false);
    assert_eq!(result.unwrap(), ReplicationStep::Skip);
    armed.set(false);
    node.into_candidate().unwrap();
    node.into_leader(vec![id(2)]).unwrap();
    armed.set(true);

    let result = plan_replication(&mut node, id(2), round(1), false);

    assert!(matches!(result, Err(NodeError::Storage(_))));
    assert!(node.is_poisoned());
}

#[test]
fn lost_leadership_ends_the_check() {
    let mut node = leader_of(vec![id(2), id(3)]);
    let probe = begin_leadership_check(&mut node).unwrap();
    node.into_follower(Term::new(4), None).unwrap();
    let progress = node.try_consensus_progress().unwrap();
    assert_eq!(judge_leadership(&progress, &probe), Err(ConsensusError::NotLeader));
}

fn member(number: u64, storage: MemoryStorage) -> LogicalNode<MemoryStorage> {
    LogicalNode::try_new(
        test_identity(number),
        &MockFsm::default(),
        storage,
        test_thresholds(),
        StdRng::seed_from_u64(number),
    )
    .unwrap()
}

/// Lets `candidate` ask `voter` for its vote and hands the answer back.
fn canvass(
    candidate: &mut LogicalNode<MemoryStorage>,
    voter: &mut LogicalNode<MemoryStorage>,
    peers: &Vec<NodeId>,
) -> VoteAction {
    let term = candidate.current_term().unwrap();
    let last_index = candidate.last_log_index().unwrap();
    let last_term = candidate.last_log_term().unwrap();
    let answer = voter
        .handle_request_vote(candidate.node_id(), term, last_index, last_term)
        .unwrap();
    process_vote_response(
        candidate,
        term,
        peers,
        voter.node_id(),
        Ok(VoteReply { term: answer.term, vote_granted: answer.vote_granted }),
    )
    .unwrap()
}

#[test]
fn one_of_two_candidates_wins_a_term() {
    let mut first = member(1, MemoryStorage::new());
    let mut second = member(2, MemoryStorage::new());
    let mut third = member(3, MemoryStorage::new());
    first.into_candidate().unwrap();
    second.into_candidate().unwrap();

    let won = canvass(&mut first, &mut third, &vec![id(2), id(3)]);
    let lost = canvass(&mut second, &mut third, &vec![id(1), id(3)]);

    assert_eq!(won, VoteAction::QuorumReached);
    assert_eq!(lost, VoteAction::Continue);
    assert_eq!(first.node_role(), NodeRole::Leader);
    assert_eq!(second.node_role(), NodeRole::Candidate);
    assert_eq!(third.voted_for().unwrap(), Some(id(1)));
}

#[test]
fn shorter_log_does_not_win_a_holder_over() {
    let mut behind = member(1, store_of(1));
    let mut holder = member(2, store_of(3));
    behind.into_candidate().unwrap();

    assert_eq!(canvass(&mut behind, &mut holder, &vec![id(2)]), VoteAction::Continue);

    let mut ahead = member(3, store_of(3));
    ahead.into_candidate().unwrap();
    ahead.into_candidate().unwrap();
    assert_eq!(canvass(&mut ahead, &mut holder, &vec![id(2)]), VoteAction::QuorumReached);
}

#[test]
fn halted_node_does_not_revive() {
    let mut node = setup_node();
    node.poison();
    node.into_candidate().unwrap();
    node.into_leader(vec![id(2)]).unwrap();
    node.into_pre_candidate();
    node.reset_heartbeat();
    assert!(node.is_poisoned());
    assert_eq!(node.tick(), TickAction::Stop);
}

#[test]
fn leader_replicates_and_commits_across_the_cluster() {
    let mut leader = member(1, MemoryStorage::new());
    let mut follower = member(2, MemoryStorage::new());
    let peers = vec![id(2), id(3)];
    leader.into_candidate().unwrap();
    assert_eq!(canvass(&mut leader, &mut follower, &peers), VoteAction::QuorumReached);
    leader.propose(vec![10]).unwrap();
    leader.propose(vec![20]).unwrap();

    for _ in 0..2 {
        let params = ReplicationRoundParams {
            term: leader.current_term().unwrap(),
            node_id: id(1),
            last_committed: leader.last_committed(),
            trace_id: trace(),
        };
        let request = match plan_replication(&mut leader, id(2), params, false).unwrap() {
            ReplicationStep::Send(request) => request,
            other => panic!("expected entries, got {:?}", other),
        };
        let answer = follower
            .handle_append_entries(
                request.leader_id,
                request.term,
                request.prev_log_index,
                request.prev_log_term,
                request.entries.iter().map(|e| e.clone()).collect(),
                request.leader_commit,
            )
            .unwrap();
        let outcome = append_outcome(
            &request,
            AppendEntriesReply {
                term: answer.term,
                success: answer.success,
                last_log_index: answer.conflict_index,
            },
        );
        process_replication_response(&mut leader, params.term, id(2), Ok(Some(outcome))).unwrap();
    }

    assert_eq!(leader.last_committed(), LogIndex::new(2));
    assert_eq!(follower.last_committed(), LogIndex::new(2));
    let mut fsm = MockFsm::default();
    apply_committed(&mut follower, &mut fsm).unwrap();
    assert_eq!(fsm.applied_data, vec![vec![10], vec![20]]);
}
