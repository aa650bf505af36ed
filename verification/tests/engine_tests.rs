//! Tests of the role machine.
use raft_engine::engine::InstallSnapshotResult;
use raft_engine::engine::LogicalNode;
use raft_engine::engine::NodeRole;
use raft_engine::engine::RoleState;
use raft_engine::errors::NodeError;
use raft_engine::errors::ProtocolError;
use raft_engine::node::TickAction;
use raft_engine::tick::Tick;
use raft_engine::errors::FsmError;
use raft_engine::state_machine::History;
use raft_engine::state_machine::StateMachine;
use raft_engine::storage::LogStorage;
use raft_engine::storage::MemoryStorage;
use raft_engine::tick::TickDuration;
use raft_engine::tick::TickThresholds;
use raft_engine::types::ClusterId;
use raft_engine::types::LogEntry;
use raft_engine::types::LogIndex;
use raft_engine::types::NodeId;
use raft_engine::types::NodeIdentity;
use raft_engine::types::Term;
use raft_engine::types::TraceId;
use rand::rngs::StdRng;
use rand::SeedableRng;

#[derive(Debug, Default)]
struct MockFsm {
    applied: u64,
    applied_indices: Vec<LogIndex>,
    applied_data: Vec<Vec<u8>>,
}

impl StateMachine for MockFsm {
    fn applied_index(&self) -> LogIndex {
        unreachable!()
    }

    fn history(&self) -> History {
        unreachable!()
    }

    fn reliable(&self) -> bool {
        unreachable!()
    }

    fn last_applied_index(&self) -> Result<LogIndex, FsmError> {
        Ok(LogIndex::new(self.applied))
    }

    fn apply(&mut self, index: LogIndex, data: &Vec<u8>) -> Result<(), FsmError> {
        self.applied_indices.push(index);
        self.applied_data.push(data.clone());
        Ok(())
    }

    fn snapshot(&self) -> Result<Vec<u8>, FsmError> {
        Ok(vec![])
    }

    fn install_snapshot(&mut self, _: LogIndex, _: &Vec<u8>, _: TraceId) -> Result<(), FsmError> {
        Ok(())
    }
}

fn id(value: u64) -> NodeId {
    NodeId::try_new(value).unwrap()
}

fn test_identity(value: u64) -> NodeIdentity {
    NodeIdentity::new(ClusterId::try_new("test-cluster").unwrap(), id(value))
}

fn test_thresholds() -> TickThresholds {
    TickThresholds {
        heartbeat_interval: TickDuration::new(10),
        min_election: TickDuration::new(15),
        max_election: TickDuration::new(30),
    }
}

fn node_on(storage: MemoryStorage, applied: u64) -> LogicalNode<MemoryStorage> {
    LogicalNode::try_new(
        test_identity(1),
        &MockFsm { applied, ..MockFsm::default() },
        storage,
        test_thresholds(),
        StdRng::seed_from_u64(1),
    )
    .unwrap()
}

fn setup_node() -> LogicalNode<MemoryStorage> {
    node_on(MemoryStorage::new(), 0)
}

fn leader_of(peers: Vec<NodeId>) -> LogicalNode<MemoryStorage> {
    let mut node = setup_node();
    node.into_candidate().unwrap();
    node.into_leader(peers).unwrap();
    node
}

#[test]
fn engine_rejects_stale_term() {
    let mut node = setup_node();
    node.into_follower(Term::new(5), None).unwrap();

    let result = node
        .handle_install_snapshot(id(2), Term::new(1), LogIndex::new(10))
        .unwrap();

    assert_eq!(result, InstallSnapshotResult::rejected(Term::new(5)));
    assert_eq!(node.current_term().unwrap(), Term::new(5));

    let mut state = setup_node();
    state.into_follower(Term::new(5), None).unwrap();

    let result = state
        .handle_append_entries(
            id(2),
            Term::new(1),
            LogIndex::zero(),
            Term::zero(),
            vec![],
            LogIndex::zero(),
        )
        .unwrap();

    assert!(!result.success);
    assert_eq!(result.term, Term::new(5));
}

#[test]
fn demotes_on_higher_term() {
    let mut node = leader_of(vec![]);

    let result = node
        .handle_install_snapshot(id(2), Term::new(10), LogIndex::new(100))
        .unwrap();

    assert_eq!(result, InstallSnapshotResult::accepted(Term::new(10)));
    assert_eq!(node.current_term().unwrap(), Term::new(10));
    assert!(matches!(node.state(), RoleState::Follower(_)));
}

#[test]
fn rejects_stale_snapshot_index() {
    let mut storage = MemoryStorage::new();
    storage
        .save_snapshot_metadata(LogIndex::new(50), Term::new(1))
        .unwrap();
    storage.save_last_committed(LogIndex::new(50)).unwrap();

    let mut node = node_on(storage, 50);

    let result = node
        .handle_install_snapshot(id(2), Term::new(1), LogIndex::new(40))
        .unwrap();

    assert_eq!(result, InstallSnapshotResult::stale(Term::zero()));
}

#[test]
fn engine_halts_on_rival_leader_same_term() {
    let mut node = leader_of(vec![]);

    let result = node.handle_install_snapshot(id(2), Term::new(1), LogIndex::new(50));

    let message = result.unwrap_err().message();
    assert!(message.contains("CRITICAL SAFETY VIOLATION"));
    assert!(node.is_poisoned());

    let mut state = leader_of(vec![]);

    let result = state.handle_append_entries(
        id(2),
        Term::new(1),
        LogIndex::zero(),
        Term::zero(),
        vec![],
        LogIndex::zero(),
    );

    let message = result.unwrap_err().message();
    assert_eq!(
        message,
        "CRITICAL SAFETY VIOLATION: Rival leader 2 detected for term 1 during AppendEntries. \
         Halting node."
    );
    assert!(state.is_poisoned());
}

#[test]
fn demotes_candidate_on_equal_term() {
    let mut state = setup_node();
    state.into_candidate().unwrap();

    let result = state
        .handle_append_entries(
            id(2),
            Term::new(1),
            LogIndex::zero(),
            Term::zero(),
            vec![],
            LogIndex::zero(),
        )
        .unwrap();

    assert!(result.success);
    assert_eq!(result.term, Term::new(1));
    assert!(matches!(state.state(), RoleState::Follower(_)));
}

#[test]
fn demotes_any_role_on_higher_term() {
    let mut state = leader_of(vec![]);

    let result = state
        .handle_append_entries(
            id(2),
            Term::new(10),
            LogIndex::zero(),
            Term::zero(),
            vec![],
            LogIndex::zero(),
        )
        .unwrap();

    assert!(result.success);
    assert_eq!(result.term, Term::new(10));
    assert!(matches!(state.state(), RoleState::Follower(_)));
}

#[test]
fn demotes_on_higher_term_even_if_vote_rejected() {
    let mut storage = MemoryStorage::new();
    storage
        .append_entries(vec![LogEntry::new(LogIndex::new(1), Term::new(1), vec![])])
        .unwrap();
    let mut state = node_on(storage, 0);
    state.into_candidate().unwrap();

    let result = state
        .handle_request_vote(id(2), Term::new(5), LogIndex::zero(), Term::zero())
        .unwrap();

    assert!(!result.vote_granted);
    assert_eq!(result.term, Term::new(5));
    assert!(matches!(state.state(), RoleState::Follower(_)));
}

#[test]
fn grants_vote_on_same_term_if_eligible() {
    let mut state = setup_node();
    state.into_follower(Term::new(1), None).unwrap();

    let result = state
        .handle_request_vote(id(2), Term::new(1), LogIndex::zero(), Term::zero())
        .unwrap();

    assert!(result.vote_granted);
    assert_eq!(state.voted_for().unwrap(), Some(id(2)));
}

#[test]
fn succeeds_when_leader() {
    let mut state = leader_of(vec![]);

    let result = state.propose(vec![42]);
    assert!(result.is_ok());
    assert_eq!(result.unwrap(), LogIndex::new(1));
}

#[test]
fn fails_when_not_leader() {
    let mut state = setup_node();
    let result = state.propose(vec![42]);
    assert!(matches!(result, Err(NodeError::NotLeader { .. })));
}

#[test]
fn reports_follower_state_accurately() {
    let mut state = setup_node();
    let progress = state.consensus_progress().unwrap();
    assert_eq!(progress.role, NodeRole::Follower);
    assert_eq!(progress.term, Term::zero());
}

#[test]
fn reports_candidate_state_accurately() {
    let mut state = setup_node();
    state.into_candidate().unwrap();
    let progress = state.consensus_progress().unwrap();
    assert_eq!(progress.role, NodeRole::Candidate);
    assert_eq!(progress.term, Term::new(1));
}

#[test]
fn reports_leader_state_accurately() {
    let mut state = leader_of(vec![]);
    let progress = state.consensus_progress().unwrap();
    assert_eq!(progress.role, NodeRole::Leader);
    assert_eq!(progress.term, Term::new(1));
}

#[test]
fn reports_confirmed_epoch() {
    let mut state = leader_of(vec![id(2)]);

    if let Some(n) = state.as_leader_mut() {
        n.state_mut().prepare_read_probe(id(1));
        n.state_mut().acknowledge_heartbeat(id(2), 2);
    }

    let progress = state.consensus_progress().unwrap();
    assert_eq!(progress.confirmed_read_epoch, 1);

    if let Some(n) = state.as_leader_mut() {
        n.state_mut().prepare_read_probe(id(1));
        n.state_mut().acknowledge_heartbeat(id(2), 2);
    }

    let progress2 = state.consensus_progress().unwrap();
    assert_eq!(progress2.confirmed_read_epoch, 2);
}

#[test]
fn reports_poisoned_state_accurately() {
    let mut state = setup_node();
    state.poison();
    let progress = state.consensus_progress().unwrap();
    assert_eq!(progress.role, NodeRole::Poisoned);
}

#[test]
fn should_not_trigger_election_before_timeout() {
    let mut node = setup_node();
    for _ in 0..14 {
        assert_eq!(node.tick(), TickAction::Idle);
    }
}

#[test]
fn should_trigger_election_at_timeout() {
    let mut node = setup_node();
    let mut triggered = false;
    for _ in 0..30 {
        if node.tick() == TickAction::StartElection {
            triggered = true;
            break;
        }
    }
    assert!(triggered);
}

#[test]
fn should_reset_timer_on_heartbeat() {
    let mut node = setup_node();
    for _ in 0..10 {
        node.tick();
    }

    node.reset_heartbeat();

    for _ in 0..10 {
        assert_eq!(node.tick(), TickAction::Idle);
    }
}

#[test]
fn should_trigger_election_restart_on_timeout() {
    let mut node = setup_node();
    node.into_candidate().unwrap();

    let mut triggered = false;
    for _ in 0..30 {
        if node.tick() == TickAction::StartElection {
            triggered = true;
            break;
        }
    }
    assert!(triggered);
}

#[test]
fn should_trigger_heartbeat_at_interval() {
    let mut node = leader_of(vec![]);

    for _ in 0..9 {
        assert_eq!(node.tick(), TickAction::Idle);
    }
    assert_eq!(node.tick(), TickAction::SendHeartbeat);
}

#[test]
fn should_reset_heartbeat_timer_on_manual_reset() {
    let mut node = leader_of(vec![]);

    for _ in 0..5 {
        node.tick();
    }
    node.reset_heartbeat();

    for _ in 0..9 {
        assert_eq!(node.tick(), TickAction::Idle);
    }
    assert_eq!(node.tick(), TickAction::SendHeartbeat);
}

#[test]
fn should_return_stop_action() {
    let mut node = setup_node();
    node.poison();
    assert_eq!(node.tick(), TickAction::Stop);
}

#[test]
fn remains_frozen_until_all_tasks_finish() {
    let mut node = setup_node();
    assert!(!node.is_snapshotting());

    node.set_snapshotting(true).unwrap();
    assert!(node.is_snapshotting());

    node.set_snapshotting(true).unwrap();
    assert!(node.is_snapshotting());

    node.set_snapshotting(false).unwrap();

    assert!(
        node.is_snapshotting(),
        "FSM unfrozen while Task 2 is still active!"
    );

    node.set_snapshotting(false).unwrap();
    assert!(!node.is_snapshotting());
}

#[test]
fn thawing_without_a_freeze_halts() {
    let mut node = setup_node();

    let result = node.set_snapshotting(false);

    assert_eq!(result, Err(NodeError::Protocol(ProtocolError::FreezeUnderflow)));
    assert_eq!(
        result.unwrap_err().message(),
        "Structural Invariant Violation: snapshot_count underflow (unfreeze without freeze)"
    );
    assert!(node.is_poisoned());
}

#[test]
fn stale_candidate_rejected() {
    let mut node = setup_node();
    node.into_follower(Term::new(5), None).unwrap();

    let result = node
        .handle_pre_vote(id(2), Term::new(2), LogIndex::zero(), Term::zero())
        .unwrap();

    assert!(!result.vote_granted, "Stale candidate must not get pre-vote");
    assert_eq!(
        result.term,
        Term::new(5),
        "Response term must reflect node's current term"
    );
}

#[test]
fn up_to_date_candidate_accepted() {
    let mut node = setup_node();
    node.into_follower(Term::new(3), None).unwrap();

    let result = node
        .handle_pre_vote(id(2), Term::new(3), LogIndex::zero(), Term::zero())
        .unwrap();

    assert!(result.vote_granted, "Up-to-date candidate should get pre-vote");
    assert_eq!(
        result.term,
        Term::new(3),
        "Response term must match node's current term"
    );
}

#[test]
fn pre_vote_changes_neither_term_nor_vote() {
    let mut node = setup_node();
    node.into_follower(Term::new(3), None).unwrap();

    let result = node
        .handle_pre_vote(id(2), Term::new(9), LogIndex::zero(), Term::zero())
        .unwrap();

    assert!(result.vote_granted);
    assert_eq!(result.term, Term::new(3));
    assert_eq!(node.current_term().unwrap(), Term::new(3));
    assert_eq!(node.voted_for().unwrap(), None);
    assert!(matches!(node.state(), RoleState::Follower(_)));
}

#[test]
fn second_candidate_of_a_term_is_refused() {
    let mut node = setup_node();
    assert!(
        node.handle_request_vote(id(2), Term::new(4), LogIndex::zero(), Term::zero())
            .unwrap()
            .vote_granted
    );

    let second = node
        .handle_request_vote(id(3), Term::new(4), LogIndex::zero(), Term::zero())
        .unwrap();
    let again = node
        .handle_request_vote(id(2), Term::new(4), LogIndex::zero(), Term::zero())
        .unwrap();

    assert!(!second.vote_granted);
    assert!(again.vote_granted);
    assert_eq!(node.voted_for().unwrap(), Some(id(2)));
}

#[test]
fn proposal_off_the_leader_names_the_vote() {
    let mut node = setup_node();
    node.handle_request_vote(id(2), Term::new(4), LogIndex::zero(), Term::zero())
        .unwrap();

    assert_eq!(
        node.propose(vec![1]),
        Err(NodeError::NotLeader { leader_hint: Some(id(2)) })
    );
}

#[test]
fn follower_learns_its_leader_and_its_commit() {
    let mut node = setup_node();
    let entries = vec![LogEntry { index: 1, term: 2, data: vec![9] }];

    let result = node
        .handle_append_entries(
            id(3),
            Term::new(2),
            LogIndex::zero(),
            Term::zero(),
            entries,
            LogIndex::new(1),
        )
        .unwrap();

    assert!(result.success);
    assert_eq!(result.conflict_index, LogIndex::new(1));
    let progress = node.try_consensus_progress().unwrap();
    assert_eq!(progress.term, Term::new(2));
    assert_eq!(progress.last_committed, LogIndex::new(1));
    assert_eq!(progress.last_applied, LogIndex::zero());
    assert_eq!(progress.leader_hint, Some(id(3)));
}

#[test]
fn commit_past_the_log_halts() {
    let mut node = setup_node();

    let result = node.advance_last_committed(LogIndex::new(3));

    assert_eq!(
        result,
        Err(NodeError::Protocol(ProtocolError::CommitBeyondLog {
            index: LogIndex::new(3),
            last: LogIndex::zero(),
        }))
    );
    assert!(node.is_poisoned());
}

#[test]
fn transition_hands_the_role_over() {
    let mut node = setup_node();
    node.transition(|role| role);
    assert_eq!(node.node_role(), NodeRole::Follower);
    node.transition(|_| RoleState::Poisoned);
    assert_eq!(node.node_role(), NodeRole::Poisoned);
}

#[test]
fn clock_counts_beats() {
    let mut node = setup_node();
    node.tick();
    node.tick();
    assert_eq!(node.current_tick(), Tick::new(2));
}

#[test]
fn candidates_do_not_grant_votes_of_their_term() {
    let mut node = setup_node();
    node.into_candidate().unwrap();

    let result = node
        .handle_request_vote(id(2), Term::new(1), LogIndex::zero(), Term::zero())
        .unwrap();

    assert!(!result.vote_granted);
    assert!(node.as_candidate().is_some());
}

#[test]
fn uncommitted_tail_is_replaced_by_the_new_leader() {
    let mut node = setup_node();
    let first = vec![
        LogEntry { index: 1, term: 1, data: vec![1] },
        LogEntry { index: 2, term: 1, data: vec![2] },
    ];
    node.handle_append_entries(
        id(2),
        Term::new(1),
        LogIndex::zero(),
        Term::zero(),
        first,
        LogIndex::new(1),
    )
    .unwrap();

    let second = vec![LogEntry { index: 2, term: 3, data: vec![7] }];
    let result = node
        .handle_append_entries(
            id(3),
            Term::new(3),
            LogIndex::new(1),
            Term::new(1),
            second,
            LogIndex::new(2),
        )
        .unwrap();

    assert!(result.success);
    assert_eq!(node.last_committed(), LogIndex::new(2));
    assert_eq!(
        node.read_entries(LogIndex::new(1), LogIndex::new(2)).unwrap(),
        vec![
            LogEntry { index: 1, term: 1, data: vec![1] },
            LogEntry { index: 2, term: 3, data: vec![7] },
        ]
    );
}
