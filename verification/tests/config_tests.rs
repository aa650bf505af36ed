//! Tests of the configuration and of the peer table.
use raft_engine::config::Config;
use raft_engine::config::ConfigError;
use raft_engine::config::PeerAddress;
use raft_engine::config::PeerMap;
use raft_engine::config::PolicyConfig;
use raft_engine::config::RaftConfig;
use raft_engine::peer::PeerError;
use raft_engine::peer::PeerManager;
use raft_engine::tick::TickDuration;
use raft_engine::types::ClusterId;
use raft_engine::types::IdentityError;
use raft_engine::types::NodeId;
use raft_engine::types::NodeIdentity;
use std::time::Duration;

fn id(value: u64) -> NodeId {
    NodeId::try_new(value).unwrap()
}

fn address(node: u64, uri: &str) -> PeerAddress {
    PeerAddress { node_id: id(node), uri: uri.to_string() }
}

fn peer_map(peers: Vec<PeerAddress>) -> PeerMap {
    let mut map = PeerMap::new();
    for peer in peers {
        map.insert(peer.node_id, peer.uri);
    }
    map
}

fn config_with(peers: Vec<PeerAddress>, raft: RaftConfig, policy: PolicyConfig) -> Config {
    Config {
        cluster_id: ClusterId::try_new("test-cluster").unwrap(),
        node_id: id(1),
        listen_addr: "127.0.0.1:50051".to_string(),
        data_dir: "data/node_1".to_string(),
        peers: peer_map(peers),
        raft,
        policy,
    }
}

fn config_with_raft(raft: RaftConfig) -> Config {
    config_with(
        vec![address(2, "http://127.0.0.1:50052")],
        raft,
        PolicyConfig::default(),
    )
}

fn timing_fault(raft: RaftConfig) -> String {
    match config_with_raft(raft).validate() {
        Err(ConfigError::TimingInvariant(text)) => text,
        other => panic!("expected a timing fault, got {:?}", other),
    }
}

#[test]
fn accept_valid_configuration() {
    assert!(config_with_raft(RaftConfig::default()).validate().is_ok());
}

#[test]
fn accept_config_when_election_timeout_is_exactly_3x_heartbeat() {
    let config = config_with_raft(RaftConfig {
        heartbeat_interval_ms: 100,
        election_timeout_min_ms: 300,
        election_timeout_max_ms: 450,
        ..RaftConfig::default()
    });
    assert!(config.validate().is_ok());
}

#[test]
fn accept_config_with_warning_when_election_timeout_exceeds_6x_heartbeat() {
    let config = config_with_raft(RaftConfig {
        heartbeat_interval_ms: 100,
        election_timeout_min_ms: 700,
        election_timeout_max_ms: 900,
        ..RaftConfig::default()
    });
    assert!(config.validate().is_ok());
}

#[test]
fn use_default_protocol_settings_when_fields_are_unspecified() {
    let config = config_with_raft(RaftConfig {
        heartbeat_interval_ms: 45,
        ..RaftConfig::default()
    });
    assert!(config.validate().is_ok());
    assert_eq!(config.raft.heartbeat_interval_ms, 45);
    assert_eq!(config.raft.election_timeout_min_ms, 150);
    assert_eq!(config.raft.rpc_timeout_ms, 40);
}

#[test]
fn reject_config_when_node_id_is_in_peers_list() {
    let config = config_with(
        vec![address(1, "http://127.0.0.1:50051")],
        RaftConfig::default(),
        PolicyConfig::default(),
    );
    let result = config.validate();
    assert!(matches!(result, Err(ConfigError::SelfLoop(_))));
}

#[test]
fn reject_config_when_cluster_id_is_empty() {
    let result = ClusterId::try_new("");
    assert!(result.is_err());
    assert_eq!(result.err(), Some(IdentityError::EmptyClusterId));
}

#[test]
fn reject_config_when_peer_uri_is_malformed() {
    let config = config_with(
        vec![address(2, "http://invalid uri.com")],
        RaftConfig::default(),
        PolicyConfig::default(),
    );
    let result = config.validate();
    assert!(matches!(result, Err(ConfigError::InvalidUri(_))));
}

#[test]
fn reject_config_when_tick_interval_is_zero() {
    let text = timing_fault(RaftConfig { tick_interval_ms: 0, ..RaftConfig::default() });
    assert!(text.contains("tick_interval_ms"));
}

#[test]
fn reject_config_when_tick_interval_exceeds_heartbeat_interval() {
    let text = timing_fault(RaftConfig {
        tick_interval_ms: 100,
        heartbeat_interval_ms: 50,
        ..RaftConfig::default()
    });
    assert!(text.contains("tick_interval_ms"));
    assert!(text.contains("less than or equal to heartbeat"));
}

#[test]
fn reject_config_when_rpc_timeout_exceeds_heartbeat_interval() {
    let text = timing_fault(RaftConfig {
        heartbeat_interval_ms: 50,
        rpc_timeout_ms: 60,
        ..RaftConfig::default()
    });
    assert!(text.contains("stacking"));
}

#[test]
fn reject_config_when_election_timeout_is_below_3x_heartbeat() {
    let text = timing_fault(RaftConfig {
        heartbeat_interval_ms: 100,
        election_timeout_min_ms: 299,
        election_timeout_max_ms: 400,
        ..RaftConfig::default()
    });
    assert!(text.contains("ADR 003"));
}

#[test]
fn reject_config_when_consensus_timeout_is_zero() {
    let text = timing_fault(RaftConfig { consensus_timeout_ms: 0, ..RaftConfig::default() });
    assert!(text.contains("consensus_timeout_ms"));
}

#[test]
fn reject_config_when_consensus_timeout_is_below_rpc_timeout() {
    let text = timing_fault(RaftConfig {
        rpc_timeout_ms: 100,
        consensus_timeout_ms: 50,
        ..RaftConfig::default()
    });
    assert!(text.contains("SLA Invariant"));
}

#[test]
fn reject_config_when_snapshot_threshold_is_zero() {
    let text = timing_fault(RaftConfig { snapshot_threshold: 0, ..RaftConfig::default() });
    assert!(text.contains("snapshot_threshold"));
}

#[test]
fn accept_config_when_snapshot_threshold_is_positive() {
    let config = config_with_raft(RaftConfig {
        snapshot_threshold: 1000,
        ..RaftConfig::default()
    });
    assert!(config.validate().is_ok());
    assert_eq!(config.raft.snapshot_threshold, 1000);
}

#[test]
fn reject_config_when_veto_timeout_is_zero() {
    let config = config_with(
        vec![address(2, "http://127.0.0.1:50052")],
        RaftConfig::default(),
        PolicyConfig { veto_timeout_ms: 0, ..PolicyConfig::default() },
    );
    let result = config.validate();
    assert!(matches!(
        result,
        Err(ConfigError::TimingInvariant(ref msg)) if msg.contains("veto_timeout_ms")
    ));
}

#[test]
fn reject_config_when_veto_uri_is_malformed() {
    let config = config_with(
        vec![address(2, "http://127.0.0.1:50052")],
        RaftConfig::default(),
        PolicyConfig {
            veto_addr: "http://invalid uri.com".to_string(),
            ..PolicyConfig::default()
        },
    );
    let result = config.validate();
    assert!(matches!(result, Err(ConfigError::InvalidUri(_))));
}

#[test]
fn translate_milliseconds_to_ticks_accurately() {
    let config = RaftConfig {
        tick_interval_ms: 10,
        heartbeat_interval_ms: 50,
        election_timeout_min_ms: 150,
        election_timeout_max_ms: 300,
        rpc_timeout_ms: 40,
        consensus_timeout_ms: 30000,
        snapshot_threshold: 1000,
    };

    let thresholds = config.calculate_thresholds();

    assert_eq!(thresholds.heartbeat_interval, TickDuration::new(5));
    assert_eq!(thresholds.min_election, TickDuration::new(15));
    assert_eq!(thresholds.max_election, TickDuration::new(30));
}

#[test]
fn handle_non_multiple_intervals_with_ceiling_logic() {
    let config = RaftConfig {
        tick_interval_ms: 10,
        heartbeat_interval_ms: 55,
        election_timeout_min_ms: 155,
        election_timeout_max_ms: 305,
        rpc_timeout_ms: 40,
        consensus_timeout_ms: 30000,
        snapshot_threshold: 1000,
    };

    let thresholds = config.calculate_thresholds();

    assert_eq!(thresholds.heartbeat_interval, TickDuration::new(6));
    assert_eq!(thresholds.min_election, TickDuration::new(16));
    assert_eq!(thresholds.max_election, TickDuration::new(31));
}

#[test]
fn thresholds_of_the_longest_interval_do_not_overflow() {
    let config = RaftConfig {
        tick_interval_ms: 2,
        heartbeat_interval_ms: u64::MAX,
        ..RaftConfig::default()
    };

    assert_eq!(
        config.calculate_thresholds().heartbeat_interval,
        TickDuration::new(u64::MAX / 2 + 1)
    );
}

#[test]
fn durations_are_milliseconds() {
    let config = RaftConfig::default();

    assert_eq!(config.tick_interval(), Duration::from_millis(config.tick_interval_ms));
    assert_eq!(
        config.heartbeat_interval(),
        Duration::from_millis(config.heartbeat_interval_ms)
    );
    assert_eq!(config.rpc_timeout(), Duration::from_millis(40));
    assert_eq!(config.consensus_timeout(), Duration::from_millis(30000));
    let policy = PolicyConfig { veto_timeout_ms: 1500, ..PolicyConfig::default() };
    assert_eq!(policy.veto_timeout(), Duration::from_millis(1500));
    assert_eq!(policy.veto_timeout().as_secs(), 1);
}

#[test]
fn durations_of_a_valid_configuration_are_in_order() {
    let config = RaftConfig::default();
    assert!(config.validate().is_ok());
    assert!(Duration::ZERO < config.tick_interval());
    assert!(config.tick_interval() <= config.heartbeat_interval());
    assert!(Duration::ZERO < config.rpc_timeout());
    assert!(config.rpc_timeout() < config.heartbeat_interval());
    assert!(config.rpc_timeout() <= config.consensus_timeout());
    assert_eq!(config.heartbeat_interval().as_millis(), 50);
    assert!(
        3 * config.heartbeat_interval().as_millis() <= config.election_timeout_min_ms as u128
    );
    assert!(Duration::ZERO < PolicyConfig::default().veto_timeout());
    assert_ne!(Duration::from_millis(u64::MAX), Duration::from_millis(u64::MAX - 1));
}

#[test]
fn self_loop_is_found_before_a_bad_uri() {
    let config = config_with(
        vec![address(2, "http://invalid uri.com"), address(1, "")],
        RaftConfig::default(),
        PolicyConfig::default(),
    );
    let fault = config.validate().unwrap_err();
    assert_eq!(fault, ConfigError::SelfLoop(id(1)));
}

#[test]
fn empty_peer_uri_has_its_own_text() {
    let config = config_with(
        vec![address(2, "")],
        RaftConfig::default(),
        PolicyConfig::default(),
    );
    assert_eq!(
        config.validate(),
        Err(ConfigError::InvalidUri("Peer ID 2 has an empty URI".to_string()))
    );
}

#[test]
fn peer_map_holds_one_address_per_node() {
    let mut map = PeerMap::new();
    assert!(map.is_empty());
    assert_eq!(map.insert(id(2), "http://a".to_string()), None);
    assert_eq!(map.insert(id(3), "http://b".to_string()), None);
    assert_eq!(map.insert(id(2), "http://c".to_string()), Some("http://a".to_string()));
    assert_eq!(map.len(), 2);
    assert!(map.contains(id(2)));
    assert!(!map.contains(id(4)));
    let mut listed: Vec<(u64, String)> =
        map.listed().into_iter().map(|p| (p.node_id.as_u64(), p.uri)).collect();
    listed.sort();
    assert_eq!(listed, vec![(2, "http://c".to_string()), (3, "http://b".to_string())]);
}

#[test]
fn one_of_several_bad_peers_is_reported() {
    let config = config_with(
        vec![address(2, ""), address(3, ""), address(4, "http://127.0.0.1:50054")],
        RaftConfig { tick_interval_ms: 0, ..RaftConfig::default() },
        PolicyConfig::default(),
    );
    let text = config.validate().unwrap_err().message();
    assert!(
        text == "Invalid URI: Peer ID 2 has an empty URI"
            || text == "Invalid URI: Peer ID 3 has an empty URI"
    );
}

#[test]
fn peer_faults_are_judged_from_given_causes() {
    let config = config_with(
        vec![address(2, "a"), address(3, "b c")],
        RaftConfig::default(),
        PolicyConfig::default(),
    );
    let peers = vec![address(2, "a"), address(3, "b c")];
    assert_eq!(config.validate_given(&peers, &vec![None, None], None), Ok(()));
    assert_eq!(
        config.validate_given(&peers, &vec![None, Some("bad".to_string())], None),
        Err(ConfigError::InvalidUri("Peer ID 3 URI 'b c' is invalid: bad".to_string()))
    );
    let both = vec![Some("worse".to_string()), Some("bad".to_string())];
    assert_eq!(
        config.validate_given(&peers, &both, None),
        Err(ConfigError::InvalidUri("Peer ID 2 URI 'a' is invalid: worse".to_string()))
    );
}

#[test]
fn huge_heartbeat_does_not_wrap_in_the_ratio() {
    let text = timing_fault(RaftConfig {
        heartbeat_interval_ms: u64::MAX / 2,
        election_timeout_min_ms: u64::MAX / 2,
        election_timeout_max_ms: u64::MAX,
        ..RaftConfig::default()
    });
    assert!(text.contains("ADR 003"));
}

#[test]
fn inverted_election_window_is_refused() {
    let result = config_with_raft(RaftConfig {
        heartbeat_interval_ms: 50,
        election_timeout_min_ms: 300,
        election_timeout_max_ms: 300,
        ..RaftConfig::default()
    })
    .validate();
    assert!(matches!(result, Err(ConfigError::TimingInvariant(_))));
}

#[test]
fn veto_endpoint_carries_its_uri() {
    let policy = PolicyConfig {
        veto_addr: "http://127.0.0.1:50060".to_string(),
        ..PolicyConfig::default()
    };
    let endpoint = policy.veto_endpoint().unwrap();
    assert_eq!(endpoint.uri().port_u16(), Some(50060));

    let malformed = PolicyConfig {
        veto_addr: "http://invalid uri.com".to_string(),
        ..PolicyConfig::default()
    };
    assert!(matches!(malformed.veto_endpoint(), Err(ConfigError::InvalidUri(_))));
}

fn mock_identity() -> NodeIdentity {
    NodeIdentity::new(ClusterId::try_new("test-cluster").unwrap(), id(1))
}

#[test]
fn returns_intercepted_client_when_node_exists() {
    let manager =
        PeerManager::try_new(
            mock_identity(),
            &peer_map(vec![address(2, "http://127.0.0.1:50052")]),
        )
        .unwrap();
    let result = manager.get_client(id(2));

    assert!(result.is_ok());
    let target = result.unwrap();
    assert_eq!(target.endpoint.uri().port_u16(), Some(50052));
    assert_eq!(target.cluster_id.as_str(), "test-cluster");
    assert_eq!(target.node_id, id(2));
}

#[test]
fn returns_error_when_node_id_is_missing() {
    let manager = PeerManager::try_new(mock_identity(), &PeerMap::new()).unwrap();
    let result = manager.get_client(id(99));

    assert!(matches!(result, Err(PeerError::NodeNotFound(_))));
}

#[test]
fn returns_network_address_when_node_exists() {
    let manager =
        PeerManager::try_new(
            mock_identity(),
            &peer_map(vec![address(2, "http://127.0.0.1:50052")]),
        )
        .unwrap();
    let result = manager.get_address(id(2));

    assert!(result.is_ok());
    assert_eq!(result.unwrap(), "http://127.0.0.1:50052");
    assert_eq!(manager.get_address(id(3)), Err(PeerError::NodeNotFound(id(3))));
}

#[test]
fn peer_table_refuses_a_bad_uri() {
    let result = PeerManager::try_new(
        mock_identity(),
        &peer_map(vec![
            address(2, "http://127.0.0.1:50052"),
            address(3, "http://invalid uri.com"),
        ]),
    );
    assert_eq!(
        result.err(),
        Some(PeerError::InvalidUri {
            node_id: id(3),
            uri: "http://invalid uri.com".to_string(),
        })
    );
}

#[test]
fn peer_table_lists_its_peers() {
    let manager = PeerManager::try_new(
        mock_identity(),
        &peer_map(vec![
            address(2, "http://127.0.0.1:50052"),
            address(3, "http://127.0.0.1:50053"),
        ]),
    )
    .unwrap();
    let mut ids: Vec<u64> = manager.peer_ids().iter().map(|p| p.as_u64()).collect();
    ids.sort();
    assert_eq!(ids, vec![2, 3]);
}

#[test]
fn malformed_peer_uri_is_reported_in_full() {
    let config = config_with(
        vec![address(2, "http://invalid uri.com")],
        RaftConfig::default(),
        PolicyConfig::default(),
    );
    assert_eq!(
        config.validate().unwrap_err().message(),
        "Invalid URI: Peer ID 2 URI 'http://invalid uri.com' is invalid: invalid URI"
    );
}

#[test]
fn fault_texts_name_their_kind() {
    assert_eq!(
        ConfigError::SelfLoop(id(7)).message(),
        "Self-loop detected: node_id 7 found in peers list"
    );
    assert_eq!(
        ConfigError::TimingInvariant("t".to_string()).message(),
        "Invalid configuration invariant: t"
    );
}

#[test]
fn valid_timing_leaves_room_between_heartbeat_and_election() {
    let thresholds = RaftConfig::default().calculate_thresholds();
    assert!(thresholds.heartbeat_interval.as_u64() >= 1);
    assert!(
        thresholds.min_election.as_u64() >= thresholds.heartbeat_interval.as_u64() + 2
    );
    assert!(thresholds.min_election.as_u64() <= thresholds.max_election.as_u64());
}
