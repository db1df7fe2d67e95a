use compose_sidecar::config::{ChainConfig, PeerConfig, PeersConfig, PublisherConfig, SidecarConfig};
use compose_sidecar::loader::{load, names_match, ChainLayer, ConfigLayer, LoadError, PeerLayer};
use compose_sidecar::primitives::ChainId;
use compose_sidecar::wiring::plan_coordinator;

fn env(pairs: &[(&str, &str)]) -> Vec<(String, String)> {
    pairs.iter().map(|(k, v)| (k.to_string(), v.to_string())).collect()
}

#[test]
fn default_config_is_valid() {
    let cfg = SidecarConfig::default();
    assert_eq!(cfg.server.listen_addr, "0.0.0.0:8080");
    assert!(!cfg.publisher.enabled);
    assert_eq!(cfg.log.level, "info");
}

#[test]
fn load_missing_file_uses_defaults() {
    // A missing optional file contributes no layer.
    let cfg = load(None, &Vec::new()).unwrap();
    assert_eq!(cfg.server.listen_addr, "0.0.0.0:8080");
}

#[test]
fn defaults_without_sources_are_complete() {
    let cfg = load(None, &Vec::new()).unwrap();
    assert_eq!(cfg.server.read_timeout_secs, 30);
    assert_eq!(cfg.server.write_timeout_secs, 30);
    assert_eq!(cfg.publisher.addr, "");
    assert_eq!(cfg.publisher.reconnect_delay_secs, 5);
    assert_eq!(cfg.publisher.max_retries, 10);
    assert!(!cfg.publisher.enabled);
    assert!(cfg.chains.list.is_empty());
    assert!(cfg.peers.sidecars.is_empty());
    assert_eq!(cfg.log.level, "info");
    assert_eq!(cfg.log.format, "json");
}

#[test]
fn environment_overrides_file() {
    let mut file = ConfigLayer::empty();
    file.server.listen_addr = Some("0.0.0.0:9090".to_string());
    file.log.level = Some("debug".to_string());
    let vars = env(&[("SIDECAR_SERVER__LISTEN_ADDR", "127.0.0.1:7000"), ("SIDECAR_PUBLISHER__ENABLED", "true")]);
    let cfg = load(Some(file), &vars).unwrap();
    assert_eq!(cfg.server.listen_addr, "127.0.0.1:7000");
    assert!(cfg.publisher.enabled);
    assert_eq!(cfg.log.level, "debug");
}

#[test]
fn last_environment_variable_wins_and_case_is_ignored() {
    let vars = env(&[("SIDECAR_LOG__LEVEL", "warn"), ("sidecar_log__level", "trace")]);
    let cfg = load(None, &vars).unwrap();
    assert_eq!(cfg.log.level, "trace");
}

#[test]
fn environment_numbers_are_parsed() {
    let vars = env(&[("SIDECAR_SERVER__READ_TIMEOUT_SECS", "+45"), ("SIDECAR_PUBLISHER__MAX_RETRIES", "0")]);
    let cfg = load(None, &vars).unwrap();
    assert_eq!(cfg.server.read_timeout_secs, 45);
    assert_eq!(cfg.publisher.max_retries, 0);
}

#[test]
fn invalid_environment_value_is_refused() {
    let vars = env(&[("SIDECAR_SERVER__WRITE_TIMEOUT_SECS", "soon")]);
    match load(None, &vars) {
        Err(LoadError::InvalidValue { key }) => assert_eq!(key, "sidecar_server__write_timeout_secs"),
        other => panic!("unexpected {:?}", other),
    }
    let vars = env(&[("SIDECAR_PUBLISHER__MAX_RETRIES", "4294967296")]);
    match load(None, &vars) {
        Err(LoadError::InvalidValue { key }) => assert_eq!(key, "sidecar_publisher__max_retries"),
        other => panic!("unexpected {:?}", other),
    }
}

#[test]
fn chain_without_id_is_refused() {
    let mut file = ConfigLayer::empty();
    file.chains = Some(vec![ChainLayer { id: None, name: Some("a".to_string()), rpc: None, mailbox_address: None, coordinator_key: None }]);
    match load(Some(file), &Vec::new()) {
        Err(LoadError::MissingField { field }) => assert_eq!(field, "id"),
        other => panic!("unexpected {:?}", other),
    }
}

#[test]
fn peer_without_addr_is_refused() {
    let mut file = ConfigLayer::empty();
    file.peers = Some(vec![PeerLayer { chain_id: Some(88888), addr: None }]);
    match load(Some(file), &Vec::new()) {
        Err(LoadError::MissingField { field }) => assert_eq!(field, "addr"),
        other => panic!("unexpected {:?}", other),
    }
}

#[test]
fn file_chains_and_peers_are_built() {
    let mut file = ConfigLayer::empty();
    file.chains = Some(vec![ChainLayer {
        id: Some(901),
        name: Some("chain-a".to_string()),
        rpc: Some("http://localhost:8545".to_string()),
        mailbox_address: None,
        coordinator_key: None,
    }]);
    file.peers = Some(vec![PeerLayer { chain_id: Some(902), addr: Some("peer:8080".to_string()) }]);
    let cfg = load(Some(file), &Vec::new()).unwrap();
    assert_eq!(cfg.chains.list.len(), 1);
    assert_eq!(cfg.chains.list[0].id, 901);
    assert_eq!(cfg.chains.list[0].name, "chain-a");
    assert_eq!(cfg.chains.list[0].mailbox_address, "");
    assert_eq!(cfg.chains.list[0].chain_id(), ChainId(901));
    assert_eq!(cfg.peers.sidecars[0].chain_id, 902);
    assert_eq!(cfg.peers.sidecars[0].addr, "peer:8080");
}

#[test]
fn environment_values_are_read_as_the_config_crate_reads_them() {
    let vars = env(&[
        ("SIDECAR_SERVER__READ_TIMEOUT_SECS", "2.6"),
        ("SIDECAR_PUBLISHER__ENABLED", "1"),
        ("SIDECAR_SERVER__LISTEN_ADDR", "007"),
        ("SIDECAR_LOG__FORMAT", "TRUE"),
    ]);
    let cfg = load(None, &vars).unwrap();
    assert_eq!(cfg.server.read_timeout_secs, 3);
    assert!(cfg.publisher.enabled);
    assert_eq!(cfg.server.listen_addr, "7");
    assert_eq!(cfg.log.format, "true");
    let cfg = load(None, &env(&[("SIDECAR_PUBLISHER__ENABLED", "False")])).unwrap();
    assert!(!cfg.publisher.enabled);
}

#[test]
fn environment_names_ignore_case() {
    assert!(names_match("SIDECAR_LOG__FORMAT", "sidecar_log__format"));
    assert!(!names_match("SIDECAR_LOG__FORMA", "sidecar_log__format"));
}

#[test]
fn coordinator_plan_follows_settings() {
    let chain = ChainConfig {
        id: 77777,
        name: String::new(),
        rpc: "http://node:8545".to_string(),
        mailbox_address: String::new(),
        coordinator_key: String::new(),
    };
    let peers = PeersConfig { sidecars: vec![PeerConfig { chain_id: 88888, addr: "peer:8080".to_string() }] };
    let publisher = PublisherConfig { addr: "publisher:8080".to_string(), reconnect_delay_secs: 5, max_retries: 3, enabled: true };
    let plan = plan_coordinator(&chain, &peers, &publisher);
    assert_eq!(plan.chain_id, ChainId(77777));
    let sims = plan.simulator_chains.as_ref().unwrap();
    assert_eq!(sims.len(), 1);
    assert_eq!(sims[0].rpc_url, "http://node:8545");
    assert_eq!(plan.peers.len(), 1);
    assert_eq!(plan.peers[0].chain_id, ChainId(88888));
    assert!(plan.has_simulator && plan.has_mailbox_queue && plan.has_peer_coordinator && plan.has_mailbox_sender);
    let c = compose_sidecar::coordinator::DefaultCoordinator::from_plan(&plan, false, 1000);
    assert!(c.has_simulator && c.has_peer_coordinator && c.has_mailbox_sender && c.has_mailbox_queue);
    assert!(!c.has_publisher && !c.has_put_inbox_builder);
    let c = compose_sidecar::coordinator::DefaultCoordinator::from_plan(&plan, true, 1000);
    assert!(c.has_publisher);
    assert_eq!(plan.publisher.as_ref().unwrap().max_retries, 3);

    let chain = ChainConfig { rpc: String::new(), ..chain };
    let publisher = PublisherConfig { enabled: false, ..publisher };
    let plan = plan_coordinator(&chain, &PeersConfig { sidecars: Vec::new() }, &publisher);
    assert!(plan.simulator_chains.is_none());
    assert!(plan.peers.is_empty());
    assert!(plan.publisher.is_none());
    assert!(!plan.has_simulator && !plan.has_peer_coordinator && !plan.has_mailbox_sender && plan.has_mailbox_queue);
    let c = compose_sidecar::coordinator::DefaultCoordinator::from_plan(&plan, true, 1000);
    assert!(!c.has_publisher);
}
