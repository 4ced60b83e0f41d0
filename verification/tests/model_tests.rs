use std::path::PathBuf;
use velamq_bench::cluster::{validate_node_update, ClusterManager};
use velamq_bench::model::broker::{
    AuthConfig, BrokerProfile, BrokerProtocol, Mqtt5Config, MqttVersion, TlsConfig,
};
use velamq_bench::model::cluster::{
    normalize_labels, validate_labels, AgentCapabilities, AgentNodeUpdate, AgentRegistration,
    AgentTaskStatus, DistributedRunStatus, SchedulingStrategy,
};
use velamq_bench::model::legacy::{normalize_bind_interfaces, normalize_websocket_path, BenchConfig};
use velamq_bench::model::time::UtcTimestamp;
use velamq_bench::storage::{normalize_tags, Storage};

fn profile() -> BrokerProfile {
    let now = UtcTimestamp { secs: 1_700_000_000, nanos: 0 };
    BrokerProfile {
        id: "b1".to_string(),
        name: "local".to_string(),
        protocol: BrokerProtocol::Mqtt,
        mqtt_version: MqttVersion::V3_1_1,
        host: "127.0.0.1".to_string(),
        port: 1883,
        websocket_path: None,
        tls: None,
        auth: None,
        keepalive_secs: 30,
        connection_timeout_secs: 10,
        clean_session: true,
        mqtt5: None,
        created_at: now,
        updated_at: now,
    }
}

fn registration(instance_id: &str, name: &str, labels: &[&str], max_clients: u64) -> AgentRegistration {
    AgentRegistration {
        instance_id: instance_id.to_string(),
        name: name.to_string(),
        labels: labels.iter().map(|l| l.to_string()).collect(),
        capabilities: AgentCapabilities { max_clients, ..Default::default() },
    }
}

fn strings(v: &[&str]) -> Vec<String> {
    v.iter().map(|s| s.to_string()).collect()
}

#[test]
fn broker_profile_accepts_a_plain_profile() {
    assert_eq!(profile().validate(), Ok(()));
}

#[test]
fn broker_profile_reports_each_rule() {
    let check = |p: BrokerProfile, msg: &str| assert_eq!(p.validate(), Err(msg.to_string()));
    check(
        BrokerProfile { host: "   ".into(), ..profile() },
        "broker host is required and must be <= 253 characters",
    );
    check(
        BrokerProfile { host: "h".repeat(254), ..profile() },
        "broker host is required and must be <= 253 characters",
    );
    check(BrokerProfile { port: 0, ..profile() }, "broker port must be between 1 and 65535");
    check(
        BrokerProfile { keepalive_secs: 3601, ..profile() },
        "keepalive_secs must be between 1 and 3600",
    );
    check(
        BrokerProfile { connection_timeout_secs: 0, ..profile() },
        "connection_timeout_secs must be between 1 and 300",
    );
    check(
        BrokerProfile {
            auth: Some(AuthConfig::UserPassword { username: "u".repeat(65536), password: String::new() }),
            ..profile()
        },
        "MQTT username and password must be <= 65535 bytes",
    );
    check(
        BrokerProfile {
            tls: Some(TlsConfig { client_cert_pem: Some("CERT".into()), ..TlsConfig::default() }),
            ..profile()
        },
        "both client certificate and private key are required for mTLS",
    );
    check(
        BrokerProfile {
            tls: Some(TlsConfig { alpn_protocols: vec!["mqtt".into(), String::new()], ..TlsConfig::default() }),
            ..profile()
        },
        "each ALPN protocol must contain 1 to 255 bytes",
    );
    check(
        BrokerProfile {
            mqtt_version: MqttVersion::V5_0,
            mqtt5: Some(Mqtt5Config { receive_maximum: Some(0), ..Mqtt5Config::default() }),
            ..profile()
        },
        "MQTT 5 receive maximum must be greater than zero",
    );
    check(
        BrokerProfile {
            mqtt_version: MqttVersion::V5_0,
            mqtt5: Some(Mqtt5Config { maximum_packet_size: Some(0), ..Mqtt5Config::default() }),
            ..profile()
        },
        "MQTT 5 maximum packet size must be greater than zero",
    );
}

#[test]
fn mqtt5_limits_are_ignored_for_mqtt3_and_blank_pems_count_as_absent() {
    let p = BrokerProfile {
        mqtt5: Some(Mqtt5Config { receive_maximum: Some(0), ..Mqtt5Config::default() }),
        tls: Some(TlsConfig {
            client_cert_pem: Some("  ".into()),
            client_key_pem: None,
            ..TlsConfig::default()
        }),
        ..profile()
    };
    assert_eq!(p.validate(), Ok(()));
}

#[test]
fn broker_protocols_and_versions_round_trip() {
    for p in [BrokerProtocol::Mqtt, BrokerProtocol::Mqtts, BrokerProtocol::Ws, BrokerProtocol::Wss] {
        assert_eq!(BrokerProtocol::from_storage(p.as_str()), p);
    }
    assert_eq!(BrokerProtocol::from_storage("bogus"), BrokerProtocol::Mqtt);
    assert_eq!(BrokerProtocol::Wss.as_str(), "wss");
    assert_eq!(BrokerProtocol::Mqtt.default_port(), 1883);
    assert_eq!(BrokerProtocol::Mqtts.default_port(), 8883);
    assert_eq!(BrokerProtocol::Ws.default_port(), 8083);
    assert_eq!(BrokerProtocol::Wss.default_port(), 8084);
    assert!(BrokerProtocol::Ws.is_websocket() && BrokerProtocol::Wss.is_websocket());
    assert!(!BrokerProtocol::Mqtt.is_websocket() && !BrokerProtocol::Mqtts.is_websocket());
    for v in [MqttVersion::V3_1_1, MqttVersion::V5_0] {
        assert_eq!(MqttVersion::from_storage(v.as_str()), v);
    }
    assert_eq!(MqttVersion::V5_0.as_str(), "v5_0");
    assert_eq!(MqttVersion::from_storage("5"), MqttVersion::V3_1_1);
}

#[test]
fn cluster_enums_round_trip_with_fallbacks() {
    for s in [
        AgentTaskStatus::Queued,
        AgentTaskStatus::Leased,
        AgentTaskStatus::Running,
        AgentTaskStatus::Completed,
        AgentTaskStatus::Failed,
        AgentTaskStatus::Stopped,
        AgentTaskStatus::Expired,
    ] {
        assert_eq!(AgentTaskStatus::from_storage(s.as_str()), s);
    }
    assert_eq!(AgentTaskStatus::from_storage("?"), AgentTaskStatus::Queued);
    for s in [SchedulingStrategy::Selected, SchedulingStrategy::Even, SchedulingStrategy::CapacityWeighted] {
        assert_eq!(SchedulingStrategy::from_storage(s.as_str()), s);
    }
    assert_eq!(SchedulingStrategy::CapacityWeighted.as_str(), "capacity_weighted");
    assert!(SchedulingStrategy::CapacityWeighted.is_capacity_weighted());
    assert!(!SchedulingStrategy::Even.is_capacity_weighted());
    for s in [
        DistributedRunStatus::Pending,
        DistributedRunStatus::Running,
        DistributedRunStatus::Completed,
        DistributedRunStatus::Partial,
        DistributedRunStatus::Failed,
        DistributedRunStatus::Stopped,
    ] {
        assert_eq!(DistributedRunStatus::from_storage(s.as_str()), s);
    }
    assert_eq!(DistributedRunStatus::Partial.as_str(), "partial");
}

#[test]
fn labels_are_checked_for_count_and_characters() {
    assert_eq!(validate_labels(&strings(&["zone=a", "gpu", "rack:1.b_c-d"])), Ok(()));
    assert_eq!(validate_labels(&[]), Ok(()));
    assert_eq!(
        validate_labels(&strings(&["ok", "not ok"])),
        Err("agent labels contain an invalid value".to_string())
    );
    assert_eq!(validate_labels(&strings(&[""])), Err("agent labels contain an invalid value".to_string()));
    assert_eq!(
        validate_labels(&strings(&[&"x".repeat(65)])),
        Err("agent labels contain an invalid value".to_string())
    );
    let many: Vec<String> = (0..33).map(|i| format!("l{i}")).collect();
    assert_eq!(validate_labels(&many), Err("agent labels must contain <= 32 entries".to_string()));
}

#[test]
fn labels_are_trimmed_lowered_deduplicated_and_sorted() {
    let once = normalize_labels(strings(&[" Zone=A ", "gpu", "GPU", "  ", "alpha"]));
    assert_eq!(once, strings(&["alpha", "gpu", "zone=a"]));
    assert_eq!(normalize_labels(once.clone()), once);
    assert!(normalize_labels(Vec::new()).is_empty());
}

#[test]
fn registrations_are_validated() {
    assert_eq!(registration("i-1", "agent", &["a"], 1000).validate(), Ok(()));
    assert_eq!(
        registration(" ", "agent", &[], 0).validate(),
        Err("agent instance_id is required and must be <= 128 characters".to_string())
    );
    assert_eq!(
        registration("i-1", &"n".repeat(121), &[], 0).validate(),
        Err("agent name is required and must be <= 120 characters".to_string())
    );
    assert_eq!(
        registration("i-1", "agent", &["bad label"], 0).validate(),
        Err("agent labels contain an invalid value".to_string())
    );
    assert_eq!(
        registration("i-1", "agent", &[], 1_000_001).validate(),
        Err("agent max_clients must be <= 1000000".to_string())
    );
}

#[test]
fn registration_needs_the_bootstrap_token() {
    let storage = || Storage::at_path(PathBuf::from("bench.db"));
    let closed = ClusterManager::configured(storage(), Some("   ".to_string()));
    assert!(!closed.registration_enabled());
    assert_eq!(
        closed.admit_registration("x", registration("i-1", "agent", &[], 1)).unwrap_err(),
        "agent registration is disabled; configure VELAMQ_BENCH_AGENT_BOOTSTRAP_TOKEN"
    );
    let open = ClusterManager::configured(storage(), Some("boot".to_string()));
    assert!(open.registration_enabled());
    assert_eq!(open.storage().path(), &PathBuf::from("bench.db"));
    assert_eq!(
        open.admit_registration("wrong", registration("i-1", "agent", &[], 1)).unwrap_err(),
        "invalid agent bootstrap token"
    );
    assert_eq!(
        open.admit_registration("boot", registration("i-1", "agent", &[], 2_000_000)).unwrap_err(),
        "agent max_clients must be <= 1000000"
    );
    let accepted = open.admit_registration("boot", registration(" i-1 ", " agent ", &["a"], 5)).unwrap();
    assert_eq!(accepted.instance_id, "i-1");
    assert_eq!(accepted.name, "agent");
    assert_eq!(accepted.labels, strings(&["a"]));
    assert_eq!(accepted.capabilities.max_clients, 5);
}

#[test]
fn node_updates_are_validated() {
    let update = |name: Option<&str>, labels: Option<&[&str]>| AgentNodeUpdate {
        name: name.map(|n| n.to_string()),
        labels: labels.map(strings),
        enabled: None,
        draining: Some(true),
    };
    assert_eq!(validate_node_update(&update(None, None)), Ok(()));
    assert_eq!(validate_node_update(&update(Some("renamed"), Some(&["x"]))), Ok(()));
    assert_eq!(
        validate_node_update(&update(Some(""), None)),
        Err("agent name is required and must be <= 120 characters".to_string())
    );
    assert_eq!(
        validate_node_update(&update(None, Some(&["a b"]))),
        Err("agent labels contain an invalid value".to_string())
    );
}

#[test]
fn normalizing_twice_changes_nothing() {
    let config = BenchConfig {
        protocol: BrokerProtocol::Wss,
        host: "  ".to_string(),
        port: 0,
        websocket_path: Some(" ws ".to_string()),
        bind_interfaces: strings(&["eth1", " eth0", "eth1", "bad if"]),
        ..BenchConfig::default()
    };
    let once = config.normalized();
    let twice = once.clone().normalized();
    assert_eq!(twice.host, once.host);
    assert_eq!(twice.port, once.port);
    assert_eq!(twice.websocket_path, once.websocket_path);
    assert_eq!(twice.bind_interfaces, once.bind_interfaces);
    assert_eq!(twice.client_id_template, once.client_id_template);
    assert_eq!(twice.payload_size, once.payload_size);

    let path = normalize_websocket_path(Some("a"));
    assert_eq!(normalize_websocket_path(Some(&path)), path);

    let interfaces = normalize_bind_interfaces(strings(&["b", " a", "b", ""]));
    assert_eq!(normalize_bind_interfaces(interfaces.clone()), interfaces);

    let tags = normalize_tags(strings(&[" x ", "", "y"]));
    assert_eq!(normalize_tags(tags.clone()), tags);
}
