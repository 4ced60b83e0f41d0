use velamq_bench::model::broker::BrokerProtocol;
use velamq_bench::model::legacy::{
    is_valid_interface_name, normalize_bind_interfaces, normalize_websocket_path,
    render_template, BenchConfig, BenchMode, NetworkBindMode, SpecimenDraft, SpecimenUpdate,
    TemplateDraft,
};

#[test]
fn bench_config_normalizes_websocket_path_and_default_port() {
    let mut config = BenchConfig {
        protocol: BrokerProtocol::Ws,
        port: 0,
        websocket_path: Some("mqtt".to_string()),
        ..BenchConfig::default()
    };

    config = config.normalized();

    assert_eq!(config.port, 8083);
    assert_eq!(config.websocket_path.as_deref(), Some("/mqtt"));
}

#[test]
fn bench_config_clears_websocket_path_for_tcp_protocols() {
    let config = BenchConfig {
        protocol: BrokerProtocol::Mqtts,
        port: 0,
        websocket_path: Some("/mqtt".to_string()),
        ..BenchConfig::default()
    }
    .normalized();

    assert_eq!(config.port, 8883);
    assert_eq!(config.websocket_path, None);
}

#[test]
fn normalization_fills_blank_and_zero_settings() {
    let config = BenchConfig {
        host: "  ".to_string(),
        clients: 0,
        keepalive_secs: 0,
        client_id_template: " ".to_string(),
        topic: String::new(),
        payload_size: 10,
        payload_timestamp: true,
        message_interval_ms: 0,
        sample_interval_ms: 10,
        bind_interfaces: vec![" eth0 ".to_string(), "eth0".to_string(), "bad name".to_string(), "lo".to_string()],
        ..BenchConfig::default()
    }
    .normalized();
    assert_eq!(config.host, "127.0.0.1");
    assert_eq!(config.clients, 1);
    assert_eq!(config.port, 1883);
    assert_eq!(config.keepalive_secs, 30);
    assert_eq!(config.client_id_template, "velamq-{mode}-{i}");
    assert_eq!(config.topic, "velamq/bench/{i}");
    assert_eq!(config.payload_size, 40);
    assert_eq!(config.message_interval_ms, 1);
    assert_eq!(config.sample_interval_ms, 250);
    assert_eq!(config.bind_interfaces, vec!["eth0".to_string(), "lo".to_string()]);
}

#[test]
fn normalization_keeps_a_payload_big_enough_without_timestamp() {
    let config = BenchConfig { payload_size: 10, payload_timestamp: false, ..BenchConfig::default() }
        .normalized();
    assert_eq!(config.payload_size, 10);
}

#[test]
fn websocket_path_defaults_and_gains_slash() {
    assert_eq!(normalize_websocket_path(None), "/mqtt");
    assert_eq!(normalize_websocket_path(Some("  ")), "/mqtt");
    assert_eq!(normalize_websocket_path(Some(" ws ")), "/ws");
    assert_eq!(normalize_websocket_path(Some("/a/b")), "/a/b");
}

#[test]
fn validation_reports_each_limit() {
    let ok = BenchConfig::default();
    assert_eq!(ok.validate(), Ok(()));
    let cases: Vec<(BenchConfig, &str)> = vec![
        (BenchConfig { clients: 100_001, ..BenchConfig::default() }, "clients must be <= 100000"),
        (BenchConfig { payload_size: 1_048_577, ..BenchConfig::default() }, "payload_size must be <= 1048576"),
        (BenchConfig { keepalive_secs: 3601, ..BenchConfig::default() }, "keepalive_secs must be <= 3600"),
        (BenchConfig { sample_interval_ms: 60_001, ..BenchConfig::default() }, "sample_interval_ms must be <= 60000"),
        (
            BenchConfig { network_bind_mode: NetworkBindMode::ManualRandom, ..BenchConfig::default() },
            "bind_interfaces is required for manual network binding",
        ),
        (
            BenchConfig { bind_interfaces: (0..65).map(|i| format!("eth{i}")).collect(), ..BenchConfig::default() },
            "bind_interfaces must contain <= 64 entries",
        ),
        (
            BenchConfig { bind_interfaces: vec!["bad name".to_string()], ..BenchConfig::default() },
            "bind_interfaces contains an invalid interface name",
        ),
        (
            BenchConfig { bind_interfaces: vec!["a".repeat(65)], ..BenchConfig::default() },
            "bind_interfaces contains an invalid interface name",
        ),
    ];
    for (config, message) in cases {
        assert_eq!(config.validate(), Err(message.to_string()));
    }
}

#[test]
fn client_ids_and_topics_render_templates() {
    let config = BenchConfig {
        mode: BenchMode::Sub,
        client_id_template: "c-{mode}-{i}-%i".to_string(),
        topic: "t/{i}/{mode}".to_string(),
        ..BenchConfig::default()
    };
    assert_eq!(config.client_id_for(42), "c-sub-42-42");
    assert_eq!(config.topic_for(7), "t/7/sub");
    assert_eq!(render_template("no placeholders", "pub", 1), "no placeholders");
    assert_eq!(BenchConfig::default().client_id_for(1), "velamq-pub-1");
}

#[test]
fn interface_names_and_lists() {
    assert!(is_valid_interface_name("eth0"));
    assert!(is_valid_interface_name("en0:1.v-l_an"));
    assert!(!is_valid_interface_name(""));
    assert!(!is_valid_interface_name("eth 0"));
    assert_eq!(
        normalize_bind_interfaces(vec!["b".into(), "a".into(), "b".into(), "".into()]),
        vec!["b".to_string(), "a".to_string()]
    );
}

#[test]
fn specimen_draft_normalizes_and_validates() {
    let draft = SpecimenDraft {
        name: Some("  ".to_string()),
        description: Some(" d ".to_string()),
        tags: (0..40).map(|i| format!(" t{i} ")).chain(std::iter::once("  ".to_string())).collect(),
    }
    .normalized("fallback".to_string());
    assert_eq!(draft.name.as_deref(), Some("fallback"));
    assert_eq!(draft.description.as_deref(), Some("d"));
    assert_eq!(draft.tags.len(), 32);
    assert_eq!(draft.tags[0], "t0");
    assert_eq!(draft.validate(), Ok(()));

    let named = SpecimenDraft { name: Some(" run ".into()), description: None, tags: vec![] }
        .normalized("fallback".into());
    assert_eq!(named.name.as_deref(), Some("run"));
    assert_eq!(named.description, None);

    let long = SpecimenDraft { name: Some("x".repeat(121)), description: None, tags: vec![] };
    assert_eq!(long.validate(), Err("specimen name must be <= 120 characters".to_string()));
    let long = SpecimenDraft { name: None, description: Some("x".repeat(2001)), tags: vec![] };
    assert_eq!(long.validate(), Err("specimen description must be <= 2000 characters".to_string()));
    let long = SpecimenDraft { name: None, description: None, tags: vec!["x".repeat(65)] };
    assert_eq!(long.validate(), Err("specimen tags must be <= 64 characters each".to_string()));
}

#[test]
fn specimen_update_validates_present_fields() {
    assert_eq!(SpecimenUpdate::default().validate(), Ok(()));
    let update = SpecimenUpdate { name: None, description: None, tags: Some(vec!["y".repeat(65)]) };
    assert_eq!(update.validate(), Err("specimen tags must be <= 64 characters each".to_string()));
    let update = SpecimenUpdate { name: Some("é".repeat(61)), description: None, tags: None };
    assert_eq!(update.validate(), Err("specimen name must be <= 120 characters".to_string()));
}

#[test]
fn template_draft_normalizes_config_and_checks_both() {
    let draft = TemplateDraft {
        name: None,
        description: None,
        tags: vec![" a ".into()],
        config: BenchConfig { port: 0, protocol: BrokerProtocol::Wss, ..BenchConfig::default() },
    };
    let normalized = draft.normalized("tpl".into()).unwrap();
    assert_eq!(normalized.name.as_deref(), Some("tpl"));
    assert_eq!(normalized.tags, vec!["a".to_string()]);
    assert_eq!(normalized.config.port, 8084);
    assert_eq!(normalized.config.websocket_path.as_deref(), Some("/mqtt"));

    let bad = TemplateDraft {
        config: BenchConfig { clients: 200_000, ..BenchConfig::default() },
        ..TemplateDraft::default()
    };
    assert_eq!(bad.normalized("tpl".into()).unwrap_err(), "clients must be <= 100000");

    let long = TemplateDraft { name: Some("n".repeat(121)), ..TemplateDraft::default() };
    assert_eq!(long.normalized("tpl".into()).unwrap_err(), "template name must be <= 120 characters");
}
