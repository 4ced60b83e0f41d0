use std::collections::HashSet;
use velamq_bench::model::broker::BrokerProtocol;
use velamq_bench::model::legacy::{BenchMode, QosLevel};
use velamq_bench::model::time::UtcTimestamp;
use velamq_bench::templates::default_templates;

#[test]
fn built_in_templates_are_listed_in_order_with_distinct_ids() {
    let now = UtcTimestamp { secs: 1_700_000_000, nanos: 0 };
    let templates = default_templates(now);
    let ids: Vec<&str> = templates.iter().map(|t| t.id.as_str()).collect();
    assert_eq!(
        ids,
        vec![
            "tpl-default-pub-smoke",
            "tpl-default-sub-fanout",
            "tpl-default-conn-ramp",
            "tpl-default-pub-throughput",
            "tpl-default-latency-probe",
            "tpl-default-pub-soak",
            "tpl-default-sub-soak",
            "tpl-default-conn-storm",
            "tpl-default-large-payload",
            "tpl-default-qos1-publish",
            "tpl-default-iot-low-rate",
            "tpl-default-mqtts-pub-smoke",
            "tpl-default-ws-pub-smoke",
            "tpl-default-ws-sub-fanout",
            "tpl-default-wss-pub-smoke",
        ]
    );
    assert_eq!(ids.iter().collect::<HashSet<_>>().len(), ids.len());
    assert!(templates.iter().all(|t| t.created_at == now && t.updated_at == now));
    assert!(templates.iter().all(|t| t.config.validate().is_ok()));
}

#[test]
fn built_in_template_settings() {
    let templates = default_templates(UtcTimestamp { secs: 0, nanos: 0 });
    let smoke = &templates[0];
    assert_eq!(smoke.name, "Publish Smoke");
    assert_eq!(smoke.tags, vec!["publish", "smoke"]);
    assert_eq!(smoke.config.mode, BenchMode::Pub);
    assert_eq!(smoke.config.clients, 100);
    assert_eq!(smoke.config.port, 1883);

    let fanout = &templates[1];
    assert_eq!(fanout.config.mode, BenchMode::Sub);
    assert_eq!(fanout.config.topic, "velamq/bench/#");
    assert_eq!(fanout.config.duration_secs, 120);

    let ramp = &templates[2];
    assert_eq!(ramp.config.mode, BenchMode::Conn);
    assert_eq!((ramp.config.clients, ramp.config.connect_rate), (1000, 200));

    let latency = &templates[4];
    assert!(latency.config.payload_timestamp);
    assert_eq!(latency.config.sample_interval_ms, 500);

    let large = &templates[8];
    assert_eq!(large.config.payload_size, 65_536);
    assert!(!large.config.payload_timestamp);

    assert_eq!(templates[9].config.qos, QosLevel::Qos1);

    let mqtts = &templates[11];
    assert_eq!(mqtts.config.protocol, BrokerProtocol::Mqtts);
    assert_eq!(mqtts.config.port, 8883);
    assert_eq!(mqtts.config.websocket_path, None);
    assert_eq!(mqtts.tags, vec!["publish", "mqtts", "tls"]);

    let ws_sub = &templates[13];
    assert_eq!(ws_sub.config.protocol, BrokerProtocol::Ws);
    assert_eq!(ws_sub.config.port, 8083);
    assert_eq!(ws_sub.config.websocket_path.as_deref(), Some("/mqtt"));
    assert_eq!(ws_sub.config.mode, BenchMode::Sub);

    let wss = &templates[14];
    assert_eq!(wss.config.port, 8084);
    assert_eq!(wss.description, "Secure MQTT over WebSocket publish smoke test on the 8084 port.");
}
