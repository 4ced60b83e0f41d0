use velamq_bench::agent::{TelemetryBatch, TelemetryEvent, TelemetryStep};
use velamq_bench::agent::{
    agent_capabilities, agent_labels, agent_max_clients, control_url, default_agent_name,
    registration_token, DEFAULT_AGENT_MAX_CLIENTS,
};

#[test]
fn control_url_is_required_and_loses_trailing_slashes() {
    assert_eq!(control_url(Some("http://cp:8080///")), Ok("http://cp:8080".to_string()));
    assert_eq!(control_url(Some("http://cp/api")), Ok("http://cp/api".to_string()));
    assert_eq!(control_url(Some("///")), Ok(String::new()));
    assert_eq!(control_url(None), Err("VELAMQ_CONTROL_URL is required".to_string()));
}

#[test]
fn labels_are_split_on_commas_trimmed_and_kept_when_not_empty() {
    assert_eq!(agent_labels(""), Vec::<String>::new());
    assert_eq!(agent_labels(" zone=a , ,gpu,"), vec!["zone=a".to_string(), "gpu".to_string()]);
    assert_eq!(agent_labels("a,a"), vec!["a".to_string(), "a".to_string()]);
    assert_eq!(agent_labels(" x y "), vec!["x y".to_string()]);
}

#[test]
fn max_clients_falls_back_to_the_default() {
    assert_eq!(DEFAULT_AGENT_MAX_CLIENTS, 50_000);
    assert_eq!(agent_max_clients(None), 50_000);
    assert_eq!(agent_max_clients(Some("1200")), 1200);
    assert_eq!(agent_max_clients(Some("+7")), 7);
    assert_eq!(agent_max_clients(Some(" 7")), 50_000);
    assert_eq!(agent_max_clients(Some("-1")), 50_000);
    assert_eq!(agent_max_clients(Some("18446744073709551615")), u64::MAX);
    assert_eq!(agent_max_clients(Some("18446744073709551616")), 50_000);
}

#[test]
fn agent_name_prefers_the_host_name() {
    assert_eq!(default_agent_name(Some("h1".into()), Some("c1".into())), "h1");
    assert_eq!(default_agent_name(None, Some("c1".into())), "c1");
    let generated = default_agent_name(None, None);
    assert!(generated.starts_with("velamq-bench-agent-"));
    assert_eq!(generated.len(), "velamq-bench-agent-".len() + 32);
    assert!(generated["velamq-bench-agent-".len()..].chars().all(|c| c.is_ascii_hexdigit()));
}

#[test]
fn capabilities_describe_the_host() {
    let caps = agent_capabilities("linux", "x86_64", "0.1.0", Some(8), 1000);
    assert_eq!(caps.os, "linux");
    assert_eq!(caps.arch, "x86_64");
    assert_eq!(caps.version, "0.1.0");
    assert_eq!(caps.cpu_cores, 8);
    assert_eq!(caps.memory_bytes, 0);
    assert_eq!(caps.max_clients, 1000);
    assert_eq!(caps.features, vec!["mqtt3", "mqtt5", "tls", "websocket"]);
    assert_eq!(agent_capabilities("l", "a", "v", None, 1).cpu_cores, 1);
}

#[test]
fn first_registration_needs_a_bootstrap_token() {
    assert_eq!(registration_token(Some("boot")), Ok("boot".to_string()));
    assert_eq!(
        registration_token(None),
        Err("VELAMQ_BENCH_AGENT_BOOTSTRAP_TOKEN is required for first registration".to_string())
    );
}

#[test]
fn telemetry_drains_number_events_and_stop_when_full_or_empty() {
    let mut b = TelemetryBatch::start(7, 0);
    assert!(b.wants_more());
    assert_eq!(b.on_event(TelemetryEvent::Metric), TelemetryStep::StoreMetric(8));
    assert_eq!(b.on_event(TelemetryEvent::Log), TelemetryStep::StoreLog(1));
    assert_eq!(b.on_event(TelemetryEvent::Other), TelemetryStep::Skip);
    assert_eq!(b.on_event(TelemetryEvent::Lagged), TelemetryStep::Skip);
    assert_eq!(b.on_event(TelemetryEvent::Metric), TelemetryStep::StoreMetric(9));
    assert_eq!((b.metrics, b.logs, b.metric_sequence, b.log_sequence), (2, 1, 9, 1));
    assert_eq!(b.on_event(TelemetryEvent::Empty), TelemetryStep::Stop);
    assert_eq!(b.on_event(TelemetryEvent::Closed), TelemetryStep::Stop);

    let mut full = TelemetryBatch::start(0, 0);
    let mut stored = 0;
    while full.wants_more() {
        if let TelemetryStep::StoreMetric(n) = full.on_event(TelemetryEvent::Metric) {
            stored += 1;
            assert_eq!(n, stored);
        }
    }
    assert_eq!(full.metrics, 500);
    assert_eq!(stored, 500);
}
