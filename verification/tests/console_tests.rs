use velamq_bench::console::{complete_annotation, complete_annotation_with};
use velamq_bench::console::{rename_scenario, rename_scenario_with};
use velamq_bench::model::run::{Annotation, AnnotationCategory};
use velamq_bench::console::{check_agent_headers, deprecation_headers, AgentRequestError};
use velamq_bench::console::{
    bearer_from_authorization, complete_broker_profile, complete_payload_profile, csv_escape,
    imported_name, normalize_broker_profile, normalize_payload_profile,
    protocol_version_supported, push_summary_row, rename_broker_profile,
    rename_broker_profile_with, rename_payload_profile, rename_payload_profile_with, BundleConflict,
};
use velamq_bench::model::broker::{BrokerProfile, BrokerProtocol, Mqtt5Config, MqttVersion, TlsConfig};
use velamq_bench::model::payload::{PayloadKind, PayloadProfile};
use velamq_bench::model::time::UtcTimestamp;

#[test]
fn bundle_conflict_defaults_to_skip() {
    assert_eq!(BundleConflict::parse(None), Some(BundleConflict::Skip));
    assert_eq!(BundleConflict::parse(Some("rename")), Some(BundleConflict::Rename));
    assert_eq!(BundleConflict::parse(Some("overwrite")), Some(BundleConflict::Overwrite));
    assert_eq!(BundleConflict::parse(Some("Skip")), None);
}

#[test]
fn imported_names_keep_eight_bytes_of_the_id() {
    assert_eq!(imported_name("Broker", "0123456789abcdef"), "Broker (imported 01234567)");
    assert_eq!(imported_name("B", "abc"), "B (imported abc)");
    assert_eq!(imported_name("B", "ééééé"), "B (imported éééé)");
}

#[test]
fn csv_cells_are_quoted_when_needed() {
    assert_eq!(csv_escape("plain"), "plain");
    assert_eq!(csv_escape("a,b"), "\"a,b\"");
    assert_eq!(csv_escape("say \"hi\""), "\"say \"\"hi\"\"\"");
    assert_eq!(csv_escape("line\nbreak"), "\"line\nbreak\"");
    assert_eq!(csv_escape(""), "");
}

#[test]
fn summary_rows_pad_the_snapshot_columns() {
    let mut csv = String::from("header\n");
    push_summary_row(&mut csv, "run-1", "status", "completed");
    assert_eq!(csv, format!("header\nsummary,status,completed,run-1{}\n", ",".repeat(19)));
    let mut csv = String::new();
    push_summary_row(&mut csv, "r", "tags", "a,b");
    assert_eq!(csv, format!("summary,tags,\"a,b\",r{}\n", ",".repeat(19)));
}

#[test]
fn bearer_tokens_need_the_scheme_and_a_value() {
    assert_eq!(bearer_from_authorization("Bearer abc").as_deref(), Some("abc"));
    assert_eq!(bearer_from_authorization("Bearer "), None);
    assert_eq!(bearer_from_authorization("bearer abc"), None);
    assert_eq!(bearer_from_authorization("Basic abc"), None);
}

#[test]
fn protocol_version_must_be_current() {
    assert!(protocol_version_supported(Some("1")));
    assert!(protocol_version_supported(Some("+1")));
    assert!(!protocol_version_supported(Some("2")));
    assert!(!protocol_version_supported(Some("one")));
    assert!(!protocol_version_supported(None));
}

fn blank_profile() -> BrokerProfile {
    BrokerProfile {
        id: " ".to_string(),
        name: String::new(),
        protocol: BrokerProtocol::Ws,
        mqtt_version: MqttVersion::V5_0,
        host: String::new(),
        port: 0,
        websocket_path: None,
        tls: Some(TlsConfig::default()),
        auth: None,
        keepalive_secs: 0,
        connection_timeout_secs: 0,
        clean_session: true,
        mqtt5: None,
        created_at: UtcTimestamp { secs: 0, nanos: 0 },
        updated_at: UtcTimestamp { secs: 0, nanos: 0 },
    }
}

#[test]
fn broker_profiles_are_completed_before_saving() {
    let now = UtcTimestamp { secs: 1_700_000_000, nanos: 5 };
    let mut profile = blank_profile();
    complete_broker_profile(&mut profile, None, "fresh-id".to_string(), now);
    assert_eq!(profile.id, "fresh-id");
    assert_eq!(profile.host, "127.0.0.1");
    assert_eq!(profile.port, 8083);
    assert_eq!(profile.websocket_path.as_deref(), Some("/mqtt"));
    assert_eq!(profile.name, "ws://127.0.0.1:8083");
    assert_eq!(profile.keepalive_secs, 30);
    assert_eq!(profile.connection_timeout_secs, 10);
    assert_eq!(profile.mqtt5, Some(Mqtt5Config::default()));
    assert!(profile.tls.is_none());
    assert_eq!(profile.created_at, now);
    assert_eq!(profile.updated_at, now);

    let mut named = blank_profile();
    named.name = "mine".into();
    named.created_at = UtcTimestamp { secs: 5, nanos: 0 };
    named.protocol = BrokerProtocol::Wss;
    complete_broker_profile(&mut named, Some("given".into()), "fresh".into(), now);
    assert_eq!(named.id, "given");
    assert_eq!(named.name, "mine");
    assert!(named.tls.is_some());
    assert_eq!(named.created_at, UtcTimestamp { secs: 5, nanos: 0 });

    let mut random = blank_profile();
    normalize_broker_profile(&mut random, None);
    assert_eq!(random.id.len(), 36);
}

#[test]
fn payload_profiles_are_completed_before_saving() {
    let now = UtcTimestamp { secs: 9, nanos: 0 };
    let mut profile = PayloadProfile {
        id: String::new(),
        name: "  ".into(),
        kind: PayloadKind::default(),
        created_at: UtcTimestamp { secs: 0, nanos: 0 },
        updated_at: UtcTimestamp { secs: 0, nanos: 0 },
    };
    complete_payload_profile(&mut profile, None, "p-1".into(), now);
    assert_eq!(profile.id, "p-1");
    assert_eq!(profile.name, "Payload Profile");
    assert_eq!(profile.created_at, now);
    normalize_payload_profile(&mut profile, Some("x".into()));
    assert_eq!(profile.id, "x");
    assert_eq!(profile.created_at, now);
}

#[test]
fn imported_profiles_are_renamed_on_conflict() {
    let now = UtcTimestamp { secs: 77, nanos: 1 };
    let mut broker = blank_profile();
    broker.name = "Edge".into();
    rename_broker_profile_with(&mut broker, "0123456789", "uuid".into(), now);
    assert_eq!(broker.id, "broker-uuid");
    assert_eq!(broker.name, "Edge (imported 01234567)");
    assert_eq!(broker.created_at, now);
    assert_eq!(broker.updated_at, now);
    assert_eq!(broker.protocol, BrokerProtocol::Ws);
    assert_eq!(broker.port, 0);

    let mut fresh = blank_profile();
    rename_broker_profile(&mut fresh, "abc");
    assert!(fresh.id.starts_with("broker-"));
    assert_eq!(fresh.id.len(), "broker-".len() + 36);
    assert_eq!(fresh.name, " (imported abc)");

    let mut payload = PayloadProfile {
        id: "p".into(),
        name: "Small".into(),
        kind: PayloadKind::default(),
        created_at: UtcTimestamp { secs: 1, nanos: 0 },
        updated_at: UtcTimestamp { secs: 2, nanos: 0 },
    };
    rename_payload_profile_with(&mut payload, "p", "u-1".into(), now);
    assert_eq!(payload.id, "payload-u-1");
    assert_eq!(payload.name, "Small (imported p)");
    assert_eq!(payload.created_at, now);
    assert_eq!(payload.updated_at, now);
    rename_payload_profile(&mut payload, "payload-u-1");
    assert!(payload.id.starts_with("payload-"));
    assert_eq!(payload.name, "Small (imported p) (imported payload-)");
}

#[test]
fn agent_requests_need_the_protocol_and_a_token() {
    assert_eq!(check_agent_headers(Some("1"), Some("Bearer tok")), Ok("tok".to_string()));
    assert_eq!(
        check_agent_headers(Some("2"), Some("Bearer tok")),
        Err(AgentRequestError::UnsupportedProtocol("unsupported agent protocol; expected 1".to_string()))
    );
    assert_eq!(
        check_agent_headers(None, None),
        Err(AgentRequestError::UnsupportedProtocol("unsupported agent protocol; expected 1".to_string()))
    );
    assert_eq!(
        check_agent_headers(Some("1"), Some("Basic abc")),
        Err(AgentRequestError::MissingToken("missing agent token".to_string()))
    );
    assert_eq!(
        check_agent_headers(Some("1"), None),
        Err(AgentRequestError::MissingToken("missing agent token".to_string()))
    );
}

#[test]
fn legacy_responses_carry_deprecation_headers() {
    assert_eq!(
        deprecation_headers(),
        vec![
            ("deprecation", "true"),
            ("sunset", "Sat, 01 Aug 2026 00:00:00 GMT"),
            ("link", "</api/v2/runs>; rel=\"successor-version\""),
        ]
    );
}

#[test]
fn posted_annotations_are_completed() {
    let posted = Annotation {
        id: "  ".into(),
        run_id: "other".into(),
        run_workload_id: None,
        ts: UtcTimestamp { secs: 3, nanos: 0 },
        category: AnnotationCategory::SlaBreach,
        title: String::new(),
        detail: "p99 over budget".into(),
    };
    let mut a = posted.clone();
    complete_annotation_with(&mut a, "run-1", "fresh".into());
    assert_eq!(a.id, "fresh");
    assert_eq!(a.run_id, "run-1");
    assert_eq!(a.title, "Annotation");
    assert_eq!(a.detail, "p99 over budget");
    assert_eq!(a.category, AnnotationCategory::SlaBreach);

    let mut kept = Annotation { id: "an-7".into(), title: " Spike ".into(), ..posted };
    complete_annotation(&mut kept, "run-2");
    assert_eq!(kept.id, "an-7");
    assert_eq!(kept.title, " Spike ");
    assert_eq!(kept.run_id, "run-2");

    let mut generated = Annotation { id: String::new(), ..kept };
    complete_annotation(&mut generated, "run-2");
    assert_eq!(generated.id.len(), 36);
}

#[test]
fn imported_scenarios_are_renamed_on_conflict() {
    let now = UtcTimestamp { secs: 50, nanos: 0 };
    let mut id = "sc-123456789".to_string();
    let mut name = "Soak".to_string();
    let mut created = UtcTimestamp { secs: 1, nanos: 0 };
    let mut updated = UtcTimestamp { secs: 2, nanos: 0 };
    rename_scenario_with(&mut id, &mut name, &mut created, &mut updated, "sc-123456789", "u".into(), now);
    assert_eq!(id, "scenario-u");
    assert_eq!(name, "Soak (imported sc-12345)");
    assert_eq!((created, updated), (now, now));
    rename_scenario(&mut id, &mut name, &mut created, &mut updated, "ab");
    assert!(id.starts_with("scenario-"));
    assert_eq!(id.len(), 45);
    assert_eq!(name, "Soak (imported sc-12345) (imported ab)");
    assert_eq!(created, updated);
}
