use velamq_bench::bench::{check_can_start, check_stop, new_template, prepare_start_config};
use velamq_bench::model::legacy::TemplateDraft;
use velamq_bench::bench::create_specimen;
use velamq_bench::model::legacy::{SpecimenDraft, StartBenchRequest};
use velamq_bench::bench::{
    auto_bind_devices, broker_address_for_config, config_from_broker_profile, latency_between,
    latency_since, manual_bind_devices, network_bind_mode_label, status_name, NetworkBindingPlan,
};
use velamq_bench::model::broker::{
    AuthConfig, BrokerProfile, BrokerProtocol, MqttVersion, TlsConfig,
};
use velamq_bench::model::legacy::{BenchConfig, BenchStatus, NetworkBindMode, NetworkInterfaceInfo};
use velamq_bench::model::time::UtcTimestamp;
use velamq_bench::bench::{
    new_run_workload_id, scenario_workload_id, scenario_workload_total, ScenarioProgress,
};
use velamq_bench::model::run::RunStatus;
use velamq_bench::bench::{apply_workload_profiles, client_launch, revise_template};
use velamq_bench::bench::{clears_active_run, nanos_from_clock, run_deadline_secs};
use velamq_bench::bench::{connection_test_client_id, connection_test_result, ConnectAttempt};
use velamq_bench::model::payload::{PayloadKind, PayloadProfile};

fn iface(name: &str, addresses: &[&str], loopback: bool) -> NetworkInterfaceInfo {
    NetworkInterfaceInfo {
        name: name.to_string(),
        addresses: addresses.iter().map(|a| a.to_string()).collect(),
        loopback,
        bind_supported: true,
    }
}

#[test]
fn auto_binding_prefers_non_loopback_interfaces() {
    let interfaces = vec![iface("lo", &["127.0.0.1"], true), iface("eth0", &["10.0.0.2"], false)];
    assert_eq!(auto_bind_devices(interfaces), vec!["eth0".to_string()]);
    let only_loopback = vec![iface("lo", &["127.0.0.1"], true)];
    assert_eq!(auto_bind_devices(only_loopback), vec!["lo".to_string()]);
}

#[test]
fn manual_binding_resolves_names_and_addresses() {
    let interfaces = vec![iface("eth0", &["10.0.0.2"], false), iface("eth1", &["10.0.0.3"], false)];
    let entries = vec![
        "10.0.0.3".to_string(),
        "eth1".to_string(),
        "eth0".to_string(),
        "wlan9".to_string(),
        "wlan9".to_string(),
    ];
    assert_eq!(
        manual_bind_devices(&entries, interfaces),
        vec!["eth1".to_string(), "eth0".to_string(), "wlan9".to_string(), "wlan9".to_string()]
    );
}

#[test]
fn binding_plan_picks_devices_by_mode() {
    let interfaces = vec![iface("eth0", &[], false), iface("eth1", &[], false)];
    let config = BenchConfig { network_bind_mode: NetworkBindMode::AutoRoundRobin, ..BenchConfig::default() };
    let plan = NetworkBindingPlan::from_config(&config, interfaces.clone());
    assert!(plan.is_enabled());
    assert_eq!(plan.device_for("run", 5, 3).as_deref(), Some("eth1"));
    assert_eq!(plan.device_at(0, 4).as_deref(), Some("eth0"));

    let random = NetworkBindingPlan::from_config(
        &BenchConfig { network_bind_mode: NetworkBindMode::AutoRandom, ..BenchConfig::default() },
        interfaces.clone(),
    );
    assert_eq!(random.device_at(7, 0).as_deref(), Some("eth1"));
    let picked = random.device_for("run", 1, 0).unwrap();
    assert!(picked == "eth0" || picked == "eth1");

    let system = NetworkBindingPlan::from_config(&BenchConfig::default(), interfaces);
    assert!(!system.is_enabled());
    assert_eq!(system.device_for("run", 1, 0), None);
}

#[test]
fn broker_address_depends_on_protocol() {
    let tcp = BenchConfig { host: " broker ".to_string(), ..BenchConfig::default() };
    assert_eq!(broker_address_for_config(&tcp), " broker ");
    let ws = BenchConfig {
        protocol: BrokerProtocol::Ws,
        host: " broker ".to_string(),
        port: 8083,
        websocket_path: Some("mqtt".to_string()),
        ..BenchConfig::default()
    };
    assert_eq!(broker_address_for_config(&ws), "ws://broker:8083/mqtt");
    let v6 = BenchConfig {
        protocol: BrokerProtocol::Wss,
        host: "::1".to_string(),
        port: 8084,
        websocket_path: None,
        ..BenchConfig::default()
    };
    assert_eq!(broker_address_for_config(&v6), "wss://[::1]:8084/mqtt");
    let url = BenchConfig { protocol: BrokerProtocol::Ws, host: "ws://x/y".to_string(), ..BenchConfig::default() };
    assert_eq!(broker_address_for_config(&url), "ws://x/y");
}

#[test]
fn status_and_mode_labels() {
    assert_eq!(status_name(&BenchStatus::Stopping), "stopping");
    assert_eq!(status_name(&BenchStatus::Idle), "idle");
    assert_eq!(network_bind_mode_label(&NetworkBindMode::ManualRoundRobin), "manual_round_robin");
    assert_eq!(network_bind_mode_label(&NetworkBindMode::System), "system");
}

#[test]
fn latency_is_none_for_future_or_overflowing_stamps() {
    assert_eq!(latency_between(10, 3), Some(7));
    assert_eq!(latency_between(3, 10), None);
    assert_eq!(latency_between(i64::MAX, -1), None);
    assert_eq!(latency_between(0, 0), Some(0));
    assert_eq!(latency_since(i64::MAX), None);
    assert!(latency_since(0).is_some());
}

fn profile() -> BrokerProfile {
    let now = UtcTimestamp { secs: 1_700_000_000, nanos: 0 };
    BrokerProfile {
        id: "b1".to_string(),
        name: "broker".to_string(),
        protocol: BrokerProtocol::Mqtts,
        mqtt_version: MqttVersion::V5_0,
        host: "mq.example".to_string(),
        port: 0,
        websocket_path: Some("/ws".to_string()),
        tls: None,
        auth: Some(AuthConfig::ClientCert { cert_pem: "CERT".to_string(), key_pem: "KEY".to_string() }),
        keepalive_secs: 45,
        connection_timeout_secs: 12,
        clean_session: false,
        mqtt5: None,
        created_at: now,
        updated_at: now,
    }
}

#[test]
fn broker_profile_becomes_normalized_config() {
    let config = config_from_broker_profile(&profile());
    assert_eq!(config.protocol, BrokerProtocol::Mqtts);
    assert_eq!(config.mqtt_version, MqttVersion::V5_0);
    assert_eq!(config.host, "mq.example");
    assert_eq!(config.port, 8883);
    assert_eq!(config.websocket_path, None);
    assert_eq!(config.keepalive_secs, 45);
    assert_eq!(config.connection_timeout_secs, 12);
    assert!(!config.clean_session);
    let tls = config.tls.unwrap();
    assert!(tls.enabled);
    assert_eq!(tls.client_cert_pem.as_deref(), Some("CERT"));
    assert_eq!(tls.client_key_pem.as_deref(), Some("KEY"));

    let mut with_password = profile();
    with_password.auth = Some(AuthConfig::UserPassword { username: "u".into(), password: "p".into() });
    with_password.tls = Some(TlsConfig { server_name: Some("sni".into()), ..TlsConfig::default() });
    let config = config_from_broker_profile(&with_password);
    assert_eq!(config.username.as_deref(), Some("u"));
    assert_eq!(config.password.as_deref(), Some("p"));
    assert_eq!(config.tls.unwrap().server_name.as_deref(), Some("sni"));
}

#[test]
fn specimens_default_their_name_from_the_run() {
    let config = BenchConfig::default();
    let request = StartBenchRequest::default();
    let at = UtcTimestamp { secs: 1_700_000_000, nanos: 0 };
    let specimen = create_specimen("run-1".into(), config, request, at).unwrap();
    assert_eq!(specimen.name, "pub 127.0.0.1:1883 2023-11-14 22:13:20");
    assert_eq!(specimen.description, "");
    assert_eq!(specimen.run_id, "run-1");
    assert_eq!(specimen.id.len(), 36);

    let request = StartBenchRequest {
        config: BenchConfig::default(),
        specimen: SpecimenDraft { name: Some("x".repeat(121)), description: None, tags: vec![] },
    };
    let err = create_specimen("run-2".into(), BenchConfig::default(), request, at).unwrap_err();
    assert_eq!(err, "specimen name must be <= 120 characters");
}

#[test]
fn starting_and_stopping_follow_the_active_run() {
    assert_eq!(check_can_start(None, false), Ok(()));
    assert_eq!(check_can_start(Some("r1"), true), Ok(()));
    assert_eq!(check_can_start(Some("r1"), false), Err("benchmark r1 is already running".to_string()));
    assert_eq!(check_stop(None, None), Err("no benchmark is running".to_string()));
    assert_eq!(check_stop(Some("r1"), None), Ok(()));
    assert_eq!(check_stop(Some("r1"), Some("r1")), Ok(()));
    assert_eq!(check_stop(Some("r1"), Some("r2")), Err("run r2 is not active".to_string()));
}

#[test]
fn start_config_is_normalized_and_checked() {
    let config = prepare_start_config(BenchConfig { clients: 0, ..BenchConfig::default() }).unwrap();
    assert_eq!(config.clients, 1);
    let err = prepare_start_config(BenchConfig { keepalive_secs: 4000, ..BenchConfig::default() }).unwrap_err();
    assert_eq!(err, "keepalive_secs must be <= 3600");
}

#[test]
fn templates_get_a_default_name_and_fresh_id() {
    let at = UtcTimestamp { secs: 7, nanos: 0 };
    let template = new_template(TemplateDraft::default(), at).unwrap();
    assert_eq!(template.name, "Custom Template");
    assert_eq!(template.description, "");
    assert_eq!(template.id.len(), 36);
    assert_eq!(template.created_at, at);
    assert_eq!(template.updated_at, at);
    let bad = TemplateDraft { tags: vec!["t".repeat(65)], ..TemplateDraft::default() };
    assert_eq!(new_template(bad, at).unwrap_err(), "template tags must be <= 64 characters each");
}

#[test]
fn scenarios_need_a_workload() {
    assert_eq!(scenario_workload_total(&[2, 0, 3]), Ok(5));
    assert_eq!(
        scenario_workload_total(&[0, 0]),
        Err("scenario must contain at least one workload".to_string())
    );
    assert_eq!(
        scenario_workload_total(&[]),
        Err("scenario must contain at least one workload".to_string())
    );
}

#[test]
fn scenario_workload_ids() {
    assert_eq!(scenario_workload_id("wl-1"), "wl-1");
    assert_eq!(scenario_workload_id("  ").len(), 36);
    let id = new_run_workload_id();
    assert!(id.starts_with("rw-"));
    assert_eq!(id.len(), 39);
    assert_ne!(new_run_workload_id(), id);
}

#[test]
fn scenario_stages_stop_on_request_or_a_stopped_workload() {
    let mut p = ScenarioProgress::new();
    assert!(p.begin_stage(false));
    assert!(p.after_sequential_workload(BenchStatus::Completed));
    p.after_parallel_stage(&[BenchStatus::Completed, BenchStatus::Completed]);
    assert_eq!(p.status, BenchStatus::Completed);
    assert_eq!(p.run_status(), RunStatus::Completed);

    p.after_parallel_stage(&[BenchStatus::Completed, BenchStatus::Stopped]);
    assert_eq!(p.status, BenchStatus::Stopped);
    assert_eq!(p.run_status(), RunStatus::Stopped);

    let mut q = ScenarioProgress::new();
    assert!(!q.after_sequential_workload(BenchStatus::Stopped));
    assert_eq!(q.status, BenchStatus::Stopped);

    let mut r = ScenarioProgress::new();
    assert!(!r.begin_stage(true));
    assert_eq!(r.run_status(), RunStatus::Stopped);

    let failed = ScenarioProgress { status: BenchStatus::Failed };
    assert_eq!(failed.run_status(), RunStatus::Failed);
}

#[test]
fn workload_profiles_override_the_flattened_config() {
    let mut config = BenchConfig::default();
    let mut broker = profile();
    broker.host = "broker.example".into();
    broker.port = 8883;
    broker.protocol = BrokerProtocol::Mqtts;
    broker.keepalive_secs = 45;
    broker.clean_session = false;
    broker.auth = Some(AuthConfig::UserPassword { username: "u".into(), password: "p".into() });
    let payload = PayloadProfile {
        id: "p1".into(),
        name: "big".into(),
        kind: PayloadKind::FixedBytes { size: 4096, with_timestamp: false },
        created_at: UtcTimestamp { secs: 0, nanos: 0 },
        updated_at: UtcTimestamp { secs: 0, nanos: 0 },
    };
    apply_workload_profiles(&mut config, Some(&broker), Some(&payload));
    assert_eq!(config.host, "broker.example");
    assert_eq!(config.port, 8883);
    assert_eq!(config.protocol, BrokerProtocol::Mqtts);
    assert_eq!(config.keepalive_secs, 45);
    assert!(!config.clean_session);
    assert_eq!(config.username.as_deref(), Some("u"));
    assert_eq!(config.password.as_deref(), Some("p"));
    assert_eq!(config.payload_size, 4096);
    assert!(!config.payload_timestamp);
    assert_eq!(config.clients, 100);

    let mut untouched = BenchConfig::default();
    let counter = PayloadProfile { kind: PayloadKind::Counter { width: 8 }, ..payload };
    apply_workload_profiles(&mut untouched, None, Some(&counter));
    assert_eq!(untouched.host, "127.0.0.1");
    assert_eq!(untouched.payload_size, 256);
    assert!(untouched.payload_timestamp);
}

#[test]
fn clients_are_numbered_from_the_start_number_and_bound_in_turn() {
    let config = BenchConfig { start_number: 10, ..BenchConfig::default() };
    let system = NetworkBindingPlan { mode: NetworkBindMode::System, devices: Vec::new() };
    assert_eq!(client_launch(&config, &system, "run", 0), (10, None));
    assert_eq!(client_launch(&config, &system, "run", 5), (15, None));
    let round_robin = NetworkBindingPlan {
        mode: NetworkBindMode::ManualRoundRobin,
        devices: vec!["eth0".to_string(), "eth1".to_string()],
    };
    assert_eq!(client_launch(&config, &round_robin, "run", 0), (10, Some("eth0".to_string())));
    assert_eq!(client_launch(&config, &round_robin, "run", 3), (13, Some("eth1".to_string())));
    let random = NetworkBindingPlan {
        mode: NetworkBindMode::AutoRandom,
        devices: vec!["a".to_string(), "b".to_string()],
    };
    let (n, device) = client_launch(&config, &random, "run", 1);
    assert_eq!(n, 11);
    assert!(matches!(device.as_deref(), Some("a") | Some("b")));
}

#[test]
fn templates_are_revised_in_place() {
    let created = UtcTimestamp { secs: 1, nanos: 0 };
    let mut template = new_template(TemplateDraft::default(), created).unwrap();
    let id = template.id.clone();
    let later = UtcTimestamp { secs: 2, nanos: 0 };
    let draft = TemplateDraft {
        name: Some(" Soak ".into()),
        description: Some("long".into()),
        tags: vec![" a ".into(), "".into()],
        config: BenchConfig { clients: 0, ..BenchConfig::default() },
    };
    assert_eq!(revise_template(&mut template, draft, later), Ok(()));
    assert_eq!(template.id, id);
    assert_eq!(template.created_at, created);
    assert_eq!(template.updated_at, later);
    assert_eq!(template.name, "Soak");
    assert_eq!(template.description, "long");
    assert_eq!(template.tags, vec!["a".to_string()]);
    assert_eq!(template.config.clients, 1);

    let bad = TemplateDraft { tags: vec!["t".repeat(65)], ..TemplateDraft::default() };
    assert!(revise_template(&mut template, bad, UtcTimestamp { secs: 3, nanos: 0 }).is_err());
    assert_eq!(template.updated_at, later);
    assert_eq!(template.name, "Soak");
}

#[test]
fn connection_tests_report_the_profile_and_the_outcome() {
    let p = profile();
    let ok = connection_test_result(&p, 12, 40, ConnectAttempt::Connected);
    assert!(ok.ok);
    assert_eq!((ok.profile_id.as_str(), ok.host.as_str(), ok.port, ok.elapsed_ms), ("b1", "mq.example", 0, 40));
    assert_eq!(ok.error, None);
    let failed = connection_test_result(&p, 12, 5, ConnectAttempt::Failed("refused".into()));
    assert!(!failed.ok);
    assert_eq!(failed.error.as_deref(), Some("refused"));
    let slow = connection_test_result(&p, 12, 12_000, ConnectAttempt::TimedOut);
    assert!(!slow.ok);
    assert_eq!(slow.error.as_deref(), Some("connection timed out after 12s"));
    let id = connection_test_client_id();
    assert!(id.starts_with("velamq-test-"));
    assert_eq!(id.len(), 48);
}

#[test]
fn clock_readings_become_nanoseconds() {
    assert_eq!(nanos_from_clock(Some(123), 999), 123);
    assert_eq!(nanos_from_clock(None, 5), 5_000);
    assert_eq!(nanos_from_clock(None, -5), -5_000);
    assert_eq!(nanos_from_clock(None, i64::MAX / 1000 + 1), i64::MAX);
    assert_eq!(nanos_from_clock(None, i64::MIN / 1000 - 1), i64::MIN);
    assert_eq!(nanos_from_clock(None, i64::MAX / 1000), (i64::MAX / 1000) * 1000);
}

#[test]
fn run_loop_decisions() {
    assert_eq!(run_deadline_secs(&BenchConfig { duration_secs: 0, ..BenchConfig::default() }), None);
    assert_eq!(run_deadline_secs(&BenchConfig { duration_secs: 30, ..BenchConfig::default() }), Some(30));
    assert!(clears_active_run(Some("run-1"), "run-1"));
    assert!(!clears_active_run(Some("run-2"), "run-1"));
    assert!(!clears_active_run(None, "run-1"));
}

use velamq_bench::bench::{
    plan_scenario_run, scenario_specimen, start_scenario_run, ScenarioOutline, StageOutline,
    WorkloadOutline,
};
use velamq_bench::model::workload::WorkloadKind;

fn outline(stages: Vec<StageOutline>) -> ScenarioOutline {
    ScenarioOutline {
        id: "sc-1".to_string(),
        name: "steady".to_string(),
        description: "two stages".to_string(),
        tags: vec!["nightly".to_string()],
        stages,
    }
}

fn workload(id: &str, kind: WorkloadKind) -> WorkloadOutline {
    WorkloadOutline { id: id.to_string(), kind, clients: 10, start_number: 1 }
}

fn strings(v: &[&str]) -> Vec<String> {
    v.iter().map(|s| s.to_string()).collect()
}

#[test]
fn scenario_run_lists_workloads_in_stage_order() {
    let scenario = outline(vec![
        StageOutline {
            parallel: true,
            workloads: vec![workload("subs", WorkloadKind::Sub), workload("  ", WorkloadKind::Pub)],
        },
        StageOutline { parallel: false, workloads: vec![workload("conns", WorkloadKind::Conn)] },
    ]);
    let at = UtcTimestamp { secs: 1_700_000_000, nanos: 5 };
    let run = plan_scenario_run(
        &scenario,
        true,
        "run-9".to_string(),
        strings(&["f0", "f1", "f2"]),
        strings(&["rw-a", "rw-b", "rw-c"]),
        strings(&["{\"a\":1}", "{\"b\":2}", "{\"c\":3}"]),
        at,
    )
    .unwrap();
    assert_eq!(run.id, "run-9");
    assert_eq!(run.scenario_id.as_deref(), Some("sc-1"));
    assert_eq!(run.name, "steady");
    assert_eq!(run.description, "two stages");
    assert_eq!(run.tags, vec!["nightly".to_string()]);
    assert_eq!(run.status, RunStatus::Running);
    assert_eq!(run.started_at, at);
    assert!(run.stopped_at.is_none());
    assert!(run.baseline_of_scenario_id.is_none());
    let ids: Vec<&str> = run.workloads.iter().map(|w| w.workload_id.as_str()).collect();
    assert_eq!(ids, vec!["subs", "f1", "conns"]);
    let rw: Vec<&str> = run.workloads.iter().map(|w| w.id.as_str()).collect();
    assert_eq!(rw, vec!["rw-a", "rw-b", "rw-c"]);
    let kinds: Vec<WorkloadKind> = run.workloads.iter().map(|w| w.kind).collect();
    assert_eq!(kinds, vec![WorkloadKind::Sub, WorkloadKind::Pub, WorkloadKind::Conn]);
    assert!(run.workloads.iter().all(|w| w.run_id == "run-9"));
    assert_eq!(run.workloads[2].config_snapshot_json, "{\"c\":3}");
}

#[test]
fn ad_hoc_scenario_run_is_not_bound_to_the_scenario() {
    let scenario = outline(vec![StageOutline {
        parallel: false,
        workloads: vec![workload("only", WorkloadKind::Pub)],
    }]);
    let at = UtcTimestamp { secs: 3, nanos: 0 };
    let run = plan_scenario_run(
        &scenario,
        false,
        "run-1".to_string(),
        strings(&["fresh"]),
        strings(&["rw-1"]),
        strings(&["{}"]),
        at,
    )
    .unwrap();
    assert!(run.scenario_id.is_none());
    assert_eq!(run.workloads.len(), 1);
    assert_eq!(run.workloads[0].workload_id, "only");
}

#[test]
fn scenario_run_without_workloads_is_refused() {
    let scenario = outline(vec![StageOutline { parallel: true, workloads: vec![] }]);
    let at = UtcTimestamp { secs: 3, nanos: 0 };
    let err = plan_scenario_run(&scenario, true, "run-1".to_string(), vec![], vec![], vec![], at)
        .unwrap_err();
    assert_eq!(err, "scenario must contain at least one workload");
    let err = plan_scenario_run(&outline(vec![]), true, "run-1".to_string(), vec![], vec![], vec![], at)
        .unwrap_err();
    assert_eq!(err, "scenario must contain at least one workload");
}

#[test]
fn scenario_specimen_takes_the_scenario_details() {
    let scenario = outline(vec![]);
    let at = UtcTimestamp { secs: 11, nanos: 0 };
    let mut config = BenchConfig::default();
    config.clients = 7;
    let s = scenario_specimen(&scenario, "sp-1".to_string(), "run-2".to_string(), Some(config), at);
    assert_eq!(s.id, "sp-1");
    assert_eq!(s.run_id, "run-2");
    assert_eq!(s.name, "steady");
    assert_eq!(s.description, "two stages");
    assert_eq!(s.tags, vec!["nightly".to_string()]);
    assert_eq!(s.config.clients, 7);
    assert_eq!(s.created_at, at);
    let s = scenario_specimen(&scenario, "sp-2".to_string(), "run-2".to_string(), None, at);
    assert_eq!(s.config.clients, BenchConfig::default().clients);
}

#[test]
fn started_scenario_run_gets_fresh_ids() {
    let scenario = outline(vec![StageOutline {
        parallel: false,
        workloads: vec![workload("keep", WorkloadKind::Pub), workload("", WorkloadKind::Sub)],
    }]);
    let run = start_scenario_run(&scenario, true, strings(&["{}", "{\"x\":1}"])).unwrap();
    assert_eq!(run.id.len(), 36);
    assert_eq!(run.status, RunStatus::Running);
    assert_eq!(run.workloads.len(), 2);
    assert_eq!(run.workloads[0].workload_id, "keep");
    assert_eq!(run.workloads[1].workload_id.len(), 36);
    assert!(run.workloads.iter().all(|w| w.run_id == run.id && w.id.starts_with("rw-")));
    assert_ne!(run.workloads[0].id, run.workloads[1].id);
    assert_eq!(run.workloads[1].config_snapshot_json, "{\"x\":1}");
    let empty = outline(vec![]);
    assert_eq!(
        start_scenario_run(&empty, false, vec![]).unwrap_err(),
        "scenario must contain at least one workload"
    );
}

#[test]
fn workload_total_counts_what_a_scenario_run_lists() {
    let scenario = outline(vec![
        StageOutline {
            parallel: true,
            workloads: vec![workload("a", WorkloadKind::Pub), workload("b", WorkloadKind::Sub)],
        },
        StageOutline { parallel: false, workloads: vec![workload("c", WorkloadKind::Conn)] },
    ]);
    let sizes: Vec<usize> = scenario.stages.iter().map(|s| s.workloads.len()).collect();
    let total = scenario_workload_total(&sizes).unwrap();
    let at = UtcTimestamp { secs: 1, nanos: 0 };
    let ids = strings(&["x", "y", "z"]);
    let run = plan_scenario_run(&scenario, false, "r".to_string(), ids.clone(), ids.clone(), ids, at)
        .unwrap();
    assert_eq!(run.workloads.len(), total);
    assert_eq!(scenario_workload_total(&[0, 0]).unwrap_err(), "scenario must contain at least one workload");
}
