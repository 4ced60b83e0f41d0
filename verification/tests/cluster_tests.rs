use velamq_bench::cluster::{agent_token_matches, check_agent_token, new_agent_token};
use velamq_bench::cluster::{
    node_scenario_id, node_scenario_name, pick_broker_profiles, pick_payload_profiles,
    prepare_required_labels, task_idempotency_key,
};
use velamq_bench::model::broker::{BrokerProfile, BrokerProtocol, MqttVersion};
use velamq_bench::model::payload::{PayloadKind, PayloadProfile};
use velamq_bench::cluster::{check_log_batch, check_metric_batch, check_task_node};
use velamq_bench::allocation::allocate_clients;
use velamq_bench::cluster::{
    constant_time_equal, histogram_bound_at, plan_node_tasks, select_run_nodes, slice_scenario,
    slice_workload_clients, token_hash, ClientSlice,
};
use velamq_bench::bench::{ScenarioOutline, StageOutline, WorkloadOutline};
use velamq_bench::model::workload::WorkloadKind;
use velamq_bench::model::cluster::{
    AgentCapabilities, AgentNode, AgentStatus, DistributedRunCreate, SchedulingStrategy,
};
use velamq_bench::model::time::UtcTimestamp;
use velamq_bench::runtime::sampler::LatencyBucket;

fn node(id: &str, capacity: u64) -> AgentNode {
    let now = UtcTimestamp { secs: 1_700_000_000, nanos: 0 };
    AgentNode {
        id: id.to_string(),
        instance_id: format!("instance-{id}"),
        name: id.to_string(),
        status: AgentStatus::Online,
        enabled: true,
        draining: false,
        labels: Vec::new(),
        capabilities: AgentCapabilities { max_clients: capacity, ..Default::default() },
        current_task_id: None,
        last_seen_at: now,
        created_at: now,
        updated_at: now,
    }
}

#[test]
fn token_hash_is_stable_and_not_plaintext() {
    assert_eq!(token_hash("secret"), token_hash("secret"));
    assert_ne!(token_hash("secret"), "secret");
    assert_ne!(token_hash("secret"), token_hash("other"));
}

#[test]
fn token_hash_is_lowercase_hex_sha256() {
    assert_eq!(
        token_hash(""),
        "e3b0c44298fc1c149afbf4c8996fb92427ae41e4649b934ca495991b7852b855"
    );
    assert_eq!(
        token_hash("abc"),
        "ba7816bf8f01cfea414140de5dae2223b00361a396177a9cb410ff61f20015ad"
    );
}

#[test]
fn constant_time_comparison_checks_length_and_content() {
    assert!(constant_time_equal(b"abc", b"abc"));
    assert!(!constant_time_equal(b"abc", b"abd"));
    assert!(!constant_time_equal(b"abc", b"ab"));
}

#[test]
fn even_allocation_preserves_total_and_is_deterministic() {
    let nodes = vec![node("a", 1), node("b", 1), node("c", 1)];
    assert_eq!(
        allocate_clients(1001, &nodes, &SchedulingStrategy::Even),
        vec![334, 334, 333]
    );
}

#[test]
fn capacity_allocation_uses_largest_remainder() {
    let nodes = vec![node("a", 1), node("b", 3), node("c", 6)];
    let shares = allocate_clients(1001, &nodes, &SchedulingStrategy::CapacityWeighted);
    assert_eq!(shares.iter().sum::<u64>(), 1001);
    assert_eq!(shares, vec![100, 300, 601]);
}

#[test]
fn allocation_over_no_nodes_is_empty() {
    assert!(allocate_clients(10, &[], &SchedulingStrategy::Even).is_empty());
}

#[test]
fn scenario_slices_use_non_overlapping_client_ranges() {
    let nodes = vec![node("a", 1), node("b", 1), node("c", 1)];
    let scenario = ScenarioOutline {
        id: "scenario".to_string(),
        name: "distributed".to_string(),
        description: String::new(),
        tags: vec![],
        stages: vec![StageOutline {
            parallel: true,
            workloads: vec![WorkloadOutline {
                id: String::new(),
                kind: WorkloadKind::Pub,
                clients: 10,
                start_number: 50,
            }],
        }],
    };
    let slices = (0..3)
        .map(|index| slice_scenario(&scenario, &nodes, &SchedulingStrategy::Even, index))
        .collect::<Vec<_>>();
    let workloads = slices.iter().map(|s| s.stages[0].workloads[0].1).collect::<Vec<_>>();
    assert_eq!(workloads.iter().map(|w| w.clients).sum::<u64>(), 10);
    assert_eq!(workloads.iter().map(|w| w.start_number).collect::<Vec<_>>(), vec![50, 54, 57]);
    assert!(slices.iter().all(|s| s.stages[0].parallel && s.stages[0].workloads[0].0 == 0));
}

#[test]
fn scenario_slice_is_named_after_the_node_and_drops_empty_shares() {
    let nodes = vec![node("a", 1), node("b", 1), node("c", 1)];
    let workload = |clients: u64| WorkloadOutline {
        id: "w".to_string(),
        kind: WorkloadKind::Sub,
        clients,
        start_number: 1,
    };
    let scenario = ScenarioOutline {
        id: "sc".to_string(),
        name: "mixed".to_string(),
        description: String::new(),
        tags: vec![],
        stages: vec![
            StageOutline { parallel: false, workloads: vec![workload(1), workload(6)] },
            StageOutline { parallel: true, workloads: vec![workload(2)] },
        ],
    };
    let third = slice_scenario(&scenario, &nodes, &SchedulingStrategy::Even, 2);
    assert_eq!(third.id, "sc-node-3");
    assert_eq!(third.name, format!("mixed \u{b7} {}", nodes[2].name));
    assert_eq!(third.stages.len(), 2);
    assert!(!third.stages[0].parallel);
    assert_eq!(third.stages[0].workloads, vec![(1, ClientSlice { clients: 2, start_number: 5 })]);
    assert!(third.stages[1].parallel);
    assert!(third.stages[1].workloads.is_empty());
    let first = slice_scenario(&scenario, &nodes, &SchedulingStrategy::Even, 0);
    assert_eq!(first.id, "sc-node-1");
    assert_eq!(
        first.stages[0].workloads,
        vec![
            (0, ClientSlice { clients: 1, start_number: 1 }),
            (1, ClientSlice { clients: 2, start_number: 1 }),
        ]
    );
    assert_eq!(first.stages[1].workloads, vec![(0, ClientSlice { clients: 1, start_number: 1 })]);
}

#[test]
fn node_without_clients_gets_no_slice() {
    let nodes = vec![node("a", 1), node("b", 1), node("c", 1)];
    assert_eq!(
        slice_workload_clients(1, 0, &nodes, &SchedulingStrategy::Even, 0),
        Some(ClientSlice { clients: 1, start_number: 0 })
    );
    assert_eq!(slice_workload_clients(1, 0, &nodes, &SchedulingStrategy::Even, 2), None);
}

#[test]
fn histogram_bound_follows_running_count() {
    let histogram = vec![
        LatencyBucket { upper_bound_us: 1_000, count: 2 },
        LatencyBucket { upper_bound_us: 2_000, count: 2 },
        LatencyBucket { upper_bound_us: 4_000, count: 1 },
        LatencyBucket { upper_bound_us: 8_000, count: 1 },
    ];
    assert_eq!(histogram_bound_at(&histogram, 3), Some(2_000));
    assert_eq!(histogram_bound_at(&histogram, 6), Some(8_000));
    assert_eq!(histogram_bound_at(&histogram, 1), Some(1_000));
    assert_eq!(histogram_bound_at(&histogram, 7), None);
    assert_eq!(histogram_bound_at(&[], 1), None);
}

fn request(strategy: SchedulingStrategy, node_ids: &[&str], labels: &[&str]) -> DistributedRunCreate {
    DistributedRunCreate {
        scenario_id: "scenario".to_string(),
        strategy,
        node_ids: node_ids.iter().map(|s| s.to_string()).collect(),
        required_labels: labels.iter().map(|s| s.to_string()).collect(),
    }
}

#[test]
fn run_nodes_are_eligible_and_sorted_by_id() {
    let mut offline = node("b", 1);
    offline.status = AgentStatus::Offline;
    let mut draining = node("d", 1);
    draining.draining = true;
    let nodes = vec![node("c", 1), offline, node("a", 1), draining];
    let chosen = select_run_nodes(&request(SchedulingStrategy::Even, &[], &[]), nodes).unwrap();
    assert_eq!(chosen.iter().map(|n| n.id.as_str()).collect::<Vec<_>>(), vec!["a", "c"]);
}

#[test]
fn run_node_selection_errors() {
    let nodes = vec![node("a", 1)];
    assert_eq!(
        select_run_nodes(&request(SchedulingStrategy::Even, &[], &["gpu"]), nodes.clone()).unwrap_err(),
        "no eligible agent nodes match this distributed run"
    );
    assert_eq!(
        select_run_nodes(&request(SchedulingStrategy::Selected, &[], &[]), nodes.clone()).unwrap_err(),
        "selected scheduling requires node_ids"
    );
    assert_eq!(
        select_run_nodes(&request(SchedulingStrategy::Selected, &["a", "z"], &[]), nodes).unwrap_err(),
        "one or more selected nodes are offline, disabled, draining, or label-incompatible"
    );
}

#[test]
fn agent_tokens_authenticate_against_their_hash() {
    let token = new_agent_token();
    assert_eq!(token.len(), 68);
    assert!(token.starts_with("vma_"));
    let stored = token_hash(&token);
    assert!(agent_token_matches(&stored, &token));
    assert_eq!(check_agent_token(Some(&stored), &token), Ok(()));
    assert_eq!(check_agent_token(Some(&stored), "vma_other"), Err("invalid agent token".to_string()));
    assert_eq!(check_agent_token(None, &token), Err("agent node not found".to_string()));
    assert_ne!(new_agent_token(), token);
}

#[test]
fn tasks_need_an_available_node_and_a_stage() {
    let ready = node("a", 1);
    assert_eq!(check_task_node(Some(&ready), 1), Ok(()));
    assert_eq!(check_task_node(None, 1), Err("agent node not found".to_string()));
    let mut draining = node("b", 1);
    draining.draining = true;
    assert_eq!(check_task_node(Some(&draining), 1), Err("agent node is not available for scheduling".to_string()));
    assert_eq!(check_task_node(Some(&ready), 0), Err("agent task scenario must contain at least one stage".to_string()));
    assert_eq!(check_metric_batch(500), Ok(()));
    assert_eq!(check_metric_batch(501), Err("metric batch must contain <= 500 points".to_string()));
    assert_eq!(check_log_batch(1000), Ok(()));
    assert_eq!(check_log_batch(1001), Err("log batch must contain <= 1000 points".to_string()));
}

fn broker(id: &str) -> BrokerProfile {
    let now = UtcTimestamp { secs: 1, nanos: 0 };
    BrokerProfile {
        id: id.to_string(),
        name: id.to_string(),
        protocol: BrokerProtocol::Mqtt,
        mqtt_version: MqttVersion::V3_1_1,
        host: "h".into(),
        port: 1883,
        websocket_path: None,
        tls: None,
        auth: None,
        keepalive_secs: 30,
        connection_timeout_secs: 10,
        clean_session: true,
        mqtt5: None,
        created_at: now,
        updated_at: now,
    }
}

#[test]
fn run_requests_are_prepared_for_scheduling() {
    assert_eq!(
        prepare_required_labels(vec![" Zone=A ".into(), "zone=a".into(), "".into()]),
        Ok(vec!["zone=a".to_string()])
    );
    assert_eq!(
        prepare_required_labels(vec!["bad label".into()]),
        Err("agent labels contain an invalid value".to_string())
    );
    assert_eq!(task_idempotency_key("run-1", "node-a"), "run-1/node-a/1");
    assert_eq!(node_scenario_id("sc", 0), "sc-node-1");
    assert_eq!(node_scenario_id("sc", 11), "sc-node-12");
    assert_eq!(node_scenario_name("Soak", "edge-1"), "Soak \u{b7} edge-1");
}

#[test]
fn scenarios_need_every_profile_they_name() {
    let wanted = vec!["b1".to_string(), "b2".to_string(), "b1".to_string()];
    let picked = pick_broker_profiles(&wanted, vec![broker("b0"), broker("b2"), broker("b1")]).unwrap();
    assert_eq!(picked.iter().map(|p| p.id.as_str()).collect::<Vec<_>>(), vec!["b2", "b1"]);
    assert_eq!(
        pick_broker_profiles(&wanted, vec![broker("b1")]).unwrap_err(),
        "scenario references a missing broker profile"
    );
    assert!(pick_broker_profiles(&Vec::new(), vec![broker("b1")]).unwrap().is_empty());
    let payload = PayloadProfile {
        id: "p1".into(),
        name: "p".into(),
        kind: PayloadKind::default(),
        created_at: UtcTimestamp { secs: 0, nanos: 0 },
        updated_at: UtcTimestamp { secs: 0, nanos: 0 },
    };
    assert_eq!(pick_payload_profiles(&vec!["p1".into()], vec![payload.clone()]).unwrap().len(), 1);
    assert_eq!(
        pick_payload_profiles(&vec!["p2".into()], vec![payload]).unwrap_err(),
        "scenario references a missing payload profile"
    );
}

#[test]
fn each_node_gets_one_task_with_its_slice() {
    let nodes = vec![node("a", 1), node("b", 3)];
    let scenario = ScenarioOutline {
        id: "sc".to_string(),
        name: "split".to_string(),
        description: String::new(),
        tags: vec![],
        stages: vec![StageOutline {
            parallel: true,
            workloads: vec![WorkloadOutline {
                id: "w".to_string(),
                kind: WorkloadKind::Conn,
                clients: 8,
                start_number: 0,
            }],
        }],
    };
    let tasks = plan_node_tasks("run-7", &scenario, &nodes, &SchedulingStrategy::CapacityWeighted);
    assert_eq!(tasks.len(), 2);
    assert_eq!(tasks[0].node_id, "a");
    assert_eq!(tasks[0].idempotency_key, "run-7/a/1");
    assert_eq!(tasks[1].idempotency_key, "run-7/b/1");
    assert_eq!(tasks[0].scenario.id, "sc-node-1");
    assert_eq!(tasks[1].scenario.id, "sc-node-2");
    assert_eq!(tasks[0].scenario.stages[0].workloads, vec![(0, ClientSlice { clients: 2, start_number: 0 })]);
    assert_eq!(tasks[1].scenario.stages[0].workloads, vec![(0, ClientSlice { clients: 6, start_number: 2 })]);
}
