use velamq_bench::payload_stamp::build_payload;
use velamq_bench::runtime::sampler::WorkloadSampler;
use velamq_bench::runtime::session::{outgoing_payload, ClientEvent, ClientSession, SessionAction};
use velamq_bench::bench::{
    binding_notices, run_step, LogBuffer, NetworkBindingPlan, RunStep, RunTrigger, LOG_LIMIT,
};
use velamq_bench::model::legacy::{BenchStatus, LogLine, NetworkBindMode};
use velamq_bench::model::time::UtcTimestamp;

#[test]
fn sessions_count_connections_once_and_cap_reports() {
    let mut sampler = WorkloadSampler::new("r".into(), "w".into());
    let mut session = ClientSession::new();
    let quiet = SessionAction { log_error: false, back_off: false };
    assert_eq!(session.on_event(&mut sampler, ClientEvent::ConnAck, false), quiet);
    assert_eq!(session.on_event(&mut sampler, ClientEvent::ConnAck, false), quiet);
    assert_eq!(sampler.sample().connected_current, 1);
    let first = session.on_event(&mut sampler, ClientEvent::ConnectionError, false);
    assert_eq!(first, SessionAction { log_error: true, back_off: true });
    assert_eq!(sampler.sample().connected_current, 0);
    assert_eq!(session.on_event(&mut sampler, ClientEvent::PublishFailed, false).log_error, true);
    assert_eq!(session.on_event(&mut sampler, ClientEvent::PublishFailed, false).log_error, true);
    assert_eq!(session.on_event(&mut sampler, ClientEvent::PublishFailed, false).log_error, false);
    assert_eq!(sampler.sample().errors, 4);
    session.on_event(&mut sampler, ClientEvent::Published, false);
    session.on_event(&mut sampler, ClientEvent::Other, false);
    assert_eq!(sampler.sample().published, 1);
    session.on_event(&mut sampler, ClientEvent::ConnAck, false);
    session.finish(&mut sampler);
    assert!(!session.connected);
    assert_eq!(sampler.sample().connected_current, 0);
    assert_eq!(sampler.sample().connected_total, 2);
}

#[test]
fn stamped_messages_record_latency() {
    let mut sampler = WorkloadSampler::new("r".into(), "w".into());
    let mut session = ClientSession::new();
    let payload = build_payload(64, 1, Some(0));
    session.on_event(&mut sampler, ClientEvent::Message(payload.clone()), true);
    session.on_event(&mut sampler, ClientEvent::Message(payload), false);
    session.on_event(&mut sampler, ClientEvent::Message(b"no stamp".to_vec()), true);
    let window = sampler.drain_latency();
    assert_eq!(sampler.sample().received, 3);
    assert_eq!(window.window_count, 1);
    assert!(window.window_values_us[0] > 0);
}

#[test]
fn outgoing_payloads_carry_a_stamp_when_asked() {
    assert_eq!(outgoing_payload(16, 2, false), build_payload(16, 2, None));
    let stamped = outgoing_payload(16, 2, true);
    assert!(stamped.starts_with(b"velamq-ts-ns="));
}

#[test]
fn run_loop_steps() {
    assert_eq!(run_step(RunTrigger::Tick), RunStep::TakeSnapshot);
    assert_eq!(run_step(RunTrigger::StopRequested), RunStep::Finish(BenchStatus::Stopped));
    assert_eq!(run_step(RunTrigger::DurationElapsed), RunStep::Finish(BenchStatus::Completed));
}

#[test]
fn binding_notices_describe_the_plan() {
    let plan = NetworkBindingPlan { mode: NetworkBindMode::AutoRoundRobin, devices: vec!["eth0".into(), "eth1".into()] };
    let notices = binding_notices(&plan, false);
    assert_eq!(notices.len(), 2);
    assert_eq!(notices[0].level, "info");
    assert_eq!(notices[0].message, "network binding auto_round_robin over eth0, eth1");
    assert_eq!(notices[1].level, "warn");
    let empty = NetworkBindingPlan { mode: NetworkBindMode::ManualRandom, devices: vec![] };
    let notices = binding_notices(&empty, true);
    assert_eq!(notices[0].message, "network binding manual_random has no usable interfaces; using system routing");
    let system = NetworkBindingPlan { mode: NetworkBindMode::System, devices: vec![] };
    assert!(binding_notices(&system, true).is_empty());
}

#[test]
fn log_buffer_keeps_the_latest_lines() {
    let mut logs = LogBuffer::new();
    for i in 0..(LOG_LIMIT + 5) {
        logs.push(LogLine { ts: UtcTimestamp { secs: i as i64, nanos: 0 }, level: "info".into(), message: format!("m{i}") });
    }
    let lines = logs.snapshot();
    assert_eq!(lines.len(), LOG_LIMIT);
    assert_eq!(lines[0].message, "m5");
    assert_eq!(lines[LOG_LIMIT - 1].message, format!("m{}", LOG_LIMIT + 4));
}

#[test]
fn a_client_run_leaves_the_open_count_where_it_started() {
    let mut sampler = WorkloadSampler::new("r".into(), "w".into());
    let mut session = ClientSession::new();
    for event in [
        ClientEvent::ConnAck,
        ClientEvent::Published,
        ClientEvent::ConnectionError,
        ClientEvent::ConnectionError,
        ClientEvent::ConnAck,
        ClientEvent::Message(vec![b'x']),
        ClientEvent::ConnAck,
    ] {
        session.on_event(&mut sampler, event, false);
        let open = sampler.sample().connected_current;
        assert_eq!(open, if session.connected { 1 } else { 0 });
    }
    session.finish(&mut sampler);
    let x = sampler.sample();
    assert_eq!(x.connected_current, 0);
    assert_eq!(x.connected_total, 2);
}

use velamq_bench::bench::broker_address_for_config;
use velamq_bench::model::broker::{BrokerProtocol, Mqtt5Config};
use velamq_bench::model::legacy::{BenchConfig, BenchMode};
use velamq_bench::runtime::connect::{connect_plan, Mqtt5Connect, TransportChoice};
use velamq_bench::runtime::session::{client_publishes, client_subscribes};

#[test]
fn only_pub_clients_publish_and_only_sub_clients_subscribe() {
    assert!(client_publishes(BenchMode::Pub));
    assert!(!client_publishes(BenchMode::Sub));
    assert!(!client_publishes(BenchMode::Conn));
    assert!(client_subscribes(BenchMode::Sub));
    assert!(!client_subscribes(BenchMode::Pub));
    assert!(!client_subscribes(BenchMode::Conn));
}

#[test]
fn connect_plan_reads_the_configuration() {
    let mut config = BenchConfig::default();
    config.protocol = BrokerProtocol::Wss;
    config.port = 8884;
    config.keepalive_secs = 45;
    config.connection_timeout_secs = 7;
    config.clean_session = false;
    config.username = Some("bench".to_string());
    config.password = None;
    config.mqtt5 = Some(Mqtt5Config {
        session_expiry_interval_secs: Some(60),
        receive_maximum: Some(10),
        maximum_packet_size: Some(4096),
        topic_alias_maximum: Some(3),
        request_problem_information: true,
    });
    let plan = connect_plan(&config, Some("eth1"));
    assert_eq!(plan.address, broker_address_for_config(&config));
    assert_eq!(plan.port, 8884);
    assert_eq!(plan.keep_alive_secs, 45);
    assert_eq!(plan.connection_timeout_secs, 7);
    assert!(!plan.clean_session);
    assert_eq!(plan.credentials, Some(("bench".to_string(), String::new())));
    assert_eq!(plan.transport, TransportChoice::Wss);
    assert_eq!(
        plan.mqtt5,
        Some(Mqtt5Connect {
            session_expiry_interval_secs: Some(60),
            receive_maximum: Some(10),
            max_packet_size: Some(4096),
            topic_alias_max: Some(3),
            request_problem_info: 1,
        })
    );
    assert_eq!(plan.bind_device.as_deref(), Some("eth1"));
}

#[test]
fn connect_plan_drops_empty_user_names_and_devices() {
    let mut config = BenchConfig::default();
    config.username = Some(String::new());
    config.password = Some("secret".to_string());
    let plan = connect_plan(&config, Some(""));
    assert_eq!(plan.credentials, None);
    assert_eq!(plan.bind_device, None);
    assert_eq!(plan.transport, TransportChoice::Tcp);
    assert_eq!(plan.mqtt5, None);
    config.username = Some("u".to_string());
    let plan = connect_plan(&config, None);
    assert_eq!(plan.credentials, Some(("u".to_string(), "secret".to_string())));
    assert_eq!(plan.bind_device, None);
    config.mqtt5 = Some(Mqtt5Config { request_problem_information: false, ..Mqtt5Config::default() });
    assert_eq!(connect_plan(&config, None).mqtt5.unwrap().request_problem_info, 0);
}

#[test]
fn subscriber_without_timestamps_records_no_latency_and_no_publish() {
    let mut sampler = WorkloadSampler::new("r".into(), "w".into());
    let mut session = ClientSession::new();
    let stamped = false;
    session.on_event(&mut sampler, ClientEvent::ConnAck, stamped);
    let payload = build_payload(64, 1, Some(0));
    session.on_event(&mut sampler, ClientEvent::Message(payload), stamped);
    session.on_event(&mut sampler, ClientEvent::Message(vec![1, 2, 3]), stamped);
    session.finish(&mut sampler);
    assert_eq!(sampler.sample().received, 2);
    assert_eq!(sampler.sample().published, 0);
    let latency = sampler.drain_latency();
    assert_eq!(latency.total_count, 0);
    assert_eq!(latency.window_count, 0);
    assert!(latency.window_values_us.is_empty());
}
