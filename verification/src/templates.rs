//! The built-in benchmark templates a new database is seeded with.

use vstd::prelude::*;
use crate::model::broker::BrokerProtocol;
use crate::model::cluster::texts;
use crate::model::legacy::{
    default_config, BenchConfig, BenchConfigView, BenchMode, BenchTemplate, QosLevel,
};
use crate::model::time::UtcTimestamp;
use crate::text::{opt_view, string_of};

verus! {

/// A template as text: id, name, description, tags, configuration and its
/// two times.
pub type TemplateText = (
    Seq<char>,
    Seq<char>,
    Seq<char>,
    Seq<Seq<char>>,
    BenchConfigView,
    UtcTimestamp,
    UtcTimestamp,
);

/// The text of a template.
pub open spec fn template_text(t: BenchTemplate) -> TemplateText {
    (t.id@, t.name@, t.description@, texts(t.tags@), t.config@, t.created_at, t.updated_at)
}

/// The publish smoke configuration, the base of the transport smoke tests.
pub open spec fn publish_smoke() -> BenchConfigView {
    BenchConfigView {
        mode: BenchMode::Pub,
        clients: 100,
        payload_size: 256,
        message_interval_ms: 1000,
        duration_secs: 60,
        ..default_config()
    }
}

/// The subscriber fanout configuration.
pub open spec fn subscriber_fanout() -> BenchConfigView {
    BenchConfigView {
        mode: BenchMode::Sub,
        clients: 200,
        topic: "velamq/bench/#"@,
        duration_secs: 120,
        ..default_config()
    }
}

/// A configuration moved onto another transport and its default port.
pub open spec fn on_transport(
    c: BenchConfigView,
    protocol: BrokerProtocol,
    websocket_path: Option<Seq<char>>,
) -> BenchConfigView {
    BenchConfigView {
        protocol,
        port: protocol.spec_default_port(),
        websocket_path,
        ..c
    }
}

/// The built-in templates, in the order they are stored, each stamped `now`.
pub open spec fn seeded_templates(now: UtcTimestamp) -> Seq<TemplateText> {
    let d = default_config();
    seq![
        ("tpl-default-pub-smoke"@, "Publish Smoke"@,
            "Small publish baseline with timestamp payloads."@, seq!["publish"@, "smoke"@],
            publish_smoke(), now, now),
        ("tpl-default-sub-fanout"@, "Subscriber Fanout"@, "Subscriber-side fanout baseline."@,
            seq!["subscribe"@, "fanout"@], subscriber_fanout(), now, now),
        ("tpl-default-conn-ramp"@, "Connection Ramp"@,
            "Connection ramp for broker session capacity checks."@,
            seq!["connection"@, "ramp"@],
            BenchConfigView { mode: BenchMode::Conn, clients: 1000, connect_rate: 200,
                duration_secs: 30, qos: QosLevel::Qos0, ..d }, now, now),
        ("tpl-default-pub-throughput"@, "Publish Throughput"@,
            "Sustained publish throughput baseline with medium payloads."@,
            seq!["publish"@, "throughput"@],
            BenchConfigView { mode: BenchMode::Pub, clients: 500, connect_rate: 200,
                payload_size: 512, message_interval_ms: 20, duration_secs: 300, ..d }, now, now),
        ("tpl-default-latency-probe"@, "Latency Probe"@,
            "Timestamp payload probe for latency percentile checks."@,
            seq!["publish"@, "latency"@],
            BenchConfigView { mode: BenchMode::Pub, clients: 100, payload_size: 128,
                payload_timestamp: true, message_interval_ms: 100, duration_secs: 180,
                sample_interval_ms: 500, ..d }, now, now),
        ("tpl-default-pub-soak"@, "Publish Soak"@,
            "Long-running steady publish test for stability checks."@,
            seq!["publish"@, "soak"@],
            BenchConfigView { mode: BenchMode::Pub, clients: 200, payload_size: 256,
                message_interval_ms: 1000, duration_secs: 1800, ..d }, now, now),
        ("tpl-default-sub-soak"@, "Subscriber Soak"@,
            "Long-running subscriber fanout stability test."@, seq!["subscribe"@, "soak"@],
            BenchConfigView { mode: BenchMode::Sub, clients: 1000, topic: "velamq/bench/#"@,
                duration_secs: 1800, ..d }, now, now),
        ("tpl-default-conn-storm"@, "Connection Storm"@,
            "Short high-rate connection churn test for session admission limits."@,
            seq!["connection"@, "churn"@],
            BenchConfigView { mode: BenchMode::Conn, clients: 5000, connect_rate: 500,
                duration_secs: 60, ..d }, now, now),
        ("tpl-default-large-payload"@, "Large Payload Publish"@,
            "Publish baseline for bandwidth and packet-size pressure."@,
            seq!["publish"@, "payload"@],
            BenchConfigView { mode: BenchMode::Pub, clients: 50, payload_size: 65536,
                payload_timestamp: false, message_interval_ms: 200, duration_secs: 300, ..d },
            now, now),
        ("tpl-default-qos1-publish"@, "QoS1 Publish"@,
            "QoS1 publish baseline for acknowledgement overhead checks."@,
            seq!["publish"@, "qos1"@],
            BenchConfigView { mode: BenchMode::Pub, clients: 200, qos: QosLevel::Qos1,
                payload_size: 256, message_interval_ms: 50, duration_secs: 300, ..d }, now, now),
        ("tpl-default-iot-low-rate"@, "IoT Low Rate"@,
            "Many low-frequency publishers for IoT-style workloads."@, seq!["publish"@, "iot"@],
            BenchConfigView { mode: BenchMode::Pub, clients: 1000, connect_rate: 100,
                payload_size: 128, message_interval_ms: 5000, duration_secs: 900, ..d }, now, now),
        ("tpl-default-mqtts-pub-smoke"@, "MQTTS Publish Smoke"@,
            "Secure MQTT/TLS publish smoke test on the standard 8883 port."@,
            seq!["publish"@, "mqtts"@, "tls"@],
            on_transport(publish_smoke(), BrokerProtocol::Mqtts, None), now, now),
        ("tpl-default-ws-pub-smoke"@, "WebSocket Publish Smoke"@,
            "MQTT over WebSocket publish smoke test using the /mqtt path."@,
            seq!["publish"@, "websocket"@],
            on_transport(publish_smoke(), BrokerProtocol::Ws, Some("/mqtt"@)), now, now),
        ("tpl-default-ws-sub-fanout"@, "WebSocket Subscriber Fanout"@,
            "Subscriber fanout baseline over MQTT WebSocket transport."@,
            seq!["subscribe"@, "websocket"@],
            on_transport(subscriber_fanout(), BrokerProtocol::Ws, Some("/mqtt"@)), now, now),
        ("tpl-default-wss-pub-smoke"@, "WSS Publish Smoke"@,
            "Secure MQTT over WebSocket publish smoke test on the 8084 port."@,
            seq!["publish"@, "websocket"@, "tls"@],
            on_transport(publish_smoke(), BrokerProtocol::Wss, Some("/mqtt"@)), now, now),
    ]
}

fn tags2(a: &str, b: &str) -> (r: Vec<String>)
    ensures
        texts(r@) == seq![a@, b@],
{
    let r = vec![string_of(a), string_of(b)];
    assert(texts(r@) =~= seq![a@, b@]);
    r
}

fn tags3(a: &str, b: &str, c: &str) -> (r: Vec<String>)
    ensures
        texts(r@) == seq![a@, b@, c@],
{
    let r = vec![string_of(a), string_of(b), string_of(c)];
    assert(texts(r@) =~= seq![a@, b@, c@]);
    r
}

fn template(
    id: &str,
    name: &str,
    description: &str,
    tags: Vec<String>,
    config: BenchConfig,
    now: UtcTimestamp,
) -> (r: BenchTemplate)
    ensures
        template_text(r) == (id@, name@, description@, texts(tags@), config@, now, now),
{
    BenchTemplate {
        id: string_of(id),
        name: string_of(name),
        description: string_of(description),
        tags,
        config,
        created_at: now,
        updated_at: now,
    }
}

fn publish_smoke_config() -> (r: BenchConfig)
    ensures
        r@ == publish_smoke(),
{
    let mut c = BenchConfig::default();
    c.mode = BenchMode::Pub;
    c.clients = 100;
    c.payload_size = 256;
    c.message_interval_ms = 1000;
    c.duration_secs = 60;
    c
}

fn subscriber_fanout_config() -> (r: BenchConfig)
    ensures
        r@ == subscriber_fanout(),
{
    let mut c = BenchConfig::default();
    c.mode = BenchMode::Sub;
    c.clients = 200;
    c.topic = string_of("velamq/bench/#");
    c.duration_secs = 120;
    c
}

fn move_to(c: BenchConfig, protocol: BrokerProtocol, websocket_path: Option<&str>) -> (r:
    BenchConfig)
    ensures
        r@ == on_transport(
            c@,
            protocol,
            match websocket_path {
                Some(p) => Some(p@),
                None => None,
            },
        ),
{
    let mut c = c;
    c.protocol = protocol;
    c.port = protocol.default_port();
    c.websocket_path = match websocket_path {
        Some(p) => Some(string_of(p)),
        None => None,
    };
    assert(opt_view(c.websocket_path) == match websocket_path {
        Some(p) => Some(p@),
        None => None::<Seq<char>>,
    });
    c
}

/// The built-in templates a new database starts with, stamped `now`:
/// smoke, fanout, ramp, throughput, latency, soak, storm, payload, QoS 1,
/// IoT and transport tests.
#[verifier::rlimit(40)]
pub fn default_templates(now: UtcTimestamp) -> (r: Vec<BenchTemplate>)
    ensures
        r@.map_values(|t: BenchTemplate| template_text(t)) == seeded_templates(now),
{
    let mut connection = BenchConfig::default();
    connection.mode = BenchMode::Conn;
    connection.clients = 1000;
    connection.connect_rate = 200;
    connection.duration_secs = 30;
    connection.qos = QosLevel::Qos0;

    let mut throughput = BenchConfig::default();
    throughput.mode = BenchMode::Pub;
    throughput.clients = 500;
    throughput.connect_rate = 200;
    throughput.payload_size = 512;
    throughput.message_interval_ms = 20;
    throughput.duration_secs = 300;

    let mut latency = BenchConfig::default();
    latency.mode = BenchMode::Pub;
    latency.clients = 100;
    latency.payload_size = 128;
    latency.payload_timestamp = true;
    latency.message_interval_ms = 100;
    latency.duration_secs = 180;
    latency.sample_interval_ms = 500;

    let mut soak_pub = BenchConfig::default();
    soak_pub.mode = BenchMode::Pub;
    soak_pub.clients = 200;
    soak_pub.payload_size = 256;
    soak_pub.message_interval_ms = 1000;
    soak_pub.duration_secs = 1800;

    let mut soak_sub = BenchConfig::default();
    soak_sub.mode = BenchMode::Sub;
    soak_sub.clients = 1000;
    soak_sub.topic = string_of("velamq/bench/#");
    soak_sub.duration_secs = 1800;

    let mut connect_storm = BenchConfig::default();
    connect_storm.mode = BenchMode::Conn;
    connect_storm.clients = 5000;
    connect_storm.connect_rate = 500;
    connect_storm.duration_secs = 60;

    let mut large_payload = BenchConfig::default();
    large_payload.mode = BenchMode::Pub;
    large_payload.clients = 50;
    large_payload.payload_size = 64 * 1024;
    large_payload.payload_timestamp = false;
    large_payload.message_interval_ms = 200;
    large_payload.duration_secs = 300;

    let mut qos1 = BenchConfig::default();
    qos1.mode = BenchMode::Pub;
    qos1.clients = 200;
    qos1.qos = QosLevel::Qos1;
    qos1.payload_size = 256;
    qos1.message_interval_ms = 50;
    qos1.duration_secs = 300;

    let mut iot_low_rate = BenchConfig::default();
    iot_low_rate.mode = BenchMode::Pub;
    iot_low_rate.clients = 1000;
    iot_low_rate.connect_rate = 100;
    iot_low_rate.payload_size = 128;
    iot_low_rate.message_interval_ms = 5000;
    iot_low_rate.duration_secs = 900;

    let mqtts_smoke = move_to(publish_smoke_config(), BrokerProtocol::Mqtts, None);
    let websocket_smoke = move_to(publish_smoke_config(), BrokerProtocol::Ws, Some("/mqtt"));
    let websocket_sub = move_to(subscriber_fanout_config(), BrokerProtocol::Ws, Some("/mqtt"));
    let wss_smoke = move_to(publish_smoke_config(), BrokerProtocol::Wss, Some("/mqtt"));

    let r = vec![
        template(
            "tpl-default-pub-smoke",
            "Publish Smoke",
            "Small publish baseline with timestamp payloads.",
            tags2("publish", "smoke"),
            publish_smoke_config(),
            now,
        ),
        template(
            "tpl-default-sub-fanout",
            "Subscriber Fanout",
            "Subscriber-side fanout baseline.",
            tags2("subscribe", "fanout"),
            subscriber_fanout_config(),
            now,
        ),
        template(
            "tpl-default-conn-ramp",
            "Connection Ramp",
            "Connection ramp for broker session capacity checks.",
            tags2("connection", "ramp"),
            connection,
            now,
        ),
        template(
            "tpl-default-pub-throughput",
            "Publish Throughput",
            "Sustained publish throughput baseline with medium payloads.",
            tags2("publish", "throughput"),
            throughput,
            now,
        ),
        template(
            "tpl-default-latency-probe",
            "Latency Probe",
            "Timestamp payload probe for latency percentile checks.",
            tags2("publish", "latency"),
            latency,
            now,
        ),
        template(
            "tpl-default-pub-soak",
            "Publish Soak",
            "Long-running steady publish test for stability checks.",
            tags2("publish", "soak"),
            soak_pub,
            now,
        ),
        template(
            "tpl-default-sub-soak",
            "Subscriber Soak",
            "Long-running subscriber fanout stability test.",
            tags2("subscribe", "soak"),
            soak_sub,
            now,
        ),
        template(
            "tpl-default-conn-storm",
            "Connection Storm",
            "Short high-rate connection churn test for session admission limits.",
            tags2("connection", "churn"),
            connect_storm,
            now,
        ),
        template(
            "tpl-default-large-payload",
            "Large Payload Publish",
            "Publish baseline for bandwidth and packet-size pressure.",
            tags2("publish", "payload"),
            large_payload,
            now,
        ),
        template(
            "tpl-default-qos1-publish",
            "QoS1 Publish",
            "QoS1 publish baseline for acknowledgement overhead checks.",
            tags2("publish", "qos1"),
            qos1,
            now,
        ),
        template(
            "tpl-default-iot-low-rate",
            "IoT Low Rate",
            "Many low-frequency publishers for IoT-style workloads.",
            tags2("publish", "iot"),
            iot_low_rate,
            now,
        ),
        template(
            "tpl-default-mqtts-pub-smoke",
            "MQTTS Publish Smoke",
            "Secure MQTT/TLS publish smoke test on the standard 8883 port.",
            tags3("publish", "mqtts", "tls"),
            mqtts_smoke,
            now,
        ),
        template(
            "tpl-default-ws-pub-smoke",
            "WebSocket Publish Smoke",
            "MQTT over WebSocket publish smoke test using the /mqtt path.",
            tags2("publish", "websocket"),
            websocket_smoke,
            now,
        ),
        template(
            "tpl-default-ws-sub-fanout",
            "WebSocket Subscriber Fanout",
            "Subscriber fanout baseline over MQTT WebSocket transport.",
            tags2("subscribe", "websocket"),
            websocket_sub,
            now,
        ),
        template(
            "tpl-default-wss-pub-smoke",
            "WSS Publish Smoke",
            "Secure MQTT over WebSocket publish smoke test on the 8084 port.",
            tags3("publish", "websocket", "tls"),
            wss_smoke,
            now,
        ),
    ];
    assert(r@.map_values(|t: BenchTemplate| template_text(t)) =~= seeded_templates(now));
    r
}

} // verus!
