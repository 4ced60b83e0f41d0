//! The single-run benchmark: its configuration, how that configuration is
//! normalized and checked, and the drafts of specimens and templates that
//! are saved beside it.

use vstd::prelude::*;
use crate::decimal::{dec_text, u64_text};
use crate::model::broker::{opt_tls_view, BrokerProtocol, Mqtt5Config, MqttVersion, TlsConfig, TlsView};
use crate::model::cluster::{contains_text, texts};
use crate::storage::{clean_tags, normalize_tags};
use crate::text::{
    append_chars, ascii_alnum, blank, byte_len, chars_of, is_ascii_alnum, is_blank, opt_view,
    replace_all, replace_chars, string_from_chars, string_of, trim, trim_chars, trimmed, utf8_len,
};

verus! {

/// What the clients of a benchmark do.
#[derive(Debug, Clone, Copy, PartialEq, Eq, Structural)]
pub enum BenchMode {
    Conn,
    Sub,
    Pub,
}

impl BenchMode {
    /// The mode's name, as it appears in client ids and stored runs.
    pub open spec fn name(self) -> Seq<char> {
        match self {
            BenchMode::Conn => "conn"@,
            BenchMode::Sub => "sub"@,
            BenchMode::Pub => "pub"@,
        }
    }

    pub fn as_str(&self) -> (r: &'static str)
        ensures
            r@ == self.name(),
    {
        match self {
            BenchMode::Conn => "conn",
            BenchMode::Sub => "sub",
            BenchMode::Pub => "pub",
        }
    }
}

/// MQTT delivery guarantee.
#[derive(Debug, Clone, Copy, PartialEq, Eq, Structural)]
pub enum QosLevel {
    Qos0,
    Qos1,
    Qos2,
}

/// How client sockets are bound to local network interfaces.
#[derive(Debug, Clone, Copy, PartialEq, Eq, Structural)]
pub enum NetworkBindMode {
    System,
    AutoRandom,
    AutoRoundRobin,
    ManualRandom,
    ManualRoundRobin,
}

impl NetworkBindMode {
    /// Any mode but leaving the choice to the operating system.
    pub fn is_enabled(&self) -> (r: bool)
        ensures
            r == (*self != NetworkBindMode::System),
    {
        match self {
            NetworkBindMode::System => false,
            _ => true,
        }
    }

    /// The modes that bind to interfaces the operator listed.
    pub fn is_manual(&self) -> (r: bool)
        ensures
            r == (*self == NetworkBindMode::ManualRandom || *self
                == NetworkBindMode::ManualRoundRobin),
    {
        match self {
            NetworkBindMode::ManualRandom | NetworkBindMode::ManualRoundRobin => true,
            _ => false,
        }
    }

    /// The modes that pick an interface at random rather than in turn.
    pub fn is_random(&self) -> (r: bool)
        ensures
            r == (*self == NetworkBindMode::AutoRandom || *self == NetworkBindMode::ManualRandom),
    {
        match self {
            NetworkBindMode::AutoRandom | NetworkBindMode::ManualRandom => true,
            _ => false,
        }
    }
}

impl Default for NetworkBindMode {
    fn default() -> (r: Self)
        ensures
            r == NetworkBindMode::System,
    {
        NetworkBindMode::System
    }
}

/// A complete single-run benchmark configuration.
#[derive(Debug, Clone)]
pub struct BenchConfig {
    pub mode: BenchMode,
    pub protocol: BrokerProtocol,
    pub mqtt_version: MqttVersion,
    pub host: String,
    pub port: u16,
    pub websocket_path: Option<String>,
    pub clients: usize,
    pub start_number: u64,
    pub connect_rate: u32,
    pub client_interval_ms: u64,
    pub username: Option<String>,
    pub password: Option<String>,
    pub keepalive_secs: u16,
    pub connection_timeout_secs: u16,
    pub clean_session: bool,
    pub tls: Option<TlsConfig>,
    pub mqtt5: Option<Mqtt5Config>,
    pub client_id_template: String,
    pub topic: String,
    pub qos: QosLevel,
    pub retain: bool,
    pub payload_size: usize,
    pub payload_timestamp: bool,
    pub message_interval_ms: u64,
    pub duration_secs: u64,
    pub sample_interval_ms: u64,
    pub network_bind_mode: NetworkBindMode,
    pub bind_interfaces: Vec<String>,
}

/// A [`BenchConfig`] with its strings read as text.
pub struct BenchConfigView {
    pub mode: BenchMode,
    pub protocol: BrokerProtocol,
    pub mqtt_version: MqttVersion,
    pub host: Seq<char>,
    pub port: u16,
    pub websocket_path: Option<Seq<char>>,
    pub clients: usize,
    pub start_number: u64,
    pub connect_rate: u32,
    pub client_interval_ms: u64,
    pub username: Option<Seq<char>>,
    pub password: Option<Seq<char>>,
    pub keepalive_secs: u16,
    pub connection_timeout_secs: u16,
    pub clean_session: bool,
    pub tls: Option<TlsView>,
    pub mqtt5: Option<Mqtt5Config>,
    pub client_id_template: Seq<char>,
    pub topic: Seq<char>,
    pub qos: QosLevel,
    pub retain: bool,
    pub payload_size: usize,
    pub payload_timestamp: bool,
    pub message_interval_ms: u64,
    pub duration_secs: u64,
    pub sample_interval_ms: u64,
    pub network_bind_mode: NetworkBindMode,
    pub bind_interfaces: Seq<Seq<char>>,
}

impl View for BenchConfig {
    type V = BenchConfigView;

    open spec fn view(&self) -> BenchConfigView {
        BenchConfigView {
            mode: self.mode,
            protocol: self.protocol,
            mqtt_version: self.mqtt_version,
            host: self.host@,
            port: self.port,
            websocket_path: opt_view(self.websocket_path),
            clients: self.clients,
            start_number: self.start_number,
            connect_rate: self.connect_rate,
            client_interval_ms: self.client_interval_ms,
            username: opt_view(self.username),
            password: opt_view(self.password),
            keepalive_secs: self.keepalive_secs,
            connection_timeout_secs: self.connection_timeout_secs,
            clean_session: self.clean_session,
            tls: opt_tls_view(self.tls),
            mqtt5: self.mqtt5,
            client_id_template: self.client_id_template@,
            topic: self.topic@,
            qos: self.qos,
            retain: self.retain,
            payload_size: self.payload_size,
            payload_timestamp: self.payload_timestamp,
            message_interval_ms: self.message_interval_ms,
            duration_secs: self.duration_secs,
            sample_interval_ms: self.sample_interval_ms,
            network_bind_mode: self.network_bind_mode,
            bind_interfaces: texts(self.bind_interfaces@),
        }
    }
}

/// The client id template used when none is given.
pub open spec fn default_client_id_template() -> Seq<char> {
    "velamq-{mode}-{i}"@
}

/// The topic template used when none is given.
pub open spec fn default_topic_template() -> Seq<char> {
    "velamq/bench/{i}"@
}

/// The configuration a new benchmark starts from.
pub open spec fn default_config() -> BenchConfigView {
    BenchConfigView {
        mode: BenchMode::Pub,
        protocol: BrokerProtocol::Mqtt,
        mqtt_version: MqttVersion::V3_1_1,
        host: "127.0.0.1"@,
        port: 1883,
        websocket_path: None,
        clients: 100,
        start_number: 1,
        connect_rate: 100,
        client_interval_ms: 0,
        username: None,
        password: None,
        keepalive_secs: 30,
        connection_timeout_secs: 10,
        clean_session: true,
        tls: None,
        mqtt5: None,
        client_id_template: default_client_id_template(),
        topic: default_topic_template(),
        qos: QosLevel::Qos0,
        retain: false,
        payload_size: 256,
        payload_timestamp: true,
        message_interval_ms: 1000,
        duration_secs: 60,
        sample_interval_ms: 1000,
        network_bind_mode: NetworkBindMode::System,
        bind_interfaces: seq![],
    }
}

impl Default for BenchConfig {
    fn default() -> (r: Self)
        ensures
            r@ == default_config(),
    {
        let r = BenchConfig {
            mode: BenchMode::Pub,
            protocol: BrokerProtocol::Mqtt,
            mqtt_version: MqttVersion::V3_1_1,
            host: string_of("127.0.0.1"),
            port: 1883,
            websocket_path: None,
            clients: 100,
            start_number: 1,
            connect_rate: 100,
            client_interval_ms: 0,
            username: None,
            password: None,
            keepalive_secs: 30,
            connection_timeout_secs: 10,
            clean_session: true,
            tls: None,
            mqtt5: None,
            client_id_template: string_of("velamq-{mode}-{i}"),
            topic: string_of("velamq/bench/{i}"),
            qos: QosLevel::Qos0,
            retain: false,
            payload_size: 256,
            payload_timestamp: true,
            message_interval_ms: 1000,
            duration_secs: 60,
            sample_interval_ms: 1000,
            network_bind_mode: NetworkBindMode::System,
            bind_interfaces: Vec::new(),
        };
        assert(texts(r.bind_interfaces@) =~= Seq::<Seq<char>>::empty());
        r
    }
}

/// The path a WebSocket endpoint is served under: the given path trimmed,
/// `/mqtt` when it is missing or blank, and a leading `/` added if absent.
pub open spec fn websocket_path_for(path: Option<Seq<char>>) -> Seq<char> {
    let p = match path {
        Some(s) => if is_blank(s) {
            "/mqtt"@
        } else {
            trim(s)
        },
        None => "/mqtt"@,
    };
    if p.len() > 0 && p[0] == '/' {
        p
    } else {
        seq!['/'] + p
    }
}

pub fn normalize_websocket_path(path: Option<&str>) -> (r: String)
    ensures
        r@ == websocket_path_for(
            match path {
                Some(s) => Some(s@),
                None => None,
            },
        ),
{
    let p: Vec<char> = match path {
        Some(s) => {
            let cs = chars_of(s);
            let t = trim_chars(cs.as_slice());
            if t.len() == 0 {
                chars_of("/mqtt")
            } else {
                t
            }
        },
        None => chars_of("/mqtt"),
    };
    if p.len() > 0 && p[0] == '/' {
        string_from_chars(p.as_slice())
    } else {
        let mut out: Vec<char> = Vec::new();
        out.push('/');
        append_chars(&mut out, p.as_slice());
        assert(out@ =~= seq!['/'] + p@);
        string_from_chars(out.as_slice())
    }
}

/// A character allowed in a network interface name.
pub open spec fn is_interface_char(c: char) -> bool {
    is_ascii_alnum(c) || c == '_' || c == '-' || c == '.' || c == ':'
}

/// A non-empty name made of letters, digits, `_`, `-`, `.` and `:`.
pub open spec fn interface_name_ok(s: Seq<char>) -> bool {
    s.len() > 0 && forall|i: int| 0 <= i < s.len() ==> is_interface_char(#[trigger] s[i])
}

fn interface_chars_ok(s: &[char]) -> (r: bool)
    ensures
        r == interface_name_ok(s@),
{
    if s.len() == 0 {
        return false;
    }
    let mut i: usize = 0;
    while i < s.len()
        invariant
            i <= s@.len(),
            forall|j: int| 0 <= j < i ==> is_interface_char(#[trigger] s@[j]),
        decreases s@.len() - i,
    {
        let c = s[i];
        if !(ascii_alnum(c) || c == '_' || c == '-' || c == '.' || c == ':') {
            return false;
        }
        i = i + 1;
    }
    true
}

pub fn is_valid_interface_name(interface: &str) -> (r: bool)
    ensures
        r == interface_name_ok(interface@),
{
    let cs = chars_of(interface);
    interface_chars_ok(cs.as_slice())
}

/// The interfaces kept from a list: each trimmed, the invalid ones dropped,
/// each name once, in first-seen order.
pub open spec fn kept_interfaces(v: Seq<Seq<char>>) -> Seq<Seq<char>>
    decreases v.len(),
{
    if v.len() == 0 {
        seq![]
    } else {
        let prev = kept_interfaces(v.drop_last());
        let t = trim(v.last());
        if !interface_name_ok(t) || prev.contains(t) {
            prev
        } else {
            prev.push(t)
        }
    }
}

pub fn normalize_bind_interfaces(interfaces: Vec<String>) -> (r: Vec<String>)
    ensures
        texts(r@) == kept_interfaces(texts(interfaces@)),
{
    let mut out: Vec<String> = Vec::new();
    let mut i: usize = 0;
    while i < interfaces.len()
        invariant
            i <= interfaces@.len(),
            texts(out@) == kept_interfaces(texts(interfaces@).take(i as int)),
        decreases interfaces@.len() - i,
    {
        let cs = chars_of(interfaces[i].as_str());
        let t = trim_chars(cs.as_slice());
        assert(texts(interfaces@).take(i + 1).drop_last() =~= texts(interfaces@).take(i as int));
        if interface_chars_ok(t.as_slice()) {
            let name = string_from_chars(t.as_slice());
            if !contains_text(&out, &name) {
                let ghost before = out@;
                out.push(name);
                assert(texts(out@) =~= texts(before).push(t@));
            }
        }
        i = i + 1;
    }
    assert(texts(interfaces@).take(interfaces@.len() as int) =~= texts(interfaces@));
    out
}

/// A template with `{i}` and `%i` replaced by the client number and
/// `{mode}` by the mode's name, in that order.
pub open spec fn rendered(template: Seq<char>, mode: Seq<char>, index: u64) -> Seq<char> {
    replace_all(
        replace_all(replace_all(template, "{i}"@, dec_text(index as nat)), "%i"@, dec_text(index as nat)),
        "{mode}"@,
        mode,
    )
}

pub fn render_template(template: &str, mode: &str, index: u64) -> (r: String)
    ensures
        r@ == rendered(template@, mode@, index),
{
    proof {
        reveal_strlit("{i}");
        reveal_strlit("%i");
        reveal_strlit("{mode}");
    }
    let digits = u64_text(index);
    let t = chars_of(template);
    let brace_i = chars_of("{i}");
    let percent_i = chars_of("%i");
    let mode_key = chars_of("{mode}");
    let m = chars_of(mode);
    let a = replace_chars(t.as_slice(), brace_i.as_slice(), digits.as_slice());
    let b = replace_chars(a.as_slice(), percent_i.as_slice(), digits.as_slice());
    let c = replace_chars(b.as_slice(), mode_key.as_slice(), m.as_slice());
    string_from_chars(c.as_slice())
}

/// A configuration with its missing or out-of-range settings filled in.
pub open spec fn normalized_config(c: BenchConfigView) -> BenchConfigView {
    BenchConfigView {
        host: if is_blank(c.host) {
            "127.0.0.1"@
        } else {
            c.host
        },
        clients: if c.clients == 0 {
            1
        } else {
            c.clients
        },
        port: if c.port == 0 {
            c.protocol.spec_default_port()
        } else {
            c.port
        },
        websocket_path: if c.protocol.spec_is_websocket() {
            Some(websocket_path_for(c.websocket_path))
        } else {
            None
        },
        keepalive_secs: if c.keepalive_secs == 0 {
            30
        } else {
            c.keepalive_secs
        },
        client_id_template: if is_blank(c.client_id_template) {
            default_client_id_template()
        } else {
            c.client_id_template
        },
        topic: if is_blank(c.topic) {
            default_topic_template()
        } else {
            c.topic
        },
        payload_size: if c.payload_timestamp && c.payload_size < 40 {
            40
        } else {
            c.payload_size
        },
        message_interval_ms: if c.message_interval_ms == 0 {
            1
        } else {
            c.message_interval_ms
        },
        sample_interval_ms: if c.sample_interval_ms < 250 {
            250
        } else {
            c.sample_interval_ms
        },
        bind_interfaces: kept_interfaces(c.bind_interfaces),
        ..c
    }
}

/// The first rule that a configuration breaks, with its message.
pub open spec fn config_error(c: BenchConfigView) -> Option<Seq<char>> {
    if c.clients > 100_000 {
        Some("clients must be <= 100000"@)
    } else if c.payload_size > 1024 * 1024 {
        Some("payload_size must be <= 1048576"@)
    } else if c.keepalive_secs > 3600 {
        Some("keepalive_secs must be <= 3600"@)
    } else if c.sample_interval_ms > 60_000 {
        Some("sample_interval_ms must be <= 60000"@)
    } else if (c.network_bind_mode == NetworkBindMode::ManualRandom || c.network_bind_mode
        == NetworkBindMode::ManualRoundRobin) && c.bind_interfaces.len() == 0 {
        Some("bind_interfaces is required for manual network binding"@)
    } else if c.bind_interfaces.len() > 64 {
        Some("bind_interfaces must contain <= 64 entries"@)
    } else if exists|k: int|
        0 <= k < c.bind_interfaces.len() && (utf8_len(#[trigger] c.bind_interfaces[k]) > 64
            || !interface_name_ok(c.bind_interfaces[k])) {
        Some("bind_interfaces contains an invalid interface name"@)
    } else {
        None
    }
}

/// The path of a WebSocket endpoint does not change when it is normalized
/// again.
pub proof fn lemma_websocket_path_stable(path: Option<Seq<char>>)
    ensures
        websocket_path_for(Some(websocket_path_for(path))) == websocket_path_for(path),
        websocket_path_for(path).len() > 0 && websocket_path_for(path)[0] == '/',
{
    reveal_strlit("/mqtt");
    let p = match path {
        Some(s) => if is_blank(s) {
            "/mqtt"@
        } else {
            trim(s)
        },
        None => "/mqtt"@,
    };
    match path {
        Some(s) => {
            crate::text::lemma_trim_idempotent(s);
        },
        None => {},
    }
    assert(p.len() > 0 && !crate::text::is_unicode_whitespace(p.last()));
    let q = websocket_path_for(path);
    assert(q.last() == p.last());
    crate::text::lemma_trim_fixed(q);
}

proof fn lemma_kept_interfaces_clean(v: Seq<Seq<char>>)
    ensures
        forall|i: int|
            0 <= i < kept_interfaces(v).len() ==> interface_name_ok(#[trigger] kept_interfaces(v)[i])
                && trim(kept_interfaces(v)[i]) == kept_interfaces(v)[i],
        forall|i: int, j: int|
            0 <= i < j < kept_interfaces(v).len() ==> #[trigger] kept_interfaces(v)[i]
                != #[trigger] kept_interfaces(v)[j],
    decreases v.len(),
{
    if v.len() > 0 {
        lemma_kept_interfaces_clean(v.drop_last());
        crate::text::lemma_trim_idempotent(v.last());
        let prev = kept_interfaces(v.drop_last());
        let t = trim(v.last());
        if interface_name_ok(t) && !prev.contains(t) {
            assert forall|i: int, j: int|
                0 <= i < j < prev.push(t).len() implies #[trigger] prev.push(t)[i]
                != #[trigger] prev.push(t)[j] by {
                if j == prev.len() {
                    assert(prev[i] != t) by {
                        if prev[i] == t {
                            assert(prev.contains(t));
                        }
                    }
                }
            }
        }
    }
}

proof fn lemma_kept_interfaces_fixed(w: Seq<Seq<char>>)
    requires
        forall|i: int| 0 <= i < w.len() ==> interface_name_ok(#[trigger] w[i]) && trim(w[i]) == w[i],
        forall|i: int, j: int| 0 <= i < j < w.len() ==> #[trigger] w[i] != #[trigger] w[j],
    ensures
        kept_interfaces(w) == w,
    decreases w.len(),
{
    if w.len() > 0 {
        let d = w.drop_last();
        assert forall|i: int, j: int| 0 <= i < j < d.len() implies #[trigger] d[i] != #[trigger] d[j] by {
            assert(d[i] == w[i] && d[j] == w[j]);
        }
        lemma_kept_interfaces_fixed(d);
        assert(interface_name_ok(w[w.len() - 1]) && trim(w[w.len() - 1]) == w[w.len() - 1]);
        assert(!d.contains(w.last())) by {
            if d.contains(w.last()) {
                let i = choose|i: int| 0 <= i < d.len() && d[i] == w.last();
                assert(w[i] != w[w.len() - 1]);
            }
        }
        assert(d.push(w.last()) =~= w);
    }
}

/// Cleaning an interface list that was cleaned already changes nothing.
pub proof fn lemma_kept_interfaces_idempotent(v: Seq<Seq<char>>)
    ensures
        kept_interfaces(kept_interfaces(v)) == kept_interfaces(v),
{
    lemma_kept_interfaces_clean(v);
    lemma_kept_interfaces_fixed(kept_interfaces(v));
}

/// Normalizing a configuration that was normalized already changes
/// nothing.
pub proof fn lemma_normalized_config_idempotent(c: BenchConfigView)
    ensures
        normalized_config(normalized_config(c)) == normalized_config(c),
{
    reveal_strlit("127.0.0.1");
    reveal_strlit("velamq-{mode}-{i}");
    reveal_strlit("velamq/bench/{i}");
    let n = normalized_config(c);
    if is_blank(c.host) {
        crate::text::lemma_trim_fixed("127.0.0.1"@);
    }
    if is_blank(c.client_id_template) {
        crate::text::lemma_trim_fixed(default_client_id_template());
    }
    if is_blank(c.topic) {
        crate::text::lemma_trim_fixed(default_topic_template());
    }
    lemma_websocket_path_stable(c.websocket_path);
    lemma_kept_interfaces_idempotent(c.bind_interfaces);
    let m = normalized_config(n);
    assert(m.websocket_path == n.websocket_path);
    assert(m.bind_interfaces == n.bind_interfaces);
    assert(m.host == n.host);
    assert(m.client_id_template == n.client_id_template);
    assert(m.topic == n.topic);
}

impl BenchConfig {
    /// Fills in missing settings: a blank host, zero clients, port or
    /// keepalive, blank templates, a payload too small for its timestamp,
    /// too short intervals; sets or clears the WebSocket path by protocol
    /// and cleans the interface list.
    pub fn normalized(self) -> (r: Self)
        ensures
            r@ == normalized_config(self@),
    {
        let mut c = self;
        if blank(c.host.as_str()) {
            c.host = string_of("127.0.0.1");
        }
        if c.clients == 0 {
            c.clients = 1;
        }
        if c.port == 0 {
            c.port = c.protocol.default_port();
        }
        if c.protocol.is_websocket() {
            let path = match &c.websocket_path {
                Some(p) => normalize_websocket_path(Some(p.as_str())),
                None => normalize_websocket_path(None),
            };
            c.websocket_path = Some(path);
        } else {
            c.websocket_path = None;
        }
        if c.keepalive_secs == 0 {
            c.keepalive_secs = 30;
        }
        if blank(c.client_id_template.as_str()) {
            c.client_id_template = string_of("velamq-{mode}-{i}");
        }
        if blank(c.topic.as_str()) {
            c.topic = string_of("velamq/bench/{i}");
        }
        if c.payload_timestamp && c.payload_size < 40 {
            c.payload_size = 40;
        }
        if c.message_interval_ms == 0 {
            c.message_interval_ms = 1;
        }
        if c.sample_interval_ms < 250 {
            c.sample_interval_ms = 250;
        }
        let mut interfaces: Vec<String> = Vec::new();
        std::mem::swap(&mut interfaces, &mut c.bind_interfaces);
        c.bind_interfaces = normalize_bind_interfaces(interfaces);
        c
    }

    /// Checks the limits of a configuration.
    #[verifier::loop_isolation(false)]
    pub fn validate(&self) -> (r: Result<(), String>)
        ensures
            match r {
                Ok(()) => config_error(self@) is None,
                Err(e) => config_error(self@) == Some(e@),
            },
    {
        if self.clients > 100_000 {
            return Err(string_of("clients must be <= 100000"));
        }
        if self.payload_size > 1024 * 1024 {
            return Err(string_of("payload_size must be <= 1048576"));
        }
        if self.keepalive_secs > 3600 {
            return Err(string_of("keepalive_secs must be <= 3600"));
        }
        if self.sample_interval_ms > 60_000 {
            return Err(string_of("sample_interval_ms must be <= 60000"));
        }
        if self.network_bind_mode.is_manual() && self.bind_interfaces.len() == 0 {
            return Err(string_of("bind_interfaces is required for manual network binding"));
        }
        if self.bind_interfaces.len() > 64 {
            return Err(string_of("bind_interfaces must contain <= 64 entries"));
        }
        let mut k: usize = 0;
        while k < self.bind_interfaces.len()
            invariant
                k <= self.bind_interfaces@.len(),
                forall|j: int|
                    0 <= j < k ==> !(utf8_len(#[trigger] texts(self.bind_interfaces@)[j]) > 64
                        || !interface_name_ok(texts(self.bind_interfaces@)[j])),
            decreases self.bind_interfaces@.len() - k,
        {
            let name = self.bind_interfaces[k].as_str();
            if byte_len(name) > 64 || !is_valid_interface_name(name) {
                assert(self@.bind_interfaces[k as int] == name@);
                assert(utf8_len(self@.bind_interfaces[k as int]) > 64 || !interface_name_ok(
                    self@.bind_interfaces[k as int],
                ));
                return Err(string_of("bind_interfaces contains an invalid interface name"));
            }
            k = k + 1;
        }
        Ok(())
    }

    /// The MQTT client id of client number `index`.
    pub fn client_id_for(&self, index: u64) -> (r: String)
        ensures
            r@ == rendered(self.client_id_template@, self.mode.name(), index),
    {
        render_template(self.client_id_template.as_str(), self.mode.as_str(), index)
    }

    /// The topic of client number `index`.
    pub fn topic_for(&self, index: u64) -> (r: String)
        ensures
            r@ == rendered(self.topic@, self.mode.name(), index),
    {
        render_template(self.topic.as_str(), self.mode.as_str(), index)
    }
}

/// The byte length of an optional text, zero when it is absent.
pub open spec fn opt_len(o: Option<Seq<char>>) -> nat {
    match o {
        Some(s) => utf8_len(s),
        None => 0,
    }
}

fn opt_byte_len(o: &Option<String>) -> (r: u128)
    ensures
        r == opt_len(opt_view(*o)),
{
    match o {
        Some(s) => byte_len(s.as_str()),
        None => 0,
    }
}

/// Whether some tag is longer than 64 bytes.
pub open spec fn has_long_tag(tags: Seq<Seq<char>>) -> bool {
    exists|k: int| 0 <= k < tags.len() && utf8_len(#[trigger] tags[k]) > 64
}

fn any_long_tag(tags: &Vec<String>) -> (r: bool)
    ensures
        r == has_long_tag(texts(tags@)),
{
    let mut k: usize = 0;
    while k < tags.len()
        invariant
            k <= tags@.len(),
            forall|j: int| 0 <= j < k ==> utf8_len(#[trigger] texts(tags@)[j]) <= 64,
        decreases tags@.len() - k,
    {
        if byte_len(tags[k].as_str()) > 64 {
            assert(texts(tags@)[k as int] == tags@[k as int]@);
            return true;
        }
        k = k + 1;
    }
    false
}

/// The name a draft is saved under: its own name trimmed, or the fallback
/// when it has none or only blanks.
pub open spec fn draft_name(name: Option<Seq<char>>, fallback: Seq<char>) -> Seq<char> {
    match name {
        Some(n) => if is_blank(n) {
            fallback
        } else {
            trim(n)
        },
        None => fallback,
    }
}

/// A trimmed optional description.
pub open spec fn trimmed_opt(o: Option<Seq<char>>) -> Option<Seq<char>> {
    match o {
        Some(d) => Some(trim(d)),
        None => None,
    }
}

fn name_or(name: Option<String>, fallback: String) -> (r: String)
    ensures
        r@ == draft_name(opt_view(name), fallback@),
{
    match name {
        Some(n) => if blank(n.as_str()) {
            fallback
        } else {
            trimmed(n.as_str())
        },
        None => fallback,
    }
}

fn trim_opt(o: Option<String>) -> (r: Option<String>)
    ensures
        opt_view(r) == trimmed_opt(opt_view(o)),
{
    match o {
        Some(d) => Some(trimmed(d.as_str())),
        None => None,
    }
}

/// The details saved with a finished run.
#[derive(Debug, Clone)]
pub struct SpecimenDraft {
    pub name: Option<String>,
    pub description: Option<String>,
    pub tags: Vec<String>,
}

/// A draft's name, description and tags as text.
pub struct DraftView {
    pub name: Option<Seq<char>>,
    pub description: Option<Seq<char>>,
    pub tags: Seq<Seq<char>>,
}

impl View for SpecimenDraft {
    type V = DraftView;

    open spec fn view(&self) -> DraftView {
        DraftView {
            name: opt_view(self.name),
            description: opt_view(self.description),
            tags: texts(self.tags@),
        }
    }
}

impl Default for SpecimenDraft {
    fn default() -> (r: Self)
        ensures
            r@ == (DraftView { name: None, description: None, tags: seq![] }),
    {
        let r = SpecimenDraft { name: None, description: None, tags: Vec::new() };
        assert(texts(r.tags@) =~= Seq::<Seq<char>>::empty());
        r
    }
}

/// A draft as it is saved: named (by the fallback if need be), its
/// description and tags cleaned.
pub open spec fn normalized_draft(d: DraftView, fallback: Seq<char>) -> DraftView {
    DraftView {
        name: Some(draft_name(d.name, fallback)),
        description: trimmed_opt(d.description),
        tags: clean_tags(d.tags),
    }
}

/// The first limit that a specimen's details break, with its message.
pub open spec fn specimen_error(d: DraftView) -> Option<Seq<char>> {
    if opt_len(d.name) > 120 {
        Some("specimen name must be <= 120 characters"@)
    } else if opt_len(d.description) > 2000 {
        Some("specimen description must be <= 2000 characters"@)
    } else if has_long_tag(d.tags) {
        Some("specimen tags must be <= 64 characters each"@)
    } else {
        None
    }
}

impl SpecimenDraft {
    pub fn normalized(self, fallback_name: String) -> (r: Self)
        ensures
            r@ == normalized_draft(self@, fallback_name@),
    {
        SpecimenDraft {
            name: Some(name_or(self.name, fallback_name)),
            description: trim_opt(self.description),
            tags: normalize_tags(self.tags),
        }
    }

    pub fn validate(&self) -> (r: Result<(), String>)
        ensures
            match r {
                Ok(()) => specimen_error(self@) is None,
                Err(e) => specimen_error(self@) == Some(e@),
            },
    {
        if opt_byte_len(&self.name) > 120 {
            return Err(string_of("specimen name must be <= 120 characters"));
        }
        if opt_byte_len(&self.description) > 2000 {
            return Err(string_of("specimen description must be <= 2000 characters"));
        }
        if any_long_tag(&self.tags) {
            return Err(string_of("specimen tags must be <= 64 characters each"));
        }
        Ok(())
    }
}

/// A request to start a benchmark, with the details to save with its run.
#[derive(Debug, Clone)]
pub struct StartBenchRequest {
    pub config: BenchConfig,
    pub specimen: SpecimenDraft,
}

impl Default for StartBenchRequest {
    fn default() -> (r: Self)
        ensures
            r.config@ == default_config(),
            r.specimen@ == (DraftView { name: None, description: None, tags: seq![] }),
    {
        StartBenchRequest { config: BenchConfig::default(), specimen: SpecimenDraft::default() }
    }
}

/// Where the single-run benchmark is in its life.
#[derive(Debug, Clone, Copy, PartialEq, Eq, Structural)]
pub enum BenchStatus {
    Idle,
    Starting,
    Running,
    Stopping,
    Completed,
    Stopped,
    Failed,
}

/// A change to a saved specimen; absent fields stay as they are.
#[derive(Debug, Clone)]
pub struct SpecimenUpdate {
    pub name: Option<String>,
    pub description: Option<String>,
    pub tags: Option<Vec<String>>,
}

impl Default for SpecimenUpdate {
    fn default() -> (r: Self)
        ensures
            r.name is None,
            r.description is None,
            r.tags is None,
    {
        SpecimenUpdate { name: None, description: None, tags: None }
    }
}

/// The first limit that a specimen update breaks, with its message.
pub open spec fn specimen_update_error(u: SpecimenUpdate) -> Option<Seq<char>> {
    if opt_len(opt_view(u.name)) > 120 {
        Some("specimen name must be <= 120 characters"@)
    } else if opt_len(opt_view(u.description)) > 2000 {
        Some("specimen description must be <= 2000 characters"@)
    } else if (match u.tags {
        Some(t) => has_long_tag(texts(t@)),
        None => false,
    }) {
        Some("specimen tags must be <= 64 characters each"@)
    } else {
        None
    }
}

impl SpecimenUpdate {
    pub fn validate(&self) -> (r: Result<(), String>)
        ensures
            match r {
                Ok(()) => specimen_update_error(*self) is None,
                Err(e) => specimen_update_error(*self) == Some(e@),
            },
    {
        if opt_byte_len(&self.name) > 120 {
            return Err(string_of("specimen name must be <= 120 characters"));
        }
        if opt_byte_len(&self.description) > 2000 {
            return Err(string_of("specimen description must be <= 2000 characters"));
        }
        if let Some(tags) = &self.tags {
            if any_long_tag(tags) {
                return Err(string_of("specimen tags must be <= 64 characters each"));
            }
        }
        Ok(())
    }
}

/// A benchmark configuration saved for reuse, with its name and tags.
#[derive(Debug, Clone)]
pub struct TemplateDraft {
    pub name: Option<String>,
    pub description: Option<String>,
    pub tags: Vec<String>,
    pub config: BenchConfig,
}

/// A template draft as text.
pub struct TemplateView {
    pub details: DraftView,
    pub config: BenchConfigView,
}

impl View for TemplateDraft {
    type V = TemplateView;

    open spec fn view(&self) -> TemplateView {
        TemplateView {
            details: DraftView {
                name: opt_view(self.name),
                description: opt_view(self.description),
                tags: texts(self.tags@),
            },
            config: self.config@,
        }
    }
}

impl Default for TemplateDraft {
    fn default() -> (r: Self)
        ensures
            r@ == (TemplateView {
                details: DraftView { name: None, description: None, tags: seq![] },
                config: default_config(),
            }),
    {
        let r = TemplateDraft {
            name: None,
            description: None,
            tags: Vec::new(),
            config: BenchConfig::default(),
        };
        assert(texts(r.tags@) =~= Seq::<Seq<char>>::empty());
        r
    }
}

/// The first limit that a template's details break, with its message.
pub open spec fn template_error(d: DraftView) -> Option<Seq<char>> {
    if opt_len(d.name) > 120 {
        Some("template name must be <= 120 characters"@)
    } else if opt_len(d.description) > 2000 {
        Some("template description must be <= 2000 characters"@)
    } else if has_long_tag(d.tags) {
        Some("template tags must be <= 64 characters each"@)
    } else {
        None
    }
}

/// A template as it is saved: details cleaned, configuration normalized.
pub open spec fn normalized_template(t: TemplateView, fallback: Seq<char>) -> TemplateView {
    TemplateView {
        details: normalized_draft(t.details, fallback),
        config: normalized_config(t.config),
    }
}

/// Why a template cannot be saved: its normalized configuration breaks a
/// limit, or else its cleaned details do.
pub open spec fn template_outcome_error(t: TemplateView, fallback: Seq<char>) -> Option<Seq<char>> {
    let n = normalized_template(t, fallback);
    match config_error(n.config) {
        Some(e) => Some(e),
        None => template_error(n.details),
    }
}

impl TemplateDraft {
    /// Cleans the details, normalizes the configuration and checks both.
    pub fn normalized(self, fallback_name: String) -> (r: Result<Self, String>)
        ensures
            match r {
                Ok(t) => template_outcome_error(self@, fallback_name@) is None && t@
                    == normalized_template(self@, fallback_name@),
                Err(e) => template_outcome_error(self@, fallback_name@) == Some(e@),
            },
    {
        let name = name_or(self.name, fallback_name);
        let description = trim_opt(self.description);
        let tags = normalize_tags(self.tags);
        let config = self.config.normalized();
        config.validate()?;
        let normalized = TemplateDraft { name: Some(name), description, tags, config };
        normalized.validate()?;
        Ok(normalized)
    }

    pub fn validate(&self) -> (r: Result<(), String>)
        ensures
            match r {
                Ok(()) => template_error(self@.details) is None,
                Err(e) => template_error(self@.details) == Some(e@),
            },
    {
        if opt_byte_len(&self.name) > 120 {
            return Err(string_of("template name must be <= 120 characters"));
        }
        if opt_byte_len(&self.description) > 2000 {
            return Err(string_of("template description must be <= 2000 characters"));
        }
        if any_long_tag(&self.tags) {
            return Err(string_of("template tags must be <= 64 characters each"));
        }
        Ok(())
    }
}

/// A local network interface as the console lists it.
#[derive(Debug, Clone)]
pub struct NetworkInterfaceInfo {
    pub name: String,
    pub addresses: Vec<String>,
    pub loopback: bool,
    pub bind_supported: bool,
}

/// The details saved with a finished run.
#[derive(Debug, Clone)]
pub struct BenchSpecimen {
    pub id: String,
    pub run_id: String,
    pub name: String,
    pub description: String,
    pub tags: Vec<String>,
    pub config: BenchConfig,
    pub created_at: crate::model::time::UtcTimestamp,
}

/// A saved benchmark configuration with its name and tags.
#[derive(Debug, Clone)]
pub struct BenchTemplate {
    pub id: String,
    pub name: String,
    pub description: String,
    pub tags: Vec<String>,
    pub config: BenchConfig,
    pub created_at: crate::model::time::UtcTimestamp,
    pub updated_at: crate::model::time::UtcTimestamp,
}

/// One line of the run log.
#[derive(Debug, Clone)]
pub struct LogLine {
    pub ts: crate::model::time::UtcTimestamp,
    pub level: String,
    pub message: String,
}

impl LogLine {
    /// A copy of this line.
    pub fn duplicate(&self) -> (r: LogLine)
        ensures
            r.ts == self.ts,
            r.level@ == self.level@,
            r.message@ == self.message@,
    {
        LogLine { ts: self.ts, level: string_of(self.level.as_str()), message: string_of(self.message.as_str()) }
    }
}

/// The body of an error response.
#[derive(Debug, Clone)]
pub struct ApiError {
    pub error: String,
}

} // verus!
