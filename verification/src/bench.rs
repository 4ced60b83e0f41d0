//! The decisions of the benchmark engine that sit between a configuration
//! and its MQTT clients: which interface a client binds to, which address
//! it dials, what a broker profile turns into, and how message latency is
//! measured from a payload's timestamp.

use vstd::prelude::*;
use std::hash::{Hash, Hasher};
use crate::decimal::{dec_text, u64_text};
use crate::model::broker::{
    default_tls, opt_tls_view, AuthConfig, BrokerProfile, BrokerProtocol, TlsConfig, TlsView,
};
use crate::model::cluster::{contains_text, texts};
use crate::model::legacy::{
    config_error, normalized_template, template_outcome_error, BenchTemplate, TemplateDraft,
    BenchSpecimen, DraftView, LogLine, StartBenchRequest, default_config, normalized_draft,
    specimen_error, normalize_websocket_path, normalized_config, websocket_path_for, BenchConfig,
    BenchConfigView, BenchStatus, NetworkBindMode, NetworkInterfaceInfo,
};
use crate::model::payload::{PayloadKind, PayloadProfile};
use crate::model::run::{Run, RunStatus, RunWorkload};
use crate::model::time::UtcTimestamp;
use crate::model::workload::WorkloadKind;
use crate::text::{
    append_chars, chars_of, opt_view, starts_with_chars, string_from_chars, string_of, trim,
    trim_chars,
};

verus! {

/// The outcome of a test connection to a saved broker.
#[derive(Debug, Clone)]
pub struct BrokerConnectionTest {
    pub ok: bool,
    pub profile_id: String,
    pub host: String,
    pub port: u16,
    pub elapsed_ms: u64,
    pub error: Option<String>,
}

/// The names of some interfaces.
pub open spec fn interface_names(v: Seq<NetworkInterfaceInfo>) -> Seq<Seq<char>> {
    v.map_values(|i: NetworkInterfaceInfo| i.name@)
}

/// The names of the interfaces that are not loopback, in order.
pub open spec fn non_loopback_names(v: Seq<NetworkInterfaceInfo>) -> Seq<Seq<char>>
    decreases v.len(),
{
    if v.len() == 0 {
        seq![]
    } else if v.last().loopback {
        non_loopback_names(v.drop_last())
    } else {
        non_loopback_names(v.drop_last()).push(v.last().name@)
    }
}

/// The devices that automatic binding spreads clients over: every
/// interface that is not loopback, or every interface when all are.
pub open spec fn auto_devices(v: Seq<NetworkInterfaceInfo>) -> Seq<Seq<char>> {
    if non_loopback_names(v).len() == 0 {
        interface_names(v)
    } else {
        non_loopback_names(v)
    }
}

pub fn auto_bind_devices(interfaces: Vec<NetworkInterfaceInfo>) -> (r: Vec<String>)
    ensures
        texts(r@) == auto_devices(interfaces@),
{
    let mut non_loopback: Vec<String> = Vec::new();
    let mut all: Vec<String> = Vec::new();
    let mut i: usize = 0;
    while i < interfaces.len()
        invariant
            i <= interfaces@.len(),
            texts(non_loopback@) == non_loopback_names(interfaces@.take(i as int)),
            texts(all@) == interface_names(interfaces@.take(i as int)),
        decreases interfaces@.len() - i,
    {
        let ghost before_nl = non_loopback@;
        let ghost before_all = all@;
        assert(interfaces@.take(i + 1).drop_last() =~= interfaces@.take(i as int));
        let name = string_of(interfaces[i].name.as_str());
        if !interfaces[i].loopback {
            non_loopback.push(string_of(interfaces[i].name.as_str()));
            assert(texts(non_loopback@) =~= texts(before_nl).push(interfaces@[i as int].name@));
        }
        all.push(name);
        assert(texts(all@) =~= texts(before_all).push(interfaces@[i as int].name@));
        assert(interface_names(interfaces@.take(i + 1)) =~= interface_names(
            interfaces@.take(i as int),
        ).push(interfaces@[i as int].name@));
        i = i + 1;
    }
    assert(interfaces@.take(interfaces@.len() as int) =~= interfaces@);
    if non_loopback.len() == 0 {
        all
    } else {
        non_loopback
    }
}

/// Whether an operator's entry names an interface, by its name or by one of
/// its addresses.
pub open spec fn entry_matches(i: NetworkInterfaceInfo, entry: Seq<char>) -> bool {
    i.name@ == entry || texts(i.addresses@).contains(entry)
}

/// The name of the first interface that an entry names.
pub open spec fn first_match(v: Seq<NetworkInterfaceInfo>, entry: Seq<char>) -> Option<Seq<char>>
    decreases v.len(),
{
    if v.len() == 0 {
        None
    } else if entry_matches(v[0], entry) {
        Some(v[0].name@)
    } else {
        first_match(v.drop_first(), entry)
    }
}

/// The devices that manual binding uses: for each entry the interface it
/// names (each interface once), or the entry itself when it names none.
pub open spec fn manual_devices(entries: Seq<Seq<char>>, v: Seq<NetworkInterfaceInfo>) -> Seq<
    Seq<char>,
>
    decreases entries.len(),
{
    if entries.len() == 0 {
        seq![]
    } else {
        let prev = manual_devices(entries.drop_last(), v);
        match first_match(v, entries.last()) {
            None => prev.push(entries.last()),
            Some(d) => if prev.contains(d) {
                prev
            } else {
                prev.push(d)
            },
        }
    }
}

fn find_interface(interfaces: &Vec<NetworkInterfaceInfo>, entry: &String) -> (r: Option<String>)
    ensures
        opt_view(r) == first_match(interfaces@, entry@),
{
    let mut k: usize = 0;
    assert(interfaces@.skip(0) =~= interfaces@);
    while k < interfaces.len()
        invariant
            k <= interfaces@.len(),
            first_match(interfaces@, entry@) == first_match(interfaces@.skip(k as int), entry@),
        decreases interfaces@.len() - k,
    {
        assert(interfaces@.skip(k as int)[0] == interfaces@[k as int]);
        assert(interfaces@.skip(k as int).drop_first() =~= interfaces@.skip(k + 1));
        let iface = &interfaces[k];
        if crate::text::str_eq(iface.name.as_str(), entry.as_str()) || contains_text(
            &iface.addresses,
            entry,
        ) {
            return Some(string_of(iface.name.as_str()));
        }
        k = k + 1;
    }
    None
}

pub fn manual_bind_devices(entries: &[String], interfaces: Vec<NetworkInterfaceInfo>) -> (r: Vec<
    String,
>)
    ensures
        texts(r@) == manual_devices(texts(entries@), interfaces@),
{
    let mut devices: Vec<String> = Vec::new();
    let mut i: usize = 0;
    while i < entries.len()
        invariant
            i <= entries@.len(),
            texts(devices@) == manual_devices(texts(entries@).take(i as int), interfaces@),
        decreases entries@.len() - i,
    {
        let ghost before = devices@;
        assert(texts(entries@).take(i + 1).drop_last() =~= texts(entries@).take(i as int));
        assert(texts(entries@).take(i + 1).last() == entries@[i as int]@);
        match find_interface(&interfaces, &entries[i]) {
            None => {
                devices.push(string_of(entries[i].as_str()));
                assert(texts(devices@) =~= texts(before).push(entries@[i as int]@));
            },
            Some(device) => {
                if !contains_text(&devices, &device) {
                    let ghost d = device@;
                    devices.push(device);
                    assert(texts(devices@) =~= texts(before).push(d));
                }
            },
        }
        i = i + 1;
    }
    assert(texts(entries@).take(entries@.len() as int) =~= texts(entries@));
    devices
}

/// The network interfaces that a benchmark's clients are spread over.
#[derive(Debug, Clone)]
pub struct NetworkBindingPlan {
    pub mode: NetworkBindMode,
    pub devices: Vec<String>,
}

/// The device of a client, by the plan's mode: the hash of the run and the
/// client picks it for random modes, the client's offset otherwise.
pub open spec fn device_choice(
    mode: NetworkBindMode,
    devices: Seq<Seq<char>>,
    hash: u64,
    offset: usize,
) -> Option<Seq<char>> {
    if mode == NetworkBindMode::System || devices.len() == 0 {
        None
    } else if mode == NetworkBindMode::AutoRandom || mode == NetworkBindMode::ManualRandom {
        Some(devices[((hash as usize) as int) % (devices.len() as int)])
    } else {
        Some(devices[(offset as int) % (devices.len() as int)])
    }
}

/// `<u64 as std::hash::Hash>::hash`: feeds an integer to a hasher. std does
/// not document which bytes it writes, so nothing is stated of the
/// hasher's state after it.
#[verifier::external_body]
fn hash_u64(value: u64, hasher: &mut std::collections::hash_map::DefaultHasher) {
    value.hash(hasher);
}

/// The hash of the run id and then the client index from a fresh
/// `DefaultHasher`. std does not fix the algorithm, so nothing is stated of
/// the value.
fn client_hash(run_id: &str, index: u64) -> u64 {
    let mut hasher = std::collections::hash_map::DefaultHasher::new();
    crate::storage::hash_str(run_id, &mut hasher);
    hash_u64(index, &mut hasher);
    hasher.finish()
}

impl NetworkBindingPlan {
    /// The plan for a configuration, over the interfaces this machine has.
    pub fn from_config(config: &BenchConfig, interfaces: Vec<NetworkInterfaceInfo>) -> (r: Self)
        ensures
            r.mode == config.network_bind_mode,
            texts(r.devices@) == match config.network_bind_mode {
                NetworkBindMode::System => Seq::<Seq<char>>::empty(),
                NetworkBindMode::AutoRandom | NetworkBindMode::AutoRoundRobin => auto_devices(
                    interfaces@,
                ),
                _ => manual_devices(texts(config.bind_interfaces@), interfaces@),
            },
    {
        let devices = match config.network_bind_mode {
            NetworkBindMode::System => {
                let v: Vec<String> = Vec::new();
                assert(texts(v@) =~= Seq::<Seq<char>>::empty());
                v
            },
            NetworkBindMode::AutoRandom | NetworkBindMode::AutoRoundRobin => auto_bind_devices(
                interfaces,
            ),
            NetworkBindMode::ManualRandom | NetworkBindMode::ManualRoundRobin => manual_bind_devices(
                config.bind_interfaces.as_slice(),
                interfaces,
            ),
        };
        NetworkBindingPlan { mode: config.network_bind_mode, devices }
    }

    pub fn is_enabled(&self) -> (r: bool)
        ensures
            r == (self.mode != NetworkBindMode::System),
    {
        self.mode.is_enabled()
    }

    /// The device for a client, given the hash that random modes use.
    pub fn device_at(&self, hash: u64, offset: usize) -> (r: Option<String>)
        ensures
            opt_view(r) == device_choice(self.mode, texts(self.devices@), hash, offset),
    {
        if !self.is_enabled() || self.devices.len() == 0 {
            return None;
        }
        let selected: usize = if self.mode.is_random() {
            (hash as usize) % self.devices.len()
        } else {
            offset % self.devices.len()
        };
        Some(string_of(self.devices[selected].as_str()))
    }

    /// The device client `index` (the `offset`-th launched) of a run binds to.
    pub fn device_for(&self, run_id: &str, index: u64, offset: usize) -> (r: Option<String>)
        ensures
            exists|hash: u64|
                opt_view(r) == #[trigger] device_choice(
                    self.mode,
                    texts(self.devices@),
                    hash,
                    offset,
                ),
    {
        let hash = client_hash(run_id, index);
        self.device_at(hash, offset)
    }
}

/// Whether the text holds a colon.
pub open spec fn has_colon(s: Seq<char>) -> bool {
    s.contains(':')
}

/// The address a client dials: the host as given for plain MQTT; for
/// WebSocket a URL of scheme, host (bracketed if it is a bare IPv6
/// address), port and path, unless the host is a URL already.
pub open spec fn broker_address(c: BenchConfigView) -> Seq<char> {
    if !c.protocol.spec_is_websocket() {
        c.host
    } else {
        let host = trim(c.host);
        if "ws://"@.is_prefix_of(host) || "wss://"@.is_prefix_of(host) {
            host
        } else {
            let h = if has_colon(host) && !(host.len() > 0 && host[0] == '[') && !(host.len() > 0
                && host.last() == ']') {
                seq!['['] + host + seq![']']
            } else {
                host
            };
            c.protocol.storage_name() + "://"@ + h + seq![':'] + dec_text(c.port as nat)
                + websocket_path_for(c.websocket_path)
        }
    }
}

fn has_colon_chars(s: &[char]) -> (r: bool)
    ensures
        r == has_colon(s@),
{
    let mut i: usize = 0;
    while i < s.len()
        invariant
            i <= s@.len(),
            forall|j: int| 0 <= j < i ==> s@[j] != ':',
        decreases s@.len() - i,
    {
        if s[i] == ':' {
            assert(s@[i as int] == ':');
            return true;
        }
        i = i + 1;
    }
    false
}

pub fn broker_address_for_config(config: &BenchConfig) -> (r: String)
    ensures
        r@ == broker_address(config@),
{
    if !config.protocol.is_websocket() {
        return string_of(config.host.as_str());
    }
    let raw = chars_of(config.host.as_str());
    let host = trim_chars(raw.as_slice());
    let ws = chars_of("ws://");
    let wss = chars_of("wss://");
    if starts_with_chars(host.as_slice(), ws.as_slice()) || starts_with_chars(
        host.as_slice(),
        wss.as_slice(),
    ) {
        return string_from_chars(host.as_slice());
    }
    let path = match &config.websocket_path {
        Some(p) => normalize_websocket_path(Some(p.as_str())),
        None => normalize_websocket_path(None),
    };
    let bracket = has_colon_chars(host.as_slice()) && !(host.len() > 0 && host[0] == '[') && !(
    host.len() > 0 && host[host.len() - 1] == ']');
    let mut out = chars_of(config.protocol.as_str());
    let sep = chars_of("://");
    append_chars(&mut out, sep.as_slice());
    if bracket {
        out.push('[');
        append_chars(&mut out, host.as_slice());
        out.push(']');
    } else {
        append_chars(&mut out, host.as_slice());
    }
    out.push(':');
    let port = u64_text(config.port as u64);
    append_chars(&mut out, port.as_slice());
    let path_chars = chars_of(path.as_str());
    append_chars(&mut out, path_chars.as_slice());
    proof {
        let h = if bracket {
            seq!['['] + host@ + seq![']']
        } else {
            host@
        };
        assert(out@ =~= config.protocol.storage_name() + "://"@ + h + seq![':'] + dec_text(
            config.port as nat,
        ) + websocket_path_for(opt_view(config.websocket_path)));
    }
    string_from_chars(out.as_slice())
}

/// The name a benchmark status is reported under.
pub open spec fn status_label(status: BenchStatus) -> Seq<char> {
    match status {
        BenchStatus::Idle => "idle"@,
        BenchStatus::Starting => "starting"@,
        BenchStatus::Running => "running"@,
        BenchStatus::Stopping => "stopping"@,
        BenchStatus::Completed => "completed"@,
        BenchStatus::Stopped => "stopped"@,
        BenchStatus::Failed => "failed"@,
    }
}

pub fn status_name(status: &BenchStatus) -> (r: &'static str)
    ensures
        r@ == status_label(*status),
{
    match status {
        BenchStatus::Idle => "idle",
        BenchStatus::Starting => "starting",
        BenchStatus::Running => "running",
        BenchStatus::Stopping => "stopping",
        BenchStatus::Completed => "completed",
        BenchStatus::Stopped => "stopped",
        BenchStatus::Failed => "failed",
    }
}

/// The name a network binding mode is logged under.
pub open spec fn bind_mode_label(mode: NetworkBindMode) -> Seq<char> {
    match mode {
        NetworkBindMode::System => "system"@,
        NetworkBindMode::AutoRandom => "auto_random"@,
        NetworkBindMode::AutoRoundRobin => "auto_round_robin"@,
        NetworkBindMode::ManualRandom => "manual_random"@,
        NetworkBindMode::ManualRoundRobin => "manual_round_robin"@,
    }
}

pub fn network_bind_mode_label(mode: &NetworkBindMode) -> (r: &'static str)
    ensures
        r@ == bind_mode_label(*mode),
{
    match mode {
        NetworkBindMode::System => "system",
        NetworkBindMode::AutoRandom => "auto_random",
        NetworkBindMode::AutoRoundRobin => "auto_round_robin",
        NetworkBindMode::ManualRandom => "manual_random",
        NetworkBindMode::ManualRoundRobin => "manual_round_robin",
    }
}

/// `chrono::Utc::now().timestamp_nanos_opt()`: the current time in
/// nanoseconds since the Unix epoch, or `None` past the range of an `i64`.
/// Nothing is stated of the value: it is the clock's.
#[verifier::external_body]
fn clock_nanos() -> Option<i64> {
    chrono::Utc::now().timestamp_nanos_opt()
}

/// `chrono::Utc::now().timestamp_micros()`: the current time in
/// microseconds since the Unix epoch. Nothing is stated of the value: it is
/// the clock's.
#[verifier::external_body]
fn clock_micros() -> i64 {
    chrono::Utc::now().timestamp_micros()
}

/// A time in nanoseconds from two readings of the clock: the reading in
/// nanoseconds when it has one, else the reading in microseconds times a
/// thousand, saturated at the bounds of an `i64` (the bounds of `i64`
/// divided by a thousand, rounded toward zero, are ±9_223_372_036_854_775).
pub open spec fn clock_reading_nanos(nanos: Option<i64>, micros: i64) -> int {
    match nanos {
        Some(n) => n as int,
        None => if micros > 9_223_372_036_854_775 {
            i64::MAX as int
        } else if micros < -9_223_372_036_854_775 {
            i64::MIN as int
        } else {
            micros * 1000
        },
    }
}

/// Combines the clock's readings in nanoseconds and in microseconds into
/// one time in nanoseconds.
pub fn nanos_from_clock(nanos: Option<i64>, micros: i64) -> (r: i64)
    ensures
        r == clock_reading_nanos(nanos, micros),
{
    match nanos {
        Some(n) => n,
        None => {
            if micros > i64::MAX / 1000 {
                i64::MAX
            } else if micros < i64::MIN / 1000 {
                i64::MIN
            } else {
                micros * 1000
            }
        },
    }
}

/// The current time in nanoseconds since the Unix epoch; past the range of
/// nanoseconds, microseconds times a thousand, saturated at the bounds of
/// an `i64`. The value is the clock's: every `i64` is a possible reading.
pub fn unix_timestamp_nanos() -> (r: i64) {
    let nanos = clock_nanos();
    match nanos {
        Some(n) => nanos_from_clock(Some(n), 0),
        None => nanos_from_clock(None, clock_micros()),
    }
}

/// The time from `sent_ns` to `now_ns` in nanoseconds, unless the
/// difference overflows or is negative.
pub open spec fn latency_between_spec(now_ns: i64, sent_ns: i64) -> Option<u64> {
    let d = now_ns - sent_ns;
    if d < i64::MIN || d > i64::MAX || d < 0 {
        None
    } else {
        Some(d as u64)
    }
}

pub fn latency_between(now_ns: i64, sent_ns: i64) -> (r: Option<u64>)
    ensures
        r == latency_between_spec(now_ns, sent_ns),
{
    let diff: i128 = now_ns as i128 - sent_ns as i128;
    if diff < i64::MIN as i128 || diff > i64::MAX as i128 || diff < 0 {
        None
    } else {
        Some(diff as u64)
    }
}

/// The latency, in nanoseconds, of a message stamped `sent_ns`, measured
/// against the clock now; `None` when the stamp lies in the future.
pub fn latency_since(sent_ns: i64) -> (r: Option<u64>)
    ensures
        exists|now_ns: i64| r == #[trigger] latency_between_spec(now_ns, sent_ns),
{
    let now_ns = unix_timestamp_nanos();
    latency_between(now_ns, sent_ns)
}

/// The configuration a broker profile stands for, before normalization:
/// the defaults with the profile's endpoint, session and TLS settings and
/// its credentials (a client certificate turns TLS on).
pub open spec fn profile_config(p: BrokerProfile) -> BenchConfigView {
    let base = BenchConfigView {
        protocol: p.protocol,
        mqtt_version: p.mqtt_version,
        host: p.host@,
        port: p.port,
        websocket_path: opt_view(p.websocket_path),
        keepalive_secs: p.keepalive_secs,
        connection_timeout_secs: p.connection_timeout_secs,
        clean_session: p.clean_session,
        tls: opt_tls_view(p.tls),
        mqtt5: p.mqtt5,
        ..default_config()
    };
    match p.auth {
        Some(AuthConfig::UserPassword { username, password }) => BenchConfigView {
            username: Some(username@),
            password: Some(password@),
            ..base
        },
        Some(AuthConfig::ClientCert { cert_pem, key_pem }) => BenchConfigView {
            tls: Some(
                TlsView {
                    enabled: true,
                    client_cert_pem: Some(cert_pem@),
                    client_key_pem: Some(key_pem@),
                    ..match base.tls {
                        Some(t) => t,
                        None => default_tls(),
                    }
                },
            ),
            ..base
        },
        _ => base,
    }
}

/// The benchmark configuration of a saved broker profile.
pub fn config_from_broker_profile(profile: &BrokerProfile) -> (r: BenchConfig)
    ensures
        r@ == normalized_config(profile_config(*profile)),
{
    let mut config = BenchConfig::default();
    config.protocol = profile.protocol;
    config.mqtt_version = profile.mqtt_version;
    config.host = string_of(profile.host.as_str());
    config.port = profile.port;
    config.websocket_path = match &profile.websocket_path {
        Some(p) => Some(string_of(p.as_str())),
        None => None,
    };
    config.keepalive_secs = profile.keepalive_secs;
    config.connection_timeout_secs = profile.connection_timeout_secs;
    config.clean_session = profile.clean_session;
    config.tls = match &profile.tls {
        Some(t) => Some(t.duplicate()),
        None => None,
    };
    config.mqtt5 = profile.mqtt5;
    match &profile.auth {
        Some(AuthConfig::UserPassword { username, password }) => {
            config.username = Some(string_of(username.as_str()));
            config.password = Some(string_of(password.as_str()));
        },
        Some(AuthConfig::ClientCert { cert_pem, key_pem }) => {
            let mut tls = match config.tls {
                Some(t) => t,
                None => TlsConfig::default(),
            };
            tls.enabled = true;
            tls.client_cert_pem = Some(string_of(cert_pem.as_str()));
            tls.client_key_pem = Some(string_of(key_pem.as_str()));
            config.tls = Some(tls);
        },
        _ => {},
    }
    assert(config@ == profile_config(*profile));
    config.normalized()
}

/// How many lines the run log keeps.
pub const LOG_LIMIT: usize = 300;

/// The last `n` items of `s`, or all of them when there are fewer.
pub open spec fn keep_last<A>(s: Seq<A>, n: nat) -> Seq<A> {
    if s.len() <= n {
        s
    } else {
        s.skip(s.len() - n)
    }
}

/// A log line as text.
pub open spec fn line_view(l: LogLine) -> (crate::model::time::UtcTimestamp, Seq<char>, Seq<char>) {
    (l.ts, l.level@, l.message@)
}

/// Log lines as text.
pub open spec fn lines_view(s: Seq<LogLine>) -> Seq<(crate::model::time::UtcTimestamp, Seq<char>, Seq<char>)> {
    s.map_values(|l: LogLine| line_view(l))
}

/// The recent lines of the run log, oldest first, at most [`LOG_LIMIT`].
#[derive(Debug)]
pub struct LogBuffer {
    lines: std::collections::VecDeque<LogLine>,
}

impl LogBuffer {
    /// The lines held, oldest first, as text.
    pub closed spec fn contents(&self) -> Seq<(crate::model::time::UtcTimestamp, Seq<char>, Seq<char>)> {
        lines_view(self.lines@)
    }

    /// The buffer never holds more than [`LOG_LIMIT`] lines.
    pub closed spec fn wf(&self) -> bool {
        self.lines@.len() <= LOG_LIMIT
    }

    pub fn new() -> (r: Self)
        ensures
            r.wf(),
            r.contents() == Seq::<(crate::model::time::UtcTimestamp, Seq<char>, Seq<char>)>::empty(),
    {
        let r = LogBuffer { lines: std::collections::VecDeque::new() };
        assert(lines_view(r.lines@) =~= Seq::empty());
        r
    }

    /// Appends a line, dropping the oldest when the buffer is full.
    pub fn push(&mut self, line: LogLine)
        requires
            old(self).wf(),
        ensures
            final(self).wf(),
            final(self).contents() == keep_last(old(self).contents().push(line_view(line)), LOG_LIMIT as nat),
    {
        let ghost before = self.lines@;
        let ghost view = line_view(line);
        if self.lines.len() >= LOG_LIMIT {
            let _ = self.lines.pop_front();
        }
        let ghost mid = self.lines@;
        self.lines.push_back(line);
        proof {
            let full = lines_view(before).push(view);
            if before.len() >= LOG_LIMIT {
                assert(mid =~= before.drop_first());
                assert(lines_view(self.lines@) =~= full.skip(full.len() - LOG_LIMIT));
            } else {
                assert(lines_view(self.lines@) =~= full);
            }
        }
    }

    /// A copy of the lines, oldest first.
    pub fn snapshot(&self) -> (r: Vec<LogLine>)
        ensures
            lines_view(r@) == self.contents(),
    {
        let mut out: Vec<LogLine> = Vec::new();
        let mut i: usize = 0;
        while i < self.lines.len()
            invariant
                i <= self.lines@.len(),
                lines_view(out@) == lines_view(self.lines@.take(i as int)),
            decreases self.lines@.len() - i,
        {
            let ghost before = out@;
            let line = self.lines[i].duplicate();
            assert(line_view(line) == line_view(self.lines@[i as int]));
            out.push(line);
            assert(lines_view(out@) =~= lines_view(before).push(line_view(self.lines@[i as int])));
            assert(lines_view(self.lines@.take(i + 1)) =~= lines_view(self.lines@.take(i as int)).push(
                line_view(self.lines@[i as int]),
            ));
            i = i + 1;
        }
        assert(self.lines@.take(self.lines@.len() as int) =~= self.lines@);
        out
    }
}

/// A message for the run log and its level.
#[derive(Debug, Clone)]
pub struct LogNotice {
    pub level: String,
    pub message: String,
}

/// The texts joined with `sep` between them.
pub open spec fn joined(v: Seq<Seq<char>>, sep: Seq<char>) -> Seq<char>
    decreases v.len(),
{
    if v.len() == 0 {
        seq![]
    } else if v.len() == 1 {
        v[0]
    } else {
        joined(v.drop_last(), sep) + sep + v.last()
    }
}

fn join_texts(v: &Vec<String>, sep: &str) -> (r: Vec<char>)
    ensures
        r@ == joined(texts(v@), sep@),
{
    let mut out: Vec<char> = Vec::new();
    let s = chars_of(sep);
    let mut i: usize = 0;
    while i < v.len()
        invariant
            i <= v@.len(),
            s@ == sep@,
            out@ == joined(texts(v@).take(i as int), sep@),
        decreases v@.len() - i,
    {
        let ghost before = out@;
        if i > 0 {
            append_chars(&mut out, s.as_slice());
        }
        let item = chars_of(v[i].as_str());
        append_chars(&mut out, item.as_slice());
        assert(texts(v@).take(i + 1).drop_last() =~= texts(v@).take(i as int));
        i = i + 1;
    }
    assert(texts(v@).take(v@.len() as int) =~= texts(v@));
    out
}

/// The notices a run logs about its network binding: none for system
/// routing; a warning when binding found no interface; else the devices,
/// and a warning where the platform cannot bind.
pub open spec fn binding_notice_texts(
    mode: NetworkBindMode,
    devices: Seq<Seq<char>>,
    bind_supported: bool,
) -> Seq<(Seq<char>, Seq<char>)> {
    if mode == NetworkBindMode::System {
        seq![]
    } else if devices.len() == 0 {
        seq![(
            "warn"@,
            "network binding "@ + bind_mode_label(mode) + " has no usable interfaces; using system routing"@,
        )]
    } else {
        let over = ("info"@, "network binding "@ + bind_mode_label(mode) + " over "@ + joined(devices, ", "@));
        if bind_supported {
            seq![over]
        } else {
            seq![
                over,
                (
                    "warn"@,
                    "interface binding requires rumqttc bind_device support on Linux/Android/Fuchsia; this platform will use system routing"@,
                ),
            ]
        }
    }
}

fn notice(level: &str, message: Vec<char>) -> (r: LogNotice)
    ensures
        r.level@ == level@,
        r.message@ == message@,
{
    LogNotice { level: string_of(level), message: string_from_chars(message.as_slice()) }
}

/// What a run logs about its network binding plan.
pub fn binding_notices(plan: &NetworkBindingPlan, bind_supported: bool) -> (r: Vec<LogNotice>)
    ensures
        r@.map_values(|n: LogNotice| (n.level@, n.message@)) == binding_notice_texts(
            plan.mode,
            texts(plan.devices@),
            bind_supported,
        ),
{
    let mut out: Vec<LogNotice> = Vec::new();
    if !plan.is_enabled() {
        assert(out@.map_values(|n: LogNotice| (n.level@, n.message@)) =~= Seq::empty());
        return out;
    }
    let mut head = chars_of("network binding ");
    let label = chars_of(network_bind_mode_label(&plan.mode));
    append_chars(&mut head, label.as_slice());
    if plan.devices.len() == 0 {
        let tail = chars_of(" has no usable interfaces; using system routing");
        append_chars(&mut head, tail.as_slice());
        out.push(notice("warn", head));
    } else {
        let over = chars_of(" over ");
        append_chars(&mut head, over.as_slice());
        let devices = join_texts(&plan.devices, ", ");
        append_chars(&mut head, devices.as_slice());
        out.push(notice("info", head));
        if !bind_supported {
            out.push(
                notice(
                    "warn",
                    chars_of(
                        "interface binding requires rumqttc bind_device support on Linux/Android/Fuchsia; this platform will use system routing",
                    ),
                ),
            );
        }
    }
    assert(out@.map_values(|n: LogNotice| (n.level@, n.message@)) =~= binding_notice_texts(
        plan.mode,
        texts(plan.devices@),
        bind_supported,
    ));
    out
}

/// What wakes the loop of a running benchmark.
#[derive(Debug, Clone, Copy, PartialEq, Eq, Structural)]
pub enum RunTrigger {
    /// The sample interval passed.
    Tick,
    /// An operator asked the run to stop.
    StopRequested,
    /// The configured duration passed.
    DurationElapsed,
}

/// What the loop of a running benchmark does next.
#[derive(Debug, Clone, Copy, PartialEq, Eq, Structural)]
pub enum RunStep {
    /// Take and publish a metric snapshot, and keep running.
    TakeSnapshot,
    /// Stop the clients and close the run with this status.
    Finish(BenchStatus),
}

/// The next step of a running benchmark: a tick samples, a stop request
/// ends it as stopped, the end of its duration as completed.
pub fn run_step(trigger: RunTrigger) -> (r: RunStep)
    ensures
        r == match trigger {
            RunTrigger::Tick => RunStep::TakeSnapshot,
            RunTrigger::StopRequested => RunStep::Finish(BenchStatus::Stopped),
            RunTrigger::DurationElapsed => RunStep::Finish(BenchStatus::Completed),
        },
{
    match trigger {
        RunTrigger::Tick => RunStep::TakeSnapshot,
        RunTrigger::StopRequested => RunStep::Finish(BenchStatus::Stopped),
        RunTrigger::DurationElapsed => RunStep::Finish(BenchStatus::Completed),
    }
}

/// The number of client `offset` of a benchmark and the device it binds to.
pub fn client_launch(
    config: &BenchConfig,
    plan: &NetworkBindingPlan,
    run_id: &str,
    offset: usize,
) -> (r: (u64, Option<String>))
    requires
        config.start_number + offset <= u64::MAX,
    ensures
        r.0 == config.start_number + offset,
        exists|hash: u64|
            opt_view(r.1) == #[trigger] device_choice(plan.mode, texts(plan.devices@), hash, offset),
{
    let index = config.start_number + offset as u64;
    let device = plan.device_for(run_id, index, offset);
    (index, device)
}

/// A UTC instant written as `%Y-%m-%d %H:%M:%S`, when chrono can
/// represent it.
pub uninterp spec fn utc_text(secs: i64, nanos: u32) -> Option<Seq<char>>;

/// `chrono::DateTime::from_timestamp(secs, nanos)` formatted with
/// `%Y-%m-%d %H:%M:%S`; `None` where chrono has no such instant.
#[verifier::external_body]
fn format_utc(ts: crate::model::time::UtcTimestamp) -> (r: Option<String>)
    ensures
        opt_view(r) == utc_text(ts.secs, ts.nanos),
{
    match chrono::DateTime::from_timestamp(ts.secs, ts.nanos) {
        Some(d) => Some(d.format("%Y-%m-%d %H:%M:%S").to_string()),
        None => None,
    }
}

/// The name a specimen takes when it is given none: the mode, the broker's
/// address and the time it was taken.
pub open spec fn specimen_fallback_name(config: BenchConfigView, created_at: crate::model::time::UtcTimestamp) -> Seq<char> {
    config.mode.name() + seq![' '] + config.host + seq![':'] + dec_text(config.port as nat) + seq![' ']
        + match utc_text(created_at.secs, created_at.nanos) {
        Some(t) => t,
        None => seq![],
    }
}

/// Saves the details of a run that starts: the request's specimen draft,
/// named by default after the run, cleaned and checked.
pub fn create_specimen(
    run_id: String,
    config: BenchConfig,
    request: StartBenchRequest,
    created_at: crate::model::time::UtcTimestamp,
) -> (r: Result<BenchSpecimen, String>)
    ensures
        ({
            let d = normalized_draft(request.specimen@, specimen_fallback_name(config@, created_at));
            match r {
                Ok(s) => {
                    &&& specimen_error(d) is None
                    &&& Some(s.name@) == d.name
                    &&& s.description@ == match d.description {
                        Some(t) => t,
                        None => seq![],
                    }
                    &&& texts(s.tags@) == d.tags
                    &&& s.run_id == run_id
                    &&& s.config == config
                    &&& s.created_at == created_at
                    &&& s.id@.len() == 36
                },
                Err(e) => specimen_error(d) == Some(e@),
            }
        }),
{
    let mut name = chars_of(config.mode.as_str());
    name.push(' ');
    append_chars(&mut name, chars_of(config.host.as_str()).as_slice());
    name.push(':');
    append_chars(&mut name, u64_text(config.port as u64).as_slice());
    name.push(' ');
    match format_utc(created_at) {
        Some(t) => append_chars(&mut name, chars_of(t.as_str()).as_slice()),
        None => {},
    }
    assert(name@ =~= specimen_fallback_name(config@, created_at));
    let draft = request.specimen.normalized(string_from_chars(name.as_slice()));
    match draft.validate() {
        Ok(()) => {},
        Err(e) => {
            return Err(e);
        },
    }
    let specimen_name = match draft.name {
        Some(n) => n,
        None => string_of("benchmark specimen"),
    };
    let description = match draft.description {
        Some(d) => d,
        None => String::new(),
    };
    Ok(
        BenchSpecimen {
            id: crate::console::new_uuid(),
            run_id,
            name: specimen_name,
            description,
            tags: draft.tags,
            config,
            created_at,
        },
    )
}

/// The configuration a benchmark starts with: normalized, then checked.
pub fn prepare_start_config(config: BenchConfig) -> (r: Result<BenchConfig, String>)
    ensures
        match r {
            Ok(c) => c@ == normalized_config(config@) && config_error(c@) is None,
            Err(e) => config_error(normalized_config(config@)) == Some(e@),
        },
{
    let c = config.normalized();
    match c.validate() {
        Ok(()) => Ok(c),
        Err(e) => Err(e),
    }
}

/// Whether a benchmark may start while another may be active: only when
/// none is, or the active one has finished.
pub fn check_can_start(active_run: Option<&str>, active_finished: bool) -> (r: Result<(), String>)
    ensures
        match active_run {
            Some(id) => if active_finished {
                r is Ok
            } else {
                r matches Err(e) && e@ == "benchmark "@ + id@ + " is already running"@
            },
            None => r is Ok,
        },
{
    match active_run {
        Some(id) => if active_finished {
            Ok(())
        } else {
            let mut m = chars_of("benchmark ");
            append_chars(&mut m, chars_of(id).as_slice());
            append_chars(&mut m, chars_of(" is already running").as_slice());
            Err(string_from_chars(m.as_slice()))
        },
        None => Ok(()),
    }
}

/// Whether a stop request applies: a benchmark is active and, when the
/// request names a run, it is that one.
pub fn check_stop(active_run: Option<&str>, expected_run: Option<&str>) -> (r: Result<(), String>)
    ensures
        match active_run {
            None => r matches Err(e) && e@ == "no benchmark is running"@,
            Some(id) => match expected_run {
                Some(x) => if x@ == id@ {
                    r is Ok
                } else {
                    r matches Err(e) && e@ == "run "@ + x@ + " is not active"@
                },
                None => r is Ok,
            },
        },
{
    match active_run {
        None => Err(string_of("no benchmark is running")),
        Some(id) => match expected_run {
            Some(x) => if crate::text::str_eq(x, id) {
                Ok(())
            } else {
                let mut m = chars_of("run ");
                append_chars(&mut m, chars_of(x).as_slice());
                append_chars(&mut m, chars_of(" is not active").as_slice());
                Err(string_from_chars(m.as_slice()))
            },
            None => Ok(()),
        },
    }
}

/// The name a template takes when it is given none.
pub open spec fn default_template_name() -> Seq<char> {
    "Custom Template"@
}

/// A new template from a draft, cleaned and checked, stamped `now`.
pub fn new_template(draft: TemplateDraft, now: crate::model::time::UtcTimestamp) -> (r: Result<
    BenchTemplate,
    String,
>)
    ensures
        ({
            let n = normalized_template(draft@, default_template_name());
            match r {
                Ok(t) => {
                    &&& template_outcome_error(draft@, default_template_name()) is None
                    &&& Some(t.name@) == n.details.name
                    &&& t.description@ == match n.details.description {
                        Some(d) => d,
                        None => seq![],
                    }
                    &&& texts(t.tags@) == n.details.tags
                    &&& t.config@ == n.config
                    &&& t.created_at == now
                    &&& t.updated_at == now
                    &&& t.id@.len() == 36
                },
                Err(e) => template_outcome_error(draft@, default_template_name()) == Some(e@),
            }
        }),
{
    let d = match draft.normalized(string_of("Custom Template")) {
        Ok(d) => d,
        Err(e) => {
            return Err(e);
        },
    };
    let name = match d.name {
        Some(n) => n,
        None => string_of("Custom Template"),
    };
    let description = match d.description {
        Some(x) => x,
        None => String::new(),
    };
    Ok(
        BenchTemplate {
            id: crate::console::new_uuid(),
            name,
            description,
            tags: d.tags,
            config: d.config,
            created_at: now,
            updated_at: now,
        },
    )
}

/// The sum of some sizes.
pub open spec fn sum_sizes(s: Seq<usize>) -> int
    decreases s.len(),
{
    if s.len() == 0 {
        0
    } else {
        sum_sizes(s.drop_last()) + s.last()
    }
}

proof fn lemma_sum_sizes_step(s: Seq<usize>, k: int)
    requires
        0 <= k < s.len(),
    ensures
        sum_sizes(s.take(k + 1)) == sum_sizes(s.take(k)) + s[k],
{
    assert(s.take(k + 1).drop_last() =~= s.take(k));
}

proof fn lemma_sum_sizes_take_le(s: Seq<usize>, k: int)
    requires
        0 <= k <= s.len(),
    ensures
        sum_sizes(s.take(k)) <= sum_sizes(s),
    decreases s.len(),
{
    if k == s.len() {
        assert(s.take(k) =~= s);
    } else {
        lemma_sum_sizes_take_le(s.drop_last(), k);
        assert(s.drop_last().take(k) =~= s.take(k));
    }
}

/// The number of workloads of a scenario, from the sizes of its stages; a
/// scenario without any is refused.
pub fn scenario_workload_total(stage_sizes: &[usize]) -> (r: Result<usize, String>)
    requires
        sum_sizes(stage_sizes@) <= usize::MAX,
    ensures
        match r {
            Ok(n) => n == sum_sizes(stage_sizes@) && n > 0,
            Err(e) => sum_sizes(stage_sizes@) == 0
                && e@ == "scenario must contain at least one workload"@,
        },
{
    let mut total: usize = 0;
    let mut i: usize = 0;
    while i < stage_sizes.len()
        invariant
            i <= stage_sizes@.len(),
            total == sum_sizes(stage_sizes@.take(i as int)),
            sum_sizes(stage_sizes@) <= usize::MAX,
        decreases stage_sizes@.len() - i,
    {
        proof {
            lemma_sum_sizes_step(stage_sizes@, i as int);
            lemma_sum_sizes_take_le(stage_sizes@, i + 1);
        }
        total = total + stage_sizes[i];
        i = i + 1;
    }
    assert(stage_sizes@.take(stage_sizes@.len() as int) =~= stage_sizes@);
    if total == 0 {
        Err(string_of("scenario must contain at least one workload"))
    } else {
        Ok(total)
    }
}

/// The id a workload of a scenario run goes by: its own, or a fresh one
/// when its own is blank.
pub fn scenario_workload_id(own: &str) -> (r: String)
    ensures
        crate::text::is_blank(own@) ==> r@.len() == 36,
        !crate::text::is_blank(own@) ==> r@ == own@,
{
    if crate::text::blank(own) {
        crate::console::new_uuid()
    } else {
        string_of(own)
    }
}

/// The id of one workload within one run: `rw-` and a fresh UUID.
pub fn new_run_workload_id() -> (r: String)
    ensures
        "rw-"@.is_prefix_of(r@),
        r@.len() == 39,
{
    let mut v = chars_of("rw-");
    let ghost prefix = v@;
    let id = crate::console::new_uuid();
    append_chars(&mut v, chars_of(id.as_str()).as_slice());
    proof {
        reveal_strlit("rw-");
        assert(v@.take(3) =~= prefix);
    }
    string_from_chars(v.as_slice())
}

/// A workload of a scenario as starting or splitting a run reads it: its
/// id, which may be blank, what its clients do, how many clients it has and
/// the client number they start from.
#[derive(Debug, Clone)]
pub struct WorkloadOutline {
    pub id: String,
    pub kind: WorkloadKind,
    pub clients: u64,
    pub start_number: u64,
}

/// A stage of a scenario: whether its workloads run side by side, and the
/// workloads in their order.
#[derive(Debug, Clone)]
pub struct StageOutline {
    pub parallel: bool,
    pub workloads: Vec<WorkloadOutline>,
}

/// What starting a run reads of a scenario: its id, name, description and
/// tags, and its stages in order.
#[derive(Debug, Clone)]
pub struct ScenarioOutline {
    pub id: String,
    pub name: String,
    pub description: String,
    pub tags: Vec<String>,
    pub stages: Vec<StageOutline>,
}

/// The workloads of some stages, stage after stage, each stage's in its
/// own order.
pub open spec fn outline_workloads(stages: Seq<StageOutline>) -> Seq<WorkloadOutline>
    decreases stages.len(),
{
    if stages.len() == 0 {
        seq![]
    } else {
        outline_workloads(stages.drop_last()) + stages.last().workloads@
    }
}

/// The workloads of the first stages come first among those of all.
proof fn lemma_outline_prefix(stages: Seq<StageOutline>, i: int)
    requires
        0 <= i <= stages.len(),
    ensures
        outline_workloads(stages.take(i)).len() <= outline_workloads(stages).len(),
        forall|m: int|
            0 <= m < outline_workloads(stages.take(i)).len() ==> #[trigger] outline_workloads(
                stages.take(i),
            )[m] == outline_workloads(stages)[m],
    decreases stages.len(),
{
    if i == stages.len() {
        assert(stages.take(i) =~= stages);
    } else {
        lemma_outline_prefix(stages.drop_last(), i);
        assert(stages.drop_last().take(i) =~= stages.take(i));
    }
}

/// The workloads of the first `i + 1` stages: those of the first `i`, then
/// those of stage `i`.
proof fn lemma_outline_step(stages: Seq<StageOutline>, i: int)
    requires
        0 <= i < stages.len(),
    ensures
        outline_workloads(stages.take(i + 1)) == outline_workloads(stages.take(i))
            + stages[i].workloads@,
{
    assert(stages.take(i + 1).drop_last() =~= stages.take(i));
}

/// Counting a scenario's workloads from the sizes of its stages gives the
/// number of workloads a run of it lists, so `scenario_workload_total`
/// refuses a scenario exactly when `plan_scenario_run` does.
pub proof fn lemma_workload_total_matches_plan(stages: Seq<StageOutline>, sizes: Seq<usize>)
    requires
        sizes.len() == stages.len(),
        forall|s: int| 0 <= s < sizes.len() ==> #[trigger] sizes[s] == stages[s].workloads@.len(),
    ensures
        sum_sizes(sizes) == outline_workloads(stages).len(),
    decreases stages.len(),
{
    if stages.len() > 0 {
        assert forall|s: int| 0 <= s < sizes.drop_last().len() implies #[trigger] sizes.drop_last()[s]
            == stages.drop_last()[s].workloads@.len() by {
            assert(sizes[s] == stages[s].workloads@.len());
        }
        lemma_workload_total_matches_plan(stages.drop_last(), sizes.drop_last());
        assert(sizes[sizes.len() - 1] == stages[stages.len() - 1].workloads@.len());
    }
}

/// A workload of a run started from a scenario: the run's id, the
/// workload's own id (or the fresh one when its own is blank), its kind,
/// the run-workload id and the snapshot of its definition.
pub open spec fn planned_workload(
    rw: RunWorkload,
    run_id: Seq<char>,
    w: WorkloadOutline,
    fresh_id: Seq<char>,
    run_workload_id: Seq<char>,
    snapshot: Seq<char>,
) -> bool {
    &&& rw.id@ == run_workload_id
    &&& rw.run_id@ == run_id
    &&& rw.workload_id@ == if crate::text::is_blank(w.id@) {
        fresh_id
    } else {
        w.id@
    }
    &&& rw.kind == w.kind
    &&& rw.config_snapshot_json@ == snapshot
}

/// The record of a run that starts from a scenario: running since
/// `started_at`, bound to the scenario when `bind_scenario_id`, with one
/// workload per workload of the scenario in stage order. The `k`-th takes
/// `fresh_ids[k]` as its id when its own is blank, `run_workload_ids[k]` as
/// its run-workload id and `snapshots[k]` as its configuration snapshot.
/// A scenario without workloads is refused.
pub fn plan_scenario_run(
    scenario: &ScenarioOutline,
    bind_scenario_id: bool,
    run_id: String,
    fresh_ids: Vec<String>,
    run_workload_ids: Vec<String>,
    snapshots: Vec<String>,
    started_at: UtcTimestamp,
) -> (r: Result<Run, String>)
    requires
        fresh_ids@.len() == outline_workloads(scenario.stages@).len(),
        run_workload_ids@.len() == outline_workloads(scenario.stages@).len(),
        snapshots@.len() == outline_workloads(scenario.stages@).len(),
    ensures
        ({
            let ws = outline_workloads(scenario.stages@);
            match r {
                Err(e) => ws.len() == 0 && e@ == "scenario must contain at least one workload"@,
                Ok(run) => {
                    &&& ws.len() > 0
                    &&& run.id@ == run_id@
                    &&& run.status == RunStatus::Running
                    &&& run.scenario_id == if bind_scenario_id {
                        Some(scenario.id)
                    } else {
                        None
                    }
                    &&& run.name == scenario.name
                    &&& run.description == scenario.description
                    &&& run.tags@ == scenario.tags@
                    &&& run.started_at == started_at
                    &&& run.stopped_at is None
                    &&& run.baseline_of_scenario_id is None
                    &&& run.workloads@.len() == ws.len()
                    &&& forall|k: int|
                        0 <= k < ws.len() ==> planned_workload(
                            #[trigger] run.workloads@[k],
                            run_id@,
                            ws[k],
                            fresh_ids@[k]@,
                            run_workload_ids@[k]@,
                            snapshots@[k]@,
                        )
                },
            }
        }),
{
    let ghost ws = outline_workloads(scenario.stages@);
    let ghost stages = scenario.stages@;
    let total: usize = snapshots.len();
    let mut out: Vec<RunWorkload> = Vec::new();
    let mut k: usize = 0;
    let mut i: usize = 0;
    assert(stages.take(0) =~= Seq::<StageOutline>::empty());
    while i < scenario.stages.len()
        invariant
            stages == scenario.stages@,
            ws == outline_workloads(stages),
            i <= stages.len(),
            k == outline_workloads(stages.take(i as int)).len(),
            out@.len() == k,
            fresh_ids@.len() == ws.len(),
            run_workload_ids@.len() == ws.len(),
            snapshots@.len() == ws.len(),
            total == ws.len(),
            forall|m: int|
                0 <= m < k ==> planned_workload(
                    #[trigger] out@[m],
                    run_id@,
                    ws[m],
                    fresh_ids@[m]@,
                    run_workload_ids@[m]@,
                    snapshots@[m]@,
                ),
        decreases stages.len() - i,
    {
        let stage = &scenario.stages[i];
        proof {
            lemma_outline_step(stages, i as int);
            lemma_outline_prefix(stages, i + 1);
        }
        let ghost base = k;
        let mut j: usize = 0;
        while j < stage.workloads.len()
            invariant
                stages == scenario.stages@,
                ws == outline_workloads(stages),
                i < stages.len(),
                *stage == stages[i as int],
                outline_workloads(stages.take(i + 1)) == outline_workloads(stages.take(i as int))
                    + stage.workloads@,
                outline_workloads(stages.take(i + 1)).len() <= ws.len(),
                forall|m: int|
                    0 <= m < outline_workloads(stages.take(i + 1)).len()
                        ==> #[trigger] outline_workloads(stages.take(i + 1))[m] == ws[m],
                base == outline_workloads(stages.take(i as int)).len(),
                j <= stage.workloads@.len(),
                k == base + j,
                out@.len() == k,
                fresh_ids@.len() == ws.len(),
                run_workload_ids@.len() == ws.len(),
                snapshots@.len() == ws.len(),
                total == ws.len(),
                forall|m: int|
                    0 <= m < k ==> planned_workload(
                        #[trigger] out@[m],
                        run_id@,
                        ws[m],
                        fresh_ids@[m]@,
                        run_workload_ids@[m]@,
                        snapshots@[m]@,
                    ),
            decreases stage.workloads@.len() - j,
        {
            let w = &stage.workloads[j];
            assert(outline_workloads(stages.take(i + 1))[k as int] == stage.workloads@[j as int]);
            assert(ws[k as int] == *w);
            let workload_id = if crate::text::blank(w.id.as_str()) {
                fresh_ids[k].clone()
            } else {
                w.id.clone()
            };
            let rw = RunWorkload {
                id: run_workload_ids[k].clone(),
                run_id: run_id.clone(),
                workload_id,
                kind: w.kind,
                config_snapshot_json: snapshots[k].clone(),
            };
            let ghost before = out@;
            out.push(rw);
            assert forall|m: int| 0 <= m < k + 1 implies planned_workload(
                #[trigger] out@[m],
                run_id@,
                ws[m],
                fresh_ids@[m]@,
                run_workload_ids@[m]@,
                snapshots@[m]@,
            ) by {
                if m < k {
                    assert(out@[m] == before[m]);
                }
            }
            k = k + 1;
            j = j + 1;
        }
        assert(stage.workloads@.take(j as int) =~= stage.workloads@);
        i = i + 1;
    }
    assert(stages.take(i as int) =~= stages);
    if k == 0 {
        return Err(string_of("scenario must contain at least one workload"));
    }
    let tags = scenario.tags.clone();
    assert(tags@ =~= scenario.tags@);
    let scenario_id = if bind_scenario_id {
        Some(scenario.id.clone())
    } else {
        None
    };
    Ok(
        Run {
            id: run_id,
            scenario_id,
            name: scenario.name.clone(),
            tags,
            description: scenario.description.clone(),
            status: RunStatus::Running,
            started_at,
            stopped_at: None,
            workloads: out,
            baseline_of_scenario_id: None,
        },
    )
}

/// The run record of a scenario that starts now: a fresh run id, the time
/// it starts, and for each workload in stage order its own id (a fresh one
/// when its own is blank), a fresh `rw-` id and `snapshots[k]` as its
/// configuration snapshot. A scenario without workloads is refused.
pub fn start_scenario_run(
    scenario: &ScenarioOutline,
    bind_scenario_id: bool,
    snapshots: Vec<String>,
) -> (r: Result<Run, String>)
    requires
        snapshots@.len() == outline_workloads(scenario.stages@).len(),
    ensures
        ({
            let ws = outline_workloads(scenario.stages@);
            match r {
                Err(e) => ws.len() == 0 && e@ == "scenario must contain at least one workload"@,
                Ok(run) => {
                    &&& ws.len() > 0
                    &&& run.id@.len() == 36
                    &&& run.status == RunStatus::Running
                    &&& run.scenario_id == if bind_scenario_id {
                        Some(scenario.id)
                    } else {
                        None
                    }
                    &&& run.name == scenario.name
                    &&& run.description == scenario.description
                    &&& run.tags@ == scenario.tags@
                    &&& run.stopped_at is None
                    &&& run.baseline_of_scenario_id is None
                    &&& run.workloads@.len() == ws.len()
                    &&& forall|k: int|
                        0 <= k < ws.len() ==> {
                            let w = #[trigger] run.workloads@[k];
                            &&& w.run_id@ == run.id@
                            &&& crate::text::is_blank(ws[k].id@) ==> w.workload_id@.len() == 36
                            &&& !crate::text::is_blank(ws[k].id@) ==> w.workload_id@ == ws[k].id@
                            &&& w.kind == ws[k].kind
                            &&& "rw-"@.is_prefix_of(w.id@) && w.id@.len() == 39
                            &&& w.config_snapshot_json@ == snapshots@[k]@
                        }
                },
            }
        }),
{
    let ghost ws = outline_workloads(scenario.stages@);
    let ghost stages = scenario.stages@;
    let mut fresh_ids: Vec<String> = Vec::new();
    let mut run_workload_ids: Vec<String> = Vec::new();
    let mut i: usize = 0;
    assert(stages.take(0) =~= Seq::<StageOutline>::empty());
    while i < scenario.stages.len()
        invariant
            stages == scenario.stages@,
            ws == outline_workloads(stages),
            i <= stages.len(),
            fresh_ids@.len() == outline_workloads(stages.take(i as int)).len(),
            run_workload_ids@.len() == fresh_ids@.len(),
            forall|m: int|
                0 <= m < fresh_ids@.len() ==> {
                    &&& crate::text::is_blank(ws[m].id@) ==> (#[trigger] fresh_ids@[m])@.len()
                        == 36
                    &&& !crate::text::is_blank(ws[m].id@) ==> fresh_ids@[m]@ == ws[m].id@
                },
            forall|m: int|
                0 <= m < run_workload_ids@.len() ==> "rw-"@.is_prefix_of(
                    (#[trigger] run_workload_ids@[m])@,
                ) && run_workload_ids@[m]@.len() == 39,
        decreases stages.len() - i,
    {
        let stage = &scenario.stages[i];
        proof {
            lemma_outline_step(stages, i as int);
            lemma_outline_prefix(stages, i + 1);
        }
        let ghost base = fresh_ids@.len();
        let mut j: usize = 0;
        while j < stage.workloads.len()
            invariant
                stages == scenario.stages@,
                ws == outline_workloads(stages),
                i < stages.len(),
                *stage == stages[i as int],
                outline_workloads(stages.take(i + 1)) == outline_workloads(stages.take(i as int))
                    + stage.workloads@,
                outline_workloads(stages.take(i + 1)).len() <= ws.len(),
                forall|m: int|
                    0 <= m < outline_workloads(stages.take(i + 1)).len()
                        ==> #[trigger] outline_workloads(stages.take(i + 1))[m] == ws[m],
                base == outline_workloads(stages.take(i as int)).len(),
                j <= stage.workloads@.len(),
                fresh_ids@.len() == base + j,
                run_workload_ids@.len() == fresh_ids@.len(),
                forall|m: int|
                    0 <= m < fresh_ids@.len() ==> {
                        &&& crate::text::is_blank(ws[m].id@) ==> (#[trigger] fresh_ids@[m])@.len()
                            == 36
                        &&& !crate::text::is_blank(ws[m].id@) ==> fresh_ids@[m]@ == ws[m].id@
                    },
                forall|m: int|
                    0 <= m < run_workload_ids@.len() ==> "rw-"@.is_prefix_of(
                        (#[trigger] run_workload_ids@[m])@,
                    ) && run_workload_ids@[m]@.len() == 39,
            decreases stage.workloads@.len() - j,
        {
            let w = &stage.workloads[j];
            let ghost k = fresh_ids@.len() as int;
            assert(outline_workloads(stages.take(i + 1))[k] == stage.workloads@[j as int]);
            assert(ws[k] == *w);
            let ghost before_fresh = fresh_ids@;
            let ghost before_rw = run_workload_ids@;
            fresh_ids.push(scenario_workload_id(w.id.as_str()));
            run_workload_ids.push(new_run_workload_id());
            assert forall|m: int| 0 <= m < fresh_ids@.len() implies {
                &&& crate::text::is_blank(ws[m].id@) ==> (#[trigger] fresh_ids@[m])@.len() == 36
                &&& !crate::text::is_blank(ws[m].id@) ==> fresh_ids@[m]@ == ws[m].id@
            } by {
                if m < k {
                    assert(fresh_ids@[m] == before_fresh[m]);
                }
            }
            assert forall|m: int| 0 <= m < run_workload_ids@.len() implies "rw-"@.is_prefix_of(
                (#[trigger] run_workload_ids@[m])@,
            ) && run_workload_ids@[m]@.len() == 39 by {
                if m < k {
                    assert(run_workload_ids@[m] == before_rw[m]);
                }
            }
            j = j + 1;
        }
        assert(stage.workloads@.take(j as int) =~= stage.workloads@);
        i = i + 1;
    }
    assert(stages.take(i as int) =~= stages);
    let run_id = crate::console::new_uuid();
    let started_at = crate::console::utc_now();
    plan_scenario_run(
        scenario,
        bind_scenario_id,
        run_id,
        fresh_ids,
        run_workload_ids,
        snapshots,
        started_at,
    )
}

/// The specimen a scenario run records: named, described and tagged as the
/// scenario, with the configuration of its first workload (the default one
/// when there is none) and the time the run started.
pub fn scenario_specimen(
    scenario: &ScenarioOutline,
    id: String,
    run_id: String,
    first_config: Option<BenchConfig>,
    created_at: UtcTimestamp,
) -> (r: BenchSpecimen)
    ensures
        r.id == id,
        r.run_id == run_id,
        r.name == scenario.name,
        r.description == scenario.description,
        r.tags@ == scenario.tags@,
        r.config@ == match first_config {
            Some(c) => c@,
            None => default_config(),
        },
        r.created_at == created_at,
{
    let tags = scenario.tags.clone();
    assert(tags@ =~= scenario.tags@);
    let config = match first_config {
        Some(c) => c,
        None => BenchConfig::default(),
    };
    BenchSpecimen {
        id,
        run_id,
        name: scenario.name.clone(),
        description: scenario.description.clone(),
        tags,
        config,
        created_at,
    }
}

/// How the stages of a scenario run have gone so far: `Completed` until a
/// workload stops or a stop is requested, `Stopped` after.
pub struct ScenarioProgress {
    pub status: BenchStatus,
}

impl ScenarioProgress {
    /// A scenario run that has not begun.
    pub fn new() -> (r: ScenarioProgress)
        ensures
            r.status == BenchStatus::Completed,
    {
        ScenarioProgress { status: BenchStatus::Completed }
    }

    /// Before each stage: whether it runs. A requested stop ends the run
    /// as stopped instead.
    pub fn begin_stage(&mut self, stop_requested: bool) -> (runs: bool)
        ensures
            runs == !stop_requested,
            final(self).status == if stop_requested {
                BenchStatus::Stopped
            } else {
                old(self).status
            },
    {
        if stop_requested {
            self.status = BenchStatus::Stopped;
            false
        } else {
            true
        }
    }

    /// After one workload of a sequential stage ends with `status`: whether
    /// the stage goes on to its next workload. A stopped workload stops the
    /// run and leaves the rest of the stage.
    pub fn after_sequential_workload(&mut self, status: BenchStatus) -> (go_on: bool)
        ensures
            go_on == (status != BenchStatus::Stopped),
            final(self).status == if status == BenchStatus::Stopped {
                BenchStatus::Stopped
            } else {
                old(self).status
            },
    {
        if status == BenchStatus::Stopped {
            self.status = BenchStatus::Stopped;
            false
        } else {
            true
        }
    }

    /// After all workloads of a parallel stage ended with `statuses`: the run
    /// is stopped when any of them was.
    pub fn after_parallel_stage(&mut self, statuses: &[BenchStatus])
        ensures
            final(self).status == if statuses@.contains(BenchStatus::Stopped) {
                BenchStatus::Stopped
            } else {
                old(self).status
            },
    {
        let mut i: usize = 0;
        while i < statuses.len()
            invariant
                i <= statuses@.len(),
                self.status == if statuses@.take(i as int).contains(BenchStatus::Stopped) {
                    BenchStatus::Stopped
                } else {
                    old(self).status
                },
            decreases statuses@.len() - i,
        {
            proof {
                let t0 = statuses@.take(i as int);
                let t1 = statuses@.take(i + 1);
                assert(t1 =~= t0.push(statuses@[i as int]));
                if statuses@[i as int] == BenchStatus::Stopped {
                    assert(t1[i as int] == BenchStatus::Stopped);
                } else {
                    if t1.contains(BenchStatus::Stopped) {
                        let k = choose|k: int| 0 <= k < t1.len() && t1[k] == BenchStatus::Stopped;
                        assert(t0[k] == BenchStatus::Stopped);
                    }
                    if t0.contains(BenchStatus::Stopped) {
                        let k = choose|k: int| 0 <= k < t0.len() && t0[k] == BenchStatus::Stopped;
                        assert(t1[k] == BenchStatus::Stopped);
                    }
                }
            }
            if statuses[i] == BenchStatus::Stopped {
                self.status = BenchStatus::Stopped;
            }
            i = i + 1;
        }
        assert(statuses@.take(statuses@.len() as int) =~= statuses@);
    }

    /// The status the run is stored with when it ends.
    pub fn run_status(&self) -> (r: RunStatus)
        ensures
            r == finished_run_status(self.status),
    {
        match self.status {
            BenchStatus::Stopped => RunStatus::Stopped,
            BenchStatus::Failed => RunStatus::Failed,
            _ => RunStatus::Completed,
        }
    }
}

/// The stored status of a run that ended with `status`.
pub open spec fn finished_run_status(status: BenchStatus) -> RunStatus {
    match status {
        BenchStatus::Stopped => RunStatus::Stopped,
        BenchStatus::Failed => RunStatus::Failed,
        _ => RunStatus::Completed,
    }
}

/// `c` with a workload's broker and payload profiles laid over it: the
/// broker's endpoint, transport, keepalive and session flag, its user and
/// password when it has them, and a fixed-size payload's size and
/// timestamp flag.
pub open spec fn with_workload_profiles(
    c: BenchConfigView,
    broker: Option<BrokerProfile>,
    payload: Option<PayloadProfile>,
) -> BenchConfigView {
    let b = match broker {
        Some(p) => {
            let moved = BenchConfigView {
                host: p.host@,
                port: p.port,
                protocol: p.protocol,
                websocket_path: opt_view(p.websocket_path),
                keepalive_secs: p.keepalive_secs,
                clean_session: p.clean_session,
                ..c
            };
            match p.auth {
                Some(AuthConfig::UserPassword { username, password }) => BenchConfigView {
                    username: Some(username@),
                    password: Some(password@),
                    ..moved
                },
                _ => moved,
            }
        },
        None => c,
    };
    match payload {
        Some(q) => match q.kind {
            PayloadKind::FixedBytes { size, with_timestamp } => BenchConfigView {
                payload_size: size,
                payload_timestamp: with_timestamp,
                ..b
            },
            _ => b,
        },
        None => b,
    }
}

/// A workload dials the broker its broker profile names: with a profile,
/// the configuration takes the profile's host, port, protocol, websocket
/// path, keep-alive and session flag, whatever payload profile comes with
/// it; without one, it keeps its own. A payload profile never changes where
/// or how the client connects.
pub proof fn lemma_broker_profile_sets_endpoint(
    c: BenchConfigView,
    broker: Option<BrokerProfile>,
    payload: Option<PayloadProfile>,
)
    ensures
        ({
            let r = with_workload_profiles(c, broker, payload);
            &&& match broker {
                Some(p) => {
                    &&& r.host == p.host@
                    &&& r.port == p.port
                    &&& r.protocol == p.protocol
                    &&& r.keepalive_secs == p.keepalive_secs
                    &&& r.clean_session == p.clean_session
                    &&& match p.websocket_path {
                        Some(w) => r.websocket_path == Some(w@),
                        None => r.websocket_path is None,
                    }
                },
                None => {
                    &&& r.host == c.host
                    &&& r.port == c.port
                    &&& r.protocol == c.protocol
                    &&& r.websocket_path == c.websocket_path
                    &&& r.keepalive_secs == c.keepalive_secs
                    &&& r.clean_session == c.clean_session
                    &&& r.username == c.username
                    &&& r.password == c.password
                },
            }
            &&& r.mode == c.mode
            &&& r.clients == c.clients
            &&& r.topic == c.topic
        }),
{
}

/// Lays the broker and payload profiles a workload names over the
/// configuration it runs with.
pub fn apply_workload_profiles(
    config: &mut BenchConfig,
    broker: Option<&BrokerProfile>,
    payload: Option<&PayloadProfile>,
)
    ensures
        final(config)@ == with_workload_profiles(
            old(config)@,
            match broker {
                Some(p) => Some(*p),
                None => None,
            },
            match payload {
                Some(q) => Some(*q),
                None => None,
            },
        ),
        match broker {
            Some(p) => {
                &&& final(config).host@ == p.host@
                &&& final(config).port == p.port
                &&& final(config).protocol == p.protocol
                &&& match p.websocket_path {
                    Some(w) => final(config).websocket_path matches Some(x) && x@ == w@,
                    None => final(config).websocket_path is None,
                }
            },
            None => {
                &&& final(config).host@ == old(config).host@
                &&& final(config).port == old(config).port
                &&& final(config).protocol == old(config).protocol
                &&& opt_view(final(config).websocket_path) == opt_view(old(config).websocket_path)
            },
        },
{
    if let Some(p) = broker {
        config.host = string_of(p.host.as_str());
        config.port = p.port;
        config.protocol = p.protocol;
        config.websocket_path = match &p.websocket_path {
            Some(w) => Some(string_of(w.as_str())),
            None => None,
        };
        config.keepalive_secs = p.keepalive_secs;
        config.clean_session = p.clean_session;
        if let Some(AuthConfig::UserPassword { username, password }) = &p.auth {
            config.username = Some(string_of(username.as_str()));
            config.password = Some(string_of(password.as_str()));
        }
    }
    if let Some(q) = payload {
        if let PayloadKind::FixedBytes { size, with_timestamp } = &q.kind {
            config.payload_size = *size;
            config.payload_timestamp = *with_timestamp;
        }
    }
}

/// Replaces a saved template's details and configuration with a draft,
/// cleaned and checked, stamped `now`; its id and creation time stay. A
/// draft that breaks a limit leaves the template as it was.
pub fn revise_template(
    template: &mut BenchTemplate,
    draft: TemplateDraft,
    now: crate::model::time::UtcTimestamp,
) -> (r: Result<(), String>)
    ensures
        ({
            let n = normalized_template(draft@, default_template_name());
            match r {
                Ok(()) => {
                    &&& template_outcome_error(draft@, default_template_name()) is None
                    &&& final(template).name@ == match n.details.name {
                        Some(x) => x,
                        None => "benchmark template"@,
                    }
                    &&& final(template).description@ == match n.details.description {
                        Some(d) => d,
                        None => seq![],
                    }
                    &&& texts(final(template).tags@) == n.details.tags
                    &&& final(template).config@ == n.config
                    &&& final(template).updated_at == now
                    &&& final(template).id == old(template).id
                    &&& final(template).created_at == old(template).created_at
                },
                Err(e) => {
                    &&& template_outcome_error(draft@, default_template_name()) == Some(e@)
                    &&& *final(template) == *old(template)
                },
            }
        }),
{
    let d = match draft.normalized(string_of("Custom Template")) {
        Ok(d) => d,
        Err(e) => {
            return Err(e);
        },
    };
    template.name = match d.name {
        Some(n) => n,
        None => string_of("benchmark template"),
    };
    template.description = match d.description {
        Some(x) => x,
        None => String::new(),
    };
    template.tags = d.tags;
    template.config = d.config;
    template.updated_at = now;
    Ok(())
}

/// How a test connection to a broker ended.
#[derive(Debug, Clone, PartialEq, Eq)]
pub enum ConnectAttempt {
    /// The broker acknowledged the connection.
    Connected,
    /// The connection failed with this error.
    Failed(String),
    /// No acknowledgement came within the connection timeout.
    TimedOut,
}

/// The report of a test connection to a saved broker profile that took
/// `elapsed_ms` and ended as `attempt`.
pub fn connection_test_result(
    profile: &BrokerProfile,
    timeout_secs: u16,
    elapsed_ms: u64,
    attempt: ConnectAttempt,
) -> (r: BrokerConnectionTest)
    ensures
        r.ok == (attempt == ConnectAttempt::Connected),
        r.profile_id@ == profile.id@,
        r.host@ == profile.host@,
        r.port == profile.port,
        r.elapsed_ms == elapsed_ms,
        opt_view(r.error) == match attempt {
            ConnectAttempt::Connected => None,
            ConnectAttempt::Failed(e) => Some(e@),
            ConnectAttempt::TimedOut => Some(
                "connection timed out after "@ + dec_text(timeout_secs as nat) + "s"@,
            ),
        },
{
    let (ok, error) = match attempt {
        ConnectAttempt::Connected => (true, None),
        ConnectAttempt::Failed(e) => (false, Some(e)),
        ConnectAttempt::TimedOut => {
            let mut m = chars_of("connection timed out after ");
            append_chars(&mut m, u64_text(timeout_secs as u64).as_slice());
            append_chars(&mut m, chars_of("s").as_slice());
            (false, Some(string_from_chars(m.as_slice())))
        },
    };
    BrokerConnectionTest {
        ok,
        profile_id: string_of(profile.id.as_str()),
        host: string_of(profile.host.as_str()),
        port: profile.port,
        elapsed_ms,
        error,
    }
}

/// The client id of a test connection: `velamq-test-` and a fresh UUID.
pub fn connection_test_client_id() -> (r: String)
    ensures
        "velamq-test-"@.is_prefix_of(r@),
        r@.len() == 48,
{
    let mut v = chars_of("velamq-test-");
    let ghost prefix = v@;
    let id = crate::console::new_uuid();
    append_chars(&mut v, chars_of(id.as_str()).as_slice());
    proof {
        reveal_strlit("velamq-test-");
        assert(v@.take(12) =~= prefix);
    }
    string_from_chars(v.as_slice())
}

/// How long a benchmark runs before it completes on its own: its duration
/// in seconds, or `None` for a run that only a stop request ends.
pub fn run_deadline_secs(config: &BenchConfig) -> (r: Option<u64>)
    ensures
        r == if config.duration_secs > 0 {
            Some(config.duration_secs)
        } else {
            None::<u64>
        },
{
    if config.duration_secs > 0 {
        Some(config.duration_secs)
    } else {
        None
    }
}

/// Whether a run that ended is the active one, whose handle is then
/// cleared: a later run that took its place keeps its handle.
pub fn clears_active_run(active_run: Option<&str>, finished_run: &str) -> (r: bool)
    ensures
        r == match active_run {
            Some(a) => a@ == finished_run@,
            None => false,
        },
{
    match active_run {
        Some(a) => crate::text::str_eq(a, finished_run),
        None => false,
    }
}

} // verus!
