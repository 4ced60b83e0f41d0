//! Broker connection profiles.

use vstd::prelude::*;
use crate::model::cluster::texts;
use crate::model::time::UtcTimestamp;
use crate::text::{blank, byte_len, is_blank, opt_view, str_eq, string_of, utf8_len};

verus! {

/// A saved MQTT broker endpoint with its session, TLS and credential settings.
#[derive(Debug, Clone)]
pub struct BrokerProfile {
    pub id: String,
    pub name: String,
    pub protocol: BrokerProtocol,
    pub mqtt_version: MqttVersion,
    pub host: String,
    pub port: u16,
    pub websocket_path: Option<String>,
    pub tls: Option<TlsConfig>,
    pub auth: Option<AuthConfig>,
    pub keepalive_secs: u16,
    pub connection_timeout_secs: u16,
    pub clean_session: bool,
    pub mqtt5: Option<Mqtt5Config>,
    pub created_at: UtcTimestamp,
    pub updated_at: UtcTimestamp,
}

/// An optional PEM text that is present and not blank.
pub open spec fn has_text(value: Option<String>) -> bool {
    match value {
        Some(v) => !is_blank(v@),
        None => false,
    }
}

/// The first rule of a broker profile that `p` breaks, with its message.
pub open spec fn broker_profile_error(p: BrokerProfile) -> Option<Seq<char>> {
    if is_blank(p.host@) || utf8_len(p.host@) > 253 {
        Some("broker host is required and must be <= 253 characters"@)
    } else if p.port == 0 {
        Some("broker port must be between 1 and 65535"@)
    } else if p.keepalive_secs == 0 || p.keepalive_secs > 3600 {
        Some("keepalive_secs must be between 1 and 3600"@)
    } else if p.connection_timeout_secs == 0 || p.connection_timeout_secs > 300 {
        Some("connection_timeout_secs must be between 1 and 300"@)
    } else if (match p.auth {
        Some(AuthConfig::UserPassword { username, password }) => utf8_len(username@) > 65535
            || utf8_len(password@) > 65535,
        _ => false,
    }) {
        Some("MQTT username and password must be <= 65535 bytes"@)
    } else if (match p.tls {
        Some(tls) => has_text(tls.client_cert_pem) != has_text(tls.client_key_pem),
        None => false,
    }) {
        Some("both client certificate and private key are required for mTLS"@)
    } else if (match p.tls {
        Some(tls) => exists|i: int|
            0 <= i < tls.alpn_protocols@.len() && (#[trigger] tls.alpn_protocols@[i]@.len() == 0
                || utf8_len(tls.alpn_protocols@[i]@) > 255),
        None => false,
    }) {
        Some("each ALPN protocol must contain 1 to 255 bytes"@)
    } else if p.mqtt_version == MqttVersion::V5_0 && (match p.mqtt5 {
        Some(m) => m.receive_maximum == Some(0u16),
        None => false,
    }) {
        Some("MQTT 5 receive maximum must be greater than zero"@)
    } else if p.mqtt_version == MqttVersion::V5_0 && (match p.mqtt5 {
        Some(m) => m.maximum_packet_size == Some(0u32),
        None => false,
    }) {
        Some("MQTT 5 maximum packet size must be greater than zero"@)
    } else {
        None
    }
}

fn optional_text_present(value: &Option<String>) -> (r: bool)
    ensures
        r == has_text(*value),
{
    match value {
        Some(v) => !blank(v.as_str()),
        None => false,
    }
}

fn any_bad_alpn(values: &Vec<String>) -> (r: bool)
    ensures
        r == exists|i: int|
            0 <= i < values@.len() && (#[trigger] values@[i]@.len() == 0 || utf8_len(
                values@[i]@,
            ) > 255),
{
    let mut i: usize = 0;
    while i < values.len()
        invariant
            i <= values@.len(),
            forall|j: int|
                0 <= j < i ==> !(#[trigger] values@[j]@.len() == 0 || utf8_len(values@[j]@)
                    > 255),
        decreases values@.len() - i,
    {
        let v = values[i].as_str();
        if v.is_empty() || byte_len(v) > 255 {
            return true;
        }
        i = i + 1;
    }
    false
}

impl BrokerProfile {
    /// Checks the profile before it is saved or used to connect.
    pub fn validate(&self) -> (r: Result<(), String>)
        ensures
            match r {
                Ok(()) => broker_profile_error(*self) is None,
                Err(e) => broker_profile_error(*self) == Some(e@),
            },
    {
        if blank(self.host.as_str()) || byte_len(self.host.as_str()) > 253 {
            return Err(string_of("broker host is required and must be <= 253 characters"));
        }
        if self.port == 0 {
            return Err(string_of("broker port must be between 1 and 65535"));
        }
        if self.keepalive_secs == 0 || self.keepalive_secs > 3600 {
            return Err(string_of("keepalive_secs must be between 1 and 3600"));
        }
        if self.connection_timeout_secs == 0 || self.connection_timeout_secs > 300 {
            return Err(string_of("connection_timeout_secs must be between 1 and 300"));
        }
        if let Some(AuthConfig::UserPassword { username, password }) = &self.auth {
            if byte_len(username.as_str()) > 65535 || byte_len(password.as_str()) > 65535 {
                return Err(string_of("MQTT username and password must be <= 65535 bytes"));
            }
        }
        if let Some(tls) = &self.tls {
            let has_cert = optional_text_present(&tls.client_cert_pem);
            let has_key = optional_text_present(&tls.client_key_pem);
            if has_cert != has_key {
                return Err(
                    string_of("both client certificate and private key are required for mTLS"),
                );
            }
            if any_bad_alpn(&tls.alpn_protocols) {
                return Err(string_of("each ALPN protocol must contain 1 to 255 bytes"));
            }
        }
        if self.mqtt_version.is_v5() {
            if let Some(m) = &self.mqtt5 {
                if m.receive_maximum == Some(0u16) {
                    return Err(string_of("MQTT 5 receive maximum must be greater than zero"));
                }
                if m.maximum_packet_size == Some(0u32) {
                    return Err(string_of("MQTT 5 maximum packet size must be greater than zero"));
                }
            }
        }
        Ok(())
    }
}

/// The MQTT protocol revision a client speaks.
#[derive(Debug, Clone, Copy, PartialEq, Eq, Structural)]
pub enum MqttVersion {
    V3_1_1,
    V5_0,
}

impl Default for MqttVersion {
    fn default() -> (r: Self)
        ensures
            r == MqttVersion::V3_1_1,
    {
        MqttVersion::V3_1_1
    }
}

impl MqttVersion {
    /// The name under which the version is stored.
    pub open spec fn storage_name(self) -> Seq<char> {
        match self {
            MqttVersion::V3_1_1 => "v3_1_1"@,
            MqttVersion::V5_0 => "v5_0"@,
        }
    }

    /// The version a stored name denotes; unknown names read as 3.1.1.
    pub open spec fn parse_storage(value: Seq<char>) -> MqttVersion {
        if value == "v5_0"@ {
            MqttVersion::V5_0
        } else {
            MqttVersion::V3_1_1
        }
    }

    pub fn as_str(self) -> (r: &'static str)
        ensures
            r@ == self.storage_name(),
    {
        match self {
            MqttVersion::V3_1_1 => "v3_1_1",
            MqttVersion::V5_0 => "v5_0",
        }
    }

    pub fn from_storage(value: &str) -> (r: Self)
        ensures
            r == MqttVersion::parse_storage(value@),
    {
        if str_eq(value, "v5_0") {
            MqttVersion::V5_0
        } else {
            MqttVersion::V3_1_1
        }
    }

    fn is_v5(&self) -> (r: bool)
        ensures
            r == (*self == MqttVersion::V5_0),
    {
        match self {
            MqttVersion::V5_0 => true,
            MqttVersion::V3_1_1 => false,
        }
    }
}

/// Reading back the stored name of a version gives the version.
pub proof fn lemma_mqtt_version_storage_round_trip(v: MqttVersion)
    ensures
        MqttVersion::parse_storage(v.storage_name()) == v,
{
    reveal_strlit("v3_1_1");
    reveal_strlit("v5_0");
    if v == MqttVersion::V3_1_1 {
        assert("v3_1_1"@[1] != "v5_0"@[1]);
    }
}

/// The transport used to reach a broker.
#[derive(Debug, Clone, Copy, PartialEq, Eq, Structural)]
pub enum BrokerProtocol {
    Mqtt,
    Mqtts,
    Ws,
    Wss,
}

impl Default for BrokerProtocol {
    fn default() -> (r: Self)
        ensures
            r == BrokerProtocol::Mqtt,
    {
        BrokerProtocol::Mqtt
    }
}

impl BrokerProtocol {
    /// The name under which the protocol is stored, also its URL scheme.
    pub open spec fn storage_name(self) -> Seq<char> {
        match self {
            BrokerProtocol::Mqtt => "mqtt"@,
            BrokerProtocol::Mqtts => "mqtts"@,
            BrokerProtocol::Ws => "ws"@,
            BrokerProtocol::Wss => "wss"@,
        }
    }

    /// The protocol a stored name denotes; unknown names read as plain MQTT.
    pub open spec fn parse_storage(value: Seq<char>) -> BrokerProtocol {
        if value == "mqtts"@ {
            BrokerProtocol::Mqtts
        } else if value == "ws"@ {
            BrokerProtocol::Ws
        } else if value == "wss"@ {
            BrokerProtocol::Wss
        } else {
            BrokerProtocol::Mqtt
        }
    }

    /// Whether the transport is WebSocket, plain or secure.
    pub open spec fn spec_is_websocket(self) -> bool {
        self == BrokerProtocol::Ws || self == BrokerProtocol::Wss
    }

    /// The IANA default port of the transport.
    pub open spec fn spec_default_port(self) -> u16 {
        match self {
            BrokerProtocol::Mqtt => 1883,
            BrokerProtocol::Mqtts => 8883,
            BrokerProtocol::Ws => 8083,
            BrokerProtocol::Wss => 8084,
        }
    }

    pub fn as_str(self) -> (r: &'static str)
        ensures
            r@ == self.storage_name(),
    {
        match self {
            BrokerProtocol::Mqtt => "mqtt",
            BrokerProtocol::Mqtts => "mqtts",
            BrokerProtocol::Ws => "ws",
            BrokerProtocol::Wss => "wss",
        }
    }

    pub fn from_storage(value: &str) -> (r: Self)
        ensures
            r == BrokerProtocol::parse_storage(value@),
    {
        if str_eq(value, "mqtts") {
            BrokerProtocol::Mqtts
        } else if str_eq(value, "ws") {
            BrokerProtocol::Ws
        } else if str_eq(value, "wss") {
            BrokerProtocol::Wss
        } else {
            BrokerProtocol::Mqtt
        }
    }

    pub fn is_websocket(self) -> (r: bool)
        ensures
            r == self.spec_is_websocket(),
    {
        match self {
            BrokerProtocol::Ws | BrokerProtocol::Wss => true,
            _ => false,
        }
    }

    pub fn default_port(self) -> (r: u16)
        ensures
            r == self.spec_default_port(),
    {
        match self {
            BrokerProtocol::Mqtt => 1883,
            BrokerProtocol::Mqtts => 8883,
            BrokerProtocol::Ws => 8083,
            BrokerProtocol::Wss => 8084,
        }
    }
}

/// Reading back the stored name of a protocol gives the protocol.
pub proof fn lemma_broker_protocol_storage_round_trip(p: BrokerProtocol)
    ensures
        BrokerProtocol::parse_storage(p.storage_name()) == p,
{
    reveal_strlit("mqtt");
    reveal_strlit("mqtts");
    reveal_strlit("ws");
    reveal_strlit("wss");
    assert("mqtt"@.len() != "mqtts"@.len());
    assert("mqtt"@.len() != "wss"@.len());
    assert("mqtt"@ != "ws"@);
    assert("ws"@ != "mqtts"@);
    assert("wss"@ != "mqtts"@);
}

/// How a client authenticates to the broker.
#[derive(Debug, Clone)]
pub enum AuthConfig {
    UserPassword { username: String, password: String },
    ClientCert { cert_pem: String, key_pem: String },
    /// No credentials (serialized as `none`).
    NoAuth,
}

/// TLS settings of a secure transport.
#[derive(Debug, Clone)]
pub struct TlsConfig {
    pub enabled: bool,
    pub ca_pem: Option<String>,
    pub client_cert_pem: Option<String>,
    pub client_key_pem: Option<String>,
    pub server_name: Option<String>,
    pub insecure_skip_verify: bool,
    pub alpn_protocols: Vec<String>,
}

/// TLS settings as text.
pub struct TlsView {
    pub enabled: bool,
    pub ca_pem: Option<Seq<char>>,
    pub client_cert_pem: Option<Seq<char>>,
    pub client_key_pem: Option<Seq<char>>,
    pub server_name: Option<Seq<char>>,
    pub insecure_skip_verify: bool,
    pub alpn_protocols: Seq<Seq<char>>,
}

impl View for TlsConfig {
    type V = TlsView;

    open spec fn view(&self) -> TlsView {
        TlsView {
            enabled: self.enabled,
            ca_pem: opt_view(self.ca_pem),
            client_cert_pem: opt_view(self.client_cert_pem),
            client_key_pem: opt_view(self.client_key_pem),
            server_name: opt_view(self.server_name),
            insecure_skip_verify: self.insecure_skip_verify,
            alpn_protocols: texts(self.alpn_protocols@),
        }
    }
}

fn copy_opt_text(o: &Option<String>) -> (r: Option<String>)
    ensures
        opt_view(r) == opt_view(*o),
{
    match o {
        Some(s) => Some(string_of(s.as_str())),
        None => None,
    }
}

impl TlsConfig {
    /// A copy of these settings.
    pub fn duplicate(&self) -> (r: TlsConfig)
        ensures
            r@ == self@,
    {
        let mut alpn: Vec<String> = Vec::new();
        let mut i: usize = 0;
        while i < self.alpn_protocols.len()
            invariant
                i <= self.alpn_protocols@.len(),
                texts(alpn@) == texts(self.alpn_protocols@.take(i as int)),
            decreases self.alpn_protocols@.len() - i,
        {
            let ghost before = alpn@;
            alpn.push(string_of(self.alpn_protocols[i].as_str()));
            assert(texts(alpn@) =~= texts(before).push(self.alpn_protocols@[i as int]@));
            assert(texts(self.alpn_protocols@.take(i + 1)) =~= texts(
                self.alpn_protocols@.take(i as int),
            ).push(self.alpn_protocols@[i as int]@));
            i = i + 1;
        }
        assert(self.alpn_protocols@.take(self.alpn_protocols@.len() as int) =~= self.alpn_protocols@);
        TlsConfig {
            enabled: self.enabled,
            ca_pem: copy_opt_text(&self.ca_pem),
            client_cert_pem: copy_opt_text(&self.client_cert_pem),
            client_key_pem: copy_opt_text(&self.client_key_pem),
            server_name: copy_opt_text(&self.server_name),
            insecure_skip_verify: self.insecure_skip_verify,
            alpn_protocols: alpn,
        }
    }
}

/// The TLS settings of a new configuration: off, nothing set.
pub open spec fn default_tls() -> TlsView {
    TlsView {
        enabled: false,
        ca_pem: None,
        client_cert_pem: None,
        client_key_pem: None,
        server_name: None,
        insecure_skip_verify: false,
        alpn_protocols: seq![],
    }
}

/// The text of optional TLS settings.
pub open spec fn opt_tls_view(t: Option<TlsConfig>) -> Option<TlsView> {
    match t {
        Some(t) => Some(t@),
        None => None,
    }
}

impl Default for TlsConfig {
    fn default() -> (r: Self)
        ensures
            r@ == default_tls(),
    {
        let r = TlsConfig {
            enabled: false,
            ca_pem: None,
            client_cert_pem: None,
            client_key_pem: None,
            server_name: None,
            insecure_skip_verify: false,
            alpn_protocols: Vec::new(),
        };
        assert(texts(r.alpn_protocols@) =~= Seq::<Seq<char>>::empty());
        r
    }
}

/// MQTT 5 CONNECT properties.
#[derive(Debug, Clone, Copy, PartialEq, Eq, Structural)]
pub struct Mqtt5Config {
    pub session_expiry_interval_secs: Option<u32>,
    pub receive_maximum: Option<u16>,
    pub maximum_packet_size: Option<u32>,
    pub topic_alias_maximum: Option<u16>,
    pub request_problem_information: bool,
}

impl Default for Mqtt5Config {
    fn default() -> (r: Self)
        ensures
            r == (Mqtt5Config {
                session_expiry_interval_secs: None,
                receive_maximum: None,
                maximum_packet_size: None,
                topic_alias_maximum: None,
                request_problem_information: true,
            }),
    {
        Mqtt5Config {
            session_expiry_interval_secs: None,
            receive_maximum: None,
            maximum_packet_size: None,
            topic_alias_maximum: None,
            request_problem_information: true,
        }
    }
}

} // verus!
