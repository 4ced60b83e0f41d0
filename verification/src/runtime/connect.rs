//! What a benchmark client asks of its MQTT connection, read off the
//! benchmark's configuration: where it dials, how it carries the session,
//! which credentials it presents and which MQTT 5 properties it requests.
//! The task that owns the connection hands these to the MQTT client.

use vstd::prelude::*;
use crate::bench::{broker_address, broker_address_for_config};
use crate::model::broker::{BrokerProtocol, Mqtt5Config};
use crate::model::legacy::BenchConfig;
use crate::text::string_of;

verus! {

/// The transport a connection runs over.
#[derive(Debug, Clone, Copy, PartialEq, Eq, Structural)]
pub enum TransportChoice {
    /// Plain TCP.
    Tcp,
    /// TCP with TLS, set up from the configuration's TLS settings.
    Tls,
    /// A WebSocket.
    Ws,
    /// A WebSocket over TLS.
    Wss,
}

/// The MQTT 5 connect properties a client requests.
#[derive(Debug, Clone, Copy, PartialEq, Eq, Structural)]
pub struct Mqtt5Connect {
    pub session_expiry_interval_secs: Option<u32>,
    pub receive_maximum: Option<u16>,
    pub max_packet_size: Option<u32>,
    pub topic_alias_max: Option<u16>,
    /// `1` to ask the broker for problem information, `0` not to.
    pub request_problem_info: u8,
}

/// How one client connects.
#[derive(Debug, Clone)]
pub struct ConnectPlan {
    pub address: String,
    pub port: u16,
    pub keep_alive_secs: u16,
    pub clean_session: bool,
    pub connection_timeout_secs: u16,
    /// The user name and password, when a user name is set and not empty;
    /// a missing password is sent as the empty one.
    pub credentials: Option<(String, String)>,
    pub transport: TransportChoice,
    pub mqtt5: Option<Mqtt5Connect>,
    /// The network device the socket binds to, when one is named.
    pub bind_device: Option<String>,
}

/// The transport a broker protocol runs over.
pub open spec fn transport_spec(p: BrokerProtocol) -> TransportChoice {
    match p {
        BrokerProtocol::Mqtt => TransportChoice::Tcp,
        BrokerProtocol::Mqtts => TransportChoice::Tls,
        BrokerProtocol::Ws => TransportChoice::Ws,
        BrokerProtocol::Wss => TransportChoice::Wss,
    }
}

/// The connect properties that an MQTT 5 configuration asks for.
pub open spec fn mqtt5_connect_spec(c: Mqtt5Config) -> Mqtt5Connect {
    Mqtt5Connect {
        session_expiry_interval_secs: c.session_expiry_interval_secs,
        receive_maximum: c.receive_maximum,
        max_packet_size: c.maximum_packet_size,
        topic_alias_max: c.topic_alias_maximum,
        request_problem_info: if c.request_problem_information {
            1
        } else {
            0
        },
    }
}

/// The transport a broker protocol runs over.
pub fn transport_for(protocol: BrokerProtocol) -> (r: TransportChoice)
    ensures
        r == transport_spec(protocol),
{
    match protocol {
        BrokerProtocol::Mqtt => TransportChoice::Tcp,
        BrokerProtocol::Mqtts => TransportChoice::Tls,
        BrokerProtocol::Ws => TransportChoice::Ws,
        BrokerProtocol::Wss => TransportChoice::Wss,
    }
}

/// The connect properties that an MQTT 5 configuration asks for.
pub fn mqtt5_connect(c: Mqtt5Config) -> (r: Mqtt5Connect)
    ensures
        r == mqtt5_connect_spec(c),
{
    Mqtt5Connect {
        session_expiry_interval_secs: c.session_expiry_interval_secs,
        receive_maximum: c.receive_maximum,
        max_packet_size: c.maximum_packet_size,
        topic_alias_max: c.topic_alias_maximum,
        request_problem_info: if c.request_problem_information {
            1
        } else {
            0
        },
    }
}

/// How client connections of the benchmark `config` are made, with the
/// socket bound to `bind_device` when it names a device.
pub fn connect_plan(config: &BenchConfig, bind_device: Option<&str>) -> (r: ConnectPlan)
    ensures
        r.address@ == broker_address(config@),
        r.port == config.port,
        r.keep_alive_secs == config.keepalive_secs,
        r.clean_session == config.clean_session,
        r.connection_timeout_secs == config.connection_timeout_secs,
        match config.username {
            Some(u) if u@.len() > 0 => r.credentials matches Some((ru, rp)) && ru@ == u@
                && rp@ == match config.password {
                Some(p) => p@,
                None => Seq::<char>::empty(),
            },
            _ => r.credentials is None,
        },
        r.transport == transport_spec(config.protocol),
        r.mqtt5 == match config.mqtt5 {
            Some(c) => Some(mqtt5_connect_spec(c)),
            None => None::<Mqtt5Connect>,
        },
        match bind_device {
            Some(d) if d@.len() > 0 => r.bind_device matches Some(b) && b@ == d@,
            _ => r.bind_device is None,
        },
{
    let credentials = match &config.username {
        Some(u) => {
            if !u.as_str().is_empty() {
                let password = match &config.password {
                    Some(p) => p.clone(),
                    None => String::new(),
                };
                Some((u.clone(), password))
            } else {
                None
            }
        },
        None => None,
    };
    let mqtt5 = match config.mqtt5 {
        Some(c) => Some(mqtt5_connect(c)),
        None => None,
    };
    let bind = match bind_device {
        Some(d) => {
            if !d.is_empty() {
                Some(string_of(d))
            } else {
                None
            }
        },
        None => None,
    };
    ConnectPlan {
        address: broker_address_for_config(config),
        port: config.port,
        keep_alive_secs: config.keepalive_secs,
        clean_session: config.clean_session,
        connection_timeout_secs: config.connection_timeout_secs,
        credentials,
        transport: transport_for(config.protocol),
        mqtt5,
        bind_device: bind,
    }
}

} // verus!
