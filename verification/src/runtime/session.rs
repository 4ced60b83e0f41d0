//! What one benchmark client does with each thing that happens to it: the
//! connection state it keeps, what it counts, which errors it reports and
//! when it backs off. The task that owns the MQTT connection feeds it the
//! events and carries out what it answers.

use vstd::prelude::*;
use crate::bench::{latency_between, latency_between_spec, unix_timestamp_nanos};
use crate::model::legacy::BenchMode;
use crate::payload_stamp::{build_payload, parse_payload_timestamp, parse_stamp_spec, payload_spec};
use crate::runtime::sampler::{
    after_connect, after_disconnect, after_error, after_latency, after_published, after_received,
    saturating_add,
    SamplerView, WorkloadSampler,
};

verus! {

/// How many errors a client reports to the log; later ones are only
/// counted.
pub const MAX_REPORTED_ERRORS: u8 = 3;

/// The connection state of one client.
#[derive(Debug, Clone, Copy, PartialEq, Eq, Structural)]
pub struct ClientSession {
    pub connected: bool,
    pub reported_errors: u8,
}

/// Something that happened to a client.
#[derive(Debug, Clone)]
pub enum ClientEvent {
    /// The broker accepted the connection.
    ConnAck,
    /// A message arrived, with its payload.
    Message(Vec<u8>),
    /// Any other packet.
    Other,
    /// The connection failed.
    ConnectionError,
    /// A publish was handed to the client.
    Published,
    /// A publish could not be handed to the client.
    PublishFailed,
}

/// What the client task does after an event.
#[derive(Debug, Clone, Copy, PartialEq, Eq, Structural)]
pub struct SessionAction {
    /// Write the error to the run log.
    pub log_error: bool,
    /// Wait before polling the connection again.
    pub back_off: bool,
}

impl ClientSession {
    /// A client that has not connected yet.
    pub fn new() -> (r: Self)
        ensures
            r == (ClientSession { connected: false, reported_errors: 0 }),
    {
        ClientSession { connected: false, reported_errors: 0 }
    }
}

/// After an error: whether it is logged, and the session that follows.
pub open spec fn after_reported(s: ClientSession, connected: bool) -> (ClientSession, bool) {
    if s.reported_errors < MAX_REPORTED_ERRORS {
        (ClientSession { connected, reported_errors: (s.reported_errors + 1) as u8 }, true)
    } else {
        (ClientSession { connected, reported_errors: s.reported_errors }, false)
    }
}

/// What an incoming message does to the counters, with the clock at
/// `now_ns`: it is counted, and when payloads carry timestamps its latency
/// is recorded in microseconds.
pub open spec fn message_effect(s: SamplerView, payload: Seq<u8>, stamped: bool, now_ns: i64) -> SamplerView {
    let received = after_received(s);
    if !stamped {
        received
    } else {
        match parse_stamp_spec(payload) {
            None => received,
            Some(sent) => match latency_between_spec(now_ns, sent) {
                None => received,
                Some(ns) => after_latency(received, ns / 1000),
            },
        }
    }
}

/// The session, counters and action that follow an event other than a
/// message.
pub open spec fn event_effect(
    session: ClientSession,
    s: SamplerView,
    connack: bool,
    connection_error: bool,
    published: bool,
    publish_failed: bool,
) -> (ClientSession, SamplerView, SessionAction) {
    if connack {
        if session.connected {
            (session, s, SessionAction { log_error: false, back_off: false })
        } else {
            (
                ClientSession { connected: true, ..session },
                after_connect(s),
                SessionAction { log_error: false, back_off: false },
            )
        }
    } else if connection_error {
        let counted = after_error(s);
        let dropped = if session.connected {
            after_disconnect(counted)
        } else {
            counted
        };
        let (next, log) = after_reported(session, false);
        (next, dropped, SessionAction { log_error: log, back_off: true })
    } else if published {
        (session, after_published(s), SessionAction { log_error: false, back_off: false })
    } else if publish_failed {
        let (next, log) = after_reported(session, session.connected);
        (next, after_error(s), SessionAction { log_error: log, back_off: false })
    } else {
        (session, s, SessionAction { log_error: false, back_off: false })
    }
}

/// A stamped message records its latency in microseconds: with the clock
/// at `now_ns` and the payload stamped `sent_ns`, the message is counted
/// and `(now_ns - sent_ns) / 1000` joins the latency window, unless the
/// stamp lies in the future (or too far in the past for an `i64`), when
/// only the message is counted. Without timestamps, only the message is
/// counted.
pub proof fn lemma_stamped_latency(s: SamplerView, payload: Seq<u8>, sent_ns: i64, now_ns: i64)
    requires
        parse_stamp_spec(payload) == Some(sent_ns),
    ensures
        0 <= now_ns - sent_ns <= i64::MAX ==> {
            let t = message_effect(s, payload, true, now_ns);
            &&& t.window_values_us == s.window_values_us.push(((now_ns - sent_ns) / 1000) as u64)
            &&& t.window_count == saturating_add(s.window_count, 1)
            &&& t.total_count == saturating_add(s.total_count, 1)
            &&& t.counters == after_received(s).counters
        },
        !(0 <= now_ns - sent_ns <= i64::MAX) ==> message_effect(s, payload, true, now_ns)
            == after_received(s),
        forall|t: i64| message_effect(s, payload, false, t) == after_received(s),
{
    if 0 <= now_ns - sent_ns <= i64::MAX {
        let d = (now_ns - sent_ns) as u64;
        assert(latency_between_spec(now_ns, sent_ns) == Some(d));
        assert((d / 1000) as int == (now_ns - sent_ns) / 1000);
    }
}

impl ClientSession {
    /// Handles one event: counts it on `sampler`, updates the connection
    /// state and says whether to log and whether to back off. A stamped
    /// message is measured against the clock read as it is handled.
    pub fn on_event(&mut self, sampler: &mut WorkloadSampler, event: ClientEvent, stamped: bool) -> (r:
        SessionAction)
        ensures
            match event {
                ClientEvent::Message(p) => {
                    &&& *final(self) == *old(self)
                    &&& r == (SessionAction { log_error: false, back_off: false })
                    &&& exists|now_ns: i64|
                        final(sampler)@ == #[trigger] message_effect(
                            old(sampler)@,
                            p@,
                            stamped,
                            now_ns,
                        )
                },
                _ => {
                    let (next, counters, action) = event_effect(
                        *old(self),
                        old(sampler)@,
                        event is ConnAck,
                        event is ConnectionError,
                        event is Published,
                        event is PublishFailed,
                    );
                    &&& *final(self) == next
                    &&& final(sampler)@ == counters
                    &&& r == action
                },
            },
    {
        let now_ns: i64 = match &event {
            ClientEvent::Message(_) => if stamped {
                unix_timestamp_nanos()
            } else {
                0
            },
            _ => 0,
        };
        self.on_event_at(sampler, event, stamped, now_ns)
    }

    /// Handles one event with the clock reading `now_ns`: counts it on
    /// `sampler`, updates the connection state and says whether to log and
    /// whether to back off. A stamped message's latency is measured against
    /// `now_ns` and recorded in microseconds.
    pub fn on_event_at(
        &mut self,
        sampler: &mut WorkloadSampler,
        event: ClientEvent,
        stamped: bool,
        now_ns: i64,
    ) -> (r: SessionAction)
        ensures
            match event {
                ClientEvent::Message(p) => {
                    &&& *final(self) == *old(self)
                    &&& r == (SessionAction { log_error: false, back_off: false })
                    &&& final(sampler)@ == message_effect(old(sampler)@, p@, stamped, now_ns)
                    &&& match parse_stamp_spec(p@) {
                        Some(sent) => stamped && 0 <= now_ns - sent <= i64::MAX
                            ==> final(sampler)@.window_values_us == old(
                            sampler,
                        )@.window_values_us.push(((now_ns - sent) / 1000) as u64),
                        None => true,
                    }
                },
                _ => {
                    let (next, counters, action) = event_effect(
                        *old(self),
                        old(sampler)@,
                        event is ConnAck,
                        event is ConnectionError,
                        event is Published,
                        event is PublishFailed,
                    );
                    &&& *final(self) == next
                    &&& final(sampler)@ == counters
                    &&& r == action
                },
            },
    {
        match event {
            ClientEvent::ConnAck => {
                if !self.connected {
                    self.connected = true;
                    sampler.client_connected();
                }
                SessionAction { log_error: false, back_off: false }
            },
            ClientEvent::Message(payload) => {
                let ghost before = sampler@;
                sampler.received();
                if stamped {
                    match parse_payload_timestamp(payload.as_slice()) {
                        Some(sent_ns) => {
                            let measured = latency_between(now_ns, sent_ns);
                            if let Some(latency_ns) = measured {
                                sampler.latency(latency_ns / 1000);
                            }
                            proof {
                                lemma_stamped_latency(before, payload@, sent_ns, now_ns);
                            }
                        },
                        None => {},
                    }
                }
                SessionAction { log_error: false, back_off: false }
            },
            ClientEvent::Other => SessionAction { log_error: false, back_off: false },
            ClientEvent::ConnectionError => {
                sampler.error();
                if self.connected {
                    self.connected = false;
                    sampler.client_disconnected();
                }
                let log = self.reported_errors < MAX_REPORTED_ERRORS;
                if log {
                    self.reported_errors = self.reported_errors + 1;
                }
                SessionAction { log_error: log, back_off: true }
            },
            ClientEvent::Published => {
                sampler.published();
                SessionAction { log_error: false, back_off: false }
            },
            ClientEvent::PublishFailed => {
                sampler.error();
                let log = self.reported_errors < MAX_REPORTED_ERRORS;
                if log {
                    self.reported_errors = self.reported_errors + 1;
                }
                SessionAction { log_error: log, back_off: false }
            },
        }
    }

    /// Ends the session: a connected client is counted as disconnected.
    pub fn finish(&mut self, sampler: &mut WorkloadSampler)
        ensures
            !final(self).connected,
            final(self).reported_errors == old(self).reported_errors,
            final(sampler)@ == if old(self).connected {
                after_disconnect(old(sampler)@)
            } else {
                old(sampler)@
            },
    {
        if self.connected {
            self.connected = false;
            sampler.client_disconnected();
        }
    }
}

/// Whether a client of a benchmark in `mode` publishes: only in `pub` mode.
pub fn client_publishes(mode: BenchMode) -> (r: bool)
    ensures
        r == (mode == BenchMode::Pub),
{
    match mode {
        BenchMode::Pub => true,
        _ => false,
    }
}

/// Whether a client of a benchmark in `mode` subscribes to its topic: only
/// in `sub` mode.
pub fn client_subscribes(mode: BenchMode) -> (r: bool)
    ensures
        r == (mode == BenchMode::Sub),
{
    match mode {
        BenchMode::Sub => true,
        _ => false,
    }
}

/// The payload of the next publish of client `index`: stamped with the
/// time now when payloads carry timestamps.
pub fn outgoing_payload(size: usize, index: u64, stamped: bool) -> (r: Vec<u8>)
    ensures
        !stamped ==> r@ == payload_spec(size as nat, index, None),
        stamped ==> exists|ts: i64| r@ == #[trigger] payload_spec(size as nat, index, Some(ts)),
{
    if stamped {
        let now = unix_timestamp_nanos();
        build_payload(size, index, Some(now))
    } else {
        build_payload(size, index, None)
    }
}

/// A client reports at most [`MAX_REPORTED_ERRORS`] errors, however many
/// come, and a connection error always leaves it disconnected and backing
/// off.
pub proof fn lemma_reported_errors_capped(session: ClientSession, s: SamplerView)
    requires
        session.reported_errors <= MAX_REPORTED_ERRORS,
    ensures
        ({
            let (next, counters, action) = event_effect(session, s, false, true, false, false);
            &&& next.reported_errors <= MAX_REPORTED_ERRORS
            &&& !next.connected
            &&& action.back_off
            &&& action.log_error <==> session.reported_errors < MAX_REPORTED_ERRORS
        }),
        ({
            let (next, counters, action) = event_effect(session, s, false, false, false, true);
            &&& next.reported_errors <= MAX_REPORTED_ERRORS
            &&& action.log_error <==> session.reported_errors < MAX_REPORTED_ERRORS
        }),
{
}

/// Connecting and then failing leaves the current-connection count where
/// it was: a client is counted while it is connected and no longer.
pub proof fn lemma_connection_counted_once(session: ClientSession, s: SamplerView)
    requires
        !session.connected,
        s.counters.connected_current < u64::MAX,
    ensures
        ({
            let (a, s1, _x) = event_effect(session, s, true, false, false, false);
            let (b, s2, _y) = event_effect(a, s1, true, false, false, false);
            let (c, s3, _z) = event_effect(b, s2, false, true, false, false);
            &&& a.connected && b.connected && !c.connected
            &&& s2 == s1
            &&& s3.counters.connected_current == s.counters.connected_current
        }),
{
}

/// One event of a client run as the session sees it; a message carries its
/// payload and the clock's reading when it arrived.
pub enum SessionStep {
    ConnAck,
    Message(Seq<u8>, i64),
    Other,
    ConnectionError,
    Published,
    PublishFailed,
}

/// The session and counters after one step.
pub open spec fn after_step(
    session: ClientSession,
    s: SamplerView,
    step: SessionStep,
    stamped: bool,
) -> (ClientSession, SamplerView) {
    match step {
        SessionStep::Message(p, now_ns) => (session, message_effect(s, p, stamped, now_ns)),
        _ => {
            let (next, counters, _action) = event_effect(
                session,
                s,
                step is ConnAck,
                step is ConnectionError,
                step is Published,
                step is PublishFailed,
            );
            (next, counters)
        },
    }
}

/// The session and counters after some steps, in order.
pub open spec fn after_steps(
    session: ClientSession,
    s: SamplerView,
    steps: Seq<SessionStep>,
    stamped: bool,
) -> (ClientSession, SamplerView)
    decreases steps.len(),
{
    if steps.len() == 0 {
        (session, s)
    } else {
        let (a, t) = after_steps(session, s, steps.drop_last(), stamped);
        after_step(a, t, steps.last(), stamped)
    }
}

/// The counters after the run ends: a connected client is disconnected.
pub open spec fn after_finish(session: ClientSession, s: SamplerView) -> SamplerView {
    if session.connected {
        after_disconnect(s)
    } else {
        s
    }
}

/// Over a whole client run, connects and disconnects balance: from a
/// client that has not connected, whatever events come, the sampler's
/// open-connection count is one more than at the start while the client is
/// connected and back where it started otherwise, and after the run ends
/// it is where it started.
pub proof fn lemma_client_run_balanced(
    session: ClientSession,
    s: SamplerView,
    steps: Seq<SessionStep>,
    stamped: bool,
)
    requires
        !session.connected,
        s.counters.connected_current < u64::MAX,
    ensures
        ({
            let (end, t) = after_steps(session, s, steps, stamped);
            &&& end.connected ==> t.counters.connected_current == s.counters.connected_current + 1
            &&& !end.connected ==> t.counters.connected_current == s.counters.connected_current
            &&& after_finish(end, t).counters.connected_current == s.counters.connected_current
        }),
    decreases steps.len(),
{
    if steps.len() > 0 {
        lemma_client_run_balanced(session, s, steps.drop_last(), stamped);
    }
}

/// The steps a client run can take: a client that does not publish sees
/// no publish handed over and no publish refused.
pub open spec fn steps_fit_mode(steps: Seq<SessionStep>, publishes: bool) -> bool {
    !publishes ==> forall|k: int|
        0 <= k < steps.len() ==> !(#[trigger] steps[k] is Published) && !(steps[k] is PublishFailed)
}

/// Over a whole client run, what is counted follows the configuration: a
/// client that does not publish leaves the published count where it was,
/// and when payloads carry no timestamps no latency is recorded, whatever
/// events come.
pub proof fn lemma_client_run_gated(
    session: ClientSession,
    s: SamplerView,
    steps: Seq<SessionStep>,
    publishes: bool,
    stamped: bool,
)
    requires
        steps_fit_mode(steps, publishes),
    ensures
        ({
            let (end, t) = after_steps(session, s, steps, stamped);
            &&& !publishes ==> t.counters.published == s.counters.published
            &&& !stamped ==> {
                &&& t.total_count == s.total_count
                &&& t.window_count == s.window_count
                &&& t.window_sum_us == s.window_sum_us
                &&& t.window_min_us == s.window_min_us
                &&& t.window_max_us == s.window_max_us
                &&& t.window_values_us == s.window_values_us
            }
        }),
    decreases steps.len(),
{
    if steps.len() > 0 {
        assert(steps_fit_mode(steps.drop_last(), publishes)) by {
            if !publishes {
                assert forall|k: int| 0 <= k < steps.drop_last().len() implies !(
                #[trigger] steps.drop_last()[k] is Published) && !(
                steps.drop_last()[k] is PublishFailed) by {
                    assert(steps.drop_last()[k] == steps[k]);
                }
            }
        }
        lemma_client_run_gated(session, s, steps.drop_last(), publishes, stamped);
        if !publishes {
            assert(!(steps[steps.len() - 1] is Published));
        }
    }
}

} // verus!
