//! Settings of a load agent, read from its environment, and what it
//! reports about its host when it registers.

use vstd::prelude::*;
use crate::cluster::{new_uuid_simple, MAX_LOG_BATCH, MAX_METRIC_BATCH};
use crate::decimal::{parse_unsigned_chars, parse_unsigned_spec};
use crate::model::cluster::{texts, AgentCapabilities};
use crate::text::{chars_of, append_chars, string_from_chars, string_of, trim, trim_chars};

verus! {

/// The clients an agent offers when its environment names no valid number.
pub const DEFAULT_AGENT_MAX_CLIENTS: u64 = 50_000;

/// `s` without the slashes at its end, as `str::trim_end_matches('/')`.
pub open spec fn trim_end_slashes(s: Seq<char>) -> Seq<char>
    decreases s.len(),
{
    if s.len() > 0 && s.last() == '/' {
        trim_end_slashes(s.drop_last())
    } else {
        s
    }
}

/// The control-plane URL an agent talks to, from `VELAMQ_CONTROL_URL`: it
/// is required, and loses its trailing slashes.
pub fn control_url(value: Option<&str>) -> (r: Result<String, String>)
    ensures
        match value {
            Some(v) => r matches Ok(u) && u@ == trim_end_slashes(v@),
            None => r matches Err(e) && e@ == "VELAMQ_CONTROL_URL is required"@,
        },
{
    let v = match value {
        Some(v) => v,
        None => {
            return Err(string_of("VELAMQ_CONTROL_URL is required"));
        },
    };
    let cs = chars_of(v);
    let mut n: usize = cs.len();
    assert(cs@.take(n as int) =~= cs@);
    while n > 0 && cs[n - 1] == '/'
        invariant
            n <= cs@.len(),
            cs@ == v@,
            trim_end_slashes(cs@.take(n as int)) == trim_end_slashes(v@),
        decreases n,
    {
        assert(cs@.take(n as int).drop_last() =~= cs@.take(n - 1));
        n = n - 1;
    }
    assert(n > 0 ==> cs@.take(n as int).last() == cs@[n - 1]);
    let mut kept: Vec<char> = Vec::new();
    let mut i: usize = 0;
    while i < n
        invariant
            n <= cs@.len(),
            i <= n,
            kept@ == cs@.take(i as int),
        decreases n - i,
    {
        kept.push(cs[i]);
        i = i + 1;
        assert(kept@ =~= cs@.take(i as int));
    }
    Ok(string_from_chars(kept.as_slice()))
}

/// The pieces of `s` between commas, as `str::split(',')`: `k` commas give
/// `k + 1` pieces.
pub open spec fn split_commas(s: Seq<char>) -> Seq<Seq<char>>
    decreases s.len(),
{
    if s.len() == 0 {
        seq![Seq::<char>::empty()]
    } else if s.last() == ',' {
        split_commas(s.drop_last()).push(Seq::<char>::empty())
    } else {
        let p = split_commas(s.drop_last());
        p.update(p.len() - 1, p.last().push(s.last()))
    }
}

/// The trimmed pieces that are not empty, in order.
pub open spec fn kept_labels(pieces: Seq<Seq<char>>) -> Seq<Seq<char>>
    decreases pieces.len(),
{
    if pieces.len() == 0 {
        Seq::empty()
    } else if trim(pieces.last()).len() > 0 {
        kept_labels(pieces.drop_last()).push(trim(pieces.last()))
    } else {
        kept_labels(pieces.drop_last())
    }
}

/// The labels an agent carries, from `VELAMQ_BENCH_AGENT_LABELS`: the
/// comma-separated entries, trimmed, without the empty ones.
pub fn agent_labels(value: &str) -> (r: Vec<String>)
    ensures
        texts(r@) == kept_labels(split_commas(value@)),
{
    let cs = chars_of(value);
    let mut out: Vec<String> = Vec::new();
    let mut cur: Vec<char> = Vec::new();
    let ghost mut done: Seq<Seq<char>> = Seq::empty();
    let mut i: usize = 0;
    assert(cs@.take(0) =~= Seq::<char>::empty());
    while i < cs.len()
        invariant
            cs@ == value@,
            i <= cs@.len(),
            split_commas(cs@.take(i as int)) == done.push(cur@),
            texts(out@) == kept_labels(done),
        decreases cs@.len() - i,
    {
        let c = cs[i];
        assert(cs@.take(i + 1).drop_last() =~= cs@.take(i as int));
        assert(cs@.take(i + 1).last() == c);
        if c == ',' {
            let t = trim_chars(cur.as_slice());
            proof {
                assert(done.push(cur@).drop_last() =~= done);
                assert(done.push(cur@).last() == cur@);
            }
            if t.len() > 0 {
                let ghost before = texts(out@);
                out.push(string_from_chars(t.as_slice()));
                assert(texts(out@) =~= before.push(t@));
            }
            proof {
                done = done.push(cur@);
            }
            cur = Vec::new();
        } else {
            let ghost p = done.push(cur@);
            cur.push(c);
            assert(p.update(p.len() - 1, p.last().push(c)) =~= done.push(cur@));
        }
        i = i + 1;
    }
    assert(cs@.take(cs@.len() as int) =~= cs@);
    let t = trim_chars(cur.as_slice());
    proof {
        assert(done.push(cur@).drop_last() =~= done);
        assert(done.push(cur@).last() == cur@);
    }
    if t.len() > 0 {
        let ghost before = texts(out@);
        out.push(string_from_chars(t.as_slice()));
        assert(texts(out@) =~= before.push(t@));
    }
    out
}

/// The number of clients an agent offers, from
/// `VELAMQ_BENCH_AGENT_MAX_CLIENTS`: the value when it reads as a `u64`,
/// else the default.
pub open spec fn max_clients_setting(value: Option<Seq<char>>) -> u64 {
    match value {
        Some(v) => match parse_unsigned_spec(v, u64::MAX as nat) {
            Ok(n) => n as u64,
            Err(_) => DEFAULT_AGENT_MAX_CLIENTS,
        },
        None => DEFAULT_AGENT_MAX_CLIENTS,
    }
}

pub fn agent_max_clients(value: Option<&str>) -> (r: u64)
    ensures
        r == max_clients_setting(
            match value {
                Some(v) => Some(v@),
                None => None,
            },
        ),
{
    match value {
        Some(v) => {
            let cs = chars_of(v);
            match parse_unsigned_chars(cs.as_slice(), u64::MAX) {
                Ok(n) => n,
                Err(_) => DEFAULT_AGENT_MAX_CLIENTS,
            }
        },
        None => DEFAULT_AGENT_MAX_CLIENTS,
    }
}

/// The name an agent registers under when none is configured: the host's
/// name from `HOSTNAME` or `COMPUTERNAME`, else `velamq-bench-agent-` and
/// a random UUID in simple form.
pub fn default_agent_name(hostname: Option<String>, computername: Option<String>) -> (r: String)
    ensures
        match hostname {
            Some(h) => r@ == h@,
            None => match computername {
                Some(c) => r@ == c@,
                None => "velamq-bench-agent-"@.is_prefix_of(r@) && r@.len() == 19 + 32,
            },
        },
{
    match hostname {
        Some(h) => h,
        None => match computername {
            Some(c) => c,
            None => {
                let mut v = chars_of("velamq-bench-agent-");
                let id = new_uuid_simple();
                let ghost prefix = v@;
                append_chars(&mut v, chars_of(id.as_str()).as_slice());
                proof {
                    reveal_strlit("velamq-bench-agent-");
                    assert(prefix.is_prefix_of(v@)) by {
                        assert(v@.take(prefix.len() as int) =~= prefix);
                    }
                }
                string_from_chars(v.as_slice())
            },
        },
    }
}

/// The features every agent offers.
pub open spec fn agent_features() -> Seq<Seq<char>> {
    seq!["mqtt3"@, "mqtt5"@, "tls"@, "websocket"@]
}

/// What an agent reports about its host: the platform, the agent's
/// version, the cores it may use (one when the count is unknown), and
/// the clients it offers. The memory size is not measured and reads 0.
pub fn agent_capabilities(
    os: &str,
    arch: &str,
    version: &str,
    available_cores: Option<usize>,
    max_clients: u64,
) -> (r: AgentCapabilities)
    ensures
        r.os@ == os@,
        r.arch@ == arch@,
        r.version@ == version@,
        r.cpu_cores == match available_cores {
            Some(n) => n as u32,
            None => 1u32,
        },
        r.memory_bytes == 0,
        r.max_clients == max_clients,
        texts(r.features@) == agent_features(),
{
    let cpu_cores: u32 = match available_cores {
        Some(n) => n as u32,
        None => 1,
    };
    let mut features: Vec<String> = Vec::new();
    features.push(string_of("mqtt3"));
    features.push(string_of("mqtt5"));
    features.push(string_of("tls"));
    features.push(string_of("websocket"));
    assert(texts(features@) =~= agent_features());
    AgentCapabilities {
        os: string_of(os),
        arch: string_of(arch),
        version: string_of(version),
        cpu_cores,
        memory_bytes: 0,
        max_clients,
        features,
    }
}

/// An agent registers only with the bootstrap token that
/// `VELAMQ_BENCH_AGENT_BOOTSTRAP_TOKEN` holds.
pub fn registration_token(configured: Option<&str>) -> (r: Result<String, String>)
    ensures
        match configured {
            Some(t) => r matches Ok(v) && v@ == t@,
            None => r matches Err(e) && e@
                == "VELAMQ_BENCH_AGENT_BOOTSTRAP_TOKEN is required for first registration"@,
        },
{
    match configured {
        Some(t) => Ok(string_of(t)),
        None => Err(
            string_of("VELAMQ_BENCH_AGENT_BOOTSTRAP_TOKEN is required for first registration"),
        ),
    }
}

/// What an agent's drain of the local run events receives next.
#[derive(Debug, Clone, Copy, PartialEq, Eq, Structural)]
pub enum TelemetryEvent {
    /// A metric snapshot of a workload.
    Metric,
    /// A log line of a workload.
    Log,
    /// Any other run event.
    Other,
    /// Some events were lost because the receiver fell behind.
    Lagged,
    /// Nothing is waiting.
    Empty,
    /// The sender is gone.
    Closed,
}

/// What the drain does with what it received.
#[derive(Debug, Clone, Copy, PartialEq, Eq, Structural)]
pub enum TelemetryStep {
    /// Add the metric to the batch under this sequence number.
    StoreMetric(u64),
    /// Add the log line to the batch under this sequence number.
    StoreLog(u64),
    /// Drop the event and receive the next one.
    Skip,
    /// End the drain and upload what was gathered.
    Stop,
}

/// One drain of run events into upload batches: the last sequence numbers
/// given out, which go on from drain to drain, and the sizes of the
/// batches being filled.
pub struct TelemetryBatch {
    pub metric_sequence: u64,
    pub log_sequence: u64,
    pub metrics: usize,
    pub logs: usize,
}

/// Whether a drain may receive another event: both batches have room.
pub open spec fn batch_has_room(b: TelemetryBatch) -> bool {
    b.metrics < MAX_METRIC_BATCH && b.logs < MAX_LOG_BATCH
}

impl TelemetryBatch {
    /// A drain that starts with empty batches and goes on from the given
    /// sequence numbers.
    pub fn start(metric_sequence: u64, log_sequence: u64) -> (r: TelemetryBatch)
        ensures
            r.metric_sequence == metric_sequence,
            r.log_sequence == log_sequence,
            r.metrics == 0,
            r.logs == 0,
    {
        TelemetryBatch { metric_sequence, log_sequence, metrics: 0, logs: 0 }
    }

    /// Whether the drain receives another event.
    pub fn wants_more(&self) -> (r: bool)
        ensures
            r == batch_has_room(*self),
    {
        self.metrics < MAX_METRIC_BATCH && self.logs < MAX_LOG_BATCH
    }

    /// Takes one received event: metrics and logs get the next number of
    /// their own sequence and join their batch, lag and other events are
    /// passed over, and an empty or closed channel ends the drain.
    pub fn on_event(&mut self, event: TelemetryEvent) -> (step: TelemetryStep)
        requires
            batch_has_room(*old(self)),
            event == TelemetryEvent::Metric ==> old(self).metric_sequence < u64::MAX,
            event == TelemetryEvent::Log ==> old(self).log_sequence < u64::MAX,
        ensures
            step == match event {
                TelemetryEvent::Metric => TelemetryStep::StoreMetric(
                    (old(self).metric_sequence + 1) as u64,
                ),
                TelemetryEvent::Log => TelemetryStep::StoreLog((old(self).log_sequence + 1) as u64),
                TelemetryEvent::Other | TelemetryEvent::Lagged => TelemetryStep::Skip,
                TelemetryEvent::Empty | TelemetryEvent::Closed => TelemetryStep::Stop,
            },
            final(self).metric_sequence == old(self).metric_sequence + if event
                == TelemetryEvent::Metric {
                1int
            } else {
                0int
            },
            final(self).log_sequence == old(self).log_sequence + if event == TelemetryEvent::Log {
                1int
            } else {
                0int
            },
            final(self).metrics == old(self).metrics + if event == TelemetryEvent::Metric {
                1int
            } else {
                0int
            },
            final(self).logs == old(self).logs + if event == TelemetryEvent::Log {
                1int
            } else {
                0int
            },
            final(self).metrics <= MAX_METRIC_BATCH,
            final(self).logs <= MAX_LOG_BATCH,
    {
        match event {
            TelemetryEvent::Metric => {
                self.metric_sequence = self.metric_sequence + 1;
                self.metrics = self.metrics + 1;
                TelemetryStep::StoreMetric(self.metric_sequence)
            },
            TelemetryEvent::Log => {
                self.log_sequence = self.log_sequence + 1;
                self.logs = self.logs + 1;
                TelemetryStep::StoreLog(self.log_sequence)
            },
            TelemetryEvent::Other | TelemetryEvent::Lagged => TelemetryStep::Skip,
            TelemetryEvent::Empty | TelemetryEvent::Closed => TelemetryStep::Stop,
        }
    }
}

} // verus!
