//! The counters that a running workload keeps, and the latency window that
//! is drained into each metric snapshot.
//!
//! The sampler is plain state changed through `&mut self`; the service that
//! shares it between client tasks keeps it behind a lock.

use vstd::prelude::*;
use crate::storage::legacy_run_workload_id;
use std::collections::BTreeMap;

verus! {

/// The largest latency, in microseconds, whose histogram bucket fits in a
/// `u64` (bucket bounds are powers of two).
pub const MAX_BUCKETED_LATENCY_US: u64 = 0x8000_0000_0000_0000;

/// The upper bound of the histogram bucket of a latency: the smallest power
/// of two that is at least the latency and at least 1.
pub open spec fn bucket_of(v: nat) -> nat
    decreases v,
{
    if v <= 1 {
        1
    } else {
        2 * bucket_of(v / 2 + v % 2)
    }
}

proof fn lemma_bucket_of_bounds(v: nat)
    ensures
        bucket_of(v) >= 1,
        v >= 2 ==> bucket_of(v) <= 2 * (v - 1),
        bucket_of(v) >= v,
    decreases v,
{
    if v > 1 {
        lemma_bucket_of_bounds(v / 2 + v % 2);
    }
}

/// `u64::next_power_of_two` of `max(v, 1)`.
fn bucket_bound(v: u64) -> (b: u64)
    requires
        v <= MAX_BUCKETED_LATENCY_US,
    ensures
        b == bucket_of(v as nat),
    decreases v,
{
    if v <= 1 {
        1
    } else {
        let half: u64 = v / 2 + v % 2;
        proof {
            lemma_bucket_of_bounds(v as nat);
        }
        2 * bucket_bound(half)
    }
}

/// How many latencies of `values` fall in the bucket bounded by `bound`.
pub open spec fn bucket_count(values: Seq<u64>, bound: nat) -> nat
    decreases values.len(),
{
    if values.len() == 0 {
        0
    } else {
        bucket_count(values.drop_last(), bound) + if bucket_of(values.last() as nat) == bound {
            1nat
        } else {
            0nat
        }
    }
}

proof fn lemma_bucket_count_le(values: Seq<u64>, bound: nat)
    ensures
        bucket_count(values, bound) <= values.len(),
    decreases values.len(),
{
    if values.len() > 0 {
        lemma_bucket_count_le(values.drop_last(), bound);
    }
}

/// One bar of a latency histogram: how many samples were at most
/// `upper_bound_us` and above the previous bound.
#[derive(Debug, Clone, Copy, PartialEq, Eq, Structural)]
pub struct LatencyBucket {
    pub upper_bound_us: u64,
    pub count: u64,
}

/// `buckets` is the histogram of `values`: one bucket per occupied bound,
/// in increasing order of bound, each with the number of values in it.
pub open spec fn is_histogram_of(buckets: Seq<LatencyBucket>, values: Seq<u64>) -> bool {
    &&& forall|i: int, j: int|
        0 <= i < j < buckets.len() ==> #[trigger] buckets[i].upper_bound_us
            < #[trigger] buckets[j].upper_bound_us
    &&& forall|i: int|
        0 <= i < buckets.len() ==> #[trigger] buckets[i].count == bucket_count(
            values,
            buckets[i].upper_bound_us as nat,
        ) && buckets[i].count > 0
    &&& forall|k: int|
        0 <= k < values.len() ==> exists|i: int|
            0 <= i < buckets.len() && #[trigger] buckets[i].upper_bound_us as nat == bucket_of(
                #[trigger] values[k] as nat,
            )
}

/// `u64` keys are ordered as `BTreeMap`'s specifications ask of keys.
spec fn u64_keys_ordered() -> bool {
    &&& vstd::std_specs::btree::key_obeys_cmp_spec::<u64>()
    &&& vstd::laws_cmp::obeys_cmp::<u64>()
}

/// The keys of a `BTreeMap` of `u64` are ordered as integers are, and the
/// map's specifications hold for them.
proof fn lemma_u64_keys_ordered()
    ensures
        u64_keys_ordered(),
{
    broadcast use vstd::laws_cmp::group_laws_cmp;
    broadcast use vstd::std_specs::btree::group_btree_axioms;

}

/// A sequence of `u64` that a `BTreeMap` calls increasing is strictly
/// increasing.
proof fn lemma_increasing_u64(s: Seq<u64>)
    requires
        vstd::std_specs::btree::increasing_seq(s),
    ensures
        forall|i: int, j: int| 0 <= i < j < s.len() ==> s[i] < s[j],
{
    broadcast use vstd::laws_cmp::group_laws_cmp;
    broadcast use vstd::std_specs::btree::group_btree_axioms;

    assert forall|i: int, j: int| 0 <= i < j < s.len() implies s[i] < s[j] by {
        assert(vstd::std_specs::cmp::OrdSpec::cmp_spec(&s[i], &s[j]) is Less);
    }
}

/// Groups latencies (in microseconds) into power-of-two buckets.
pub fn latency_histogram(values_us: &[u64]) -> (r: Vec<LatencyBucket>)
    requires
        forall|k: int| 0 <= k < values_us@.len() ==> values_us@[k] <= MAX_BUCKETED_LATENCY_US,
    ensures
        is_histogram_of(r@, values_us@),
{
    proof {
        lemma_u64_keys_ordered();
    }
    let mut counts: BTreeMap<u64, u64> = BTreeMap::new();
    let mut i: usize = 0;
    while i < values_us.len()
        invariant
            i <= values_us@.len(),
            u64_keys_ordered(),
            forall|k: int| 0 <= k < values_us@.len() ==> values_us@[k] <= MAX_BUCKETED_LATENCY_US,
            forall|b: u64|
                #![trigger counts@.contains_key(b)]
                counts@.contains_key(b) <==> bucket_count(values_us@.take(i as int), b as nat)
                    > 0,
            forall|b: u64|
                #![trigger counts@[b]]
                counts@.contains_key(b) ==> counts@[b] == bucket_count(
                    values_us@.take(i as int),
                    b as nat,
                ),
            forall|k: int|
                0 <= k < i ==> exists|b: u64|
                    #![trigger counts@.contains_key(b)]
                    b as nat == bucket_of(#[trigger] values_us@[k] as nat) && counts@.contains_key(
                        b,
                    ),
        decreases values_us@.len() - i,
    {
        let ghost prev = values_us@.take(i as int);
        let ghost next = values_us@.take(i + 1);
        let ghost before = counts@;
        assert(next.drop_last() =~= prev);
        let bound = bucket_bound(values_us[i]);
        let c: u64 = match counts.get(&bound) {
            Some(c) => *c,
            None => 0,
        };
        proof {
            lemma_bucket_count_le(prev, bound as nat);
            assert(c == bucket_count(prev, bound as nat));
        }
        counts.insert(bound, c + 1);
        proof {
            assert forall|b: u64| #![trigger counts@.contains_key(b)]
                counts@.contains_key(b) <==> bucket_count(next, b as nat) > 0 by {
                if b != bound {
                    assert(before.contains_key(b) <==> bucket_count(prev, b as nat) > 0);
                }
            }
            assert forall|b: u64| #![trigger counts@[b]]
                counts@.contains_key(b) implies counts@[b] == bucket_count(next, b as nat) by {
                if b != bound {
                    assert(before.contains_key(b));
                    assert(before[b] == bucket_count(prev, b as nat));
                }
            }
            assert forall|k: int| 0 <= k < i + 1 implies exists|b: u64|
                #![trigger counts@.contains_key(b)]
                b as nat == bucket_of(#[trigger] values_us@[k] as nat) && counts@.contains_key(b) by {
                if k < i {
                    let b0 = choose|b: u64|
                        #![trigger before.contains_key(b)]
                        b as nat == bucket_of(values_us@[k] as nat) && before.contains_key(b);
                    assert(counts@.contains_key(b0));
                } else {
                    assert(counts@.contains_key(bound));
                }
            }
        }
        i = i + 1;
    }
    assert(values_us@.take(values_us@.len() as int) =~= values_us@);
    let mut buckets: Vec<LatencyBucket> = Vec::new();
    for entry in it: counts.iter()
        invariant
            buckets@.len() == it.index(),
            forall|j: int|
                0 <= j < it.index() ==> #[trigger] buckets@[j] == (LatencyBucket {
                    upper_bound_us: *it.seq()[j].0,
                    count: *it.seq()[j].1,
                }),
    {
        let (b, c) = entry;
        buckets.push(LatencyBucket { upper_bound_us: *b, count: *c });
    }
    let ghost items = vstd::std_specs::iter::IteratorSpec::remaining(
        &vstd::std_specs::btree::spec_btree_map_iter(&counts),
    );
    let ghost keys = items.map_values(|kv: (&u64, &u64)| *kv.0);
    proof {
        lemma_increasing_u64(keys);
        assert(buckets@.len() == items.len());
        assert forall|a: int, b: int|
            0 <= a < b < buckets@.len() implies #[trigger] buckets@[a].upper_bound_us
            < #[trigger] buckets@[b].upper_bound_us by {
            assert(keys[a] == *items[a].0);
            assert(keys[b] == *items[b].0);
        }
        assert forall|j: int| 0 <= j < buckets@.len() implies #[trigger] buckets@[j].count
            == bucket_count(values_us@, buckets@[j].upper_bound_us as nat) && buckets@[j].count
            > 0 by {
            assert(counts@.contains_key(*items[j].0));
        }
        assert forall|k: int| 0 <= k < values_us@.len() implies exists|j: int|
            0 <= j < buckets@.len() && #[trigger] buckets@[j].upper_bound_us as nat == bucket_of(
                #[trigger] values_us@[k] as nat,
            ) by {
            let b0 = choose|b: u64|
                #![trigger counts@.contains_key(b)]
                b as nat == bucket_of(values_us@[k] as nat) && counts@.contains_key(b);
            assert(items.contains((&b0, &counts@[b0])));
            let j = choose|j: int| 0 <= j < items.len() && items[j] == (&b0, &counts@[b0]);
            assert(buckets@[j].upper_bound_us == b0);
        }
    }
    buckets
}

proof fn lemma_bucket_count_positive(values: Seq<u64>, bound: nat)
    requires
        bucket_count(values, bound) > 0,
    ensures
        exists|k: int| 0 <= k < values.len() && bucket_of(#[trigger] values[k] as nat) == bound,
    decreases values.len(),
{
    if bucket_of(values.last() as nat) == bound {
        assert(bucket_of(values[values.len() - 1] as nat) == bound);
    } else {
        lemma_bucket_count_positive(values.drop_last(), bound);
        let k = choose|k: int|
            0 <= k < values.drop_last().len() && bucket_of(#[trigger] values.drop_last()[k] as nat)
                == bound;
        assert(values[k] == values.drop_last()[k]);
    }
}

/// The counters of a workload at one moment.
#[derive(Debug, Clone, Copy, PartialEq, Eq, Structural)]
pub struct CounterSample {
    pub connected_current: u64,
    pub connected_total: u64,
    pub published: u64,
    pub received: u64,
    pub errors: u64,
}

impl Default for CounterSample {
    fn default() -> (r: Self)
        ensures
            r == (CounterSample {
                connected_current: 0,
                connected_total: 0,
                published: 0,
                received: 0,
                errors: 0,
            }),
    {
        CounterSample {
            connected_current: 0,
            connected_total: 0,
            published: 0,
            received: 0,
            errors: 0,
        }
    }
}

/// What the latency window held when it was drained.
#[derive(Debug, Clone)]
pub struct LatencySample {
    pub total_count: u64,
    pub window_count: u64,
    pub window_sum_us: u64,
    pub window_min_us: u64,
    pub window_max_us: u64,
    pub window_values_us: Vec<u64>,
}

#[derive(Debug)]
struct LatencyWindow {
    total_count: u64,
    window_count: u64,
    window_sum_us: u64,
    window_min_us: u64,
    window_max_us: u64,
    window_values_us: Vec<u64>,
}

/// The live counters of one workload of a run.
#[derive(Debug)]
pub struct WorkloadSampler {
    run_id: String,
    run_workload_id: String,
    counters: CounterSample,
    latency: LatencyWindow,
}

/// A sampler's state: its ids, counters and latency window.
pub struct SamplerView {
    pub run_id: Seq<char>,
    pub run_workload_id: Seq<char>,
    pub counters: CounterSample,
    pub total_count: u64,
    pub window_count: u64,
    pub window_sum_us: u64,
    pub window_min_us: u64,
    pub window_max_us: u64,
    pub window_values_us: Seq<u64>,
}

impl View for WorkloadSampler {
    type V = SamplerView;

    closed spec fn view(&self) -> SamplerView {
        SamplerView {
            run_id: self.run_id@,
            run_workload_id: self.run_workload_id@,
            counters: self.counters,
            total_count: self.latency.total_count,
            window_count: self.latency.window_count,
            window_sum_us: self.latency.window_sum_us,
            window_min_us: self.latency.window_min_us,
            window_max_us: self.latency.window_max_us,
            window_values_us: self.latency.window_values_us@,
        }
    }
}

/// `x + 1`, wrapping to zero past `u64::MAX`, as an atomic counter counts.
pub open spec fn wrapping_inc(x: u64) -> u64 {
    if x == u64::MAX {
        0
    } else {
        (x + 1) as u64
    }
}

fn inc(x: u64) -> (r: u64)
    ensures
        r == wrapping_inc(x),
{
    if x == u64::MAX {
        0
    } else {
        x + 1
    }
}

/// `a + b`, or `u64::MAX` when that overflows.
pub open spec fn saturating_add(a: u64, b: u64) -> u64 {
    if a + b > u64::MAX {
        u64::MAX
    } else {
        (a + b) as u64
    }
}

fn sat_add(a: u64, b: u64) -> (r: u64)
    ensures
        r == saturating_add(a, b),
{
    if a > u64::MAX - b {
        u64::MAX
    } else {
        a + b
    }
}

/// A sampler with fresh ids and every counter at zero.
pub open spec fn fresh_sampler(run_id: Seq<char>, run_workload_id: Seq<char>) -> SamplerView {
    SamplerView {
        run_id,
        run_workload_id,
        counters: CounterSample {
            connected_current: 0,
            connected_total: 0,
            published: 0,
            received: 0,
            errors: 0,
        },
        total_count: 0,
        window_count: 0,
        window_sum_us: 0,
        window_min_us: 0,
        window_max_us: 0,
        window_values_us: seq![],
    }
}

/// The state after a client connects: one more current and one more
/// connection in total.
pub open spec fn after_connect(s: SamplerView) -> SamplerView {
    SamplerView {
        counters: CounterSample {
            connected_current: wrapping_inc(s.counters.connected_current),
            connected_total: wrapping_inc(s.counters.connected_total),
            ..s.counters
        },
        ..s
    }
}

/// The state after a client disconnects: one fewer current connection, never
/// below zero.
pub open spec fn after_disconnect(s: SamplerView) -> SamplerView {
    SamplerView {
        counters: CounterSample {
            connected_current: if s.counters.connected_current == 0 {
                0
            } else {
                (s.counters.connected_current - 1) as u64
            },
            ..s.counters
        },
        ..s
    }
}

/// The state after a message is published.
pub open spec fn after_published(s: SamplerView) -> SamplerView {
    SamplerView {
        counters: CounterSample { published: wrapping_inc(s.counters.published), ..s.counters },
        ..s
    }
}

/// The state after a message is received.
pub open spec fn after_received(s: SamplerView) -> SamplerView {
    SamplerView {
        counters: CounterSample { received: wrapping_inc(s.counters.received), ..s.counters },
        ..s
    }
}

/// The state after an error.
pub open spec fn after_error(s: SamplerView) -> SamplerView {
    SamplerView {
        counters: CounterSample { errors: wrapping_inc(s.counters.errors), ..s.counters },
        ..s
    }
}

/// The state after a latency is recorded.
pub open spec fn after_latency(s: SamplerView, latency_us: u64) -> SamplerView {
    SamplerView {
        total_count: saturating_add(s.total_count, 1),
        window_count: saturating_add(s.window_count, 1),
        window_sum_us: saturating_add(s.window_sum_us, latency_us),
        window_min_us: if s.window_min_us == 0 || latency_us < s.window_min_us {
            latency_us
        } else {
            s.window_min_us
        },
        window_max_us: if latency_us > s.window_max_us {
            latency_us
        } else {
            s.window_max_us
        },
        window_values_us: s.window_values_us.push(latency_us),
        ..s
    }
}

/// The state after the latency window is drained: the window is empty, the
/// running total stays.
pub open spec fn after_drain(s: SamplerView) -> SamplerView {
    SamplerView {
        window_count: 0,
        window_sum_us: 0,
        window_min_us: 0,
        window_max_us: 0,
        window_values_us: seq![],
        ..s
    }
}

impl WorkloadSampler {
    pub fn new(run_id: String, run_workload_id: String) -> (r: Self)
        ensures
            r@ == fresh_sampler(run_id@, run_workload_id@),
    {
        WorkloadSampler {
            run_id,
            run_workload_id,
            counters: CounterSample::default(),
            latency: LatencyWindow {
                total_count: 0,
                window_count: 0,
                window_sum_us: 0,
                window_min_us: 0,
                window_max_us: 0,
                window_values_us: Vec::new(),
            },
        }
    }

    /// The sampler of a run recorded before workloads existed.
    pub fn legacy(run_id: &str) -> (r: Self)
        ensures
            r@ == fresh_sampler(run_id@, "legacy-run-workload-"@ + run_id@),
    {
        WorkloadSampler::new(crate::text::string_of(run_id), legacy_run_workload_id(run_id))
    }

    pub fn client_connected(&mut self)
        ensures
            final(self)@ == after_connect(old(self)@),
    {
        self.counters.connected_current = inc(self.counters.connected_current);
        self.counters.connected_total = inc(self.counters.connected_total);
    }

    pub fn client_disconnected(&mut self)
        ensures
            final(self)@ == after_disconnect(old(self)@),
    {
        if self.counters.connected_current > 0 {
            self.counters.connected_current = self.counters.connected_current - 1;
        }
    }

    pub fn published(&mut self)
        ensures
            final(self)@ == after_published(old(self)@),
    {
        self.counters.published = inc(self.counters.published);
    }

    pub fn received(&mut self)
        ensures
            final(self)@ == after_received(old(self)@),
    {
        self.counters.received = inc(self.counters.received);
    }

    /// Records one message latency, in microseconds.
    pub fn latency(&mut self, latency_us: u64)
        ensures
            final(self)@ == after_latency(old(self)@, latency_us),
    {
        let w = &mut self.latency;
        w.total_count = sat_add(w.total_count, 1);
        w.window_count = sat_add(w.window_count, 1);
        w.window_sum_us = sat_add(w.window_sum_us, latency_us);
        if w.window_min_us == 0 || latency_us < w.window_min_us {
            w.window_min_us = latency_us;
        }
        if latency_us > w.window_max_us {
            w.window_max_us = latency_us;
        }
        w.window_values_us.push(latency_us);
    }

    pub fn error(&mut self)
        ensures
            final(self)@ == after_error(old(self)@),
    {
        self.counters.errors = inc(self.counters.errors);
    }

    /// The counters as they stand.
    pub fn sample(&self) -> (r: CounterSample)
        ensures
            r == self@.counters,
    {
        self.counters
    }

    /// The run this sampler counts for.
    pub fn run_id(&self) -> (r: &String)
        ensures
            r@ == self@.run_id,
    {
        &self.run_id
    }

    /// The run workload this sampler counts for.
    pub fn run_workload_id(&self) -> (r: &String)
        ensures
            r@ == self@.run_workload_id,
    {
        &self.run_workload_id
    }

    /// Hands out the latency window and starts a new one.
    pub fn drain_latency(&mut self) -> (r: LatencySample)
        ensures
            r.total_count == old(self)@.total_count,
            r.window_count == old(self)@.window_count,
            r.window_sum_us == old(self)@.window_sum_us,
            r.window_min_us == old(self)@.window_min_us,
            r.window_max_us == old(self)@.window_max_us,
            r.window_values_us@ == old(self)@.window_values_us,
            final(self)@ == after_drain(old(self)@),
    {
        let mut values: Vec<u64> = Vec::new();
        std::mem::swap(&mut values, &mut self.latency.window_values_us);
        let sample = LatencySample {
            total_count: self.latency.total_count,
            window_count: self.latency.window_count,
            window_sum_us: self.latency.window_sum_us,
            window_min_us: self.latency.window_min_us,
            window_max_us: self.latency.window_max_us,
            window_values_us: values,
        };
        self.latency.window_count = 0;
        self.latency.window_sum_us = 0;
        self.latency.window_min_us = 0;
        self.latency.window_max_us = 0;
        sample
    }
}

/// A disconnect undoes a connect on the current connection count, unless
/// that count had reached `u64::MAX`; the total keeps the connection.
pub proof fn lemma_disconnect_undoes_connect(s: SamplerView)
    requires
        s.counters.connected_current < u64::MAX,
    ensures
        after_disconnect(after_connect(s)).counters.connected_current
            == s.counters.connected_current,
        after_disconnect(after_connect(s)).counters.connected_total == wrapping_inc(
            s.counters.connected_total,
        ),
{
}

/// Draining forgets the window but never the running count of latencies,
/// and a drained window drains to an empty one.
pub proof fn lemma_drain_keeps_total(s: SamplerView)
    ensures
        after_drain(s).total_count == s.total_count,
        after_drain(after_drain(s)) == after_drain(s),
        after_drain(s).window_values_us.len() == 0,
{
}

/// Every recorded latency lands in the window, and the window's count
/// tracks its values until it saturates.
pub proof fn lemma_latency_recorded(s: SamplerView, latency_us: u64)
    ensures
        after_latency(s, latency_us).window_values_us.last() == latency_us,
        after_latency(s, latency_us).window_values_us.len() == s.window_values_us.len() + 1,
        s.window_count == s.window_values_us.len() && s.window_count < u64::MAX ==> after_latency(
            s,
            latency_us,
        ).window_count == after_latency(s, latency_us).window_values_us.len(),
        s.window_min_us <= s.window_max_us ==> after_latency(s, latency_us).window_min_us
            <= after_latency(s, latency_us).window_max_us,
{
}

/// One call on a sampler.
#[derive(Debug, Clone, Copy, PartialEq, Eq, Structural)]
pub enum SamplerCall {
    Connected,
    Disconnected,
    Published,
    Received,
    Error,
    Latency(u64),
    Drain,
}

/// The state after one call.
pub open spec fn after_call(s: SamplerView, c: SamplerCall) -> SamplerView {
    match c {
        SamplerCall::Connected => after_connect(s),
        SamplerCall::Disconnected => after_disconnect(s),
        SamplerCall::Published => after_published(s),
        SamplerCall::Received => after_received(s),
        SamplerCall::Error => after_error(s),
        SamplerCall::Latency(us) => after_latency(s, us),
        SamplerCall::Drain => after_drain(s),
    }
}

/// The state after some calls, in order.
pub open spec fn after_calls(s: SamplerView, calls: Seq<SamplerCall>) -> SamplerView
    decreases calls.len(),
{
    if calls.len() == 0 {
        s
    } else {
        after_call(after_calls(s, calls.drop_last()), calls.last())
    }
}

/// How many of the calls are `c`.
pub open spec fn calls_of(calls: Seq<SamplerCall>, c: SamplerCall) -> nat
    decreases calls.len(),
{
    if calls.len() == 0 {
        0
    } else {
        calls_of(calls.drop_last(), c) + if calls.last() == c {
            1nat
        } else {
            0nat
        }
    }
}

/// Whatever calls a fresh sampler takes, in any order: its counters are the
/// numbers of connects, publishes, receipts and errors (while each stays
/// below 2^64), and the connections open now never exceed the connections
/// made.
pub proof fn lemma_counters_follow_calls(
    run_id: Seq<char>,
    run_workload_id: Seq<char>,
    calls: Seq<SamplerCall>,
)
    requires
        calls_of(calls, SamplerCall::Connected) <= u64::MAX,
        calls_of(calls, SamplerCall::Published) <= u64::MAX,
        calls_of(calls, SamplerCall::Received) <= u64::MAX,
        calls_of(calls, SamplerCall::Error) <= u64::MAX,
    ensures
        ({
            let c = after_calls(fresh_sampler(run_id, run_workload_id), calls).counters;
            &&& c.connected_total == calls_of(calls, SamplerCall::Connected)
            &&& c.published == calls_of(calls, SamplerCall::Published)
            &&& c.received == calls_of(calls, SamplerCall::Received)
            &&& c.errors == calls_of(calls, SamplerCall::Error)
            &&& c.connected_current <= c.connected_total
        }),
    decreases calls.len(),
{
    if calls.len() > 0 {
        let rest = calls.drop_last();
        assert(calls_of(rest, SamplerCall::Connected) <= calls_of(calls, SamplerCall::Connected));
        assert(calls_of(rest, SamplerCall::Published) <= calls_of(calls, SamplerCall::Published));
        assert(calls_of(rest, SamplerCall::Received) <= calls_of(calls, SamplerCall::Received));
        assert(calls_of(rest, SamplerCall::Error) <= calls_of(calls, SamplerCall::Error));
        lemma_counters_follow_calls(run_id, run_workload_id, rest);
    }
}

} // verus!
