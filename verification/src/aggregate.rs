//! How the metric snapshots of a distributed run's nodes are summed into
//! one series: snapshots are grouped by the whole second they were taken
//! at, their counters are added (saturating at `u64::MAX`), and their
//! latency histograms are merged bound by bound.

use vstd::prelude::*;
use crate::runtime::sampler::LatencyBucket;

verus! {

/// The counters and latency histogram of one node's metric snapshot.
#[derive(Debug, Clone)]
pub struct NodeCounters {
    pub elapsed_ms: u64,
    pub connected: u64,
    pub published: u64,
    pub received: u64,
    pub errors: u64,
    pub latency_count: u64,
    pub latency_window_count: u64,
    pub latency_window_sum_us: u64,
    pub histogram: Vec<LatencyBucket>,
}

/// One point of the summed series: its counters, and the positions of the
/// snapshots it sums (so that the caller can combine their other fields).
#[derive(Debug, Clone)]
pub struct AggregatePoint {
    pub counters: NodeCounters,
    pub members: Vec<usize>,
}

/// The whole second, in milliseconds, that a snapshot falls in.
pub open spec fn second_of(elapsed_ms: u64) -> u64 {
    ((elapsed_ms / 1000) * 1000) as u64
}

/// The summed counters, by number: connected, published, received,
/// errors, latency count, latency window count, latency window sum.
pub open spec fn counter(c: NodeCounters, which: int) -> u64 {
    if which == 0 {
        c.connected
    } else if which == 1 {
        c.published
    } else if which == 2 {
        c.received
    } else if which == 3 {
        c.errors
    } else if which == 4 {
        c.latency_count
    } else if which == 5 {
        c.latency_window_count
    } else {
        c.latency_window_sum_us
    }
}

/// The sum of the counts of the buckets with upper bound `u`.
pub open spec fn bound_total(h: Seq<LatencyBucket>, u: u64) -> int
    decreases h.len(),
{
    if h.len() == 0 {
        0
    } else {
        bound_total(h.drop_last(), u) + if h.last().upper_bound_us == u {
            h.last().count as int
        } else {
            0
        }
    }
}

/// The sum of the counts of all buckets.
pub open spec fn histogram_size(h: Seq<LatencyBucket>) -> int
    decreases h.len(),
{
    if h.len() == 0 {
        0
    } else {
        histogram_size(h.drop_last()) + h.last().count
    }
}

/// The positions, among the first `n` snapshots, of those in second `t`.
pub open spec fn group_of(inputs: Seq<NodeCounters>, t: u64, n: int) -> Seq<usize>
    decreases n,
{
    if n <= 0 {
        seq![]
    } else if second_of(inputs[n - 1].elapsed_ms) == t {
        group_of(inputs, t, n - 1).push((n - 1) as usize)
    } else {
        group_of(inputs, t, n - 1)
    }
}

/// The sum of counter `which` over the first `n` snapshots in second `t`.
pub open spec fn counter_sum(inputs: Seq<NodeCounters>, t: u64, n: int, which: int) -> int
    decreases n,
{
    if n <= 0 {
        0
    } else {
        counter_sum(inputs, t, n - 1, which) + if second_of(inputs[n - 1].elapsed_ms) == t {
            counter(inputs[n - 1], which) as int
        } else {
            0
        }
    }
}

/// The merged count at bound `u` over the first `n` snapshots in second `t`.
pub open spec fn bucket_sum(inputs: Seq<NodeCounters>, t: u64, n: int, u: u64) -> int
    decreases n,
{
    if n <= 0 {
        0
    } else {
        bucket_sum(inputs, t, n - 1, u) + if second_of(inputs[n - 1].elapsed_ms) == t {
            bound_total(inputs[n - 1].histogram@, u)
        } else {
            0
        }
    }
}

/// The number of latency samples in the histograms of the first `n`
/// snapshots.
pub open spec fn samples_upto(inputs: Seq<NodeCounters>, n: int) -> int
    decreases n,
{
    if n <= 0 {
        0
    } else {
        samples_upto(inputs, n - 1) + histogram_size(inputs[n - 1].histogram@)
    }
}

/// Whether some bucket has upper bound `u`.
pub open spec fn has_bound(h: Seq<LatencyBucket>, u: u64) -> bool {
    exists|k: int| 0 <= k < h.len() && #[trigger] h[k].upper_bound_us == u
}

/// Whether some of the first `n` snapshots in second `t` has a bucket with
/// upper bound `u`.
pub open spec fn group_has_bound(inputs: Seq<NodeCounters>, t: u64, n: int, u: u64) -> bool {
    exists|j: int|
        0 <= j < n && second_of(inputs[j].elapsed_ms) == t && #[trigger] has_bound(
            inputs[j].histogram@,
            u,
        )
}

/// Bounds strictly increase.
pub open spec fn strictly_increasing(h: Seq<LatencyBucket>) -> bool {
    forall|a: int, b: int|
        0 <= a < b < h.len() ==> #[trigger] h[a].upper_bound_us < #[trigger] h[b].upper_bound_us
}

/// `u64` saturation of a sum.
pub open spec fn saturated(v: int) -> u64 {
    if v > u64::MAX {
        u64::MAX
    } else {
        v as u64
    }
}

/// The point of second `t` sums the first `n` snapshots that fall in it.
pub open spec fn point_sums(p: AggregatePoint, inputs: Seq<NodeCounters>, n: int) -> bool {
    let t = p.counters.elapsed_ms;
    &&& t == second_of(t)
    &&& p.members@ == group_of(inputs, t, n)
    &&& p.members@.len() > 0
    &&& forall|which: int|
        0 <= which < 7 ==> #[trigger] counter(p.counters, which) == saturated(
            counter_sum(inputs, t, n, which),
        )
    &&& strictly_increasing(p.counters.histogram@)
    &&& forall|u: u64| #[trigger]
        bound_total(p.counters.histogram@, u) == bucket_sum(inputs, t, n, u)
    &&& forall|u: u64|
        #[trigger] has_bound(p.counters.histogram@, u) <==> group_has_bound(inputs, t, n, u)
}

/// `out` is the summed series of the first `n` snapshots: one point per
/// second that any of them falls in, in increasing order.
pub open spec fn is_series_of(out: Seq<AggregatePoint>, inputs: Seq<NodeCounters>, n: int) -> bool {
    &&& forall|a: int, b: int|
        0 <= a < b < out.len() ==> #[trigger] out[a].counters.elapsed_ms
            < #[trigger] out[b].counters.elapsed_ms
    &&& forall|k: int| 0 <= k < out.len() ==> point_sums(#[trigger] out[k], inputs, n)
    &&& forall|j: int|
        0 <= j < n ==> exists|k: int|
            0 <= k < out.len() && #[trigger] out[k].counters.elapsed_ms == second_of(
                #[trigger] inputs[j].elapsed_ms,
            )
}

proof fn lemma_bound_total_concat(a: Seq<LatencyBucket>, b: Seq<LatencyBucket>, u: u64)
    ensures
        bound_total(a + b, u) == bound_total(a, u) + bound_total(b, u),
    decreases b.len(),
{
    if b.len() == 0 {
        assert(a + b =~= a);
    } else {
        lemma_bound_total_concat(a, b.drop_last(), u);
        assert((a + b).drop_last() =~= a + b.drop_last());
    }
}

proof fn lemma_bound_total_single(x: LatencyBucket, u: u64)
    ensures
        bound_total(seq![x], u) == if x.upper_bound_us == u {
            x.count as int
        } else {
            0
        },
{
    assert(seq![x].drop_last() =~= Seq::<LatencyBucket>::empty());
    assert(seq![x].last() == x);
    assert(bound_total(Seq::<LatencyBucket>::empty(), u) == 0);
}

proof fn lemma_bound_total_insert(h: Seq<LatencyBucket>, p: int, x: LatencyBucket, u: u64)
    requires
        0 <= p <= h.len(),
    ensures
        bound_total(h.insert(p, x), u) == bound_total(h, u) + if x.upper_bound_us == u {
            x.count as int
        } else {
            0
        },
{
    assert(h =~= h.take(p) + h.skip(p));
    assert(h.insert(p, x) =~= h.take(p) + (seq![x] + h.skip(p)));
    lemma_bound_total_concat(h.take(p), h.skip(p), u);
    lemma_bound_total_concat(seq![x], h.skip(p), u);
    lemma_bound_total_concat(h.take(p), seq![x] + h.skip(p), u);
    lemma_bound_total_single(x, u);
}

proof fn lemma_bound_total_remove(h: Seq<LatencyBucket>, p: int, u: u64)
    requires
        0 <= p < h.len(),
    ensures
        bound_total(h, u) == bound_total(h.remove(p), u) + if h[p].upper_bound_us == u {
            h[p].count as int
        } else {
            0
        },
{
    assert(h.remove(p).insert(p, h[p]) =~= h);
    lemma_bound_total_insert(h.remove(p), p, h[p], u);
}

proof fn lemma_bound_total_le_size(h: Seq<LatencyBucket>, u: u64)
    ensures
        0 <= bound_total(h, u) <= histogram_size(h),
    decreases h.len(),
{
    if h.len() > 0 {
        lemma_bound_total_le_size(h.drop_last(), u);
    }
}

proof fn lemma_histogram_size_prefix(h: Seq<LatencyBucket>, k: int)
    requires
        0 <= k <= h.len(),
    ensures
        0 <= histogram_size(h.take(k)) <= histogram_size(h),
    decreases h.len() - k,
{
    if k < h.len() {
        lemma_histogram_size_prefix(h, k + 1);
        assert(h.take(k + 1).drop_last() =~= h.take(k));
    } else {
        assert(h.take(k) =~= h);
    }
    lemma_histogram_size_nonneg(h.take(k));
}

proof fn lemma_histogram_size_nonneg(h: Seq<LatencyBucket>)
    ensures
        histogram_size(h) >= 0,
    decreases h.len(),
{
    if h.len() > 0 {
        lemma_histogram_size_nonneg(h.drop_last());
    }
}

proof fn lemma_bucket_sum_le(inputs: Seq<NodeCounters>, t: u64, n: int, u: u64)
    requires
        0 <= n <= inputs.len(),
    ensures
        0 <= bucket_sum(inputs, t, n, u) <= samples_upto(inputs, n),
    decreases n,
{
    if n > 0 {
        lemma_bucket_sum_le(inputs, t, n - 1, u);
        lemma_bound_total_le_size(inputs[n - 1].histogram@, u);
    }
}

proof fn lemma_samples_mono(inputs: Seq<NodeCounters>, m: int, n: int)
    requires
        0 <= m <= n <= inputs.len(),
    ensures
        samples_upto(inputs, m) <= samples_upto(inputs, n),
    decreases n - m,
{
    if m < n {
        lemma_samples_mono(inputs, m, n - 1);
        lemma_histogram_size_nonneg(inputs[n - 1].histogram@);
    }
}

/// Adds one bucket's count into a merged histogram.
fn add_bucket(h: &mut Vec<LatencyBucket>, b: LatencyBucket, Ghost(room): Ghost<int>)
    requires
        strictly_increasing(old(h)@),
        forall|u: u64| #[trigger] bound_total(old(h)@, u) + b.count <= room,
        room <= u64::MAX,
    ensures
        strictly_increasing(final(h)@),
        forall|u: u64| #[trigger]
            bound_total(final(h)@, u) == bound_total(old(h)@, u) + if u == b.upper_bound_us {
                b.count as int
            } else {
                0
            },
        forall|u: u64| #[trigger]
            has_bound(final(h)@, u) <==> (has_bound(old(h)@, u) || u == b.upper_bound_us),
{
    let ghost before = h@;
    let mut p: usize = 0;
    while p < h.len() && h[p].upper_bound_us < b.upper_bound_us
        invariant
            p <= h@.len(),
            h@ == before,
            forall|j: int| 0 <= j < p ==> #[trigger] h@[j].upper_bound_us < b.upper_bound_us,
        decreases h@.len() - p,
    {
        p = p + 1;
    }
    if p < h.len() && h[p].upper_bound_us == b.upper_bound_us {
        let old_bucket = h.remove(p);
        let ghost removed = h@;
        proof {
            lemma_bound_total_remove(before, p as int, b.upper_bound_us);
            assert(bound_total(before, b.upper_bound_us) + b.count <= room);
            assert forall|u: u64| #[trigger] bound_total(before, u) >= 0 by {
                lemma_bound_total_le_size(before, u);
            }
            lemma_bound_total_le_size(removed, b.upper_bound_us);
        }
        let merged = LatencyBucket { upper_bound_us: b.upper_bound_us, count: old_bucket.count + b.count };
        h.insert(p, merged);
        proof {
            assert(h@ =~= before.update(p as int, merged));
            assert forall|u: u64| #[trigger]
                bound_total(h@, u) == bound_total(before, u) + if u == b.upper_bound_us {
                    b.count as int
                } else {
                    0
                } by {
                lemma_bound_total_remove(before, p as int, u);
                lemma_bound_total_insert(removed, p as int, merged, u);
            }
            assert forall|u: u64| #[trigger]
                has_bound(h@, u) <==> (has_bound(before, u) || u == b.upper_bound_us) by {
                if has_bound(h@, u) {
                    let k = choose|k: int| 0 <= k < h@.len() && #[trigger] h@[k].upper_bound_us == u;
                    if k != p {
                        assert(before[k].upper_bound_us == u);
                    }
                }
                if has_bound(before, u) {
                    let k = choose|k: int|
                        0 <= k < before.len() && #[trigger] before[k].upper_bound_us == u;
                    assert(h@[k].upper_bound_us == u);
                }
                if u == b.upper_bound_us {
                    assert(h@[p as int].upper_bound_us == u);
                }
            }
        }
    } else {
        assert forall|j: int| p <= j < before.len() implies b.upper_bound_us
            < #[trigger] before[j].upper_bound_us by {
            if j > p {
                assert(before[p as int].upper_bound_us < before[j].upper_bound_us);
            }
        }
        h.insert(p, b);
        proof {
            assert(h@ =~= before.insert(p as int, b));
            assert forall|a: int, c: int|
                0 <= a < c < h@.len() implies #[trigger] h@[a].upper_bound_us
                < #[trigger] h@[c].upper_bound_us by {
                if c < p {
                    assert(h@[a] == before[a] && h@[c] == before[c]);
                } else if c == p {
                    assert(h@[a] == before[a]);
                } else if a < p {
                    assert(h@[a] == before[a] && h@[c] == before[c - 1]);
                } else if a == p {
                    assert(h@[c] == before[c - 1]);
                } else {
                    assert(h@[a] == before[a - 1] && h@[c] == before[c - 1]);
                }
            }
            assert forall|u: u64| #[trigger]
                bound_total(h@, u) == bound_total(before, u) + if u == b.upper_bound_us {
                    b.count as int
                } else {
                    0
                } by {
                lemma_bound_total_insert(before, p as int, b, u);
            }
            assert forall|u: u64| #[trigger]
                has_bound(h@, u) <==> (has_bound(before, u) || u == b.upper_bound_us) by {
                if has_bound(h@, u) {
                    let k = choose|k: int| 0 <= k < h@.len() && #[trigger] h@[k].upper_bound_us == u;
                    if k < p {
                        assert(before[k].upper_bound_us == u);
                    } else if k > p {
                        assert(before[k - 1].upper_bound_us == u);
                    }
                }
                if has_bound(before, u) {
                    let k = choose|k: int|
                        0 <= k < before.len() && #[trigger] before[k].upper_bound_us == u;
                    if k < p {
                        assert(h@[k].upper_bound_us == u);
                    } else {
                        assert(h@[k + 1].upper_bound_us == u);
                    }
                }
                if u == b.upper_bound_us {
                    assert(h@[p as int].upper_bound_us == u);
                }
            }
        }
    }
}

fn sat_add(a: u64, b: u64) -> (r: u64)
    ensures
        r == saturated(a + b),
{
    if a > u64::MAX - b {
        u64::MAX
    } else {
        a + b
    }
}

/// Folds snapshot `i` into the point of its second.
#[verifier::loop_isolation(false)]
fn absorb(point: &mut AggregatePoint, input: &NodeCounters, i: usize, Ghost(room): Ghost<int>)
    requires
        strictly_increasing(old(point).counters.histogram@),
        forall|u: u64| #[trigger]
            bound_total(old(point).counters.histogram@, u) + histogram_size(input.histogram@) <= room,
        room <= u64::MAX,
    ensures
        final(point).counters.elapsed_ms == old(point).counters.elapsed_ms,
        final(point).members@ == old(point).members@.push(i),
        forall|which: int|
            0 <= which < 7 ==> #[trigger] counter(final(point).counters, which) == saturated(
                counter(old(point).counters, which) + counter(*input, which),
            ),
        strictly_increasing(final(point).counters.histogram@),
        forall|u: u64| #[trigger]
            bound_total(final(point).counters.histogram@, u) == bound_total(
                old(point).counters.histogram@,
                u,
            ) + bound_total(input.histogram@, u),
        forall|u: u64| #[trigger]
            has_bound(final(point).counters.histogram@, u) <==> (has_bound(
                old(point).counters.histogram@,
                u,
            ) || has_bound(input.histogram@, u)),
{
    point.counters.connected = sat_add(point.counters.connected, input.connected);
    point.counters.published = sat_add(point.counters.published, input.published);
    point.counters.received = sat_add(point.counters.received, input.received);
    point.counters.errors = sat_add(point.counters.errors, input.errors);
    point.counters.latency_count = sat_add(point.counters.latency_count, input.latency_count);
    point.counters.latency_window_count = sat_add(
        point.counters.latency_window_count,
        input.latency_window_count,
    );
    point.counters.latency_window_sum_us = sat_add(
        point.counters.latency_window_sum_us,
        input.latency_window_sum_us,
    );
    let mut c: Vec<LatencyBucket> = Vec::new();
    std::mem::swap(&mut c, &mut point.counters.histogram);
    let ghost start = c@;
    let mut k: usize = 0;
    assert(input.histogram@.take(0) =~= Seq::<LatencyBucket>::empty());
    while k < input.histogram.len()
        invariant
            k <= input.histogram@.len(),
            room <= u64::MAX,
            strictly_increasing(c@),
            forall|u: u64| #[trigger]
                bound_total(start, u) + histogram_size(input.histogram@) <= room,
            forall|u: u64| #[trigger]
                bound_total(c@, u) == bound_total(start, u) + bound_total(
                    input.histogram@.take(k as int),
                    u,
                ),
            forall|u: u64| #[trigger]
                has_bound(c@, u) <==> (has_bound(start, u) || has_bound(
                    input.histogram@.take(k as int),
                    u,
                )),
        decreases input.histogram@.len() - k,
    {
        let b = input.histogram[k];
        let ghost prefix = input.histogram@.take(k as int);
        let ghost next = input.histogram@.take(k + 1);
        proof {
            assert(next =~= prefix + seq![b]);
            assert(next.drop_last() =~= prefix);
            lemma_histogram_size_prefix(input.histogram@, k + 1);
            assert forall|u: u64| #[trigger] bound_total(c@, u) + b.count <= room by {
                lemma_bound_total_concat(prefix, seq![b], u);
                lemma_bound_total_single(b, u);
                lemma_bound_total_le_size(next, u);
                lemma_bound_total_le_size(prefix, u);
                assert(bound_total(next, u) <= histogram_size(next));
                assert(bound_total(prefix, u) + b.count <= histogram_size(next)) by {
                    assert(histogram_size(next) == histogram_size(prefix) + b.count);
                    lemma_bound_total_le_size(prefix, u);
                }
            }
        }
        add_bucket(&mut c, b, Ghost(room));
        proof {
            assert forall|u: u64| #[trigger]
                bound_total(c@, u) == bound_total(start, u) + bound_total(next, u) by {
                lemma_bound_total_concat(prefix, seq![b], u);
                lemma_bound_total_single(b, u);
            }
            assert forall|u: u64| #[trigger]
                has_bound(c@, u) <==> (has_bound(start, u) || has_bound(next, u)) by {
                if has_bound(next, u) && !has_bound(prefix, u) {
                    let j = choose|j: int| 0 <= j < next.len() && #[trigger] next[j].upper_bound_us == u;
                    if j < prefix.len() {
                        assert(prefix[j].upper_bound_us == u);
                    }
                }
                if has_bound(prefix, u) {
                    let j = choose|j: int| 0 <= j < prefix.len() && #[trigger] prefix[j].upper_bound_us == u;
                    assert(next[j].upper_bound_us == u);
                }
                if u == b.upper_bound_us {
                    assert(next[k as int].upper_bound_us == u);
                }
            }
        }
        k = k + 1;
    }
    assert(input.histogram@.take(input.histogram@.len() as int) =~= input.histogram@);
    point.counters.histogram = c;
    point.members.push(i);
}

/// Sums the snapshots of a distributed run's nodes into one series: one
/// point per whole second, in order, each with the summed counters and
/// merged histogram of the snapshots taken in that second.
pub fn aggregate_counters(inputs: &[NodeCounters]) -> (r: Vec<AggregatePoint>)
    requires
        samples_upto(inputs@, inputs@.len() as int) <= u64::MAX,
    ensures
        is_series_of(r@, inputs@, inputs@.len() as int),
{
    let mut out: Vec<AggregatePoint> = Vec::new();
    let mut i: usize = 0;
    while i < inputs.len()
        invariant
            i <= inputs@.len(),
            samples_upto(inputs@, inputs@.len() as int) <= u64::MAX,
            is_series_of(out@, inputs@, i as int),
        decreases inputs@.len() - i,
    {
        let input = &inputs[i];
        let t: u64 = input.elapsed_ms / 1000 * 1000;
        let ghost room = samples_upto(inputs@, inputs@.len() as int);
        let ghost before = out@;
        proof {
            lemma_samples_mono(inputs@, i + 1, inputs@.len() as int);
        }
        let mut p: usize = 0;
        while p < out.len() && out[p].counters.elapsed_ms < t
            invariant
                p <= out@.len(),
                out@ == before,
                forall|j: int| 0 <= j < p ==> #[trigger] out@[j].counters.elapsed_ms < t,
            decreases out@.len() - p,
        {
            p = p + 1;
        }
        let existing = p < out.len() && out[p].counters.elapsed_ms == t;
        let mut point = if existing {
            let removed = out.remove(p);
            assert(out@ == before.remove(p as int));
            removed
        } else {
            AggregatePoint {
                counters: NodeCounters {
                    elapsed_ms: t,
                    connected: 0,
                    published: 0,
                    received: 0,
                    errors: 0,
                    latency_count: 0,
                    latency_window_count: 0,
                    latency_window_sum_us: 0,
                    histogram: Vec::new(),
                },
                members: Vec::new(),
            }
        };
        let ghost start = point;
        proof {
            if existing {
                assert(start == before[p as int]);
                assert(point_sums(before[p as int], inputs@, i as int));
                assert forall|u: u64| #[trigger]
                    bound_total(start.counters.histogram@, u) + histogram_size(
                        inputs@[i as int].histogram@,
                    ) <= room by {
                    lemma_bucket_sum_le(inputs@, t, i as int, u);
                    assert(bound_total(before[p as int].counters.histogram@, u) == bucket_sum(
                        inputs@,
                        t,
                        i as int,
                        u,
                    ));
                    assert(samples_upto(inputs@, i + 1) == samples_upto(inputs@, i as int)
                        + histogram_size(inputs@[i as int].histogram@));
                }
            } else {
                assert(start.members@ =~= Seq::<usize>::empty());
                assert forall|u: u64| #[trigger] bound_total(start.counters.histogram@, u) == 0 by {
                }
                assert forall|k: int| 0 <= k < before.len() implies #[trigger] before[k].counters.elapsed_ms
                    != t by {
                    if k > p {
                        assert(before[p as int].counters.elapsed_ms < before[k].counters.elapsed_ms);
                    }
                }
                lemma_group_absent(inputs@, t, i as int, before);
                lemma_samples_mono(inputs@, 0, i as int);
                assert(samples_upto(inputs@, i + 1) == samples_upto(inputs@, i as int)
                    + histogram_size(inputs@[i as int].histogram@));
                assert forall|u: u64| #[trigger]
                    bound_total(start.counters.histogram@, u) + histogram_size(
                        inputs@[i as int].histogram@,
                    ) <= room by {
                    lemma_histogram_size_nonneg(inputs@[i as int].histogram@);
                }
            }
        }
        let ghost mid = out@;
        absorb(&mut point, input, i, Ghost(room));
        out.insert(p, point);
        proof {
            if existing {
                assert(out@ =~= before.update(p as int, out@[p as int]));
            } else {
                assert(out@ =~= before.insert(p as int, out@[p as int]));
            }
            lemma_series_step(before, out@, inputs@, i as int, p as int, existing, start);
        }
        i = i + 1;
    }
    out
}

/// With no point for second `t`, no earlier snapshot falls in it.
proof fn lemma_group_absent(inputs: Seq<NodeCounters>, t: u64, n: int, out: Seq<AggregatePoint>)
    requires
        0 <= n <= inputs.len(),
        is_series_of(out, inputs, n),
        forall|k: int| 0 <= k < out.len() ==> #[trigger] out[k].counters.elapsed_ms != t,
    ensures
        group_of(inputs, t, n) == Seq::<usize>::empty(),
        forall|which: int| #[trigger] counter_sum(inputs, t, n, which) == 0,
        forall|u: u64| #[trigger] bucket_sum(inputs, t, n, u) == 0,
        forall|u: u64| !#[trigger] group_has_bound(inputs, t, n, u),
    decreases n,
{
    if n > 0 {
        assert(second_of(inputs[n - 1].elapsed_ms) != t) by {
            let k = choose|k: int|
                0 <= k < out.len() && #[trigger] out[k].counters.elapsed_ms == second_of(
                    #[trigger] inputs[n - 1].elapsed_ms,
                );
        }
        lemma_group_absent_prefix(inputs, t, n);
    }
}

proof fn lemma_group_absent_prefix(inputs: Seq<NodeCounters>, t: u64, n: int)
    requires
        0 <= n <= inputs.len(),
        forall|j: int| 0 <= j < n ==> second_of(#[trigger] inputs[j].elapsed_ms) != t,
    ensures
        group_of(inputs, t, n) == Seq::<usize>::empty(),
        forall|which: int| #[trigger] counter_sum(inputs, t, n, which) == 0,
        forall|u: u64| #[trigger] bucket_sum(inputs, t, n, u) == 0,
        forall|u: u64| !#[trigger] group_has_bound(inputs, t, n, u),
    decreases n,
{
    if n > 0 {
        lemma_group_absent_prefix(inputs, t, n - 1);
        assert forall|which: int| #[trigger] counter_sum(inputs, t, n, which) == 0 by {
            assert(counter_sum(inputs, t, n - 1, which) == 0);
        }
        assert forall|u: u64| #[trigger] bucket_sum(inputs, t, n, u) == 0 by {
            assert(bucket_sum(inputs, t, n - 1, u) == 0);
        }
        assert forall|u: u64| !#[trigger] group_has_bound(inputs, t, n, u) by {
            assert(!group_has_bound(inputs, t, n - 1, u));
            if group_has_bound(inputs, t, n, u) {
                let j = choose|j: int|
                    0 <= j < n && second_of(inputs[j].elapsed_ms) == t && #[trigger] has_bound(
                        inputs[j].histogram@,
                        u,
                    );
                if j < n - 1 {
                }
            }
        }
    }
}

/// Adding snapshot `n` only changes the sums of its own second.
proof fn lemma_sums_step(inputs: Seq<NodeCounters>, t: u64, n: int)
    requires
        0 <= n < inputs.len(),
    ensures
        second_of(inputs[n].elapsed_ms) != t ==> group_of(inputs, t, n + 1) == group_of(inputs, t, n),
        second_of(inputs[n].elapsed_ms) == t ==> group_of(inputs, t, n + 1) == group_of(inputs, t, n).push(
            n as usize,
        ),
        forall|which: int| #[trigger]
            counter_sum(inputs, t, n + 1, which) == counter_sum(inputs, t, n, which) + if second_of(
                inputs[n].elapsed_ms,
            ) == t {
                counter(inputs[n], which) as int
            } else {
                0
            },
        forall|u: u64| #[trigger]
            bucket_sum(inputs, t, n + 1, u) == bucket_sum(inputs, t, n, u) + if second_of(
                inputs[n].elapsed_ms,
            ) == t {
                bound_total(inputs[n].histogram@, u)
            } else {
                0
            },
        forall|u: u64| #[trigger]
            group_has_bound(inputs, t, n + 1, u) <==> (group_has_bound(inputs, t, n, u) || (
            second_of(inputs[n].elapsed_ms) == t && has_bound(inputs[n].histogram@, u))),
{
    assert forall|u: u64| #[trigger]
        group_has_bound(inputs, t, n + 1, u) <==> (group_has_bound(inputs, t, n, u) || (second_of(
            inputs[n].elapsed_ms,
        ) == t && has_bound(inputs[n].histogram@, u))) by {
        if group_has_bound(inputs, t, n + 1, u) {
            let j = choose|j: int|
                0 <= j < n + 1 && second_of(inputs[j].elapsed_ms) == t && #[trigger] has_bound(
                    inputs[j].histogram@,
                    u,
                );
            if j < n {
                assert(group_has_bound(inputs, t, n, u));
            }
        }
        if group_has_bound(inputs, t, n, u) {
            let j = choose|j: int|
                0 <= j < n && second_of(inputs[j].elapsed_ms) == t && #[trigger] has_bound(
                    inputs[j].histogram@,
                    u,
                );
            assert(0 <= j < n + 1);
        }
        if second_of(inputs[n].elapsed_ms) == t && has_bound(inputs[n].histogram@, u) {
            assert(has_bound(inputs[n].histogram@, u));
        }
    }
}

proof fn lemma_series_step(
    before: Seq<AggregatePoint>,
    after: Seq<AggregatePoint>,
    inputs: Seq<NodeCounters>,
    n: int,
    p: int,
    existing: bool,
    start: AggregatePoint,
)
    requires
        0 <= n < inputs.len(),
        is_series_of(before, inputs, n),
        0 <= p <= before.len(),
        forall|j: int| 0 <= j < p ==> #[trigger] before[j].counters.elapsed_ms < second_of(
            inputs[n].elapsed_ms,
        ),
        p < before.len() ==> before[p].counters.elapsed_ms >= second_of(inputs[n].elapsed_ms),
        existing <==> (p < before.len() && before[p].counters.elapsed_ms == second_of(
            inputs[n].elapsed_ms,
        )),
        existing ==> start == before[p],
        !existing ==> start.members@.len() == 0 && start.counters.elapsed_ms == second_of(
            inputs[n].elapsed_ms,
        ) && (forall|which: int| 0 <= which < 7 ==> #[trigger] counter(start.counters, which) == 0)
            && (forall|u: u64| #[trigger] bound_total(start.counters.histogram@, u) == 0) && (
        forall|u: u64| !#[trigger] has_bound(start.counters.histogram@, u)),
        existing ==> after == before.update(p, after[p]),
        !existing ==> after == before.insert(p, after[p]),
        ({
            let q = after[p];
            let t = second_of(inputs[n].elapsed_ms);
            &&& q.counters.elapsed_ms == start.counters.elapsed_ms
            &&& q.members@ == start.members@.push(n as usize)
            &&& forall|which: int|
                0 <= which < 7 ==> #[trigger] counter(q.counters, which) == saturated(
                    counter(start.counters, which) + counter(inputs[n], which),
                )
            &&& strictly_increasing(q.counters.histogram@)
            &&& forall|u: u64| #[trigger]
                bound_total(q.counters.histogram@, u) == bound_total(start.counters.histogram@, u)
                    + bound_total(inputs[n].histogram@, u)
            &&& forall|u: u64| #[trigger]
                has_bound(q.counters.histogram@, u) <==> (has_bound(start.counters.histogram@, u)
                    || has_bound(inputs[n].histogram@, u))
        }),
    ensures
        is_series_of(after, inputs, n + 1),
{
    let t = second_of(inputs[n].elapsed_ms);
    assert(second_of(t) == t);
    if !existing {
        assert forall|k: int| 0 <= k < before.len() implies #[trigger] before[k].counters.elapsed_ms
            != t by {
            if k > p {
                assert(before[p].counters.elapsed_ms < before[k].counters.elapsed_ms);
            }
        }
        lemma_group_absent(inputs, t, n, before);
    }
    lemma_sums_step(inputs, t, n);
    assert forall|k: int| 0 <= k < after.len() implies point_sums(#[trigger] after[k], inputs, n + 1) by {
        if k == p {
            let q = after[p];
            if existing {
                assert(point_sums(before[p], inputs, n));
            }
            assert forall|which: int| 0 <= which < 7 implies #[trigger] counter(q.counters, which)
                == saturated(counter_sum(inputs, t, n + 1, which)) by {
                if existing {
                    assert(point_sums(before[p], inputs, n));
                    assert(counter(start.counters, which) == saturated(counter_sum(inputs, t, n, which)));
                    lemma_counter_sum_nonneg(inputs, t, n, which);
                } else {
                    assert(counter_sum(inputs, t, n, which) == 0);
                }
            }
            assert forall|u: u64| #[trigger] bound_total(q.counters.histogram@, u) == bucket_sum(
                inputs,
                t,
                n + 1,
                u,
            ) by {
                if existing {
                    assert(bound_total(start.counters.histogram@, u) == bucket_sum(inputs, t, n, u));
                } else {
                    assert(bucket_sum(inputs, t, n, u) == 0);
                }
            }
            assert forall|u: u64| #[trigger] has_bound(q.counters.histogram@, u) <==> group_has_bound(
                inputs,
                t,
                n + 1,
                u,
            ) by {
                if existing {
                    assert(has_bound(start.counters.histogram@, u) <==> group_has_bound(inputs, t, n, u));
                } else {
                    assert(!group_has_bound(inputs, t, n, u));
                }
            }
            if !existing {
                assert(group_of(inputs, t, n) == Seq::<usize>::empty());
                assert(start.members@ =~= Seq::<usize>::empty());
            }
            assert(q.members@ =~= group_of(inputs, t, n + 1));
        } else {
            let k0 = if existing || k < p {
                k
            } else {
                k - 1
            };
            assert(after[k] == before[k0]);
            let q = before[k0];
            assert(point_sums(q, inputs, n));
            let tk = q.counters.elapsed_ms;
            assert(tk != t) by {
                if k0 < p {
                } else if existing {
                    assert(k0 != p);
                    assert(before[p].counters.elapsed_ms < before[k0].counters.elapsed_ms);
                } else {
                    if k0 > p {
                        assert(before[p].counters.elapsed_ms < before[k0].counters.elapsed_ms);
                    }
                }
            }
            lemma_sums_step(inputs, tk, n);
            assert(q.members@ =~= group_of(inputs, tk, n + 1));
            assert forall|which: int| 0 <= which < 7 implies #[trigger] counter(q.counters, which)
                == saturated(counter_sum(inputs, tk, n + 1, which)) by {
                assert(counter_sum(inputs, tk, n + 1, which) == counter_sum(inputs, tk, n, which));
            }
            assert forall|u: u64| #[trigger] bound_total(q.counters.histogram@, u) == bucket_sum(
                inputs,
                tk,
                n + 1,
                u,
            ) by {
                assert(bucket_sum(inputs, tk, n + 1, u) == bucket_sum(inputs, tk, n, u));
            }
            assert forall|u: u64| #[trigger] has_bound(q.counters.histogram@, u) <==> group_has_bound(
                inputs,
                tk,
                n + 1,
                u,
            ) by {
                assert(group_has_bound(inputs, tk, n + 1, u) <==> group_has_bound(inputs, tk, n, u));
            }
        }
    }
    assert forall|a: int, b: int|
        0 <= a < b < after.len() implies #[trigger] after[a].counters.elapsed_ms
        < #[trigger] after[b].counters.elapsed_ms by {
        if existing {
            if a == p {
                assert(before[p].counters.elapsed_ms < before[b].counters.elapsed_ms);
            } else if b == p {
                assert(before[a].counters.elapsed_ms < before[p].counters.elapsed_ms);
            }
        } else {
            if b < p {
                assert(after[a] == before[a] && after[b] == before[b]);
            } else if b == p {
                assert(after[a] == before[a]);
            } else if a < p {
                assert(after[a] == before[a] && after[b] == before[b - 1]);
                assert(before[b - 1].counters.elapsed_ms >= before[p].counters.elapsed_ms) by {
                    if b - 1 > p {
                        assert(before[p].counters.elapsed_ms < before[b - 1].counters.elapsed_ms);
                    }
                }
            } else if a == p {
                assert(after[b] == before[b - 1]);
                assert(before[b - 1].counters.elapsed_ms >= before[p].counters.elapsed_ms) by {
                    if b - 1 > p {
                        assert(before[p].counters.elapsed_ms < before[b - 1].counters.elapsed_ms);
                    }
                }
            } else {
                assert(after[a] == before[a - 1] && after[b] == before[b - 1]);
            }
        }
    }
    assert forall|j: int| 0 <= j < n + 1 implies exists|k: int|
        0 <= k < after.len() && #[trigger] after[k].counters.elapsed_ms == second_of(
            #[trigger] inputs[j].elapsed_ms,
        ) by {
        if j == n {
            assert(after[p].counters.elapsed_ms == t);
        } else {
            let k = choose|k: int|
                0 <= k < before.len() && #[trigger] before[k].counters.elapsed_ms == second_of(
                    #[trigger] inputs[j].elapsed_ms,
                );
            if existing || k < p {
                assert(after[k].counters.elapsed_ms == before[k].counters.elapsed_ms);
            } else {
                assert(after[k + 1] == before[k]);
            }
        }
    }
}

proof fn lemma_counter_sum_nonneg(inputs: Seq<NodeCounters>, t: u64, n: int, which: int)
    ensures
        counter_sum(inputs, t, n, which) >= 0,
    decreases n,
{
    if n > 0 {
        lemma_counter_sum_nonneg(inputs, t, n - 1, which);
    }
}

/// The whole-number figures of a run's report, read off its snapshots.
#[derive(Debug, Clone, Copy, PartialEq, Eq, Structural)]
pub struct RunTotals {
    pub duration_ms: u64,
    pub sample_count: u64,
    pub max_connected: u64,
    pub total_published: u64,
    pub total_received: u64,
    pub total_errors: u64,
    pub latency_count: u64,
}

/// The most connections any snapshot saw, 0 for none.
pub open spec fn max_connected_of(s: Seq<NodeCounters>) -> u64
    decreases s.len(),
{
    if s.len() == 0 {
        0
    } else if s.last().connected > max_connected_of(s.drop_last()) {
        s.last().connected
    } else {
        max_connected_of(s.drop_last())
    }
}

/// The peak of connections over a run's snapshots is the most any one of
/// them saw: at least each snapshot's count, and the count of one of them;
/// with no snapshots it is 0.
pub proof fn lemma_max_connected_is_peak(s: Seq<NodeCounters>)
    ensures
        s.len() == 0 ==> max_connected_of(s) == 0,
        forall|k: int| 0 <= k < s.len() ==> max_connected_of(s) >= (#[trigger] s[k]).connected,
        s.len() > 0 ==> exists|j: int| 0 <= j < s.len() && max_connected_of(s) == s[j].connected,
    decreases s.len(),
{
    if s.len() > 0 {
        let rest = s.drop_last();
        lemma_max_connected_is_peak(rest);
        assert forall|k: int| 0 <= k < s.len() implies max_connected_of(s) >= (
        #[trigger] s[k]).connected by {
            if k < rest.len() {
                assert(s[k] == rest[k]);
            }
        }
        if s.last().connected > max_connected_of(rest) || rest.len() == 0 {
            assert(max_connected_of(s) == s[s.len() - 1].connected);
        } else {
            let j = choose|j: int| 0 <= j < rest.len() && max_connected_of(rest) == rest[j].connected;
            assert(s[j] == rest[j]);
        }
    }
}

/// The totals of a run: zero without snapshots; else the duration and the
/// cumulative counters of the last snapshot, the number of snapshots and
/// the most connections seen.
pub open spec fn totals_of(s: Seq<NodeCounters>) -> RunTotals {
    if s.len() == 0 {
        RunTotals {
            duration_ms: 0,
            sample_count: 0,
            max_connected: 0,
            total_published: 0,
            total_received: 0,
            total_errors: 0,
            latency_count: 0,
        }
    } else {
        RunTotals {
            duration_ms: s.last().elapsed_ms,
            sample_count: s.len() as u64,
            max_connected: max_connected_of(s),
            total_published: s.last().published,
            total_received: s.last().received,
            total_errors: s.last().errors,
            latency_count: s.last().latency_count,
        }
    }
}

pub fn run_totals(snapshots: &[NodeCounters]) -> (r: RunTotals)
    ensures
        r == totals_of(snapshots@),
        forall|k: int|
            0 <= k < snapshots@.len() ==> r.max_connected >= (#[trigger] snapshots@[k]).connected,
        snapshots@.len() > 0 ==> exists|j: int|
            0 <= j < snapshots@.len() && r.max_connected == snapshots@[j].connected,
        snapshots@.len() == 0 ==> r.max_connected == 0,
{
    proof {
        lemma_max_connected_is_peak(snapshots@);
    }
    let n = snapshots.len();
    if n == 0 {
        return RunTotals {
            duration_ms: 0,
            sample_count: 0,
            max_connected: 0,
            total_published: 0,
            total_received: 0,
            total_errors: 0,
            latency_count: 0,
        };
    }
    let mut max_connected: u64 = 0;
    let mut i: usize = 0;
    assert(snapshots@.take(0) =~= Seq::<NodeCounters>::empty());
    while i < n
        invariant
            n == snapshots@.len(),
            i <= n,
            max_connected == max_connected_of(snapshots@.take(i as int)),
        decreases n - i,
    {
        assert(snapshots@.take(i + 1).drop_last() =~= snapshots@.take(i as int));
        if snapshots[i].connected > max_connected {
            max_connected = snapshots[i].connected;
        }
        i = i + 1;
    }
    assert(snapshots@.take(n as int) =~= snapshots@);
    let last = &snapshots[n - 1];
    RunTotals {
        duration_ms: last.elapsed_ms,
        sample_count: n as u64,
        max_connected,
        total_published: last.published,
        total_received: last.received,
        total_errors: last.errors,
        latency_count: last.latency_count,
    }
}

/// How many latency samples each snapshot added to the one before it: the
/// first counts from zero, and a count that went down adds none.
pub open spec fn latency_deltas(s: Seq<NodeCounters>) -> Seq<u64> {
    Seq::new(
        s.len(),
        |i: int|
            if i == 0 {
                s[0].latency_count
            } else if s[i].latency_count >= s[i - 1].latency_count {
                (s[i].latency_count - s[i - 1].latency_count) as u64
            } else {
                0u64
            },
    )
}

pub fn latency_count_deltas(snapshots: &[NodeCounters]) -> (r: Vec<u64>)
    ensures
        r@ == latency_deltas(snapshots@),
{
    let mut r: Vec<u64> = Vec::new();
    let mut previous: u64 = 0;
    let mut i: usize = 0;
    while i < snapshots.len()
        invariant
            i <= snapshots@.len(),
            r@.len() == i,
            forall|k: int| 0 <= k < i ==> r@[k] == latency_deltas(snapshots@)[k],
            i > 0 ==> previous == snapshots@[i - 1].latency_count,
            i == 0 ==> previous == 0,
        decreases snapshots@.len() - i,
    {
        let count = snapshots[i].latency_count;
        r.push(count.saturating_sub(previous));
        previous = count;
        i = i + 1;
    }
    assert(r@ =~= latency_deltas(snapshots@));
    r
}

} // verus!
