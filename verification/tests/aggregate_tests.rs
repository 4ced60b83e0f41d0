use velamq_bench::aggregate::{aggregate_counters, latency_count_deltas, run_totals, NodeCounters};
use velamq_bench::cluster::histogram_bound_at;
use velamq_bench::runtime::sampler::LatencyBucket;

fn counters(elapsed_ms: u64, connected: u64, histogram: Vec<LatencyBucket>) -> NodeCounters {
    let window: u64 = histogram.iter().map(|b| b.count).sum();
    NodeCounters {
        elapsed_ms,
        connected,
        published: connected * 10,
        received: connected * 8,
        errors: connected,
        latency_count: window,
        latency_window_count: window,
        latency_window_sum_us: connected * 1_000,
        histogram,
    }
}

fn bucket(upper_bound_us: u64, count: u64) -> LatencyBucket {
    LatencyBucket { upper_bound_us, count }
}

#[test]
fn aggregation_sums_counters_and_merges_latency_histograms() {
    let inputs = vec![
        counters(1_500, 2, vec![bucket(1_000, 2), bucket(4_000, 1)]),
        counters(1_500, 3, vec![bucket(2_000, 2), bucket(8_000, 1)]),
    ];
    let aggregate = aggregate_counters(&inputs);
    assert_eq!(aggregate.len(), 1);
    let point = &aggregate[0];
    assert_eq!(point.counters.elapsed_ms, 1_000);
    assert_eq!(point.counters.connected, 5);
    assert_eq!(point.counters.published, 50);
    assert_eq!(point.counters.latency_window_count, 6);
    assert_eq!(point.members, vec![0, 1]);
    assert_eq!(point.counters.histogram.iter().map(|b| b.count).sum::<u64>(), 6);
    let total = 6_f64;
    let p50 = histogram_bound_at(&point.counters.histogram, (total * 0.50).ceil() as u64).unwrap();
    let p99 = histogram_bound_at(&point.counters.histogram, (total * 0.99).ceil() as u64).unwrap();
    assert_eq!(p50 as f64 / 1000.0, 2.0);
    assert_eq!(p99 as f64 / 1000.0, 8.0);
}

#[test]
fn aggregation_orders_seconds_and_saturates() {
    let inputs = vec![
        counters(2_100, 1, vec![bucket(4, 1)]),
        counters(999, u64::MAX, vec![]),
        counters(2_999, 1, vec![bucket(4, 2), bucket(2, 1)]),
        counters(0, 1, vec![]),
    ];
    let aggregate = aggregate_counters(&inputs);
    assert_eq!(aggregate.iter().map(|p| p.counters.elapsed_ms).collect::<Vec<_>>(), vec![0, 2_000]);
    assert_eq!(aggregate[0].members, vec![1, 3]);
    assert_eq!(aggregate[0].counters.connected, u64::MAX);
    assert_eq!(aggregate[1].members, vec![0, 2]);
    assert_eq!(aggregate[1].counters.histogram, vec![bucket(2, 1), bucket(4, 3)]);
    assert!(aggregate_counters(&[]).is_empty());
}

#[test]
fn run_totals_read_the_last_snapshot_and_the_peak() {
    let snap = |elapsed_ms: u64, connected: u64, published: u64, latency_count: u64| NodeCounters {
        elapsed_ms,
        connected,
        published,
        received: published / 2,
        errors: 1,
        latency_count,
        latency_window_count: 0,
        latency_window_sum_us: 0,
        histogram: Vec::new(),
    };
    let empty = run_totals(&[]);
    assert_eq!((empty.duration_ms, empty.sample_count, empty.max_connected), (0, 0, 0));
    let snapshots = vec![snap(1000, 5, 10, 4), snap(2000, 9, 30, 10), snap(3000, 7, 50, 8)];
    let totals = run_totals(&snapshots);
    assert_eq!(totals.duration_ms, 3000);
    assert_eq!(totals.sample_count, 3);
    assert_eq!(totals.max_connected, 9);
    assert_eq!(totals.total_published, 50);
    assert_eq!(totals.total_received, 25);
    assert_eq!(totals.total_errors, 1);
    assert_eq!(totals.latency_count, 8);
    assert_eq!(latency_count_deltas(&snapshots), vec![4, 6, 0]);
    assert!(latency_count_deltas(&[]).is_empty());
}
