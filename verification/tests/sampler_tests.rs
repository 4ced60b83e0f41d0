use velamq_bench::runtime::sampler::{latency_histogram, CounterSample, LatencyBucket, WorkloadSampler};

fn percentile_ms(sorted_values_us: &[u64], quantile: f64) -> f64 {
    if sorted_values_us.is_empty() {
        return 0.0;
    }
    let rank = (quantile.clamp(0.0, 1.0) * sorted_values_us.len() as f64).ceil() as usize;
    let index = rank.saturating_sub(1).min(sorted_values_us.len() - 1);
    sorted_values_us[index] as f64 / 1000.0
}

#[test]
fn sampler_builds_rates_and_latency_percentiles() {
    let mut sampler = WorkloadSampler::new("run-a".to_string(), "workload-a".to_string());
    sampler.client_connected();
    sampler.published();
    sampler.received();
    sampler.latency(2_000);
    sampler.latency(8_000);

    let sample = sampler.sample();
    let latency = sampler.drain_latency();
    let mut values = latency.window_values_us.clone();
    values.sort_unstable();

    assert_eq!(sampler.run_id(), "run-a");
    assert_eq!(sampler.run_workload_id(), "workload-a");
    assert_eq!(sample.connected_current, 1);
    assert_eq!(sample.published, 1);
    assert_eq!(sample.received, 1);
    assert_eq!(latency.total_count, 2);
    assert_eq!(percentile_ms(&values, 0.50), 2.0);
    assert_eq!(percentile_ms(&values, 0.99), 8.0);
}

#[test]
fn disconnect_never_goes_below_zero() {
    let mut sampler = WorkloadSampler::new("r".into(), "w".into());
    sampler.client_disconnected();
    assert_eq!(sampler.sample().connected_current, 0);
    sampler.client_connected();
    sampler.client_connected();
    sampler.client_disconnected();
    let sample = sampler.sample();
    assert_eq!(sample.connected_current, 1);
    assert_eq!(sample.connected_total, 2);
}

#[test]
fn draining_resets_window_but_keeps_total() {
    let mut sampler = WorkloadSampler::legacy("run-9");
    assert_eq!(sampler.run_workload_id(), "legacy-run-workload-run-9");
    sampler.latency(500);
    sampler.latency(100);
    sampler.latency(900);
    sampler.error();
    let first = sampler.drain_latency();
    assert_eq!(first.window_count, 3);
    assert_eq!(first.window_sum_us, 1_500);
    assert_eq!(first.window_min_us, 100);
    assert_eq!(first.window_max_us, 900);
    assert_eq!(first.window_values_us, vec![500, 100, 900]);
    let second = sampler.drain_latency();
    assert_eq!(second.total_count, 3);
    assert_eq!(second.window_count, 0);
    assert_eq!(second.window_min_us, 0);
    assert!(second.window_values_us.is_empty());
    assert_eq!(sampler.sample().errors, 1);
    assert_eq!(CounterSample::default().errors, 0);
}

#[test]
fn latency_sum_saturates() {
    let mut sampler = WorkloadSampler::new("r".into(), "w".into());
    sampler.latency(u64::MAX);
    sampler.latency(5);
    let window = sampler.drain_latency();
    assert_eq!(window.window_sum_us, u64::MAX);
    assert_eq!(window.window_max_us, u64::MAX);
    assert_eq!(window.window_min_us, 5);
}

#[test]
fn histogram_uses_power_of_two_buckets() {
    let buckets = latency_histogram(&[0, 1, 3, 4, 5, 1_000, 1_024, 1_025]);
    assert_eq!(
        buckets,
        vec![
            LatencyBucket { upper_bound_us: 1, count: 2 },
            LatencyBucket { upper_bound_us: 4, count: 2 },
            LatencyBucket { upper_bound_us: 8, count: 1 },
            LatencyBucket { upper_bound_us: 1_024, count: 2 },
            LatencyBucket { upper_bound_us: 2_048, count: 1 },
        ]
    );
    assert!(latency_histogram(&[]).is_empty());
    assert_eq!(
        latency_histogram(&[1 << 63]),
        vec![LatencyBucket { upper_bound_us: 1 << 63, count: 1 }]
    );
}

#[test]
fn open_connections_never_exceed_connections_made() {
    let mut s = WorkloadSampler::new("r".into(), "w".into());
    s.client_disconnected();
    for round in 0..5u64 {
        s.client_connected();
        s.published();
        if round % 2 == 0 {
            s.client_disconnected();
            s.client_disconnected();
        }
        s.received();
        s.error();
        let x = s.sample();
        assert!(x.connected_current <= x.connected_total);
    }
    let x = s.sample();
    assert_eq!((x.connected_total, x.published, x.received, x.errors), (5, 5, 5, 5));
    assert_eq!(x.connected_current, 0);
    let again = s.sample();
    assert_eq!(again.connected_current, x.connected_current);
    assert_eq!(again.connected_total, x.connected_total);
}
