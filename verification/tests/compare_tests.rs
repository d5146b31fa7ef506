use bench_stats::compare::{Metric, Ratio};
use bench_stats::stats::{BenchmarkCmp, BenchmarkStats};
use bench_stats::ErrorKind;

fn snapshot(duration: u64, successes: &[u64], errors: u64) -> BenchmarkStats {
    let mut s = BenchmarkStats::new(1_000_000);
    for &v in successes {
        s.record_success(v).unwrap();
    }
    for _ in 0..errors {
        s.record_error();
    }
    s.finalize(duration);
    s
}

#[test]
fn throughput_doubling_reports_speedup_two() {
    // old: 1000 successes over 100 s, all at 10 ms; new: 2000 over 100 s
    let old = snapshot(100, &vec![10u64; 1000], 0);
    let new = snapshot(100, &vec![10u64; 2000], 0);
    let cmp = BenchmarkCmp { new: &new, old: &old };
    let c = cmp.cmp_tps().unwrap();
    assert_eq!(c.name, Metric::Tps);
    assert_eq!(c.old_value, 10);
    assert_eq!(c.new_value, 20);
    assert_eq!(c.diff, 10);
    assert_eq!(c.diff_ratio, Ratio { num: 10, den: 10 }); // exactly 1.0
    assert_eq!(c.speedup, Ratio { num: 20, den: 10 }); // exactly 2.0
    assert!(c.speedup.num >= c.speedup.den as i64);
}

#[test]
fn p99_regression_reports_speedup_below_one() {
    // old p99 = 100 ms, new p99 = 150 ms, all else equal
    let old = snapshot(10, &[100, 100], 0);
    let new = snapshot(10, &[150, 150], 0);
    let cmp = BenchmarkCmp { new: &new, old: &old };
    let c = cmp.cmp_p99_latency().unwrap();
    assert_eq!(c.old_value, 100);
    assert_eq!(c.new_value, 150);
    assert_eq!(c.diff, 50);
    assert_eq!(c.diff_ratio, Ratio { num: 50, den: 100 }); // exactly 0.5
    assert_eq!(c.speedup, Ratio { num: 100, den: 150 }); // exactly 1/1.5
    assert!((c.speedup.num as u64) < c.speedup.den); // a regression
}

#[test]
fn comparing_a_run_with_itself_reports_no_change() {
    // every metric readable and nonzero: successes and errors in a ratio
    // that keeps the error percentage above zero
    let s = snapshot(2, &[10, 20, 30, 40], 6);
    let cmp = BenchmarkCmp { new: &s, old: &s };
    for c in cmp.all_cmps() {
        let c = c.unwrap();
        assert_eq!(c.old_value, c.new_value);
        assert_eq!(c.diff, 0);
        assert_eq!(c.diff_ratio.num, 0);
        assert_eq!(c.speedup.num as u64, c.speedup.den); // exactly 1.0
    }
}

#[test]
fn zero_duration_baseline_degenerates_throughput() {
    let old = snapshot(0, &[], 0);
    let new = snapshot(10, &[5], 0);
    let cmp = BenchmarkCmp { new: &new, old: &old };
    assert_eq!(cmp.cmp_tps(), Err(ErrorKind::DegenerateBaseline));
}

#[test]
fn zero_baseline_value_degenerates_that_metric_only() {
    // old recorded nothing: all its latency metrics are zero
    let old = snapshot(10, &[], 3);
    let new = snapshot(10, &[5, 7], 1);
    let cmp = BenchmarkCmp { new: &new, old: &old };
    assert_eq!(cmp.cmp_min_latency(), Err(ErrorKind::DegenerateBaseline));
    assert_eq!(cmp.cmp_max_latency(), Err(ErrorKind::DegenerateBaseline));
    // error rate is readable on both sides: 100% down to 33%
    let c = cmp.cmp_error_rate().unwrap();
    assert_eq!(c.old_value, 100);
    assert_eq!(c.new_value, 33);
    assert_eq!(c.diff, -67);
    assert!(c.speedup.num as u64 > c.speedup.den); // an improvement
}

#[test]
fn all_cmps_reports_every_metric_in_order() {
    let s = snapshot(2, &[10, 20, 30, 40], 6);
    let cmp = BenchmarkCmp { new: &s, old: &s };
    let names: Vec<Metric> = cmp.all_cmps().iter().map(|r| r.unwrap().name).collect();
    assert_eq!(
        names,
        vec![
            Metric::Tps,
            Metric::ErrorRate,
            Metric::MinLatency,
            Metric::P25Latency,
            Metric::P50Latency,
            Metric::P75Latency,
            Metric::P90Latency,
            Metric::P99Latency,
            Metric::P999Latency,
            Metric::MaxLatency,
        ]
    );
}

#[test]
fn merging_empty_snapshots_leaves_every_query_degenerate() {
    let mut agg = BenchmarkStats::new(1_000_000);
    let worker_a = BenchmarkStats::new(1_000_000);
    let worker_b = BenchmarkStats::new(1_000_000);
    agg.update(0, &worker_a).unwrap();
    agg.update(0, &worker_b).unwrap();
    assert_eq!(agg.num_success, 0);
    assert_eq!(agg.num_error, 0);
    assert_eq!(agg.throughput(), Err(ErrorKind::DegenerateBaseline));
    assert_eq!(agg.error_rate_percent(), Err(ErrorKind::DegenerateBaseline));
    for q in [(0u64, 1u64), (25, 100), (50, 100), (99, 100), (999, 1000), (1, 1)] {
        assert_eq!(agg.latency_ms.value_at_quantile(q.0, q.1), 0);
    }
}

#[test]
fn update_folds_counters_and_histograms() {
    let mut agg = snapshot(5, &[10, 20], 1);
    let sample = snapshot(3, &[30, 40, 50], 2);
    agg.update(9, &sample).unwrap();
    assert_eq!(agg.duration, 9); // the given duration wins
    assert_eq!(agg.num_success, 5);
    assert_eq!(agg.num_error, 3);
    assert_eq!(agg.latency_ms.count(), 5);
    assert_eq!(agg.latency_ms.min(), 10);
    assert_eq!(agg.latency_ms.max(), 50);
}

#[test]
fn update_rejects_incompatible_histograms() {
    let mut agg = BenchmarkStats::new(100);
    let sample = BenchmarkStats::new(1_000_000);
    assert_eq!(agg.update(1, &sample), Err(ErrorKind::IncompatibleHistogram));
}

#[test]
fn throughput_and_error_rate_accessors() {
    let s = snapshot(10, &[1, 2, 3, 4, 5, 6, 7, 8, 9, 10, 11, 12, 13, 14, 15, 16, 17, 18, 19, 20], 5);
    assert_eq!(s.throughput(), Ok(2));
    assert_eq!(s.error_rate_percent(), Ok(20)); // 5 of 25 issued
}

#[test]
fn out_of_range_success_changes_nothing() {
    let mut s = BenchmarkStats::new(63);
    assert_eq!(s.record_success(1_000_000), Err(ErrorKind::OutOfRange));
    assert_eq!(s.num_success, 0);
    assert_eq!(s.latency_ms.count(), 0);
}
