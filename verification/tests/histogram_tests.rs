use bench_stats::histogram::LatencyHistogram;
use bench_stats::ErrorKind;

#[test]
fn empty_histogram_answers_zero_everywhere() {
    let h = LatencyHistogram::new(60_000);
    assert_eq!(h.count(), 0);
    assert_eq!(h.min(), 0);
    assert_eq!(h.max(), 0);
    for q in [(0u64, 1u64), (25, 100), (50, 100), (99, 100), (999, 1000), (1, 1)] {
        assert_eq!(h.value_at_quantile(q.0, q.1), 0);
    }
}

#[test]
fn record_and_query_small_values_is_exact() {
    // values below 64 land in one-unit slots, so quantiles are exact
    let mut h = LatencyHistogram::new(60_000);
    for v in [10u64, 10, 10, 10, 20, 20, 30, 30, 40, 50] {
        h.record(v).unwrap();
    }
    assert_eq!(h.count(), 10);
    assert_eq!(h.min(), 10);
    assert_eq!(h.max(), 50);
    assert_eq!(h.value_at_quantile(0, 1), 10);
    assert_eq!(h.value_at_quantile(25, 100), 10);
    assert_eq!(h.value_at_quantile(50, 100), 20);
    assert_eq!(h.value_at_quantile(75, 100), 30);
    assert_eq!(h.value_at_quantile(90, 100), 40);
    assert_eq!(h.value_at_quantile(1, 1), 50);
}

#[test]
fn quantiles_clamp_to_exact_extrema() {
    let mut h = LatencyHistogram::new(1_000_000);
    h.record(100_000).unwrap();
    assert_eq!(h.min(), 100_000);
    assert_eq!(h.max(), 100_000);
    // one observation: every quantile is that observation, exactly
    assert_eq!(h.value_at_quantile(0, 1), 100_000);
    assert_eq!(h.value_at_quantile(50, 100), 100_000);
    assert_eq!(h.value_at_quantile(1, 1), 100_000);
}

#[test]
fn quantization_error_is_bounded() {
    let mut h = LatencyHistogram::new(u64::MAX);
    for v in [1_000u64, 10_000, 100_000, 1_000_000] {
        h.record(v).unwrap();
    }
    for (q, exact) in [(25u64, 1_000u64), (50, 10_000), (75, 100_000), (100, 1_000_000)] {
        let got = h.value_at_quantile(q, 100);
        assert!(got >= exact);
        // slot width never exceeds 1/32 of the values in it
        assert!(got - exact <= exact / 32);
    }
}

#[test]
fn out_of_range_is_rejected_and_ignored() {
    let mut h = LatencyHistogram::new(63);
    h.record(63).unwrap();
    assert_eq!(h.record(64), Err(ErrorKind::OutOfRange));
    assert_eq!(h.count(), 1);
    assert_eq!(h.max(), 63);
}

#[test]
fn merge_requires_same_configuration() {
    let mut a = LatencyHistogram::new(1_000);
    let b = LatencyHistogram::new(2_000_000);
    assert_eq!(a.merge(&b), Err(ErrorKind::IncompatibleHistogram));
}

#[test]
fn merge_is_commutative_and_associative_on_quantiles() {
    let quantiles = [(0u64, 1u64), (25, 100), (50, 100), (75, 100), (90, 100), (99, 100), (999, 1000), (1, 1)];
    let build = |values: &[u64]| {
        let mut h = LatencyHistogram::new(1_000_000);
        for &v in values {
            h.record(v).unwrap();
        }
        h
    };
    let h1 = build(&[5, 10, 700, 40_000]);
    let h2 = build(&[1, 2, 3]);
    let h3 = build(&[999_999, 12]);

    // ((h1+h2)+h3)
    let mut left = build(&[]);
    left.merge(&h1).unwrap();
    left.merge(&h2).unwrap();
    left.merge(&h3).unwrap();
    // (h1+(h2+h3))
    let mut inner = build(&[]);
    inner.merge(&h2).unwrap();
    inner.merge(&h3).unwrap();
    let mut right = build(&[]);
    right.merge(&h1).unwrap();
    right.merge(&inner).unwrap();
    // (h2+h1)+h3
    let mut swapped = build(&[]);
    swapped.merge(&h2).unwrap();
    swapped.merge(&h1).unwrap();
    swapped.merge(&h3).unwrap();

    assert_eq!(left.count(), 9);
    assert_eq!(right.count(), 9);
    assert_eq!(swapped.count(), 9);
    for h in [&right, &swapped] {
        assert_eq!(left.min(), h.min());
        assert_eq!(left.max(), h.max());
        for q in quantiles {
            assert_eq!(left.value_at_quantile(q.0, q.1), h.value_at_quantile(q.0, q.1));
        }
    }
}

#[test]
fn merge_keeps_extrema_from_both_sides() {
    let mut a = LatencyHistogram::new(100_000);
    let mut b = LatencyHistogram::new(100_000);
    a.record(500).unwrap();
    b.record(7).unwrap();
    b.record(90_000).unwrap();
    a.merge(&b).unwrap();
    assert_eq!(a.min(), 7);
    assert_eq!(a.max(), 90_000);
    assert_eq!(a.count(), 3);
}
