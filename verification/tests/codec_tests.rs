use bench_stats::codec::ENCODING_VERSION;
use bench_stats::histogram::LatencyHistogram;
use bench_stats::stats::BenchmarkStats;
use bench_stats::ErrorKind;

const QUANTILES: [(u64, u64); 8] =
    [(0, 1), (25, 100), (50, 100), (75, 100), (90, 100), (99, 100), (999, 1000), (1, 1)];

#[test]
fn encode_decode_round_trip_preserves_queries() {
    let mut h = LatencyHistogram::new(1_000_000);
    for v in [1u64, 5, 5, 42, 900, 900, 900, 123_456, 999_999] {
        h.record(v).unwrap();
    }
    let bytes = h.encode();
    let back = LatencyHistogram::decode(&bytes).unwrap();
    assert_eq!(back.count(), h.count());
    assert_eq!(back.min(), h.min());
    assert_eq!(back.max(), h.max());
    for q in QUANTILES {
        assert_eq!(back.value_at_quantile(q.0, q.1), h.value_at_quantile(q.0, q.1));
    }
    // the reconstruction encodes to the same envelope
    assert_eq!(back.encode(), bytes);
}

#[test]
fn empty_histogram_round_trips() {
    let h = LatencyHistogram::new(5_000);
    let back = LatencyHistogram::decode(&h.encode()).unwrap();
    assert_eq!(back.count(), 0);
    assert_eq!(back.min(), 0);
    assert_eq!(back.max(), 0);
    assert_eq!(back.value_at_quantile(50, 100), 0);
}

#[test]
fn decode_rejects_unknown_version() {
    let h = LatencyHistogram::new(5_000);
    let mut bytes = h.encode();
    assert_eq!(bytes[0], ENCODING_VERSION);
    bytes[0] = ENCODING_VERSION.wrapping_add(1);
    assert!(matches!(LatencyHistogram::decode(&bytes), Err(ErrorKind::CorruptEncoding)));
}

#[test]
fn decode_rejects_truncated_and_padded_input() {
    let mut h = LatencyHistogram::new(5_000);
    h.record(17).unwrap();
    let bytes = h.encode();
    assert!(matches!(LatencyHistogram::decode(&bytes[..bytes.len() - 1]), Err(ErrorKind::CorruptEncoding)));
    assert!(matches!(LatencyHistogram::decode(&[]), Err(ErrorKind::CorruptEncoding)));
    let mut padded = bytes.clone();
    padded.push(0);
    assert!(matches!(LatencyHistogram::decode(&padded), Err(ErrorKind::CorruptEncoding)));
}

#[test]
fn decode_rejects_inconsistent_extrema() {
    let mut h = LatencyHistogram::new(5_000);
    h.record(100).unwrap();
    let mut bytes = h.encode();
    // overwrite the stored minimum (bytes 9..17) with a value in an empty slot
    bytes[9..17].copy_from_slice(&5u64.to_le_bytes());
    assert!(matches!(LatencyHistogram::decode(&bytes), Err(ErrorKind::CorruptEncoding)));
}

#[test]
fn snapshot_round_trips_exactly() {
    let mut s = BenchmarkStats::new(1_000_000);
    for v in [10u64, 20, 30] {
        s.record_success(v).unwrap();
    }
    s.record_error();
    s.finalize(55);
    let bytes = s.encode();
    let back = BenchmarkStats::decode(&bytes).unwrap();
    assert_eq!(back.duration, 55);
    assert_eq!(back.num_error, 1);
    assert_eq!(back.num_success, 3);
    assert_eq!(back.latency_ms.count(), 3);
    for q in QUANTILES {
        assert_eq!(
            back.latency_ms.value_at_quantile(q.0, q.1),
            s.latency_ms.value_at_quantile(q.0, q.1)
        );
    }
    assert_eq!(back.encode(), bytes);
}

#[test]
fn snapshot_decode_rejects_disagreeing_counters() {
    let mut s = BenchmarkStats::new(1_000);
    s.record_success(5).unwrap();
    s.finalize(1);
    let mut bytes = s.encode();
    // success counter (bytes 16..24) no longer matches the histogram
    bytes[16..24].copy_from_slice(&9u64.to_le_bytes());
    assert!(matches!(BenchmarkStats::decode(&bytes), Err(ErrorKind::CorruptEncoding)));
}
