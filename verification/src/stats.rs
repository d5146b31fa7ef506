//! Per-run statistics and the comparison of two runs.
//!
//! A snapshot holds one run's elapsed seconds, success and error counters,
//! and the latency histogram of its successful requests. Each concurrent
//! worker owns one snapshot; partial snapshots fold into an aggregate with
//! `update`, whose duration argument is the authoritative elapsed time of
//! the combined run (last writer wins — a documented asymmetry of the
//! merge, not an oversight).

use vstd::prelude::*;
use crate::ErrorKind;
use crate::compare::{
    compare_values, spec_compare_values, Comparison, Metric,
};
use crate::histogram::{
    hist_wf, spec_merge, spec_value_at_quantile, HistView, LatencyHistogram,
};

verus! {

/// Mathematical content of a snapshot.
#[verifier::ext_equal]
pub ghost struct StatsView {
    pub duration: u64,
    pub num_error: u64,
    pub num_success: u64,
    pub latency: HistView,
}

/// A snapshot is well formed when its histogram is and every success has
/// exactly one observation in the histogram.
pub open spec fn stats_wf(s: StatsView) -> bool {
    &&& hist_wf(s.latency)
    &&& s.latency.total == s.num_success
}

/// Statistics of one benchmark run: elapsed seconds, outcome counters, and
/// the latency distribution of the successful requests.
pub struct BenchmarkStats {
    /// Elapsed wall time of the run, in seconds.
    pub duration: u64,
    /// Failed requests; their latencies are not recorded.
    pub num_error: u64,
    /// Successful requests, each with one observation in `latency_ms`.
    pub num_success: u64,
    /// Distribution of successful-request latencies, in milliseconds.
    pub latency_ms: LatencyHistogram,
}

impl View for BenchmarkStats {
    type V = StatsView;

    open spec fn view(&self) -> StatsView {
        StatsView {
            duration: self.duration,
            num_error: self.num_error,
            num_success: self.num_success,
            latency: self.latency_ms@,
        }
    }
}

/// Result of folding a sample into an aggregate: counters add, histograms
/// merge, and the given duration becomes the aggregate's elapsed time.
pub open spec fn spec_update(s: StatsView, duration: u64, o: StatsView) -> StatsView {
    StatsView {
        duration,
        num_error: (s.num_error + o.num_error) as u64,
        num_success: (s.num_success + o.num_success) as u64,
        latency: spec_merge(s.latency, o.latency),
    }
}

/// Requests completed per second of the run; undefined while no time has
/// elapsed.
pub open spec fn spec_throughput(s: StatsView) -> Result<u64, ErrorKind> {
    if s.duration == 0 {
        Err(ErrorKind::DegenerateBaseline)
    } else {
        Ok((s.num_success as int / s.duration as int) as u64)
    }
}

/// Failed requests per hundred issued, rounded down; undefined while no
/// request has been issued.
pub open spec fn spec_error_rate_percent(s: StatsView) -> Result<u64, ErrorKind> {
    if s.num_error + s.num_success == 0 {
        Err(ErrorKind::DegenerateBaseline)
    } else {
        Ok(((s.num_error as int * 100) / (s.num_error as int + s.num_success as int)) as u64)
    }
}

impl BenchmarkStats {
    /// An empty snapshot whose histogram can record latencies up to at
    /// least `max_latency`.
    pub fn new(max_latency: u64) -> (s: BenchmarkStats)
        ensures
            stats_wf(s@),
            s@.duration == 0,
            s@.num_error == 0,
            s@.num_success == 0,
            s@.latency.total == 0,
    {
        BenchmarkStats {
            duration: 0,
            num_error: 0,
            num_success: 0,
            latency_ms: LatencyHistogram::new(max_latency),
        }
    }

    /// Records one successful request and its latency. Fails with
    /// `OutOfRange`, changing nothing, when the latency lies beyond the
    /// histogram's range.
    pub fn record_success(&mut self, latency: u64) -> (r: Result<(), ErrorKind>)
        requires
            stats_wf(old(self)@),
            old(self)@.num_success < u64::MAX,
        ensures
            stats_wf(final(self)@),
            r is Ok ==> final(self)@ == (StatsView {
                num_success: (old(self)@.num_success + 1) as u64,
                latency: final(self)@.latency,
                ..old(self)@
            }) && final(self)@.latency.total == old(self)@.latency.total + 1,
            r is Err ==> r == Err::<(), ErrorKind>(ErrorKind::OutOfRange) && final(self)@ == old(
                self,
            )@,
            r is Ok <==> crate::histogram::spec_slot_index(latency as nat) < old(
                self,
            )@.latency.counts.len(),
    {
        match self.latency_ms.record(latency) {
            Ok(()) => {
                self.num_success = self.num_success + 1;
                Ok(())
            },
            Err(e) => Err(e),
        }
    }

    /// Records one failed request; its latency is not recorded.
    pub fn record_error(&mut self)
        requires
            stats_wf(old(self)@),
            old(self)@.num_error < u64::MAX,
        ensures
            stats_wf(final(self)@),
            final(self)@ == (StatsView { num_error: (old(self)@.num_error + 1) as u64, ..old(
                self,
            )@ }),
    {
        self.num_error = self.num_error + 1;
    }

    /// Sets the elapsed wall time of the run, in seconds.
    pub fn finalize(&mut self, duration: u64)
        requires
            stats_wf(old(self)@),
        ensures
            stats_wf(final(self)@),
            final(self)@ == (StatsView { duration, ..old(self)@ }),
    {
        self.duration = duration;
    }

    /// Folds a sample snapshot into this one: counters add, histograms
    /// merge, and `duration` becomes the aggregate's elapsed time. Fails
    /// with `IncompatibleHistogram`, changing nothing, exactly when the two
    /// histograms were configured with different ranges.
    pub fn update(&mut self, duration: u64, sample_stat: &BenchmarkStats) -> (r: Result<
        (),
        ErrorKind,
    >)
        requires
            stats_wf(old(self)@),
            stats_wf(sample_stat@),
            old(self)@.num_error + sample_stat@.num_error <= u64::MAX,
            old(self)@.num_success + sample_stat@.num_success <= u64::MAX,
        ensures
            stats_wf(final(self)@),
            old(self)@.latency.counts.len() != sample_stat@.latency.counts.len() ==> r == Err::<
                (),
                ErrorKind,
            >(ErrorKind::IncompatibleHistogram) && final(self)@ == old(self)@,
            old(self)@.latency.counts.len() == sample_stat@.latency.counts.len() ==> r == Ok::<
                (),
                ErrorKind,
            >(()) && final(self)@ == spec_update(old(self)@, duration, sample_stat@),
    {
        match self.latency_ms.merge(&sample_stat.latency_ms) {
            Ok(()) => {},
            Err(e) => {
                return Err(e);
            },
        }
        self.duration = duration;
        self.num_error = self.num_error + sample_stat.num_error;
        self.num_success = self.num_success + sample_stat.num_success;
        proof {
            assert(final(self)@ =~~= spec_update(old(self)@, duration, sample_stat@));
        }
        Ok(())
    }

    /// Requests completed per second; `DegenerateBaseline` while no time
    /// has elapsed.
    pub fn throughput(&self) -> (r: Result<u64, ErrorKind>)
        ensures
            r == spec_throughput(self@),
    {
        if self.duration == 0 {
            Err(ErrorKind::DegenerateBaseline)
        } else {
            Ok(self.num_success / self.duration)
        }
    }

    /// Failed requests per hundred issued, rounded down;
    /// `DegenerateBaseline` while no request has been issued.
    pub fn error_rate_percent(&self) -> (r: Result<u64, ErrorKind>)
        ensures
            r == spec_error_rate_percent(self@),
            r is Ok ==> r->Ok_0 <= 100,
    {
        if self.num_error == 0 && self.num_success == 0 {
            return Err(ErrorKind::DegenerateBaseline);
        }
        let scaled: u128 = (self.num_error as u128) * 100;
        let issued: u128 = (self.num_error as u128) + (self.num_success as u128);
        let rate: u128 = scaled / issued;
        proof {
            assert(rate * issued <= scaled) by (nonlinear_arith)
                requires
                    issued > 0,
                    rate == scaled / issued,
            ;
            assert(rate <= 100) by (nonlinear_arith)
                requires
                    rate * issued <= scaled,
                    scaled == (self.num_error as u128) * 100,
                    issued >= self.num_error as u128,
                    issued > 0,
            ;
        }
        Ok(rate as u64)
    }
}

/// The ten metrics of a comparison report, in report order.
pub open spec fn spec_metric_order() -> Seq<Metric> {
    seq![
        Metric::Tps,
        Metric::ErrorRate,
        Metric::MinLatency,
        Metric::P25Latency,
        Metric::P50Latency,
        Metric::P75Latency,
        Metric::P90Latency,
        Metric::P99Latency,
        Metric::P999Latency,
        Metric::MaxLatency,
    ]
}

/// The scalar a metric reads off a snapshot: throughput and error rate from
/// the counters and duration, the eight latency metrics from the histogram.
pub open spec fn spec_metric_value(s: StatsView, m: Metric) -> Result<u64, ErrorKind> {
    match m {
        Metric::Tps => spec_throughput(s),
        Metric::ErrorRate => spec_error_rate_percent(s),
        Metric::MinLatency => Ok(s.latency.min_v),
        Metric::P25Latency => Ok(spec_value_at_quantile(s.latency, 25, 100)),
        Metric::P50Latency => Ok(spec_value_at_quantile(s.latency, 50, 100)),
        Metric::P75Latency => Ok(spec_value_at_quantile(s.latency, 75, 100)),
        Metric::P90Latency => Ok(spec_value_at_quantile(s.latency, 90, 100)),
        Metric::P99Latency => Ok(spec_value_at_quantile(s.latency, 99, 100)),
        Metric::P999Latency => Ok(spec_value_at_quantile(s.latency, 999, 1000)),
        Metric::MaxLatency => Ok(s.latency.max_v),
    }
}

/// One metric's comparison: extract both scalars, then compare. A failed
/// extraction or a degenerate baseline fails this metric alone.
pub open spec fn spec_cmp_metric(old: StatsView, new: StatsView, m: Metric) -> Result<
    Comparison,
    ErrorKind,
> {
    match (spec_metric_value(old, m), spec_metric_value(new, m)) {
        (Ok(o), Ok(n)) => spec_compare_values(m, o, n),
        (Err(e), _) => Err(e),
        (Ok(_), Err(e)) => Err(e),
    }
}

/// A comparison between an old and a new benchmark run. Each metric is
/// reported on its own, so one degenerate baseline never suppresses the
/// other nine comparisons.
pub struct BenchmarkCmp<'a> {
    pub new: &'a BenchmarkStats,
    pub old: &'a BenchmarkStats,
}

impl BenchmarkCmp<'_> {
    /// All ten metric comparisons, in report order.
    pub fn all_cmps(&self) -> (r: Vec<Result<Comparison, ErrorKind>>)
        requires
            stats_wf(self.old@),
            stats_wf(self.new@),
            self.old@.num_success <= i64::MAX,
            self.new@.num_success <= i64::MAX,
            self.old@.latency.max_v <= i64::MAX,
            self.new@.latency.max_v <= i64::MAX,
        ensures
            r@.len() == 10,
            forall|i: int|
                0 <= i < 10 ==> r@[i] == spec_cmp_metric(
                    self.old@,
                    self.new@,
                    #[trigger] spec_metric_order()[i],
                ),
    {
        let mut out: Vec<Result<Comparison, ErrorKind>> = Vec::new();
        out.push(self.cmp_tps());
        out.push(self.cmp_error_rate());
        out.push(self.cmp_min_latency());
        out.push(self.cmp_p25_latency());
        out.push(self.cmp_p50_latency());
        out.push(self.cmp_p75_latency());
        out.push(self.cmp_p90_latency());
        out.push(self.cmp_p99_latency());
        out.push(self.cmp_p999_latency());
        out.push(self.cmp_max_latency());
        out
    }

    /// Compares throughput; higher is better.
    pub fn cmp_tps(&self) -> (r: Result<Comparison, ErrorKind>)
        requires
            stats_wf(self.old@),
            stats_wf(self.new@),
            self.old@.num_success <= i64::MAX,
            self.new@.num_success <= i64::MAX,
        ensures
            r == spec_cmp_metric(self.old@, self.new@, Metric::Tps),
    {
        let o: u64 = match self.old.throughput() {
            Ok(v) => v,
            Err(e) => {
                return Err(e);
            },
        };
        let n: u64 = match self.new.throughput() {
            Ok(v) => v,
            Err(e) => {
                return Err(e);
            },
        };
        proof {
            lemma_div_le(self.old@.num_success as int, self.old@.duration as int);
            lemma_div_le(self.new@.num_success as int, self.new@.duration as int);
        }
        compare_values(Metric::Tps, o, n)
    }

    /// Compares the error rate, in whole percent; lower is better.
    pub fn cmp_error_rate(&self) -> (r: Result<Comparison, ErrorKind>)
        requires
            stats_wf(self.old@),
            stats_wf(self.new@),
        ensures
            r == spec_cmp_metric(self.old@, self.new@, Metric::ErrorRate),
    {
        let o: u64 = match self.old.error_rate_percent() {
            Ok(v) => v,
            Err(e) => {
                return Err(e);
            },
        };
        let n: u64 = match self.new.error_rate_percent() {
            Ok(v) => v,
            Err(e) => {
                return Err(e);
            },
        };
        compare_values(Metric::ErrorRate, o, n)
    }

    /// Compares the least recorded latency; lower is better.
    pub fn cmp_min_latency(&self) -> (r: Result<Comparison, ErrorKind>)
        requires
            stats_wf(self.old@),
            stats_wf(self.new@),
            self.old@.latency.max_v <= i64::MAX,
            self.new@.latency.max_v <= i64::MAX,
        ensures
            r == spec_cmp_metric(self.old@, self.new@, Metric::MinLatency),
    {
        compare_values(Metric::MinLatency, self.old.latency_ms.min(), self.new.latency_ms.min())
    }

    /// Compares the greatest recorded latency; lower is better.
    pub fn cmp_max_latency(&self) -> (r: Result<Comparison, ErrorKind>)
        requires
            stats_wf(self.old@),
            stats_wf(self.new@),
            self.old@.latency.max_v <= i64::MAX,
            self.new@.latency.max_v <= i64::MAX,
        ensures
            r == spec_cmp_metric(self.old@, self.new@, Metric::MaxLatency),
    {
        compare_values(Metric::MaxLatency, self.old.latency_ms.max(), self.new.latency_ms.max())
    }

    /// Compares the latency at the 25th percentile; lower is better.
    pub fn cmp_p25_latency(&self) -> (r: Result<Comparison, ErrorKind>)
        requires
            stats_wf(self.old@),
            stats_wf(self.new@),
            self.old@.latency.max_v <= i64::MAX,
            self.new@.latency.max_v <= i64::MAX,
        ensures
            r == spec_cmp_metric(self.old@, self.new@, Metric::P25Latency),
    {
        compare_values(
            Metric::P25Latency,
            self.old.latency_ms.value_at_quantile(25, 100),
            self.new.latency_ms.value_at_quantile(25, 100),
        )
    }

    /// Compares the median latency; lower is better.
    pub fn cmp_p50_latency(&self) -> (r: Result<Comparison, ErrorKind>)
        requires
            stats_wf(self.old@),
            stats_wf(self.new@),
            self.old@.latency.max_v <= i64::MAX,
            self.new@.latency.max_v <= i64::MAX,
        ensures
            r == spec_cmp_metric(self.old@, self.new@, Metric::P50Latency),
    {
        compare_values(
            Metric::P50Latency,
            self.old.latency_ms.value_at_quantile(50, 100),
            self.new.latency_ms.value_at_quantile(50, 100),
        )
    }

    /// Compares the latency at the 75th percentile; lower is better.
    pub fn cmp_p75_latency(&self) -> (r: Result<Comparison, ErrorKind>)
        requires
            stats_wf(self.old@),
            stats_wf(self.new@),
            self.old@.latency.max_v <= i64::MAX,
            self.new@.latency.max_v <= i64::MAX,
        ensures
            r == spec_cmp_metric(self.old@, self.new@, Metric::P75Latency),
    {
        compare_values(
            Metric::P75Latency,
            self.old.latency_ms.value_at_quantile(75, 100),
            self.new.latency_ms.value_at_quantile(75, 100),
        )
    }

    /// Compares the latency at the 90th percentile; lower is better.
    pub fn cmp_p90_latency(&self) -> (r: Result<Comparison, ErrorKind>)
        requires
            stats_wf(self.old@),
            stats_wf(self.new@),
            self.old@.latency.max_v <= i64::MAX,
            self.new@.latency.max_v <= i64::MAX,
        ensures
            r == spec_cmp_metric(self.old@, self.new@, Metric::P90Latency),
    {
        compare_values(
            Metric::P90Latency,
            self.old.latency_ms.value_at_quantile(90, 100),
            self.new.latency_ms.value_at_quantile(90, 100),
        )
    }

    /// Compares the latency at the 99th percentile; lower is better.
    pub fn cmp_p99_latency(&self) -> (r: Result<Comparison, ErrorKind>)
        requires
            stats_wf(self.old@),
            stats_wf(self.new@),
            self.old@.latency.max_v <= i64::MAX,
            self.new@.latency.max_v <= i64::MAX,
        ensures
            r == spec_cmp_metric(self.old@, self.new@, Metric::P99Latency),
    {
        compare_values(
            Metric::P99Latency,
            self.old.latency_ms.value_at_quantile(99, 100),
            self.new.latency_ms.value_at_quantile(99, 100),
        )
    }

    /// Compares the latency at the 99.9th percentile; lower is better.
    pub fn cmp_p999_latency(&self) -> (r: Result<Comparison, ErrorKind>)
        requires
            stats_wf(self.old@),
            stats_wf(self.new@),
            self.old@.latency.max_v <= i64::MAX,
            self.new@.latency.max_v <= i64::MAX,
        ensures
            r == spec_cmp_metric(self.old@, self.new@, Metric::P999Latency),
    {
        compare_values(
            Metric::P999Latency,
            self.old.latency_ms.value_at_quantile(999, 1000),
            self.new.latency_ms.value_at_quantile(999, 1000),
        )
    }
}

/// Integer division by a positive number never grows the dividend.
proof fn lemma_div_le(a: int, d: int)
    requires
        a >= 0,
        d >= 1,
    ensures
        a / d <= a,
{
    assert(a / d <= a) by (nonlinear_arith)
        requires
            a >= 0,
            d >= 1,
    ;
}

/// Comparing a snapshot with itself reports no change on every metric whose
/// value is readable and nonzero: zero difference, zero ratio, and a
/// speedup of exactly one.
pub proof fn lemma_cmp_identity(s: StatsView, m: Metric)
    requires
        stats_wf(s),
        spec_metric_value(s, m) is Ok,
        0 < spec_metric_value(s, m)->Ok_0 <= i64::MAX,
    ensures
        ({
            let r = spec_cmp_metric(s, s, m);
            &&& r is Ok
            &&& r->Ok_0.diff == 0
            &&& r->Ok_0.diff_ratio.num == 0
            &&& r->Ok_0.speedup.num == r->Ok_0.speedup.den
        }),
{
    crate::compare::lemma_compare_identity(m, spec_metric_value(s, m)->Ok_0);
}

/// A run that saw no elapsed time has no throughput to compare against:
/// the throughput comparison degenerates rather than dividing by zero.
pub proof fn lemma_degenerate_baseline(old: StatsView, new: StatsView)
    requires
        old.duration == 0,
    ensures
        spec_cmp_metric(old, new, Metric::Tps) == Err::<Comparison, ErrorKind>(
            ErrorKind::DegenerateBaseline,
        ),
{
}

/// Folding one empty snapshot into another leaves an empty snapshot: both
/// rate queries degenerate and every quantile answers zero.
pub proof fn lemma_merge_empty_snapshots(a: StatsView, b: StatsView, duration: u64)
    requires
        stats_wf(a),
        stats_wf(b),
        a.latency.counts.len() == b.latency.counts.len(),
        a.num_success == 0,
        a.num_error == 0,
        b.num_success == 0,
        b.num_error == 0,
        duration == 0,
    ensures
        ({
            let m = spec_update(a, duration, b);
            &&& m.num_success == 0
            &&& m.num_error == 0
            &&& m.latency.total == 0
            &&& spec_throughput(m) == Err::<u64, ErrorKind>(ErrorKind::DegenerateBaseline)
            &&& spec_error_rate_percent(m) == Err::<u64, ErrorKind>(ErrorKind::DegenerateBaseline)
            &&& forall|q_num: u64, q_den: u64|
                q_den > 0 ==> #[trigger] spec_value_at_quantile(m.latency, q_num, q_den) == 0
        }),
{
}

} // verus!
