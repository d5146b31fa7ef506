//! Comparison of two metric values with consistent polarity handling.
//!
//! Ratios are kept as exact integer fractions rather than floating-point
//! numbers, so the normalization laws below are theorems, not
//! approximations; rendering may divide them out at whatever precision it
//! likes.

use vstd::prelude::*;
use crate::ErrorKind;

verus! {

/// An exact fraction. The denominator is positive in every value this
/// library produces.
#[derive(Clone, Copy, Debug, PartialEq, Eq, Structural)]
pub struct Ratio {
    pub num: i64,
    pub den: u64,
}

/// The fixed metric set of a benchmark comparison, in report order.
#[derive(Clone, Copy, Debug, PartialEq, Eq, Structural)]
pub enum Metric {
    Tps,
    ErrorRate,
    MinLatency,
    P25Latency,
    P50Latency,
    P75Latency,
    P90Latency,
    P99Latency,
    P999Latency,
    MaxLatency,
}

/// Throughput improves when it rises; the error rate and every latency
/// metric improve when they fall.
pub open spec fn spec_higher_is_better(m: Metric) -> bool {
    m is Tps
}

/// One compared metric: both raw values, their signed difference, the
/// difference relative to the baseline, and the polarity-normalized speedup
/// (at least one exactly when the new run is at least as good).
#[derive(Clone, Copy, Debug, PartialEq, Eq, Structural)]
pub struct Comparison {
    pub name: Metric,
    pub old_value: u64,
    pub new_value: u64,
    pub diff: i64,
    pub diff_ratio: Ratio,
    pub speedup: Ratio,
}

/// What comparing one metric yields: `diff = new - old`,
/// `diff_ratio = diff / old`, and `speedup = 1 + diff_ratio` for
/// higher-is-better metrics, `1 / (1 + diff_ratio)` for lower-is-better
/// ones — as exact fractions `new/old` and `old/new`. Fails with
/// `DegenerateBaseline` exactly when a needed denominator is zero: the old
/// value always, and also the new value for lower-is-better metrics.
pub open spec fn spec_compare_values(name: Metric, old_value: u64, new_value: u64) -> Result<
    Comparison,
    ErrorKind,
>
    recommends
        old_value <= i64::MAX,
        new_value <= i64::MAX,
{
    if old_value == 0 || (!spec_higher_is_better(name) && new_value == 0) {
        Err(ErrorKind::DegenerateBaseline)
    } else {
        Ok(
            Comparison {
                name,
                old_value,
                new_value,
                diff: (new_value - old_value) as i64,
                diff_ratio: Ratio { num: (new_value - old_value) as i64, den: old_value },
                speedup: if spec_higher_is_better(name) {
                    Ratio { num: new_value as i64, den: old_value }
                } else {
                    Ratio { num: old_value as i64, den: new_value }
                },
            },
        )
    }
}

/// Whether a comparison reports the new run as at least as good as the old
/// one: its speedup is at least one.
pub open spec fn spec_is_improvement(c: Comparison) -> bool {
    c.speedup.num >= c.speedup.den
}

/// Compares one metric's two values.
pub fn compare_values(name: Metric, old_value: u64, new_value: u64) -> (r: Result<
    Comparison,
    ErrorKind,
>)
    requires
        old_value <= i64::MAX as u64,
        new_value <= i64::MAX as u64,
    ensures
        r == spec_compare_values(name, old_value, new_value),
{
    let higher_is_better = match name {
        Metric::Tps => true,
        _ => false,
    };
    if old_value == 0 || (!higher_is_better && new_value == 0) {
        return Err(ErrorKind::DegenerateBaseline);
    }
    let diff: i64 = new_value as i64 - old_value as i64;
    Ok(
        Comparison {
            name,
            old_value,
            new_value,
            diff,
            diff_ratio: Ratio { num: diff, den: old_value },
            speedup: if higher_is_better {
                Ratio { num: new_value as i64, den: old_value }
            } else {
                Ratio { num: old_value as i64, den: new_value }
            },
        },
    )
}

/// The speedup is the promised normalization of the diff ratio, exactly:
/// for a higher-is-better metric it equals `1 + diff_ratio` (same
/// denominator, numerator shifted by one whole), and for a lower-is-better
/// metric it is the reciprocal of that fraction.
pub proof fn lemma_speedup_normalization(name: Metric, old_value: u64, new_value: u64)
    requires
        old_value <= i64::MAX,
        new_value <= i64::MAX,
        spec_compare_values(name, old_value, new_value) is Ok,
    ensures
        ({
            let c = spec_compare_values(name, old_value, new_value)->Ok_0;
            if spec_higher_is_better(name) {
                c.speedup.den == c.diff_ratio.den && c.speedup.num == c.diff_ratio.den
                    + c.diff_ratio.num
            } else {
                c.speedup.num == c.diff_ratio.den && c.speedup.den == c.diff_ratio.den
                    + c.diff_ratio.num
            }
        }),
{
}

/// A speedup of at least one means the new run is at least as good: a rise
/// for a higher-is-better metric, a fall for a lower-is-better one —
/// the single number rendering may classify by, with no per-metric polarity
/// left to re-derive.
pub proof fn lemma_improvement_direction(name: Metric, old_value: u64, new_value: u64)
    requires
        old_value <= i64::MAX,
        new_value <= i64::MAX,
        spec_compare_values(name, old_value, new_value) is Ok,
    ensures
        ({
            let c = spec_compare_values(name, old_value, new_value)->Ok_0;
            spec_is_improvement(c) <==> if spec_higher_is_better(name) {
                new_value >= old_value
            } else {
                new_value <= old_value
            }
        }),
{
}

/// Comparing equal, non-degenerate values reports no change: zero
/// difference, zero ratio, and a speedup of exactly one.
pub proof fn lemma_compare_identity(name: Metric, value: u64)
    requires
        0 < value <= i64::MAX,
    ensures
        ({
            let r = spec_compare_values(name, value, value);
            &&& r is Ok
            &&& r->Ok_0.diff == 0
            &&& r->Ok_0.diff_ratio.num == 0
            &&& r->Ok_0.speedup.num == r->Ok_0.speedup.den
        }),
{
}

} // verus!
