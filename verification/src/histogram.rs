//! A mergeable, quantile-queryable distribution of non-negative integer
//! latency observations.
//!
//! Values are bucketed into slots of bounded relative width: values below 64
//! each get a slot of their own, and every doubling of the value range above
//! that is split into 32 slots, so quantile queries are answered with a
//! relative quantization error of at most 1/32 at any magnitude.

use vstd::prelude::*;
use vstd::arithmetic::power2::{
    pow2, lemma_pow2_adds, lemma_pow2_pos, lemma2_to64, lemma2_to64_rest,
};
use crate::ErrorKind;

verus! {

/// Slots that cover every `u64` value: 64 one-unit slots, then 32 slots for
/// each of the 58 doublings up to `u64::MAX`.
pub const MAX_SLOTS: usize = 1920;

/// Slot of a latency value: values below 64 map to themselves; each halving
/// of the value above that walks back 32 slots.
pub open spec fn spec_slot_index(v: nat) -> nat
    decreases v,
{
    if v < 64 {
        v
    } else {
        32 + spec_slot_index(v / 2)
    }
}

/// Largest value that lands in slot `i`.
pub open spec fn spec_slot_upper(i: nat) -> nat
    decreases i,
{
    if i < 64 {
        i
    } else {
        2 * spec_slot_upper((i - 32) as nat) + 1
    }
}

pub proof fn lemma_slot_index_ge_32(v: nat)
    requires
        v >= 32,
    ensures
        spec_slot_index(v) >= 32,
{
}

/// Larger values never land in earlier slots.
pub proof fn lemma_slot_index_monotone(v: nat, w: nat)
    requires
        v <= w,
    ensures
        spec_slot_index(v) <= spec_slot_index(w),
    decreases w,
{
    if w < 64 {
    } else if v < 64 {
        lemma_slot_index_ge_32(w / 2);
    } else {
        lemma_slot_index_monotone(v / 2, w / 2);
    }
}

proof fn lemma_slot_index_pow(v: nat, k: nat)
    requires
        6 <= k,
        v < pow2(k),
    ensures
        spec_slot_index(v) < 64 + (k - 6) * 32,
    decreases v,
{
    lemma2_to64();
    if v < 64 {
    } else {
        assert(k > 6) by {
            if k == 6 {
                assert(v < pow2(6));
            }
        }
        assert(pow2(k) == 2 * pow2((k - 1) as nat)) by {
            lemma_pow2_adds((k - 1) as nat, 1);
        }
        assert(v / 2 < pow2((k - 1) as nat));
        lemma_slot_index_pow(v / 2, (k - 1) as nat);
    }
}

/// Every `u64` value has a slot below `MAX_SLOTS`.
pub proof fn lemma_slot_index_bound(v: nat)
    requires
        v <= u64::MAX,
    ensures
        spec_slot_index(v) < 1920,
{
    lemma2_to64();
    lemma2_to64_rest();
    assert(pow2(64) == 0x10000000000000000) by {
        lemma_pow2_adds(32, 32);
    }
    lemma_slot_index_pow(v, 64);
}

proof fn lemma_slot_upper_pow(i: nat, k: nat)
    requires
        i < 64 + 32 * k,
    ensures
        spec_slot_upper(i) < pow2(k + 6),
    decreases i,
{
    lemma2_to64();
    if i < 64 {
        assert(pow2(k + 6) == pow2(k) * pow2(6)) by {
            lemma_pow2_adds(k, 6);
        }
        lemma_pow2_pos(k);
        assert(pow2(k) * pow2(6) >= 1 * pow2(6)) by (nonlinear_arith)
            requires
                pow2(k) >= 1,
                pow2(6) > 0,
        ;
    } else {
        assert(k >= 1);
        lemma_slot_upper_pow((i - 32) as nat, (k - 1) as nat);
        assert(pow2(k + 6) == 2 * pow2((k + 5) as nat)) by {
            lemma_pow2_adds((k + 5) as nat, 1);
        }
    }
}

/// No slot's upper value overflows `u64`.
pub proof fn lemma_slot_upper_bound(i: nat)
    requires
        i < 1920,
    ensures
        spec_slot_upper(i) <= u64::MAX,
{
    lemma2_to64();
    lemma2_to64_rest();
    assert(pow2(64) == 0x10000000000000000) by {
        lemma_pow2_adds(32, 32);
    }
    lemma_slot_upper_pow(i, 58);
}

/// A value never exceeds the upper value of its own slot.
pub proof fn lemma_slot_contains(v: nat)
    ensures
        v <= spec_slot_upper(spec_slot_index(v)),
    decreases v,
{
    if v < 64 {
    } else {
        lemma_slot_index_ge_32(v / 2);
        lemma_slot_contains(v / 2);
    }
}

/// Smallest value that lands in slot `i`.
pub open spec fn spec_slot_lower(i: nat) -> nat
    decreases i,
{
    if i < 64 {
        i
    } else {
        2 * spec_slot_lower((i - 32) as nat)
    }
}

/// A value never falls below the lower value of its own slot.
pub proof fn lemma_slot_lower_contains(v: nat)
    ensures
        spec_slot_lower(spec_slot_index(v)) <= v,
    decreases v,
{
    if v < 64 {
    } else {
        lemma_slot_index_ge_32(v / 2);
        lemma_slot_lower_contains(v / 2);
    }
}

proof fn lemma_slot_width(v: nat)
    requires
        v >= 32,
    ensures
        32 * (spec_slot_upper(spec_slot_index(v)) - spec_slot_lower(spec_slot_index(v)) + 1) <= v,
    decreases v,
{
    if v < 64 {
    } else {
        lemma_slot_index_ge_32(v / 2);
        lemma_slot_width(v / 2);
    }
}

/// The bounded relative error law: reporting a value as its slot's upper
/// value overstates it by at most 1/32 of the value itself, at every
/// magnitude.
pub proof fn lemma_slot_quantization(v: nat)
    ensures
        v <= spec_slot_upper(spec_slot_index(v)),
        spec_slot_upper(spec_slot_index(v)) - v <= v / 32,
{
    lemma_slot_contains(v);
    if v < 64 {
    } else {
        lemma_slot_lower_contains(v);
        lemma_slot_width(v);
    }
}

/// Slot of `v`, computed by repeated halving.
pub fn slot_index(v: u64) -> (i: usize)
    ensures
        i as nat == spec_slot_index(v as nat),
        i < MAX_SLOTS,
{
    proof {
        lemma_slot_index_bound(v as nat);
    }
    let mut x: u64 = v;
    let mut acc: u64 = 0;
    while x >= 64
        invariant
            acc as nat + spec_slot_index(x as nat) == spec_slot_index(v as nat),
            spec_slot_index(v as nat) < 1920,
        decreases x,
    {
        acc = acc + 32;
        x = x / 2;
    }
    (acc + x) as usize
}

/// Largest value that lands in slot `i`, computed by repeated doubling.
pub fn slot_upper(i: usize) -> (r: u64)
    requires
        i < MAX_SLOTS,
    ensures
        r as nat == spec_slot_upper(i as nat),
    decreases i,
{
    proof {
        lemma_slot_upper_bound(i as nat);
    }
    if i < 64 {
        i as u64
    } else {
        let half: u64 = slot_upper(i - 32);
        2 * half + 1
    }
}

/// Mathematical content of a histogram: one observation count per slot,
/// the number of observations, and the exact least and greatest recorded
/// values (both zero while no value has been recorded).
#[verifier::ext_equal]
pub ghost struct HistView {
    pub counts: Seq<u64>,
    pub total: u64,
    pub min_v: u64,
    pub max_v: u64,
}

/// Sum of all slot counts.
pub open spec fn sum_counts(s: Seq<u64>) -> nat
    decreases s.len(),
{
    if s.len() == 0 {
        0
    } else {
        sum_counts(s.drop_last()) + s.last() as nat
    }
}

pub proof fn lemma_count_le_sum(s: Seq<u64>, i: int)
    requires
        0 <= i < s.len(),
    ensures
        s[i] <= sum_counts(s),
    decreases s.len(),
{
    if i < s.len() - 1 {
        lemma_count_le_sum(s.drop_last(), i);
    }
}

pub proof fn lemma_sum_zero(s: Seq<u64>)
    requires
        sum_counts(s) == 0,
    ensures
        forall|i: int| 0 <= i < s.len() ==> s[i] == 0,
{
    assert forall|i: int| 0 <= i < s.len() implies s[i] == 0 by {
        lemma_count_le_sum(s, i);
    }
}

pub proof fn lemma_sum_take_succ(s: Seq<u64>, k: int)
    requires
        0 <= k < s.len(),
    ensures
        sum_counts(s.take(k + 1)) == sum_counts(s.take(k)) + s[k],
{
    assert(s.take(k + 1).drop_last() =~= s.take(k));
    assert(s.take(k + 1).last() == s[k]);
}

pub proof fn lemma_sum_take_le(s: Seq<u64>, k: int)
    requires
        0 <= k <= s.len(),
    ensures
        sum_counts(s.take(k)) <= sum_counts(s),
    decreases s.len() - k,
{
    if k == s.len() {
        assert(s.take(k) =~= s);
    } else {
        lemma_sum_take_succ(s, k);
        lemma_sum_take_le(s, k + 1);
    }
}

/// Pointwise sum of two equally long slot-count sequences.
pub open spec fn spec_add_counts(a: Seq<u64>, b: Seq<u64>) -> Seq<u64> {
    Seq::new(a.len(), |i: int| (a[i] + b[i]) as u64)
}

pub proof fn lemma_sum_add_counts(a: Seq<u64>, b: Seq<u64>)
    requires
        a.len() == b.len(),
        forall|i: int| 0 <= i < a.len() ==> a[i] + b[i] <= u64::MAX,
    ensures
        sum_counts(spec_add_counts(a, b)) == sum_counts(a) + sum_counts(b),
    decreases a.len(),
{
    if a.len() == 0 {
    } else {
        assert(spec_add_counts(a, b).drop_last() =~= spec_add_counts(
            a.drop_last(),
            b.drop_last(),
        ));
        lemma_sum_add_counts(a.drop_last(), b.drop_last());
    }
}

/// A histogram is well formed when its total agrees with its slot counts and,
/// once anything has been recorded, its exact minimum and maximum sit in the
/// first and last occupied slots.
pub open spec fn hist_wf(v: HistView) -> bool {
    &&& 1 <= v.counts.len() <= MAX_SLOTS
    &&& v.total as nat == sum_counts(v.counts)
    &&& if v.total == 0 {
        v.min_v == 0 && v.max_v == 0
    } else {
        extrema_ok(v)
    }
}

/// The exact minimum and maximum agree with the slot counts: the minimum
/// sits in the first occupied slot, the maximum in the last.
pub open spec fn extrema_ok(v: HistView) -> bool {
    &&& v.min_v <= v.max_v
    &&& spec_slot_index(v.min_v as nat) < v.counts.len()
    &&& spec_slot_index(v.max_v as nat) < v.counts.len()
    &&& v.counts[spec_slot_index(v.min_v as nat) as int] > 0
    &&& v.counts[spec_slot_index(v.max_v as nat) as int] > 0
    &&& forall|i: int| 0 <= i < spec_slot_index(v.min_v as nat) ==> v.counts[i] == 0
    &&& forall|i: int| spec_slot_index(v.max_v as nat) < i < v.counts.len() ==> v.counts[i] == 0
}

/// Result of merging two compatible histograms: slot counts and totals add;
/// minimum and maximum combine, an empty side contributing nothing.
pub open spec fn spec_merge(a: HistView, b: HistView) -> HistView {
    HistView {
        counts: spec_add_counts(a.counts, b.counts),
        total: (a.total + b.total) as u64,
        min_v: if a.total == 0 {
            b.min_v
        } else if b.total == 0 {
            a.min_v
        } else if a.min_v <= b.min_v {
            a.min_v
        } else {
            b.min_v
        },
        max_v: if a.total == 0 {
            b.max_v
        } else if b.total == 0 {
            a.max_v
        } else if a.max_v >= b.max_v {
            a.max_v
        } else {
            b.max_v
        },
    }
}

/// Rank of the observation a quantile query asks for: the fraction
/// `q_num / q_den` of the total, rounded up, and at least one.
pub open spec fn spec_quantile_target(total: u64, q_num: u64, q_den: u64) -> int
    recommends
        q_den > 0,
{
    let t = (q_num as int * total as int + q_den as int - 1) / (q_den as int);
    if t < 1 {
        1
    } else {
        t
    }
}

/// First slot at which the running sum of counts reaches `target`; the last
/// slot when the sum never does.
pub open spec fn spec_quantile_slot(counts: Seq<u64>, target: int) -> int
    decreases counts.len(),
{
    if counts.len() <= 1 {
        0
    } else if counts[0] >= target {
        0
    } else {
        1 + spec_quantile_slot(counts.subrange(1, counts.len() as int), target - counts[0])
    }
}

/// The quantile answer: the upper value of the slot holding the observation
/// of the target rank, clamped to the exact recorded minimum and maximum;
/// `0` when nothing has been recorded.
pub open spec fn spec_value_at_quantile(v: HistView, q_num: u64, q_den: u64) -> u64
    recommends
        hist_wf(v),
        q_num <= q_den,
        q_den > 0,
{
    if v.total == 0 {
        0u64
    } else {
        let slot = spec_quantile_slot(v.counts, spec_quantile_target(v.total, q_num, q_den));
        let raw = spec_slot_upper(slot as nat);
        if raw < v.min_v {
            v.min_v
        } else if raw > v.max_v {
            v.max_v
        } else {
            raw as u64
        }
    }
}

/// A mergeable latency distribution with bounded relative quantization
/// error, exact minimum and maximum, and a configurable representable range.
pub struct LatencyHistogram {
    counts: Vec<u64>,
    total: u64,
    min_v: u64,
    max_v: u64,
}

impl View for LatencyHistogram {
    type V = HistView;

    closed spec fn view(&self) -> HistView {
        HistView {
            counts: self.counts@,
            total: self.total,
            min_v: self.min_v,
            max_v: self.max_v,
        }
    }
}

impl LatencyHistogram {
    /// An empty histogram able to record every value up to at least
    /// `max_value`.
    pub fn new(max_value: u64) -> (h: LatencyHistogram)
        ensures
            hist_wf(h@),
            h@.total == 0,
            h@.min_v == 0,
            h@.max_v == 0,
            h@.counts.len() == spec_slot_index(max_value as nat) + 1,
    {
        let slots: usize = slot_index(max_value) + 1;
        let mut counts: Vec<u64> = Vec::new();
        let mut i: usize = 0;
        while i < slots
            invariant
                counts@.len() == i,
                i <= slots,
                sum_counts(counts@) == 0,
            decreases slots - i,
        {
            let ghost prev = counts@;
            counts.push(0);
            proof {
                assert(counts@.drop_last() =~= prev);
            }
            i = i + 1;
        }
        LatencyHistogram { counts, total: 0, min_v: 0, max_v: 0 }
    }

    /// Number of slots; two histograms merge only when these agree.
    pub fn slots(&self) -> (n: usize)
        ensures
            n == self@.counts.len(),
    {
        self.counts.len()
    }

    /// Observation count of one slot.
    pub fn count_at(&self, i: usize) -> (c: u64)
        requires
            i < self@.counts.len(),
        ensures
            c == self@.counts[i as int],
    {
        self.counts[i]
    }

    /// A histogram assembled from raw parts; the caller is responsible for
    /// establishing well-formedness of the result.
    pub(crate) fn from_parts(counts: Vec<u64>, total: u64, min_v: u64, max_v: u64) -> (h:
        LatencyHistogram)
        ensures
            h@ == (HistView { counts: counts@, total, min_v, max_v }),
    {
        LatencyHistogram { counts, total, min_v, max_v }
    }

    /// Whether the stored minimum and maximum agree with the slot counts.
    pub fn check_extrema(&self) -> (r: bool)
        ensures
            r == extrema_ok(self@),
    {
        if self.min_v > self.max_v {
            return false;
        }
        let im: usize = slot_index(self.min_v);
        let ix: usize = slot_index(self.max_v);
        let n: usize = self.counts.len();
        if im >= n || ix >= n {
            return false;
        }
        if self.counts[im] == 0 || self.counts[ix] == 0 {
            return false;
        }
        let mut i: usize = 0;
        while i < im
            invariant
                i <= im,
                im < n,
                n == self@.counts.len(),
                im as nat == spec_slot_index(self@.min_v as nat),
                forall|j: int| 0 <= j < i ==> self@.counts[j] == 0,
            decreases im - i,
        {
            if self.counts[i] != 0 {
                return false;
            }
            i = i + 1;
        }
        let mut j: usize = ix + 1;
        while j < n
            invariant
                ix < j <= n,
                n == self@.counts.len(),
                ix as nat == spec_slot_index(self@.max_v as nat),
                forall|t: int| ix < t < j ==> self@.counts[t] == 0,
            decreases n - j,
        {
            if self.counts[j] != 0 {
                return false;
            }
            j = j + 1;
        }
        true
    }

    /// Number of recorded observations.
    pub fn count(&self) -> (n: u64)
        ensures
            n == self@.total,
    {
        self.total
    }

    /// Least recorded value; `0` while the histogram is empty.
    pub fn min(&self) -> (r: u64)
        ensures
            r == self@.min_v,
    {
        self.min_v
    }

    /// Greatest recorded value; `0` while the histogram is empty.
    pub fn max(&self) -> (r: u64)
        ensures
            r == self@.max_v,
    {
        self.max_v
    }

    /// Adds one observation. Values whose slot lies beyond the configured
    /// range are rejected with `OutOfRange` and leave the histogram
    /// unchanged.
    pub fn record(&mut self, value: u64) -> (r: Result<(), ErrorKind>)
        requires
            hist_wf(old(self)@),
            old(self)@.total < u64::MAX,
        ensures
            hist_wf(final(self)@),
            spec_slot_index(value as nat) >= old(self)@.counts.len() ==> r
                == Err::<(), ErrorKind>(ErrorKind::OutOfRange) && final(self)@ == old(self)@,
            spec_slot_index(value as nat) < old(self)@.counts.len() ==> r == Ok::<
                (),
                ErrorKind,
            >(()) && final(self)@ == (HistView {
                counts: old(self)@.counts.update(
                    spec_slot_index(value as nat) as int,
                    (old(self)@.counts[spec_slot_index(value as nat) as int] + 1) as u64,
                ),
                total: (old(self)@.total + 1) as u64,
                min_v: if old(self)@.total == 0 || value < old(self)@.min_v {
                    value
                } else {
                    old(self)@.min_v
                },
                max_v: if old(self)@.total == 0 || value > old(self)@.max_v {
                    value
                } else {
                    old(self)@.max_v
                },
            }),
    {
        let idx: usize = slot_index(value);
        if idx >= self.counts.len() {
            return Err(ErrorKind::OutOfRange);
        }
        proof {
            lemma_count_le_sum(self.counts@, idx as int);
        }
        let c: u64 = self.counts[idx];
        self.counts.set(idx, c + 1);
        if self.total == 0 || value < self.min_v {
            self.min_v = value;
        }
        if self.total == 0 || value > self.max_v {
            self.max_v = value;
        }
        self.total = self.total + 1;
        proof {
            let oldv = old(self)@;
            let newv = final(self)@;
            let vi = spec_slot_index(value as nat) as int;
            assert(newv.counts =~= oldv.counts.update(vi, (oldv.counts[vi] + 1) as u64));
            assert(newv.counts.drop_last() =~= if vi == oldv.counts.len() - 1 {
                oldv.counts.drop_last()
            } else {
                oldv.counts.drop_last().update(vi, (oldv.counts[vi] + 1) as u64)
            });
            lemma_sum_update(oldv.counts, vi, (oldv.counts[vi] + 1) as u64);
            if oldv.total == 0 {
                lemma_sum_zero(oldv.counts);
            } else {
                lemma_slot_index_monotone(newv.min_v as nat, oldv.min_v as nat);
                lemma_slot_index_monotone(oldv.max_v as nat, newv.max_v as nat);
                lemma_slot_index_monotone(newv.min_v as nat, newv.max_v as nat);
                lemma_slot_index_monotone(newv.min_v as nat, value as nat);
                lemma_slot_index_monotone(value as nat, newv.max_v as nat);
            }
            assert(hist_wf(newv));
        }
        Ok(())
    }

    /// Value at or below which at least the fraction `q_num / q_den` of all
    /// recorded observations fall, up to the histogram's quantization: the
    /// answer is the upper value of the slot holding that observation,
    /// clamped to the exact recorded minimum and maximum. An empty histogram
    /// answers `0` for every quantile.
    pub fn value_at_quantile(&self, q_num: u64, q_den: u64) -> (r: u64)
        requires
            hist_wf(self@),
            q_num <= q_den,
            0 < q_den,
        ensures
            r == spec_value_at_quantile(self@, q_num, q_den),
            self@.total == 0 ==> r == 0,
            self@.total > 0 ==> self@.min_v <= r <= self@.max_v,
    {
        if self.total == 0 {
            return 0;
        }
        proof {
            assert((q_num as u128) * (self.total as u128) + (q_den as u128) <= u128::MAX)
                by (nonlinear_arith)
                requires
                    q_num <= u64::MAX,
                    self.total <= u64::MAX,
                    q_den <= u64::MAX,
            ;
        }
        let prod: u128 = (q_num as u128) * (self.total as u128);
        let tt: u128 = (prod + (q_den as u128) - 1) / (q_den as u128);
        proof {
            assert(prod <= (q_den as u128) * (self.total as u128)) by (nonlinear_arith)
                requires
                    q_num <= q_den,
                    prod == (q_num as u128) * (self.total as u128),
            ;
            assert((q_den as int * self@.total as int + q_den as int - 1) / (q_den as int)
                == self@.total as int) by (nonlinear_arith)
                requires
                    q_den > 0,
            ;
            assert(tt <= self.total) by {
                vstd::arithmetic::div_mod::lemma_div_is_ordered(
                    prod as int + q_den as int - 1,
                    q_den as int * self@.total as int + q_den as int - 1,
                    q_den as int,
                );
            }
        }
        let target: u64 = if tt < 1 {
            1
        } else {
            tt as u64
        };
        let ghost t0 = spec_quantile_target(self@.total, q_num, q_den);
        proof {
            assert(target as int == t0);
        }
        let n: usize = self.counts.len();
        let mut i: usize = 0;
        let mut remaining: u64 = target;
        proof {
            assert(self@.counts.subrange(0, n as int) =~= self@.counts);
        }
        while i < n - 1 && self.counts[i] < remaining
            invariant
                hist_wf(self@),
                n == self@.counts.len(),
                0 <= i < n,
                remaining >= 1,
                spec_quantile_slot(self@.counts, t0) == i + spec_quantile_slot(
                    self@.counts.subrange(i as int, n as int),
                    remaining as int,
                ),
            decreases n - i,
        {
            let ghost sub = self@.counts.subrange(i as int, n as int);
            proof {
                assert(sub.subrange(1, sub.len() as int) =~= self@.counts.subrange(
                    i + 1,
                    n as int,
                ));
            }
            remaining = remaining - self.counts[i];
            i = i + 1;
        }
        proof {
            assert(spec_quantile_slot(self@.counts, t0) == i);
        }
        let raw: u64 = slot_upper(i);
        if raw < self.min_v {
            self.min_v
        } else if raw > self.max_v {
            self.max_v
        } else {
            raw
        }
    }

    /// Combines another histogram's observations into this one. Fails with
    /// `IncompatibleHistogram`, leaving this histogram unchanged, exactly
    /// when the two were configured with different ranges.
    pub fn merge(&mut self, other: &LatencyHistogram) -> (r: Result<(), ErrorKind>)
        requires
            hist_wf(old(self)@),
            hist_wf(other@),
            old(self)@.total + other@.total <= u64::MAX,
        ensures
            hist_wf(final(self)@),
            old(self)@.counts.len() != other@.counts.len() ==> r == Err::<(), ErrorKind>(
                ErrorKind::IncompatibleHistogram,
            ) && final(self)@ == old(self)@,
            old(self)@.counts.len() == other@.counts.len() ==> r == Ok::<(), ErrorKind>(())
                && final(self)@ == spec_merge(old(self)@, other@),
    {
        if self.counts.len() != other.counts.len() {
            return Err(ErrorKind::IncompatibleHistogram);
        }
        let ghost av = old(self)@;
        let ghost bv = other@;
        let mut merged: Vec<u64> = Vec::new();
        let n: usize = self.counts.len();
        let mut i: usize = 0;
        while i < n
            invariant
                n == av.counts.len(),
                n == bv.counts.len(),
                i <= n,
                merged@ =~= spec_add_counts(av.counts, bv.counts).take(i as int),
                self@ == av,
                other@ == bv,
                hist_wf(av),
                hist_wf(bv),
                av.total + bv.total <= u64::MAX,
            decreases n - i,
        {
            proof {
                lemma_count_le_sum(av.counts, i as int);
                lemma_count_le_sum(bv.counts, i as int);
            }
            merged.push(self.counts[i] + other.counts[i]);
            proof {
                assert(merged@ =~= spec_add_counts(av.counts, bv.counts).take(i + 1));
            }
            i = i + 1;
        }
        proof {
            assert(merged@ =~= spec_add_counts(av.counts, bv.counts));
        }
        self.counts = merged;
        if self.total == 0 {
            self.min_v = other.min_v;
            self.max_v = other.max_v;
        } else if other.total > 0 {
            if other.min_v < self.min_v {
                self.min_v = other.min_v;
            }
            if other.max_v > self.max_v {
                self.max_v = other.max_v;
            }
        }
        self.total = self.total + other.total;
        proof {
            lemma_merge_wf(av, bv);
            assert(final(self)@ =~~= spec_merge(av, bv));
        }
        Ok(())
    }
}

/// Updating one slot changes the sum by the difference at that slot.
pub proof fn lemma_sum_update(s: Seq<u64>, i: int, x: u64)
    requires
        0 <= i < s.len(),
    ensures
        sum_counts(s.update(i, x)) + s[i] == sum_counts(s) + x,
    decreases s.len(),
{
    if i == s.len() - 1 {
        assert(s.update(i, x).drop_last() =~= s.drop_last());
    } else {
        assert(s.update(i, x).drop_last() =~= s.drop_last().update(i, x));
        lemma_sum_update(s.drop_last(), i, x);
    }
}

/// Merging two compatible well-formed histograms that together hold at most
/// `u64::MAX` observations yields a well-formed histogram.
pub proof fn lemma_merge_wf(a: HistView, b: HistView)
    requires
        hist_wf(a),
        hist_wf(b),
        a.counts.len() == b.counts.len(),
        a.total + b.total <= u64::MAX,
    ensures
        hist_wf(spec_merge(a, b)),
{
    let m = spec_merge(a, b);
    assert forall|i: int| 0 <= i < a.counts.len() implies a.counts[i] + b.counts[i]
        <= u64::MAX by {
        lemma_count_le_sum(a.counts, i);
        lemma_count_le_sum(b.counts, i);
    }
    lemma_sum_add_counts(a.counts, b.counts);
    if a.total == 0 {
        lemma_sum_zero(a.counts);
    } else if b.total == 0 {
        lemma_sum_zero(b.counts);
    } else {
        lemma_slot_index_monotone(m.min_v as nat, a.min_v as nat);
        lemma_slot_index_monotone(m.min_v as nat, b.min_v as nat);
        lemma_slot_index_monotone(a.max_v as nat, m.max_v as nat);
        lemma_slot_index_monotone(b.max_v as nat, m.max_v as nat);
        lemma_slot_index_monotone(m.min_v as nat, m.max_v as nat);
    }
}

proof fn lemma_sum_all_zero(s: Seq<u64>)
    requires
        forall|i: int| 0 <= i < s.len() ==> s[i] == 0,
    ensures
        sum_counts(s) == 0,
    decreases s.len(),
{
    if s.len() > 0 {
        lemma_sum_all_zero(s.drop_last());
    }
}

proof fn lemma_sum_front(s: Seq<u64>)
    requires
        s.len() >= 1,
    ensures
        sum_counts(s) == s[0] + sum_counts(s.subrange(1, s.len() as int)),
    decreases s.len(),
{
    if s.len() == 1 {
        assert(s.subrange(1, 1) =~= Seq::<u64>::empty());
        assert(s.drop_last() =~= Seq::<u64>::empty());
    } else {
        lemma_sum_front(s.drop_last());
        assert(s.drop_last().subrange(1, s.len() - 1) =~= s.subrange(
            1,
            s.len() as int,
        ).drop_last());
    }
}

/// A rank within the first occupied slot is answered by that slot.
proof fn lemma_quantile_slot_first(counts: Seq<u64>, target: int, f: int)
    requires
        0 <= f < counts.len(),
        counts[f] > 0,
        forall|i: int| 0 <= i < f ==> counts[i] == 0,
        1 <= target <= counts[f],
    ensures
        spec_quantile_slot(counts, target) == f,
    decreases counts.len(),
{
    if counts.len() <= 1 {
    } else if counts[0] >= target {
    } else {
        let sub = counts.subrange(1, counts.len() as int);
        lemma_quantile_slot_first(sub, target - counts[0], f - 1);
    }
}

/// A rank past every earlier slot's counts is answered by the last
/// occupied slot.
proof fn lemma_quantile_slot_last(counts: Seq<u64>, target: int, l: int)
    requires
        0 <= l < counts.len(),
        counts[l] > 0,
        forall|i: int| l < i < counts.len() ==> counts[i] == 0,
        sum_counts(counts) - counts[l] < target <= sum_counts(counts),
    ensures
        spec_quantile_slot(counts, target) == l,
    decreases counts.len(),
{
    lemma_sum_front(counts);
    let sub = counts.subrange(1, counts.len() as int);
    if counts.len() <= 1 {
    } else if counts[0] >= target {
        if l >= 1 {
            lemma_count_le_sum(sub, l - 1);
            assert(false);
        }
    } else {
        if l == 0 {
            lemma_sum_all_zero(sub);
            assert(false);
        }
        lemma_quantile_slot_last(sub, target - counts[0], l - 1);
    }
}

proof fn lemma_quantile_slot_rank(counts: Seq<u64>, target: int)
    requires
        counts.len() >= 1,
        1 <= target <= sum_counts(counts),
    ensures
        0 <= spec_quantile_slot(counts, target) < counts.len(),
        sum_counts(counts.take(spec_quantile_slot(counts, target) + 1)) >= target,
        sum_counts(counts.take(spec_quantile_slot(counts, target))) < target,
    decreases counts.len(),
{
    assert(counts.take(0) =~= Seq::<u64>::empty());
    if counts.len() == 1 {
        assert(counts.take(1) =~= counts);
    } else if counts[0] >= target {
        assert(counts.take(1).drop_last() =~= Seq::<u64>::empty());
    } else {
        let sub = counts.subrange(1, counts.len() as int);
        lemma_sum_front(counts);
        lemma_quantile_slot_rank(sub, target - counts[0]);
        let s = spec_quantile_slot(sub, target - counts[0]);
        lemma_sum_front(counts.take(s + 2));
        assert(counts.take(s + 2).subrange(1, s + 2) =~= sub.take(s + 1));
        lemma_sum_front(counts.take(s + 1));
        assert(counts.take(s + 1).subrange(1, s + 1) =~= sub.take(s));
    }
}

/// The quantile query means what it says: at least the asked fraction of
/// all observations lie in slots at or below the answer's slot, and the
/// slots strictly before it hold fewer than the asked rank.
pub proof fn lemma_quantile_rank(v: HistView, q_num: u64, q_den: u64)
    requires
        hist_wf(v),
        v.total > 0,
        q_num <= q_den,
        0 < q_den,
    ensures
        ({
            let target = spec_quantile_target(v.total, q_num, q_den);
            let slot = spec_quantile_slot(v.counts, target);
            &&& 1 <= target <= v.total
            &&& target * q_den >= q_num * v.total
            &&& 0 <= slot < v.counts.len()
            &&& sum_counts(v.counts.take(slot + 1)) >= target
            &&& sum_counts(v.counts.take(slot)) < target
        }),
{
    let t = (q_num as int * v.total as int + q_den as int - 1) / (q_den as int);
    assert(t <= v.total && t * q_den >= q_num * v.total) by (nonlinear_arith)
        requires
            t == (q_num as int * v.total as int + q_den as int - 1) / (q_den as int),
            q_num <= q_den,
            0 < q_den,
            v.total > 0,
    ;
    let target = spec_quantile_target(v.total, q_num, q_den);
    assert(target * q_den >= t * q_den) by (nonlinear_arith)
        requires
            target >= t,
            q_den > 0,
    ;
    lemma_quantile_slot_rank(v.counts, target);
}

/// The full quantile returns the exact recorded maximum.
pub proof fn lemma_quantile_at_one(v: HistView, q: u64)
    requires
        hist_wf(v),
        v.total > 0,
        q > 0,
    ensures
        spec_value_at_quantile(v, q, q) == v.max_v,
{
    assert((q as int * v.total as int + q as int - 1) / (q as int) == v.total as int)
        by (nonlinear_arith)
        requires
            q > 0,
    ;
    let l = spec_slot_index(v.max_v as nat) as int;
    lemma_quantile_slot_last(v.counts, v.total as int, l);
    lemma_slot_contains(v.max_v as nat);
}

/// The zero quantile answers within the minimum's slot: at least the exact
/// recorded minimum, at most the upper value of its slot — the histogram's
/// quantization tolerance.
pub proof fn lemma_quantile_at_zero(v: HistView, q_den: u64)
    requires
        hist_wf(v),
        v.total > 0,
        q_den > 0,
    ensures
        v.min_v <= spec_value_at_quantile(v, 0, q_den),
        spec_value_at_quantile(v, 0, q_den) <= spec_slot_upper(spec_slot_index(v.min_v as nat)),
{
    assert((q_den as int - 1) / (q_den as int) == 0) by (nonlinear_arith)
        requires
            q_den > 0,
    ;
    let f = spec_slot_index(v.min_v as nat) as int;
    lemma_quantile_slot_first(v.counts, 1, f);
    lemma_slot_contains(v.min_v as nat);
}

/// Merging is commutative: both orders give the same slot counts, total,
/// minimum and maximum, hence the same answer to every later query.
pub proof fn lemma_merge_commutative(a: HistView, b: HistView)
    requires
        hist_wf(a),
        hist_wf(b),
        a.counts.len() == b.counts.len(),
        a.total + b.total <= u64::MAX,
    ensures
        spec_merge(a, b) == spec_merge(b, a),
{
    assert(spec_merge(a, b).counts =~= spec_merge(b, a).counts);
    assert(spec_merge(a, b) =~~= spec_merge(b, a));
}

/// Merging is associative: folding three compatible histograms in either
/// grouping gives the same slot counts, total, minimum and maximum, hence
/// the same answer to every later query.
pub proof fn lemma_merge_associative(a: HistView, b: HistView, c: HistView)
    requires
        hist_wf(a),
        hist_wf(b),
        hist_wf(c),
        a.counts.len() == b.counts.len(),
        b.counts.len() == c.counts.len(),
        a.total + b.total + c.total <= u64::MAX,
    ensures
        spec_merge(spec_merge(a, b), c) == spec_merge(a, spec_merge(b, c)),
{
    assert forall|i: int| 0 <= i < a.counts.len() implies a.counts[i] + b.counts[i] + c.counts[i]
        <= u64::MAX by {
        lemma_count_le_sum(a.counts, i);
        lemma_count_le_sum(b.counts, i);
        lemma_count_le_sum(c.counts, i);
    }
    assert(spec_merge(spec_merge(a, b), c).counts =~= spec_merge(a, spec_merge(b, c)).counts);
    assert(spec_merge(spec_merge(a, b), c) =~~= spec_merge(a, spec_merge(b, c)));
}

} // verus!
