//! A versioned compact binary envelope for histograms.
//!
//! The encoding is one version byte, then the slot count, the exact minimum
//! and the exact maximum as little-endian 64-bit words, then one such word
//! per slot. Decoding accepts exactly the encodings of well-formed
//! histograms and reconstructs the encoded histogram; anything else —
//! unknown version byte, wrong length, counts that overflow, or a minimum
//! or maximum inconsistent with the counts — fails with `CorruptEncoding`.

use vstd::prelude::*;
use vstd::bytes::{
    lemma_auto_spec_u64_to_from_le_bytes, spec_u64_from_le_bytes, spec_u64_to_le_bytes,
    u64_from_le_bytes, u64_to_le_bytes,
};
use vstd::slice::{slice_index_get, slice_subrange};
use crate::ErrorKind;
use crate::histogram::{
    hist_wf, lemma_sum_take_le, lemma_sum_take_succ, lemma_sum_zero, sum_counts, HistView,
    LatencyHistogram, MAX_SLOTS,
};
use crate::stats::{stats_wf, BenchmarkStats, StatsView};

verus! {

/// Version tag of the envelope; decoders reject any other leading byte.
pub const ENCODING_VERSION: u8 = 1;

/// Slot counts in encoding order, one little-endian 64-bit word each.
pub open spec fn spec_encode_counts(s: Seq<u64>) -> Seq<u8>
    decreases s.len(),
{
    if s.len() == 0 {
        Seq::empty()
    } else {
        spec_encode_counts(s.drop_last()) + spec_u64_to_le_bytes(s.last())
    }
}

/// The whole envelope of a histogram.
pub open spec fn spec_encode(v: HistView) -> Seq<u8> {
    seq![ENCODING_VERSION] + spec_u64_to_le_bytes(v.counts.len() as u64) + spec_u64_to_le_bytes(
        v.min_v,
    ) + spec_u64_to_le_bytes(v.max_v) + spec_encode_counts(v.counts)
}

pub proof fn lemma_encode_counts_len(s: Seq<u64>)
    ensures
        spec_encode_counts(s).len() == 8 * s.len(),
    decreases s.len(),
{
    lemma_auto_spec_u64_to_from_le_bytes();
    if s.len() > 0 {
        lemma_encode_counts_len(s.drop_last());
    }
}

pub proof fn lemma_encode_counts_chunk(s: Seq<u64>, k: int)
    requires
        0 <= k < s.len(),
    ensures
        spec_encode_counts(s).subrange(8 * k, 8 * k + 8) == spec_u64_to_le_bytes(s[k]),
    decreases s.len(),
{
    lemma_auto_spec_u64_to_from_le_bytes();
    lemma_encode_counts_len(s);
    lemma_encode_counts_len(s.drop_last());
    if k == s.len() - 1 {
        assert(spec_encode_counts(s).subrange(8 * k, 8 * k + 8) =~= spec_u64_to_le_bytes(s[k]));
    } else {
        lemma_encode_counts_chunk(s.drop_last(), k);
        assert(spec_encode_counts(s).subrange(8 * k, 8 * k + 8) =~= spec_encode_counts(
            s.drop_last(),
        ).subrange(8 * k, 8 * k + 8));
    }
}

/// Where each piece of a well-formed histogram's envelope sits, and that the
/// pieces determine the histogram: the foundation of the round trip.
pub proof fn lemma_encode_parts(v: HistView, bytes: Seq<u8>)
    requires
        hist_wf(v),
        bytes == spec_encode(v),
    ensures
        bytes.len() == 25 + 8 * v.counts.len(),
        bytes[0] == ENCODING_VERSION,
        spec_u64_from_le_bytes(bytes.subrange(1, 9)) == v.counts.len(),
        spec_u64_from_le_bytes(bytes.subrange(9, 17)) == v.min_v,
        spec_u64_from_le_bytes(bytes.subrange(17, 25)) == v.max_v,
        forall|k: int|
            0 <= k < v.counts.len() ==> spec_u64_from_le_bytes(
                #[trigger] bytes.subrange(25 + 8 * k, 33 + 8 * k),
            ) == v.counts[k],
{
    lemma_auto_spec_u64_to_from_le_bytes();
    lemma_encode_counts_len(v.counts);
    assert(bytes.subrange(1, 9) =~= spec_u64_to_le_bytes(v.counts.len() as u64));
    assert(bytes.subrange(9, 17) =~= spec_u64_to_le_bytes(v.min_v));
    assert(bytes.subrange(17, 25) =~= spec_u64_to_le_bytes(v.max_v));
    assert forall|k: int| 0 <= k < v.counts.len() implies spec_u64_from_le_bytes(
        #[trigger] bytes.subrange(25 + 8 * k, 33 + 8 * k),
    ) == v.counts[k] by {
        lemma_encode_counts_chunk(v.counts, k);
        assert(bytes.subrange(25 + 8 * k, 33 + 8 * k) =~= spec_encode_counts(v.counts).subrange(
            8 * k,
            8 * k + 8,
        ));
    }
}

impl LatencyHistogram {
    /// The histogram's versioned binary envelope.
    pub fn encode(&self) -> (r: Vec<u8>)
        ensures
            r@ == spec_encode(self@),
    {
        proof {
            lemma_auto_spec_u64_to_from_le_bytes();
        }
        let mut out: Vec<u8> = Vec::new();
        out.push(ENCODING_VERSION);
        let mut word: Vec<u8> = u64_to_le_bytes(self.slots() as u64);
        out.append(&mut word);
        let mut word_min: Vec<u8> = u64_to_le_bytes(self.min());
        out.append(&mut word_min);
        let mut word_max: Vec<u8> = u64_to_le_bytes(self.max());
        out.append(&mut word_max);
        let ghost header = out@;
        proof {
            assert(spec_encode_counts(self@.counts.take(0)) =~= Seq::<u8>::empty());
            assert(out@ =~= header + spec_encode_counts(self@.counts.take(0)));
        }
        let n: usize = self.slots();
        let mut k: usize = 0;
        while k < n
            invariant
                n == self@.counts.len(),
                k <= n,
                out@ == header + spec_encode_counts(self@.counts.take(k as int)),
                header == seq![ENCODING_VERSION] + spec_u64_to_le_bytes(n as u64)
                    + spec_u64_to_le_bytes(self@.min_v) + spec_u64_to_le_bytes(self@.max_v),
            decreases n - k,
        {
            let c: u64 = self.count_at(k);
            let mut chunk: Vec<u8> = u64_to_le_bytes(c);
            out.append(&mut chunk);
            proof {
                assert(self@.counts.take(k + 1).drop_last() =~= self@.counts.take(k as int));
                assert(out@ =~= header + spec_encode_counts(self@.counts.take(k + 1)));
            }
            k = k + 1;
        }
        proof {
            assert(self@.counts.take(n as int) =~= self@.counts);
            assert(out@ =~= spec_encode(self@));
        }
        out
    }

    /// Rebuilds a histogram from its envelope. Succeeds exactly on the
    /// encodings of well-formed histograms, and then returns the encoded
    /// histogram itself — the round trip law: for every well-formed `v`,
    /// decoding `spec_encode(v)` yields `v`, so `min`, `max` and every
    /// quantile answer survive the trip. Everything else is rejected as
    /// `CorruptEncoding`.
    pub fn decode(bytes: &[u8]) -> (r: Result<LatencyHistogram, ErrorKind>)
        ensures
            r is Ok ==> hist_wf(r->Ok_0@) && spec_encode(r->Ok_0@) == bytes@,
            r is Err ==> r == Err::<LatencyHistogram, ErrorKind>(ErrorKind::CorruptEncoding),
            forall|v: HistView|
                hist_wf(v) && bytes@ == #[trigger] spec_encode(v) ==> r is Ok && r->Ok_0@ == v,
    {
        proof {
            lemma_auto_spec_u64_to_from_le_bytes();
        }
        if bytes.len() < 33 {
            proof {
                assert forall|v: HistView| !(hist_wf(v) && bytes@ == spec_encode(v)) by {
                    if hist_wf(v) && bytes@ == spec_encode(v) {
                        lemma_encode_parts(v, bytes@);
                    }
                }
            }
            return Err(ErrorKind::CorruptEncoding);
        }
        if *slice_index_get(bytes, 0) != ENCODING_VERSION {
            proof {
                assert forall|v: HistView| !(hist_wf(v) && bytes@ == spec_encode(v)) by {
                    if hist_wf(v) && bytes@ == spec_encode(v) {
                        lemma_encode_parts(v, bytes@);
                    }
                }
            }
            return Err(ErrorKind::CorruptEncoding);
        }
        let slots_word: u64 = u64_from_le_bytes(slice_subrange(bytes, 1, 9));
        let min_v: u64 = u64_from_le_bytes(slice_subrange(bytes, 9, 17));
        let max_v: u64 = u64_from_le_bytes(slice_subrange(bytes, 17, 25));
        if slots_word < 1 || slots_word > MAX_SLOTS as u64 {
            proof {
                assert forall|v: HistView| !(hist_wf(v) && bytes@ == spec_encode(v)) by {
                    if hist_wf(v) && bytes@ == spec_encode(v) {
                        lemma_encode_parts(v, bytes@);
                    }
                }
            }
            return Err(ErrorKind::CorruptEncoding);
        }
        let slots: usize = slots_word as usize;
        if bytes.len() != 25 + 8 * slots {
            proof {
                assert forall|v: HistView| !(hist_wf(v) && bytes@ == spec_encode(v)) by {
                    if hist_wf(v) && bytes@ == spec_encode(v) {
                        lemma_encode_parts(v, bytes@);
                    }
                }
            }
            return Err(ErrorKind::CorruptEncoding);
        }
        let mut counts: Vec<u64> = Vec::new();
        let mut total: u64 = 0;
        let mut k: usize = 0;
        while k < slots
            invariant
                bytes@.len() == 25 + 8 * slots,
                slots <= MAX_SLOTS,
                k <= slots,
                counts@.len() == k,
                total as nat == sum_counts(counts@),
                forall|j: int|
                    0 <= j < k ==> counts@[j] == spec_u64_from_le_bytes(
                        #[trigger] bytes@.subrange(25 + 8 * j, 33 + 8 * j),
                    ),
            decreases slots - k,
        {
            let c: u64 = u64_from_le_bytes(slice_subrange(bytes, 25 + 8 * k, 33 + 8 * k));
            match total.checked_add(c) {
                Some(t) => {
                    total = t;
                },
                None => {
                    proof {
                        assert forall|v: HistView| !(hist_wf(v) && bytes@ == spec_encode(v)) by {
                            if hist_wf(v) && bytes@ == spec_encode(v) {
                                lemma_encode_parts(v, bytes@);
                                assert forall|j: int| 0 <= j < k implies counts@[j]
                                    == v.counts[j] by {
                                    assert(counts@[j] == spec_u64_from_le_bytes(
                                        bytes@.subrange(25 + 8 * j, 33 + 8 * j),
                                    ));
                                }
                                assert(counts@ =~= v.counts.take(k as int));
                                lemma_sum_take_succ(v.counts, k as int);
                                lemma_sum_take_le(v.counts, k as int + 1);
                            }
                        }
                    }
                    return Err(ErrorKind::CorruptEncoding);
                },
            }
            let ghost prev = counts@;
            counts.push(c);
            proof {
                assert(counts@.drop_last() =~= prev);
            }
            k = k + 1;
        }
        let hist = LatencyHistogram::from_parts(counts, total, min_v, max_v);
        if total == 0 {
            if min_v != 0 || max_v != 0 {
                proof {
                    assert forall|v: HistView| !(hist_wf(v) && bytes@ == spec_encode(v)) by {
                        if hist_wf(v) && bytes@ == spec_encode(v) {
                            lemma_encode_parts(v, bytes@);
                            assert forall|j: int| 0 <= j < slots implies hist@.counts[j]
                                == v.counts[j] by {
                                assert(hist@.counts[j] == spec_u64_from_le_bytes(
                                    bytes@.subrange(25 + 8 * j, 33 + 8 * j),
                                ));
                            }
                            assert(hist@.counts =~= v.counts);
                        }
                    }
                }
                return Err(ErrorKind::CorruptEncoding);
            }
        } else {
            let ok = hist.check_extrema();
            if !ok {
                proof {
                    assert forall|v: HistView| !(hist_wf(v) && bytes@ == spec_encode(v)) by {
                        if hist_wf(v) && bytes@ == spec_encode(v) {
                            lemma_encode_parts(v, bytes@);
                            assert forall|j: int| 0 <= j < slots implies hist@.counts[j]
                                == v.counts[j] by {
                                assert(hist@.counts[j] == spec_u64_from_le_bytes(
                                    bytes@.subrange(25 + 8 * j, 33 + 8 * j),
                                ));
                            }
                            assert(hist@.counts =~= v.counts);
                        }
                    }
                }
                return Err(ErrorKind::CorruptEncoding);
            }
        }
        proof {
            if total == 0 {
                lemma_sum_zero(hist@.counts);
            }
            assert(hist_wf(hist@));
            lemma_encode_back(hist@, bytes@);
            assert forall|v: HistView|
                hist_wf(v) && bytes@ == #[trigger] spec_encode(v) implies hist@ == v by {
                lemma_encode_parts(v, bytes@);
                assert forall|j: int| 0 <= j < slots implies hist@.counts[j] == v.counts[j] by {
                    assert(hist@.counts[j] == spec_u64_from_le_bytes(
                        bytes@.subrange(25 + 8 * j, 33 + 8 * j),
                    ));
                }
                assert(hist@.counts =~= v.counts);
                assert(hist@ =~~= v);
            }
        }
        Ok(hist)
    }
}

/// The persisted form of a snapshot: duration, error count and success
/// count as little-endian 64-bit words, then the histogram's envelope.
pub open spec fn spec_encode_stats(s: StatsView) -> Seq<u8> {
    spec_u64_to_le_bytes(s.duration) + spec_u64_to_le_bytes(s.num_error) + spec_u64_to_le_bytes(
        s.num_success,
    ) + spec_encode(s.latency)
}

impl BenchmarkStats {
    /// The snapshot's persisted form.
    pub fn encode(&self) -> (r: Vec<u8>)
        ensures
            r@ == spec_encode_stats(self@),
    {
        let mut out: Vec<u8> = u64_to_le_bytes(self.duration);
        let mut word_err: Vec<u8> = u64_to_le_bytes(self.num_error);
        out.append(&mut word_err);
        let mut word_succ: Vec<u8> = u64_to_le_bytes(self.num_success);
        out.append(&mut word_succ);
        let mut envelope: Vec<u8> = self.latency_ms.encode();
        out.append(&mut envelope);
        proof {
            assert(out@ =~= spec_encode_stats(self@));
        }
        out
    }

    /// Rebuilds a snapshot from its persisted form. Succeeds exactly on the
    /// persisted forms of well-formed snapshots — the three counters
    /// round-trip exactly and the histogram's envelope as in
    /// `LatencyHistogram::decode` — and rejects everything else, a success
    /// count that disagrees with the histogram's observation count
    /// included, as `CorruptEncoding`.
    pub fn decode(bytes: &[u8]) -> (r: Result<BenchmarkStats, ErrorKind>)
        ensures
            r is Ok ==> stats_wf(r->Ok_0@) && spec_encode_stats(r->Ok_0@) == bytes@,
            r is Err ==> r == Err::<BenchmarkStats, ErrorKind>(ErrorKind::CorruptEncoding),
            forall|v: StatsView|
                stats_wf(v) && bytes@ == #[trigger] spec_encode_stats(v) ==> r is Ok && r->Ok_0@
                    == v,
    {
        proof {
            lemma_auto_spec_u64_to_from_le_bytes();
        }
        if bytes.len() < 57 {
            proof {
                assert forall|v: StatsView| !(stats_wf(v) && bytes@ == spec_encode_stats(v)) by {
                    if stats_wf(v) && bytes@ == spec_encode_stats(v) {
                        lemma_encode_parts(v.latency, spec_encode(v.latency));
                    }
                }
            }
            return Err(ErrorKind::CorruptEncoding);
        }
        let duration: u64 = u64_from_le_bytes(slice_subrange(bytes, 0, 8));
        let num_error: u64 = u64_from_le_bytes(slice_subrange(bytes, 8, 16));
        let num_success: u64 = u64_from_le_bytes(slice_subrange(bytes, 16, 24));
        let tail: &[u8] = slice_subrange(bytes, 24, bytes.len());
        proof {
            assert forall|v: StatsView|
                stats_wf(v) && bytes@ == spec_encode_stats(v) implies tail@ == spec_encode(
                v.latency,
            ) && v.duration == duration && v.num_error == num_error && v.num_success
                == num_success by {
                assert(bytes@.subrange(0, 8) =~= spec_u64_to_le_bytes(v.duration));
                assert(bytes@.subrange(8, 16) =~= spec_u64_to_le_bytes(v.num_error));
                assert(bytes@.subrange(16, 24) =~= spec_u64_to_le_bytes(v.num_success));
                assert(tail@ =~= spec_encode(v.latency));
            }
        }
        let hist = match LatencyHistogram::decode(tail) {
            Ok(h) => h,
            Err(e) => {
                return Err(e);
            },
        };
        if hist.count() != num_success {
            return Err(ErrorKind::CorruptEncoding);
        }
        let snap = BenchmarkStats { duration, num_error, num_success, latency_ms: hist };
        proof {
            assert(bytes@ =~= spec_encode_stats(snap@));
            assert forall|v: StatsView|
                stats_wf(v) && bytes@ == #[trigger] spec_encode_stats(v) implies snap@ == v by {
                assert(snap@ =~~= v);
            }
        }
        Ok(snap)
    }
}

/// A byte sequence whose pieces parse back to a well-formed histogram is
/// that histogram's envelope.
proof fn lemma_encode_back(v: HistView, bytes: Seq<u8>)
    requires
        hist_wf(v),
        bytes.len() == 25 + 8 * v.counts.len(),
        bytes[0] == ENCODING_VERSION,
        spec_u64_from_le_bytes(bytes.subrange(1, 9)) == v.counts.len(),
        spec_u64_from_le_bytes(bytes.subrange(9, 17)) == v.min_v,
        spec_u64_from_le_bytes(bytes.subrange(17, 25)) == v.max_v,
        forall|k: int|
            0 <= k < v.counts.len() ==> v.counts[k] == spec_u64_from_le_bytes(
                #[trigger] bytes.subrange(25 + 8 * k, 33 + 8 * k),
            ),
    ensures
        spec_encode(v) == bytes,
{
    lemma_auto_spec_u64_to_from_le_bytes();
    lemma_encode_counts_len(v.counts);
    let enc = spec_encode(v);
    assert(enc.len() == bytes.len());
    assert forall|i: int| 0 <= i < bytes.len() implies enc[i] == bytes[i] by {
        if i == 0 {
        } else if i < 9 {
            assert(spec_u64_to_le_bytes(spec_u64_from_le_bytes(bytes.subrange(1, 9)))
                == bytes.subrange(1, 9));
            assert(enc[i] == spec_u64_to_le_bytes(v.counts.len() as u64)[i - 1]);
            assert(bytes[i] == bytes.subrange(1, 9)[i - 1]);
        } else if i < 17 {
            assert(spec_u64_to_le_bytes(spec_u64_from_le_bytes(bytes.subrange(9, 17)))
                == bytes.subrange(9, 17));
            assert(enc[i] == spec_u64_to_le_bytes(v.min_v)[i - 9]);
            assert(bytes[i] == bytes.subrange(9, 17)[i - 9]);
        } else if i < 25 {
            assert(spec_u64_to_le_bytes(spec_u64_from_le_bytes(bytes.subrange(17, 25)))
                == bytes.subrange(17, 25));
            assert(enc[i] == spec_u64_to_le_bytes(v.max_v)[i - 17]);
            assert(bytes[i] == bytes.subrange(17, 25)[i - 17]);
        } else {
            let k = (i - 25) / 8;
            let off = (i - 25) % 8;
            assert(0 <= k < v.counts.len());
            assert(i == 25 + 8 * k + off);
            lemma_encode_counts_chunk(v.counts, k);
            let chunk = bytes.subrange(25 + 8 * k, 33 + 8 * k);
            assert(spec_u64_to_le_bytes(spec_u64_from_le_bytes(chunk)) == chunk);
            assert(enc[i] == spec_encode_counts(v.counts)[i - 25]);
            assert(spec_encode_counts(v.counts)[i - 25] == spec_encode_counts(
                v.counts,
            ).subrange(8 * k, 8 * k + 8)[off]);
            assert(bytes[i] == chunk[off]);
        }
    }
    assert(enc =~= bytes);
}

} // verus!
