//! Load-test statistics: a mergeable latency histogram with a versioned
//! binary codec, per-run counters, and a regression/improvement comparator
//! over two aggregated runs.

use vstd::prelude::*;

pub mod codec;
pub mod compare;
pub mod histogram;
pub mod interval;
pub mod stats;

verus! {

/// The ways an operation of this library can fail.
#[derive(Clone, Copy, Debug, PartialEq, Eq, Structural)]
pub enum ErrorKind {
    /// A recorded latency exceeds the histogram's representable range.
    OutOfRange,
    /// Merge of two histograms with mismatched range configuration.
    IncompatibleHistogram,
    /// Decode of a malformed or version-mismatched encoding.
    CorruptEncoding,
    /// A comparison or rate whose baseline denominator is zero.
    DegenerateBaseline,
}

} // verus!
