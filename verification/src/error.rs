//! The failure conditions the library can surface. Clean end-of-stream is
//! not among them: a reader reports it as a successful `None`, so it stays
//! distinguishable from every error at the type level.

use vstd::prelude::*;

verus! {

/// Why a decode or an interpolation request failed.
#[derive(Clone, Copy, Debug, PartialEq, Eq, Structural)]
pub enum Error {
    /// End of input was reached inside a record: the stream is not a whole
    /// number of records, so the final record is truncated.
    TruncatedRecord,
    /// The query time falls strictly outside the span of the samples. The
    /// fields hold the 64-bit encodings of the offending query time and of
    /// the first and last sample times, for diagnostics.
    Extrapolation { time: u64, start_time: u64, end_time: u64 },
    /// There are no samples to interpolate within.
    NoPoints,
    /// There is only one sample; interpolation needs a bracketing pair.
    OnePoint,
}

} // verus!
