//! Reading, writing, and interpolating Smoothed Best Estimate of Trajectory
//! (SBET) data: a headerless concatenation of fixed-width binary records,
//! each holding seventeen little-endian IEEE-754 doubles.
//!
//! The library works on the 64-bit encodings of the doubles (see [`point`]),
//! which lets every structural contract — the record codec, the stream
//! framing, decimation, time-range filtering, and the selection of the
//! bracketing pair for interpolation — be stated and verified exactly.
//! Floating-point synthesis (the linear blend between the bracketing pair)
//! is left to unverified callers, who exchange encodings with the library
//! through `f64::to_bits` and `f64::from_bits`.

pub mod codec;
pub mod error;
pub mod interp;
pub mod point;
pub mod stream;

pub use codec::decode;
pub use codec::encode;
pub use error::Error;
pub use interp::bracket;
pub use point::Point;
pub use point::FIELD_COUNT;
pub use point::FIELD_WIDTH;
pub use point::RECORD_SIZE;
pub use stream::decimate;
pub use stream::estimate_number_of_points;
pub use stream::filter_by_time;
pub use stream::Reader;
pub use stream::Writer;
