//! The SBET sample type and the fixed record geometry.
//!
//! Verus has no floating-point theory, so the library carries every
//! double-precision field as its 64-bit IEEE-754 encoding, a plain `u64`.
//! Unverified callers convert with `f64::to_bits` / `f64::from_bits`; both
//! directions are bit-exact, so nothing is lost by working on the encodings.

use vstd::prelude::*;

verus! {

/// Number of double-precision fields in one SBET record.
pub const FIELD_COUNT: usize = 17;

/// Width in bytes of one field: a little-endian IEEE-754 double.
pub const FIELD_WIDTH: usize = 8;

/// Size in bytes of one encoded record, derived from the field count and the
/// field width so the codec and the file-size estimator cannot diverge.
pub const RECORD_SIZE: usize = FIELD_COUNT * FIELD_WIDTH;

/// One smoothed-best-estimate-of-trajectory navigation sample.
///
/// Each field holds the 64-bit IEEE-754 encoding of the corresponding
/// double-precision value (angles in radians, distances in meters, times in
/// seconds). Two points are equal exactly when every encoding is equal, so
/// equality here is the bit-for-bit equality the record format preserves.
#[derive(Clone, Copy, Debug, PartialEq, Eq, Structural)]
pub struct Point {
    pub time: u64,
    pub latitude: u64,
    pub longitude: u64,
    pub altitude: u64,
    pub x_velocity: u64,
    pub y_velocity: u64,
    pub z_velocity: u64,
    pub roll: u64,
    pub pitch: u64,
    pub yaw: u64,
    pub wander_angle: u64,
    pub x_acceleration: u64,
    pub y_acceleration: u64,
    pub z_acceleration: u64,
    pub x_angular_rate: u64,
    pub y_angular_rate: u64,
    pub z_angular_rate: u64,
}

impl Point {
    /// The seventeen field encodings in record order.
    pub open spec fn fields(self) -> Seq<u64> {
        seq![
            self.time,
            self.latitude,
            self.longitude,
            self.altitude,
            self.x_velocity,
            self.y_velocity,
            self.z_velocity,
            self.roll,
            self.pitch,
            self.yaw,
            self.wander_angle,
            self.x_acceleration,
            self.y_acceleration,
            self.z_acceleration,
            self.x_angular_rate,
            self.y_angular_rate,
            self.z_angular_rate,
        ]
    }
}

impl Default for Point {
    /// The all-zero sample; the encoding 0 is the double 0.0.
    fn default() -> (p: Point)
        ensures
            p.fields() == seq![0u64; 17],
    {
        let p = Point {
            time: 0,
            latitude: 0,
            longitude: 0,
            altitude: 0,
            x_velocity: 0,
            y_velocity: 0,
            z_velocity: 0,
            roll: 0,
            pitch: 0,
            yaw: 0,
            wander_angle: 0,
            x_acceleration: 0,
            y_acceleration: 0,
            z_acceleration: 0,
            x_angular_rate: 0,
            y_angular_rate: 0,
            z_angular_rate: 0,
        };
        proof {
            assert(p.fields() =~= seq![0u64; 17]);
        }
        p
    }
}

/// The IEEE-754 total order on double encodings, folded onto `u64` so that
/// unsigned comparison of keys agrees with the order of the encoded doubles:
/// negative values sort below positive ones, magnitudes sort naturally
/// within each sign, and the infinities bound the finite range. This agrees
/// with `<=` on the doubles themselves except that it separates the negative
/// zero encoding just below the positive one, and gives each NaN encoding a
/// fixed place beyond the infinities instead of leaving it incomparable.
pub open spec fn time_key_of(bits: u64) -> u64 {
    if bits >= 0x8000_0000_0000_0000 {
        !bits
    } else {
        bits | 0x8000_0000_0000_0000
    }
}

/// Executable form of [`time_key_of`].
pub fn time_key(bits: u64) -> (key: u64)
    ensures
        key == time_key_of(bits),
{
    if bits >= 0x8000_0000_0000_0000 {
        !bits
    } else {
        bits | 0x8000_0000_0000_0000
    }
}

} // verus!
