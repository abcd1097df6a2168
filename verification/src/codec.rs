//! The record codec: the bit-exact mapping between one [`Point`] and one
//! fixed-width binary record of [`RECORD_SIZE`] bytes, seventeen
//! little-endian 64-bit fields in the fixed field order, and its lifting to
//! whole streams of records.

use vstd::prelude::*;
use vstd::bytes::{
    lemma_auto_spec_u64_to_from_le_bytes, spec_u64_from_le_bytes, spec_u64_to_le_bytes,
    u64_from_le_bytes, u64_to_le_bytes,
};
use vstd::slice::slice_subrange;
use crate::point::{Point, RECORD_SIZE};

verus! {

/// The record encoding of a point: each field in order, little-endian.
pub open spec fn encoded(p: Point) -> Seq<u8> {
    spec_u64_to_le_bytes(p.time) + spec_u64_to_le_bytes(p.latitude) + spec_u64_to_le_bytes(
        p.longitude,
    ) + spec_u64_to_le_bytes(p.altitude) + spec_u64_to_le_bytes(p.x_velocity)
        + spec_u64_to_le_bytes(p.y_velocity) + spec_u64_to_le_bytes(p.z_velocity)
        + spec_u64_to_le_bytes(p.roll) + spec_u64_to_le_bytes(p.pitch) + spec_u64_to_le_bytes(
        p.yaw,
    ) + spec_u64_to_le_bytes(p.wander_angle) + spec_u64_to_le_bytes(p.x_acceleration)
        + spec_u64_to_le_bytes(p.y_acceleration) + spec_u64_to_le_bytes(p.z_acceleration)
        + spec_u64_to_le_bytes(p.x_angular_rate) + spec_u64_to_le_bytes(p.y_angular_rate)
        + spec_u64_to_le_bytes(p.z_angular_rate)
}

/// The point read back from one record: each field from its eight bytes.
pub open spec fn decoded(s: Seq<u8>) -> Point
    recommends
        s.len() == RECORD_SIZE,
{
    Point {
        time: spec_u64_from_le_bytes(s.subrange(0, 8)),
        latitude: spec_u64_from_le_bytes(s.subrange(8, 16)),
        longitude: spec_u64_from_le_bytes(s.subrange(16, 24)),
        altitude: spec_u64_from_le_bytes(s.subrange(24, 32)),
        x_velocity: spec_u64_from_le_bytes(s.subrange(32, 40)),
        y_velocity: spec_u64_from_le_bytes(s.subrange(40, 48)),
        z_velocity: spec_u64_from_le_bytes(s.subrange(48, 56)),
        roll: spec_u64_from_le_bytes(s.subrange(56, 64)),
        pitch: spec_u64_from_le_bytes(s.subrange(64, 72)),
        yaw: spec_u64_from_le_bytes(s.subrange(72, 80)),
        wander_angle: spec_u64_from_le_bytes(s.subrange(80, 88)),
        x_acceleration: spec_u64_from_le_bytes(s.subrange(88, 96)),
        y_acceleration: spec_u64_from_le_bytes(s.subrange(96, 104)),
        z_acceleration: spec_u64_from_le_bytes(s.subrange(104, 112)),
        x_angular_rate: spec_u64_from_le_bytes(s.subrange(112, 120)),
        y_angular_rate: spec_u64_from_le_bytes(s.subrange(120, 128)),
        z_angular_rate: spec_u64_from_le_bytes(s.subrange(128, 136)),
    }
}

/// An encoded record has exactly [`RECORD_SIZE`] bytes.
pub proof fn lemma_encoded_len(p: Point)
    ensures
        encoded(p).len() == RECORD_SIZE,
{
    lemma_auto_spec_u64_to_from_le_bytes();
}

/// Decoding reproduces the encoded point exactly, bit for bit: every double
/// survives the record format unchanged.
pub proof fn lemma_record_round_trip(p: Point)
    ensures
        decoded(encoded(p)) == p,
{
    lemma_auto_spec_u64_to_from_le_bytes();
    let s = encoded(p);
    assert(s.subrange(0, 8) =~= spec_u64_to_le_bytes(p.time));
    assert(s.subrange(8, 16) =~= spec_u64_to_le_bytes(p.latitude));
    assert(s.subrange(16, 24) =~= spec_u64_to_le_bytes(p.longitude));
    assert(s.subrange(24, 32) =~= spec_u64_to_le_bytes(p.altitude));
    assert(s.subrange(32, 40) =~= spec_u64_to_le_bytes(p.x_velocity));
    assert(s.subrange(40, 48) =~= spec_u64_to_le_bytes(p.y_velocity));
    assert(s.subrange(48, 56) =~= spec_u64_to_le_bytes(p.z_velocity));
    assert(s.subrange(56, 64) =~= spec_u64_to_le_bytes(p.roll));
    assert(s.subrange(64, 72) =~= spec_u64_to_le_bytes(p.pitch));
    assert(s.subrange(72, 80) =~= spec_u64_to_le_bytes(p.yaw));
    assert(s.subrange(80, 88) =~= spec_u64_to_le_bytes(p.wander_angle));
    assert(s.subrange(88, 96) =~= spec_u64_to_le_bytes(p.x_acceleration));
    assert(s.subrange(96, 104) =~= spec_u64_to_le_bytes(p.y_acceleration));
    assert(s.subrange(104, 112) =~= spec_u64_to_le_bytes(p.z_acceleration));
    assert(s.subrange(112, 120) =~= spec_u64_to_le_bytes(p.x_angular_rate));
    assert(s.subrange(120, 128) =~= spec_u64_to_le_bytes(p.y_angular_rate));
    assert(s.subrange(128, 136) =~= spec_u64_to_le_bytes(p.z_angular_rate));
}

/// Whether a byte stream is a whole number of records. A well-formed SBET
/// stream is; any other length means a truncated final record.
pub open spec fn complete(s: Seq<u8>) -> bool {
    s.len() % (RECORD_SIZE as nat) == 0
}

/// The concatenated records of a sequence of points: the whole stream a
/// writer produces from them.
pub open spec fn encoded_stream(ps: Seq<Point>) -> Seq<u8>
    decreases ps.len(),
{
    if ps.len() == 0 {
        Seq::empty()
    } else {
        encoded(ps[0]) + encoded_stream(ps.skip(1))
    }
}

/// The points read from a byte stream, record by record from the front.
/// Bytes of a trailing partial record decode to no point.
pub open spec fn decoded_stream(s: Seq<u8>) -> Seq<Point>
    decreases s.len(),
{
    if s.len() < RECORD_SIZE {
        Seq::empty()
    } else {
        seq![decoded(s.take(RECORD_SIZE as int))] + decoded_stream(s.skip(RECORD_SIZE as int))
    }
}

/// Appending one point to a write sequence appends exactly its record.
pub proof fn lemma_encoded_stream_push(ps: Seq<Point>, p: Point)
    ensures
        encoded_stream(ps.push(p)) == encoded_stream(ps) + encoded(p),
    decreases ps.len(),
{
    if ps.len() == 0 {
        assert(ps.push(p).skip(1) =~= ps);
        assert(ps.push(p)[0] == p);
        assert(encoded_stream(ps.push(p)) == encoded(p) + encoded_stream(ps));
        assert(encoded(p) + encoded_stream(ps) =~= encoded_stream(ps) + encoded(p));
    } else {
        let q = ps.push(p);
        assert(q.len() == ps.len() + 1);
        assert(q[0] == ps[0]);
        assert(q.skip(1) =~= ps.skip(1).push(p));
        lemma_encoded_stream_push(ps.skip(1), p);
        assert(encoded_stream(q) == encoded(ps[0]) + (encoded_stream(ps.skip(1)) + encoded(p)));
        assert(encoded_stream(q) =~= encoded_stream(ps) + encoded(p));
    }
}

/// The count and round-trip law of whole streams: the stream encoding `K`
/// points is exactly `K` records long, and decoding it to exhaustion yields
/// those `K` points again, bit for bit.
pub proof fn lemma_stream_round_trip(ps: Seq<Point>)
    ensures
        encoded_stream(ps).len() == ps.len() * RECORD_SIZE,
        decoded_stream(encoded_stream(ps)) == ps,
    decreases ps.len(),
{
    if ps.len() == 0 {
        assert(decoded_stream(encoded_stream(ps)) =~= ps);
    } else {
        let s = encoded_stream(ps);
        lemma_encoded_len(ps[0]);
        lemma_stream_round_trip(ps.skip(1));
        assert(s.len() == ps.len() * RECORD_SIZE) by {
            assert((ps.len() - 1) * RECORD_SIZE + RECORD_SIZE == ps.len() * RECORD_SIZE)
                by (nonlinear_arith);
        }
        assert(s.take(RECORD_SIZE as int) =~= encoded(ps[0]));
        lemma_record_round_trip(ps[0]);
        assert(s.skip(RECORD_SIZE as int) =~= encoded_stream(ps.skip(1)));
        assert(decoded_stream(s) =~= ps);
    }
}

/// Appends the eight little-endian bytes of one field.
fn append_field(out: &mut Vec<u8>, field: u64)
    ensures
        final(out)@ == old(out)@ + spec_u64_to_le_bytes(field),
{
    let mut bytes = u64_to_le_bytes(field);
    out.append(&mut bytes);
}

/// Encodes one point as one record.
pub fn encode(p: &Point) -> (r: Vec<u8>)
    ensures
        r@ == encoded(*p),
        r@.len() == RECORD_SIZE,
{
    let mut out: Vec<u8> = Vec::new();
    append_field(&mut out, p.time);
    append_field(&mut out, p.latitude);
    append_field(&mut out, p.longitude);
    append_field(&mut out, p.altitude);
    append_field(&mut out, p.x_velocity);
    append_field(&mut out, p.y_velocity);
    append_field(&mut out, p.z_velocity);
    append_field(&mut out, p.roll);
    append_field(&mut out, p.pitch);
    append_field(&mut out, p.yaw);
    append_field(&mut out, p.wander_angle);
    append_field(&mut out, p.x_acceleration);
    append_field(&mut out, p.y_acceleration);
    append_field(&mut out, p.z_acceleration);
    append_field(&mut out, p.x_angular_rate);
    append_field(&mut out, p.y_angular_rate);
    append_field(&mut out, p.z_angular_rate);
    proof {
        lemma_encoded_len(*p);
        assert(out@ =~= encoded(*p));
    }
    out
}

/// Reads the field at byte offset `offset`.
fn read_field(bytes: &[u8], offset: usize) -> (field: u64)
    requires
        bytes@.len() == RECORD_SIZE,
        offset + 8 <= RECORD_SIZE,
    ensures
        field == spec_u64_from_le_bytes(bytes@.subrange(offset as int, offset as int + 8)),
{
    u64_from_le_bytes(slice_subrange(bytes, offset, offset + 8))
}

/// Decodes one record into a point.
pub fn decode(bytes: &[u8]) -> (p: Point)
    requires
        bytes@.len() == RECORD_SIZE,
    ensures
        p == decoded(bytes@),
{
    Point {
        time: read_field(bytes, 0),
        latitude: read_field(bytes, 8),
        longitude: read_field(bytes, 16),
        altitude: read_field(bytes, 24),
        x_velocity: read_field(bytes, 32),
        y_velocity: read_field(bytes, 40),
        z_velocity: read_field(bytes, 48),
        roll: read_field(bytes, 56),
        pitch: read_field(bytes, 64),
        yaw: read_field(bytes, 72),
        wander_angle: read_field(bytes, 80),
        x_acceleration: read_field(bytes, 88),
        y_acceleration: read_field(bytes, 96),
        z_acceleration: read_field(bytes, 104),
        x_angular_rate: read_field(bytes, 112),
        y_angular_rate: read_field(bytes, 120),
        z_angular_rate: read_field(bytes, 128),
    }
}

} // verus!
