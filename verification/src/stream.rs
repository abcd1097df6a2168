//! Readers and writers for streams of records, and the stream transforms
//! built on them: point-count estimation from a size alone, decimation, and
//! time-range filtering.
//!
//! A [`Reader`] consumes a fully buffered byte source from the front, one
//! record at a time; a [`Writer`] appends records to a growing byte sink.
//! Opening files, standard streams, and every other I/O concern stays with
//! the caller, who hands bytes in and takes bytes out.

use vstd::prelude::*;
use vstd::arithmetic::div_mod::lemma_fundamental_div_mod_converse_div;
use vstd::slice::slice_subrange;
use crate::codec::{
    complete, decode, decoded, decoded_stream, encode, encoded, encoded_stream,
    lemma_encoded_stream_push, lemma_stream_round_trip,
};
use crate::error::Error;
use crate::point::{time_key, time_key_of, Point, RECORD_SIZE};

verus! {

/// Reads SBET points from a buffered byte source.
pub struct Reader {
    bytes: Vec<u8>,
    pos: usize,
}

impl Reader {
    /// The read position never passes the end of the buffer.
    pub closed spec fn wf(self) -> bool {
        self.pos <= self.bytes@.len()
    }

    /// The bytes not yet consumed.
    pub closed spec fn remaining(self) -> Seq<u8> {
        self.bytes@.skip(self.pos as int)
    }

    /// Wraps a byte source, positioned at its start.
    pub fn new(bytes: Vec<u8>) -> (reader: Reader)
        ensures
            reader.wf(),
            reader.remaining() == bytes@,
    {
        let reader = Reader { bytes, pos: 0 };
        proof {
            assert(reader.remaining() =~= reader.bytes@);
        }
        reader
    }

    /// Reads one record. A source with nothing left yields `None`, the clean
    /// end of the stream; one with less than a whole record left yields the
    /// truncated-record error and consumes nothing; otherwise one record is
    /// consumed and decoded.
    pub fn read_one(&mut self) -> (r: Result<Option<Point>, Error>)
        requires
            old(self).wf(),
        ensures
            final(self).wf(),
            old(self).remaining().len() == 0 ==> r == Ok::<Option<Point>, Error>(None)
                && final(self).remaining() == old(self).remaining(),
            0 < old(self).remaining().len() < RECORD_SIZE ==> r == Err::<
                Option<Point>,
                Error,
            >(Error::TruncatedRecord) && final(self).remaining() == old(self).remaining(),
            old(self).remaining().len() >= RECORD_SIZE ==> r == Ok::<Option<Point>, Error>(
                Some(decoded(old(self).remaining().take(RECORD_SIZE as int))),
            ) && final(self).remaining() == old(self).remaining().skip(RECORD_SIZE as int),
    {
        let available = self.bytes.len() - self.pos;
        if available == 0 {
            Ok(None)
        } else if available < RECORD_SIZE {
            Err(Error::TruncatedRecord)
        } else {
            let start = self.pos;
            let record = slice_subrange(self.bytes.as_slice(), start, start + RECORD_SIZE);
            let point = decode(record);
            self.pos = start + RECORD_SIZE;
            proof {
                assert(old(self).remaining().take(RECORD_SIZE as int) =~= old(
                    self,
                ).bytes@.subrange(start as int, start as int + RECORD_SIZE));
                assert(self.remaining() =~= old(self).remaining().skip(RECORD_SIZE as int));
            }
            Ok(Some(point))
        }
    }

    /// Reads records to exhaustion. A source holding a whole number of
    /// records — `K * RECORD_SIZE` bytes — yields exactly its `K` points and
    /// leaves the reader at the clean end of the stream; any other length
    /// ends in the truncated-record error.
    pub fn read_all(&mut self) -> (r: Result<Vec<Point>, Error>)
        requires
            old(self).wf(),
        ensures
            final(self).wf(),
            complete(old(self).remaining()) ==> (r matches Ok(points)
                && points@ == decoded_stream(old(self).remaining()) && points@.len() * RECORD_SIZE
                == old(self).remaining().len() && final(self).remaining().len() == 0),
            !complete(old(self).remaining()) ==> r == Err::<Vec<Point>, Error>(
                Error::TruncatedRecord,
            ),
    {
        let ghost init = self.remaining();
        let mut out: Vec<Point> = Vec::new();
        proof {
            assert(init.skip(0) =~= init);
        }
        loop
            invariant
                self.wf(),
                out@.len() * RECORD_SIZE <= init.len(),
                self.remaining() == init.skip(out@.len() * RECORD_SIZE),
                decoded_stream(init) == out@ + decoded_stream(self.remaining()),
                init == old(self).remaining(),
            decreases self.remaining().len(),
        {
            let ghost count = out@.len();
            let ghost rem = self.remaining();
            match self.read_one() {
                Ok(Some(point)) => {
                    out.push(point);
                    proof {
                        assert((count + 1) * RECORD_SIZE == count * RECORD_SIZE + RECORD_SIZE)
                            by (nonlinear_arith);
                        assert(rem.skip(RECORD_SIZE as int) =~= init.skip(
                            (count + 1) * RECORD_SIZE,
                        )) by {
                            assert((count + 1) * RECORD_SIZE == count * RECORD_SIZE + RECORD_SIZE)
                                by (nonlinear_arith);
                            assert(init.skip(count * RECORD_SIZE).skip(RECORD_SIZE as int) =~= init
                                .skip(count * RECORD_SIZE + RECORD_SIZE));
                        }
                        assert(out@ + decoded_stream(self.remaining()) =~= (out@.take(count as int)
                            + decoded_stream(rem)));
                    }
                },
                Ok(None) => {
                    proof {
                        assert(init.len() == count * RECORD_SIZE);
                        assert(complete(init)) by {
                            assert((count * (RECORD_SIZE as int)) % (RECORD_SIZE as int) == 0)
                                by (nonlinear_arith);
                        }
                        assert(decoded_stream(self.remaining()) =~= Seq::<Point>::empty());
                        assert(out@ =~= decoded_stream(init));
                    }
                    return Ok(out);
                },
                Err(e) => {
                    proof {
                        let leftover = self.remaining().len() as int;
                        assert(init.len() == count * RECORD_SIZE + leftover);
                        assert(!complete(init)) by {
                            assert((count * (RECORD_SIZE as int) + leftover) % (RECORD_SIZE as int)
                                == leftover) by (nonlinear_arith)
                                requires
                                    0 <= leftover < (RECORD_SIZE as int),
                            ;
                        }
                    }
                    return Err(e);
                },
            }
        }
    }
}

/// Writes SBET points to a growing byte sink.
pub struct Writer {
    bytes: Vec<u8>,
}

impl Writer {
    /// Everything written so far.
    pub closed spec fn written(self) -> Seq<u8> {
        self.bytes@
    }

    /// A writer over an empty sink.
    pub fn new() -> (writer: Writer)
        ensures
            writer.written() == Seq::<u8>::empty(),
    {
        let writer = Writer { bytes: Vec::new() };
        proof {
            assert(writer.written() =~= Seq::<u8>::empty());
        }
        writer
    }

    /// Encodes one point and appends its record to the sink.
    pub fn write_one(&mut self, point: Point)
        ensures
            final(self).written() == old(self).written() + encoded(point),
    {
        let mut record = encode(&point);
        self.bytes.append(&mut record);
    }

    /// Encodes each point in order; the sink grows by exactly one record per
    /// point.
    pub fn write_all(&mut self, points: &Vec<Point>)
        ensures
            final(self).written() == old(self).written() + encoded_stream(points@),
    {
        let ghost init = self.written();
        let mut i: usize = 0;
        proof {
            assert(self.written() =~= init + encoded_stream(points@.take(0)));
        }
        while i < points.len()
            invariant
                i <= points@.len(),
                self.written() == init + encoded_stream(points@.take(i as int)),
                init == old(self).written(),
            decreases points@.len() - i,
        {
            self.write_one(points[i]);
            proof {
                assert(points@.take(i + 1) =~= points@.take(i as int).push(points@[i as int]));
                lemma_encoded_stream_push(points@.take(i as int), points@[i as int]);
                assert(self.written() =~= init + encoded_stream(points@.take(i + 1)));
            }
            i = i + 1;
        }
        proof {
            assert(points@.take(points@.len() as int) =~= points@);
        }
    }

    /// Hands back the accumulated bytes.
    pub fn into_bytes(self) -> (bytes: Vec<u8>)
        ensures
            bytes@ == self.written(),
    {
        self.bytes
    }
}

/// Estimates the number of points in a file from its size in bytes alone:
/// the number of whole records that fit. A size that is not a multiple of
/// the record size implies a truncated final record, which a full read
/// surfaces as an error when it is reached.
pub fn estimate_number_of_points(file_size: u64) -> (count: u64)
    ensures
        count == file_size / (RECORD_SIZE as u64),
{
    file_size / (RECORD_SIZE as u64)
}

/// Keeps every `stride`-th point, the first always included: the points at
/// source indices `0, stride, 2 * stride, ...` and no others, in source
/// order.
pub fn decimate(points: &Vec<Point>, stride: usize) -> (r: Vec<Point>)
    requires
        stride >= 1,
    ensures
        points@.len() == 0 ==> r@.len() == 0,
        points@.len() > 0 ==> r@.len() == (points@.len() - 1) / (stride as int) + 1,
        forall|j: int| 0 <= j < r@.len() ==> #[trigger] r@[j] == points@[j * (stride as int)],
{
    let mut out: Vec<Point> = Vec::new();
    let mut i: usize = 0;
    proof {
        assert(0 * (stride as int) == 0) by (nonlinear_arith);
    }
    while i < points.len()
        invariant
            stride >= 1,
            i <= points@.len(),
            out@.len() == 0 <==> i == 0,
            i < points@.len() ==> i == out@.len() * (stride as int),
            i == points@.len() && points@.len() > 0 ==> out@.len() >= 1 && (out@.len() - 1) * (
            stride as int) <= points@.len() - 1 && points@.len() - 1 < out@.len() * (stride as int),
            forall|j: int|
                0 <= j < out@.len() ==> #[trigger] out@[j] == points@[j * (stride as int)],
        decreases points@.len() - i,
    {
        let ghost m = out@.len();
        let ghost before = out@;
        out.push(points[i]);
        proof {
            assert(m * (stride as int) == i);
            assert((m + 1) * (stride as int) == m * (stride as int) + (stride as int))
                by (nonlinear_arith);
            assert forall|j: int|
                0 <= j < out@.len() implies #[trigger] out@[j] == points@[j * (stride as int)] by {
                if j < m {
                    assert(before[j] == points@[j * (stride as int)]);
                    assert(out@[j] == before[j]);
                } else {
                    assert(out@[j] == points@[i as int]);
                    assert(j * (stride as int) == i);
                }
            }
        }
        if stride < points.len() - i {
            i = i + stride;
        } else {
            i = points.len();
        }
    }
    proof {
        if points@.len() > 0 {
            let q = out@.len() - 1;
            let s = stride as int;
            let x = points@.len() - 1;
            assert((q + 1) * s == q * s + s) by (nonlinear_arith);
            lemma_fundamental_div_mod_converse_div(x, s, q, x - q * s);
        }
    }
    out
}

/// The predicate of [`filter_by_time`]: whether a sample's time lies in the
/// closed span from `start` to `stop`, in the time order of [`time_key_of`].
pub open spec fn span_pred(start: u64, stop: u64) -> spec_fn(Point) -> bool {
    |p: Point| time_key_of(start) <= time_key_of(p.time) && time_key_of(p.time) <= time_key_of(
        stop,
    )
}

/// Keeps exactly the points whose time lies in the closed span from `start`
/// to `stop`, in source order.
pub fn filter_by_time(points: &Vec<Point>, start: u64, stop: u64) -> (r: Vec<Point>)
    ensures
        r@ == points@.filter(span_pred(start, stop)),
{
    let key_start = time_key(start);
    let key_stop = time_key(stop);
    let ghost pred = span_pred(start, stop);
    let mut out: Vec<Point> = Vec::new();
    let mut i: usize = 0;
    proof {
        reveal_with_fuel(Seq::<_>::filter, 2);
        assert(points@.take(0) =~= Seq::<Point>::empty());
        assert(out@ =~= points@.take(0).filter(pred));
    }
    while i < points.len()
        invariant
            i <= points@.len(),
            key_start == time_key_of(start),
            key_stop == time_key_of(stop),
            pred == span_pred(start, stop),
            out@ == points@.take(i as int).filter(pred),
        decreases points@.len() - i,
    {
        let point = points[i];
        let key = time_key(point.time);
        if key_start <= key && key <= key_stop {
            out.push(point);
        }
        proof {
            let single = seq![points@[i as int]];
            assert(points@.take(i + 1) =~= points@.take(i as int) + single);
            Seq::<Point>::filter_distributes_over_add(points@.take(i as int), single, pred);
            reveal_with_fuel(Seq::<_>::filter, 2);
            assert(single.drop_last() =~= Seq::<Point>::empty());
            if pred(points@[i as int]) {
                assert(single.filter(pred) =~= single);
            } else {
                assert(single.filter(pred) =~= Seq::<Point>::empty());
            }
            assert(out@ =~= points@.take(i + 1).filter(pred));
        }
        i = i + 1;
    }
    proof {
        assert(points@.take(points@.len() as int) =~= points@);
    }
    out
}

/// The round-trip half of the filter law: the points a time filter retains,
/// re-encoded as a stream, decode back to exactly those points.
pub proof fn lemma_filter_round_trip(points: Seq<Point>, start: u64, stop: u64)
    ensures
        decoded_stream(encoded_stream(points.filter(span_pred(start, stop)))) == points.filter(
            span_pred(start, stop),
        ),
{
    lemma_stream_round_trip(points.filter(span_pred(start, stop)));
}

} // verus!
