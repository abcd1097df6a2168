//! Selection of the bracketing pair for time interpolation.
//!
//! Interpolating a sorted sequence of samples at a query time means finding
//! the first adjacent pair whose times straddle the query, then blending
//! every field of the pair linearly. The blend is double-precision
//! arithmetic and stays with unverified callers; the selection — which pair,
//! and exactly when the request fails instead — is verified here. Times are
//! compared through [`time_key_of`], the total order of their encodings.

use vstd::prelude::*;
use crate::error::Error;
use crate::point::{time_key, time_key_of, Point};

verus! {

/// Whether the adjacent pair at `i`, `i + 1` brackets the query time `t`:
/// the scan's acceptance test.
pub open spec fn brackets(points: Seq<Point>, t: u64, i: int) -> bool {
    time_key_of(points[i].time) <= time_key_of(t) && time_key_of(t) <= time_key_of(
        points[i + 1].time,
    )
}

/// Whether `i` is the first index whose pair brackets `t`. On a sequence
/// sorted ascending by time this is the unique bracketing pair up to ties;
/// on an unsorted sequence the first match still wins, as the scan has it.
pub open spec fn is_first_bracket(points: Seq<Point>, t: u64, i: int) -> bool {
    &&& 0 <= i < points.len() - 1
    &&& brackets(points, t, i)
    &&& forall|j: int| 0 <= j < i ==> !#[trigger] brackets(points, t, j)
}

/// Whether `t` lies in the closed span from the first sample's time to the
/// last sample's time, boundaries included.
pub open spec fn in_time_range(points: Seq<Point>, t: u64) -> bool {
    time_key_of(points[0].time) <= time_key_of(t) && time_key_of(t) <= time_key_of(
        points[points.len() - 1].time,
    )
}

/// Finds the bracketing pair for interpolation at `time`, scanning adjacent
/// pairs from the front.
///
/// With fewer than two samples no pair can bracket anything, and the scan
/// fails with the matching error whatever the query is. With two or more, it
/// succeeds exactly when the query lies in the closed span of the first and
/// last times, and hands back the first bracketing pair; otherwise it fails
/// with the extrapolation error carrying the query time and the span.
pub fn bracket(points: &Vec<Point>, time: u64) -> (r: Result<(Point, Point), Error>)
    ensures
        points@.len() == 0 ==> r == Err::<(Point, Point), Error>(Error::NoPoints),
        points@.len() == 1 ==> r == Err::<(Point, Point), Error>(Error::OnePoint),
        points@.len() >= 2 && !in_time_range(points@, time) ==> r == Err::<(Point, Point), Error>(
            (Error::Extrapolation {
                time,
                start_time: points@[0].time,
                end_time: points@[points@.len() - 1].time,
            }),
        ),
        points@.len() >= 2 && in_time_range(points@, time) ==> (r matches Ok(pair)
            && exists|i: int|
            #[trigger] is_first_bracket(points@, time, i) && pair.0 == points@[i] && pair.1
                == points@[i + 1]),
{
    let n = points.len();
    if n == 0 {
        return Err(Error::NoPoints);
    }
    if n == 1 {
        return Err(Error::OnePoint);
    }
    let query = time_key(time);
    let start = time_key(points[0].time);
    let end = time_key(points[n - 1].time);
    if start > query || end < query {
        return Err(
            Error::Extrapolation {
                time,
                start_time: points[0].time,
                end_time: points[n - 1].time,
            },
        );
    }
    let mut i: usize = 0;
    loop
        invariant
            n == points@.len(),
            2 <= n,
            0 <= i < n - 1,
            query == time_key_of(time),
            time_key_of(points@[0].time) <= query,
            time_key_of(points@[i as int].time) <= query,
            query <= time_key_of(points@[n - 1].time),
            forall|j: int| 0 <= j < i ==> !#[trigger] brackets(points@, time, j),
        decreases n - 1 - i,
    {
        if time_key(points[i + 1].time) >= query {
            proof {
                assert(is_first_bracket(points@, time, i as int));
            }
            return Ok((points[i], points[i + 1]));
        }
        proof {
            assert(!brackets(points@, time, i as int));
        }
        i = i + 1;
        proof {
            // The sample now under the scan is still strictly below the
            // query, while the last sample is not, so the scan cannot have
            // reached the last index.
            assert(i < n - 1);
        }
    }
}

} // verus!
