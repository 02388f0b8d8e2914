//! A geographic sample and what is read off a run of samples.
use vstd::prelude::*;
use crate::time::Timestamp;

verus! {

/// A geographic point: latitude and longitude in nanodegrees (WGS84),
/// optional elevation in millimetres and optional timestamp.
///
/// Coordinates are not checked against their usual ranges.
#[derive(Clone, Copy, Debug, PartialEq, Eq)]
pub struct Point {
    pub lat: i64,
    pub lon: i64,
    pub elevation: Option<i64>,
    pub time: Option<Timestamp>,
}

impl Point {
    pub fn new(lat: i64, lon: i64) -> (r: Point)
        ensures
            r == (Point { lat, lon, elevation: None, time: None }),
    {
        Point { lat, lon, elevation: None, time: None }
    }

    pub fn with_elevation(lat: i64, lon: i64, elevation: i64) -> (r: Point)
        ensures
            r == (Point { lat, lon, elevation: Some(elevation), time: None }),
    {
        Point { lat, lon, elevation: Some(elevation), time: None }
    }

    pub fn with_time(lat: i64, lon: i64, elevation: Option<i64>, time: Timestamp) -> (r: Point)
        ensures
            r == (Point { lat, lon, elevation, time: Some(time) }),
    {
        Point { lat, lon, elevation, time: Some(time) }
    }
}

/// The elevations that the points carry, in order.
pub open spec fn elevations(ps: Seq<Point>) -> Seq<i64>
    decreases ps.len(),
{
    if ps.len() == 0 {
        Seq::empty()
    } else {
        let rest = elevations(ps.drop_last());
        match ps.last().elevation {
            Some(e) => rest.push(e),
            None => rest,
        }
    }
}

/// The timestamps that the points carry, in order.
pub open spec fn timestamps(ps: Seq<Point>) -> Seq<Timestamp>
    decreases ps.len(),
{
    if ps.len() == 0 {
        Seq::empty()
    } else {
        let rest = timestamps(ps.drop_last());
        match ps.last().time {
            Some(t) => rest.push(t),
            None => rest,
        }
    }
}

pub open spec fn min_i64(a: i64, b: i64) -> i64 {
    if a <= b {
        a
    } else {
        b
    }
}

pub open spec fn max_i64(a: i64, b: i64) -> i64 {
    if a >= b {
        a
    } else {
        b
    }
}

/// The least and greatest value, or `None` for no values.
pub open spec fn range_of(s: Seq<i64>) -> Option<(i64, i64)>
    decreases s.len(),
{
    if s.len() == 0 {
        None
    } else {
        match range_of(s.drop_last()) {
            None => Some((s.last(), s.last())),
            Some((lo, hi)) => Some((min_i64(lo, s.last()), max_i64(hi, s.last()))),
        }
    }
}

/// The earliest and latest instant, or `None` for no instants.
pub open spec fn span_of(s: Seq<Timestamp>) -> Option<(Timestamp, Timestamp)>
    decreases s.len(),
{
    if s.len() == 0 {
        None
    } else {
        match span_of(s.drop_last()) {
            None => Some((s.last(), s.last())),
            Some((lo, hi)) => Some(
                (
                    if s.last().instant() < lo.instant() {
                        s.last()
                    } else {
                        lo
                    },
                    if hi.instant() < s.last().instant() {
                        s.last()
                    } else {
                        hi
                    },
                ),
            ),
        }
    }
}

/// The rise from `a` to `b` in millimetres, when both carry an elevation.
pub open spec fn pair_gain(a: Point, b: Point) -> int {
    match (a.elevation, b.elevation) {
        (Some(x), Some(y)) => if y > x {
            y - x
        } else {
            0
        },
        _ => 0,
    }
}

/// The drop from `a` to `b` in millimetres, when both carry an elevation.
pub open spec fn pair_loss(a: Point, b: Point) -> int {
    match (a.elevation, b.elevation) {
        (Some(x), Some(y)) => if y < x {
            x - y
        } else {
            0
        },
        _ => 0,
    }
}

pub open spec fn pair_has_elevations(a: Point, b: Point) -> bool {
    a.elevation is Some && b.elevation is Some
}

/// The total rise over consecutive pairs of a run of points.
pub open spec fn run_gain(ps: Seq<Point>) -> int
    decreases ps.len(),
{
    if ps.len() < 2 {
        0
    } else {
        run_gain(ps.drop_last()) + pair_gain(ps[ps.len() - 2], ps.last())
    }
}

/// The total drop over consecutive pairs of a run of points.
pub open spec fn run_loss(ps: Seq<Point>) -> int
    decreases ps.len(),
{
    if ps.len() < 2 {
        0
    } else {
        run_loss(ps.drop_last()) + pair_loss(ps[ps.len() - 2], ps.last())
    }
}

/// Whether some consecutive pair of the run has elevations at both ends.
pub open spec fn run_has_pair(ps: Seq<Point>) -> bool {
    exists|i: int| 0 < i < ps.len() && #[trigger] pair_has_elevations(ps[i - 1], ps[i])
}

/// The elevation range of a run of points: `None` when no point carries one.
pub fn elevation_range_of(ps: &[Point]) -> (r: Option<(i64, i64)>)
    ensures
        r == range_of(elevations(ps@)),
{
    let mut acc: Option<(i64, i64)> = None;
    let mut i: usize = 0;
    while i < ps.len()
        invariant
            i <= ps@.len(),
            acc == range_of(elevations(ps@.take(i as int))),
        decreases ps@.len() - i,
    {
        assert(ps@.take(i + 1).drop_last() =~= ps@.take(i as int));
        if let Some(e) = ps[i].elevation {
            acc = match acc {
                None => Some((e, e)),
                Some((lo, hi)) => Some(
                    (if lo <= e {
                        lo
                    } else {
                        e
                    }, if hi >= e {
                        hi
                    } else {
                        e
                    }),
                ),
            };
            assert(elevations(ps@.take(i + 1)).drop_last() =~= elevations(ps@.take(i as int)));
        }
        i = i + 1;
    }
    assert(ps@.take(i as int) =~= ps@);
    acc
}

/// The earliest and latest timestamp of a run of points.
pub fn timestamp_span_of(ps: &[Point]) -> (r: Option<(Timestamp, Timestamp)>)
    ensures
        r == span_of(timestamps(ps@)),
{
    let mut acc: Option<(Timestamp, Timestamp)> = None;
    let mut i: usize = 0;
    while i < ps.len()
        invariant
            i <= ps@.len(),
            acc == span_of(timestamps(ps@.take(i as int))),
        decreases ps@.len() - i,
    {
        assert(ps@.take(i + 1).drop_last() =~= ps@.take(i as int));
        if let Some(t) = ps[i].time {
            acc = match acc {
                None => Some((t, t)),
                Some((lo, hi)) => Some(
                    (if t.is_before(&lo) {
                        t
                    } else {
                        lo
                    }, if hi.is_before(&t) {
                        t
                    } else {
                        hi
                    }),
                ),
            };
            assert(timestamps(ps@.take(i + 1)).drop_last() =~= timestamps(ps@.take(i as int)));
        }
        i = i + 1;
    }
    assert(ps@.take(i as int) =~= ps@);
    acc
}

} // verus!
