//! Track segments and tracks.
use vstd::prelude::*;
use crate::point::{
    elevation_range_of, elevations, pair_has_elevations, range_of,
    run_gain, run_has_pair, run_loss, Point,
};

verus! {

/// One more than the largest rise or drop between two elevations.
pub const PAIR_BOUND: u128 = 0x1_0000_0000_0000_0000;

/// A continuously recorded run of points; a gap in recording starts a new
/// segment.
#[derive(Clone, Debug)]
pub struct TrackSegment {
    pub points: Vec<Point>,
}

/// The points of the segments, one segment after another.
pub open spec fn segments_points(segs: Seq<TrackSegment>) -> Seq<Point>
    decreases segs.len(),
{
    if segs.len() == 0 {
        Seq::empty()
    } else {
        segments_points(segs.drop_last()) + segs.last().points@
    }
}

/// The total rise within each segment, never across two segments.
pub open spec fn segments_gain(segs: Seq<TrackSegment>) -> int
    decreases segs.len(),
{
    if segs.len() == 0 {
        0
    } else {
        segments_gain(segs.drop_last()) + run_gain(segs.last().points@)
    }
}

/// The total drop within each segment, never across two segments.
pub open spec fn segments_loss(segs: Seq<TrackSegment>) -> int
    decreases segs.len(),
{
    if segs.len() == 0 {
        0
    } else {
        segments_loss(segs.drop_last()) + run_loss(segs.last().points@)
    }
}

/// Whether some segment has a consecutive pair with elevations at both ends.
pub open spec fn segments_have_pair(segs: Seq<TrackSegment>) -> bool {
    exists|j: int| 0 <= j < segs.len() && run_has_pair(#[trigger] segs[j].points@)
}

proof fn lemma_segments_prefix(segs: Seq<TrackSegment>, j: int)
    requires
        0 <= j <= segs.len(),
    ensures
        segments_points(segs.take(j)).len() <= segments_points(segs).len(),
    decreases segs.len(),
{
    if j < segs.len() {
        assert(segs.drop_last().take(j) =~= segs.take(j));
        lemma_segments_prefix(segs.drop_last(), j);
    } else {
        assert(segs.take(j) =~= segs);
    }
}

impl TrackSegment {
    pub fn new() -> (r: TrackSegment)
        ensures
            r.points@ == Seq::<Point>::empty(),
    {
        TrackSegment { points: Vec::new() }
    }

    pub fn with_points(points: Vec<Point>) -> (r: TrackSegment)
        ensures
            r.points@ == points@,
    {
        TrackSegment { points }
    }

    pub fn add_point(&mut self, point: Point)
        ensures
            final(self).points@ == old(self).points@.push(point),
    {
        self.points.push(point);
    }

    /// The least and greatest elevation over the points that carry one.
    pub fn elevation_range(&self) -> (r: Option<(i64, i64)>)
        ensures
            r == range_of(elevations(self.points@)),
    {
        elevation_range_of(self.points.as_slice())
    }

    pub fn point_count(&self) -> (r: usize)
        ensures
            r == self.points@.len(),
    {
        self.points.len()
    }

    /// The total rise and drop (in millimetres) over consecutive pairs whose
    /// points both carry an elevation, and whether there is such a pair.
    pub fn elevation_change(&self) -> (r: (u128, u128, bool))
        ensures
            r.0 == run_gain(self.points@),
            r.1 == run_loss(self.points@),
            r.2 == run_has_pair(self.points@),
            r.0 <= self.points@.len() * PAIR_BOUND,
            r.1 <= self.points@.len() * PAIR_BOUND,
    {
        let ps = &self.points;
        let n = ps.len();
        let mut gain: u128 = 0;
        let mut loss: u128 = 0;
        let mut found = false;
        if n < 2 {
            assert(n * PAIR_BOUND >= 0) by (nonlinear_arith);
            return (0, 0, false);
        }
        let mut i: usize = 1;
        assert(ps@.take(1).len() == 1);
        while i < n
            invariant
                1 <= i <= n,
                n == ps@.len(),
                gain == run_gain(ps@.take(i as int)),
                loss == run_loss(ps@.take(i as int)),
                gain <= i * PAIR_BOUND,
                loss <= i * PAIR_BOUND,
                found == exists|t: int| 0 < t < i && #[trigger] pair_has_elevations(ps@[t - 1], ps@[t]),
            decreases n - i,
        {
            let ghost pre = ps@.take(i as int);
            let ghost next = ps@.take(i + 1);
            assert(next.drop_last() =~= pre);
            assert(next[next.len() - 2] == ps@[i - 1]);
            assert(next.last() == ps@[i as int]);
            let a = ps[i - 1];
            let b = ps[i];
            assert(gain + PAIR_BOUND <= (i + 1) * PAIR_BOUND) by (nonlinear_arith)
                requires
                    gain <= i * PAIR_BOUND,
            ;
            assert(loss + PAIR_BOUND <= (i + 1) * PAIR_BOUND) by (nonlinear_arith)
                requires
                    loss <= i * PAIR_BOUND,
            ;
            assert((i + 1) * PAIR_BOUND <= usize::MAX * PAIR_BOUND) by (nonlinear_arith)
                requires
                    i + 1 <= usize::MAX,
            ;
            match (a.elevation, b.elevation) {
                (Some(x), Some(y)) => {
                    found = true;
                    if y > x {
                        gain = gain + (y as i128 - x as i128) as u128;
                    } else if y < x {
                        loss = loss + (x as i128 - y as i128) as u128;
                    }
                },
                _ => {},
            }
            assert(found == exists|t: int| 0 < t < i + 1 && #[trigger] pair_has_elevations(ps@[t - 1], ps@[t])) by {
                if pair_has_elevations(ps@[i - 1], ps@[i as int]) {
                    assert(pair_has_elevations(ps@[(i + 1) - 1 - 1], ps@[(i + 1) - 1]));
                }
            }
            i = i + 1;
        }
        assert(ps@.take(i as int) =~= ps@);
        (gain, loss, found)
    }
}

impl Default for TrackSegment {
    fn default() -> (r: TrackSegment)
        ensures
            r.points@.len() == 0,
    {
        TrackSegment::new()
    }
}

/// A named collection of segments: one recorded activity.
#[derive(Clone, Debug)]
pub struct Track {
    pub name: Option<String>,
    pub segments: Vec<TrackSegment>,
}

impl Track {
    pub fn new() -> (r: Track)
        ensures
            r.name is None,
            r.segments@.len() == 0,
    {
        Track { name: None, segments: Vec::new() }
    }

    pub fn with_name(name: String) -> (r: Track)
        ensures
            r.name == Some(name),
            r.segments@.len() == 0,
    {
        Track { name: Some(name), segments: Vec::new() }
    }

    pub fn add_segment(&mut self, segment: TrackSegment)
        ensures
            final(self).name == old(self).name,
            final(self).segments@ == old(self).segments@.push(segment),
    {
        self.segments.push(segment);
    }

    /// All points of all segments, in order.
    pub fn get_all_points(&self) -> (r: Vec<Point>)
        ensures
            r@ == segments_points(self.segments@),
    {
        let segs = &self.segments;
        let mut out: Vec<Point> = Vec::new();
        let mut j: usize = 0;
        while j < segs.len()
            invariant
                j <= segs@.len(),
                out@ == segments_points(segs@.take(j as int)),
            decreases segs@.len() - j,
        {
            assert(segs@.take(j + 1).drop_last() =~= segs@.take(j as int));
            let ps = &segs[j].points;
            let mut i: usize = 0;
            let ghost before = out@;
            while i < ps.len()
                invariant
                    i <= ps@.len(),
                    out@ == before + ps@.take(i as int),
                decreases ps@.len() - i,
            {
                out.push(ps[i]);
                i = i + 1;
                assert(ps@.take(i as int) =~= ps@.take(i - 1).push(ps@[i - 1]));
            }
            assert(ps@.take(i as int) =~= ps@);
            j = j + 1;
        }
        assert(segs@.take(j as int) =~= segs@);
        out
    }

    /// The number of points over all segments.
    pub fn total_points(&self) -> (r: usize)
        requires
            segments_points(self.segments@).len() <= usize::MAX,
        ensures
            r == segments_points(self.segments@).len(),
    {
        let segs = &self.segments;
        let mut total: usize = 0;
        let mut j: usize = 0;
        while j < segs.len()
            invariant
                j <= segs@.len(),
                total == segments_points(segs@.take(j as int)).len(),
                segments_points(segs@).len() <= usize::MAX,
            decreases segs@.len() - j,
        {
            assert(segs@.take(j + 1).drop_last() =~= segs@.take(j as int));
            proof {
                lemma_segments_prefix(segs@, j + 1);
            }
            total = total + segs[j].points.len();
            j = j + 1;
        }
        assert(segs@.take(j as int) =~= segs@);
        total
    }

    /// The least and greatest elevation over every point of every segment.
    pub fn elevation_range(&self) -> (r: Option<(i64, i64)>)
        ensures
            r == range_of(elevations(segments_points(self.segments@))),
    {
        let all = self.get_all_points();
        elevation_range_of(all.as_slice())
    }

    /// The stored name, or `Unnamed Track`.
    pub fn display_name(&self) -> (r: String)
        ensures
            r@ == (match self.name {
                Some(n) => n@,
                None => "Unnamed Track"@,
            }),
    {
        match &self.name {
            Some(n) => n.clone(),
            None => String::from_str("Unnamed Track"),
        }
    }

    /// Rise, drop and whether any pair had elevations, over each segment.
    pub fn elevation_change(&self) -> (r: (u128, u128, bool))
        requires
            segments_points(self.segments@).len() <= usize::MAX,
        ensures
            r.0 == segments_gain(self.segments@),
            r.1 == segments_loss(self.segments@),
            r.2 == segments_have_pair(self.segments@),
            r.0 <= segments_points(self.segments@).len() * PAIR_BOUND,
            r.1 <= segments_points(self.segments@).len() * PAIR_BOUND,
    {
        let segs = &self.segments;
        let mut gain: u128 = 0;
        let mut loss: u128 = 0;
        let mut found = false;
        let mut j: usize = 0;
        while j < segs.len()
            invariant
                j <= segs@.len(),
                segments_points(segs@).len() <= usize::MAX,
                gain == segments_gain(segs@.take(j as int)),
                loss == segments_loss(segs@.take(j as int)),
                gain <= segments_points(segs@.take(j as int)).len() * PAIR_BOUND,
                loss <= segments_points(segs@.take(j as int)).len() * PAIR_BOUND,
                found == exists|t: int| 0 <= t < j && run_has_pair(#[trigger] segs@[t].points@),
            decreases segs@.len() - j,
        {
            let ghost next = segs@.take(j + 1);
            assert(next.drop_last() =~= segs@.take(j as int));
            assert(next.last() == segs@[j as int]);
            proof {
                lemma_segments_prefix(segs@, j + 1);
            }
            let (g, l, f) = segs[j].elevation_change();
            let ghost c = segments_points(segs@.take(j as int)).len();
            let ghost m = segs@[j as int].points@.len();
            assert(gain + g <= (c + m) * PAIR_BOUND && loss + l <= (c + m) * PAIR_BOUND)
                by (nonlinear_arith)
                requires
                    gain <= c * PAIR_BOUND,
                    g <= m * PAIR_BOUND,
                    loss <= c * PAIR_BOUND,
                    l <= m * PAIR_BOUND,
            ;
            assert((c + m) * PAIR_BOUND <= usize::MAX * PAIR_BOUND) by (nonlinear_arith)
                requires
                    c + m <= usize::MAX,
            ;
            gain = gain + g;
            loss = loss + l;
            found = found || f;
            assert(found == exists|t: int| 0 <= t < j + 1 && run_has_pair(#[trigger] segs@[t].points@));
            j = j + 1;
        }
        assert(segs@.take(j as int) =~= segs@);
        (gain, loss, found)
    }
}

impl Default for Track {
    fn default() -> (r: Track)
        ensures
            r.name is None,
            r.segments@.len() == 0,
    {
        Track::new()
    }
}

} // verus!
