//! The document: tracks, waypoints and metadata, and the statistics read off
//! them.
use vstd::prelude::*;
use crate::point::{
    elevation_range_of, elevations, pair_has_elevations, range_of, run_has_pair, span_of,
    timestamp_span_of, timestamps, Point,
};
use crate::text::{decimal_text, nat_digits, push_decimal, push_nat, push_scaled, push_str, string_of};
use crate::time::{clock_text, format_duration, Timestamp, NANOS_PER_SECOND};
use crate::track::{
    segments_gain, segments_have_pair, segments_loss, segments_points, Track, PAIR_BOUND,
};
use crate::waypoint::{waypoint_label, Waypoint};

verus! {

/// Document metadata: a creation time kept as the raw text of the file.
#[derive(Clone, Debug)]
pub struct Metadata {
    pub time: Option<String>,
}

/// The root of a GPS recording: tracks, waypoints and optional metadata.
#[derive(Clone, Debug)]
pub struct Gpx {
    pub tracks: Vec<Track>,
    pub waypoints: Vec<Waypoint>,
    pub metadata: Option<Metadata>,
}

/// The points of every segment of every track, in order.
pub open spec fn tracks_points(ts: Seq<Track>) -> Seq<Point>
    decreases ts.len(),
{
    if ts.len() == 0 {
        Seq::empty()
    } else {
        tracks_points(ts.drop_last()) + segments_points(ts.last().segments@)
    }
}

/// The number of segments over all tracks.
pub open spec fn tracks_segment_count(ts: Seq<Track>) -> nat
    decreases ts.len(),
{
    if ts.len() == 0 {
        0
    } else {
        tracks_segment_count(ts.drop_last()) + ts.last().segments@.len()
    }
}

pub open spec fn tracks_gain(ts: Seq<Track>) -> int
    decreases ts.len(),
{
    if ts.len() == 0 {
        0
    } else {
        tracks_gain(ts.drop_last()) + segments_gain(ts.last().segments@)
    }
}

pub open spec fn tracks_loss(ts: Seq<Track>) -> int
    decreases ts.len(),
{
    if ts.len() == 0 {
        0
    } else {
        tracks_loss(ts.drop_last()) + segments_loss(ts.last().segments@)
    }
}

pub open spec fn tracks_have_pair(ts: Seq<Track>) -> bool {
    exists|j: int| 0 <= j < ts.len() && segments_have_pair(#[trigger] ts[j].segments@)
}

/// Whole seconds between the earliest and the latest instant, if any.
pub open spec fn duration_of(ts: Seq<Timestamp>) -> Option<int> {
    match span_of(ts) {
        Some((lo, hi)) => Some((hi.instant() - lo.instant()) / (NANOS_PER_SECOND as int)),
        None => None,
    }
}

/// Metres per hour, rounded down, over a duration that is known and not zero.
pub open spec fn speed_of(distance_m: int, duration: Option<int>) -> Option<int> {
    match duration {
        Some(d) => if d == 0 {
            None
        } else {
            Some(distance_m * 3600 / d)
        },
        None => None,
    }
}

proof fn lemma_tracks_prefix(ts: Seq<Track>, j: int)
    requires
        0 <= j <= ts.len(),
    ensures
        tracks_points(ts.take(j)).len() <= tracks_points(ts).len(),
        tracks_segment_count(ts.take(j)) <= tracks_segment_count(ts),
    decreases ts.len(),
{
    if j < ts.len() {
        assert(ts.drop_last().take(j) =~= ts.take(j));
        lemma_tracks_prefix(ts.drop_last(), j);
    } else {
        assert(ts.take(j) =~= ts);
    }
}

proof fn lemma_span_ordered(s: Seq<Timestamp>)
    ensures
        span_of(s) matches Some((lo, hi)) ==> lo.instant() <= hi.instant(),
    decreases s.len(),
{
    if s.len() > 0 {
        lemma_span_ordered(s.drop_last());
    }
}

impl Gpx {
    /// Whether the point and segment counts fit `usize`.
    pub open spec fn within_limits(&self) -> bool {
        &&& tracks_points(self.tracks@).len() <= usize::MAX
        &&& tracks_segment_count(self.tracks@) <= usize::MAX
    }

    /// The average speed in metres per hour over `distance_m` metres.
    pub open spec fn speed_spec(&self, distance_m: int) -> Option<int> {
        speed_of(distance_m, duration_of(timestamps(tracks_points(self.tracks@))))
    }

    pub fn new() -> (r: Gpx)
        ensures
            r.tracks@.len() == 0,
            r.waypoints@.len() == 0,
            r.metadata is None,
    {
        Gpx { tracks: Vec::new(), waypoints: Vec::new(), metadata: None }
    }

    /// The metadata time, as written in the file.
    pub fn date(&self) -> (r: Option<&str>)
        ensures
            r matches Some(s) <==> (self.metadata matches Some(m) && m.time is Some),
            r matches Some(s) ==> s@ == self.metadata->0.time->0@,
    {
        match &self.metadata {
            Some(m) => match &m.time {
                Some(t) => Some(t.as_str()),
                None => None,
            },
            None => None,
        }
    }

    /// Every point of every track, in order; waypoints are not included.
    pub fn get_all_points(&self) -> (r: Vec<Point>)
        ensures
            r@ == tracks_points(self.tracks@),
    {
        let ts = &self.tracks;
        let mut out: Vec<Point> = Vec::new();
        let mut j: usize = 0;
        while j < ts.len()
            invariant
                j <= ts@.len(),
                out@ == tracks_points(ts@.take(j as int)),
            decreases ts@.len() - j,
        {
            assert(ts@.take(j + 1).drop_last() =~= ts@.take(j as int));
            let ps = ts[j].get_all_points();
            let mut i: usize = 0;
            let ghost before = out@;
            while i < ps.len()
                invariant
                    i <= ps@.len(),
                    out@ == before + ps@.take(i as int),
                decreases ps@.len() - i,
            {
                out.push(ps[i]);
                i = i + 1;
                assert(ps@.take(i as int) =~= ps@.take(i - 1).push(ps@[i - 1]));
            }
            assert(ps@.take(i as int) =~= ps@);
            j = j + 1;
        }
        assert(ts@.take(j as int) =~= ts@);
        out
    }

    /// The least and greatest elevation over every track point; `None` when
    /// no point carries one.
    pub fn elevation_range(&self) -> (r: Option<(i64, i64)>)
        ensures
            r == range_of(elevations(tracks_points(self.tracks@))),
    {
        let all = self.get_all_points();
        elevation_range_of(all.as_slice())
    }

    /// Rise, drop and whether any pair had elevations, over each segment.
    fn elevation_change(&self) -> (r: (u128, u128, bool))
        requires
            self.within_limits(),
        ensures
            r.0 == tracks_gain(self.tracks@),
            r.1 == tracks_loss(self.tracks@),
            r.2 == tracks_have_pair(self.tracks@),
    {
        let ts = &self.tracks;
        let mut gain: u128 = 0;
        let mut loss: u128 = 0;
        let mut found = false;
        let mut j: usize = 0;
        while j < ts.len()
            invariant
                j <= ts@.len(),
                tracks_points(ts@).len() <= usize::MAX,
                gain == tracks_gain(ts@.take(j as int)),
                loss == tracks_loss(ts@.take(j as int)),
                gain <= tracks_points(ts@.take(j as int)).len() * PAIR_BOUND,
                loss <= tracks_points(ts@.take(j as int)).len() * PAIR_BOUND,
                found == exists|t: int| 0 <= t < j && segments_have_pair(#[trigger] ts@[t].segments@),
            decreases ts@.len() - j,
        {
            let ghost next = ts@.take(j + 1);
            assert(next.drop_last() =~= ts@.take(j as int));
            assert(next.last() == ts@[j as int]);
            proof {
                lemma_tracks_prefix(ts@, j + 1);
            }
            let (g, l, f) = ts[j].elevation_change();
            let ghost c = tracks_points(ts@.take(j as int)).len();
            let ghost m = segments_points(ts@[j as int].segments@).len();
            assert(gain + g <= (c + m) * PAIR_BOUND && loss + l <= (c + m) * PAIR_BOUND)
                by (nonlinear_arith)
                requires
                    gain <= c * PAIR_BOUND,
                    g <= m * PAIR_BOUND,
                    loss <= c * PAIR_BOUND,
                    l <= m * PAIR_BOUND,
            ;
            assert((c + m) * PAIR_BOUND <= usize::MAX * PAIR_BOUND) by (nonlinear_arith)
                requires
                    c + m <= usize::MAX,
            ;
            gain = gain + g;
            loss = loss + l;
            found = found || f;
            assert(found == exists|t: int| 0 <= t < j + 1 && segments_have_pair(#[trigger] ts@[t].segments@));
            j = j + 1;
        }
        assert(ts@.take(j as int) =~= ts@);
        (gain, loss, found)
    }

    /// The total rise in millimetres over consecutive points within each
    /// segment; `None` when no such pair has elevations at both ends.
    pub fn total_elevation_gain(&self) -> (r: Option<u128>)
        requires
            self.within_limits(),
        ensures
            r == (if tracks_have_pair(self.tracks@) {
                Some(tracks_gain(self.tracks@) as u128)
            } else {
                None
            }),
    {
        let (gain, _, found) = self.elevation_change();
        if found {
            Some(gain)
        } else {
            None
        }
    }

    /// The total drop in millimetres over consecutive points within each
    /// segment; `None` when no such pair has elevations at both ends.
    pub fn total_elevation_loss(&self) -> (r: Option<u128>)
        requires
            self.within_limits(),
        ensures
            r == (if tracks_have_pair(self.tracks@) {
                Some(tracks_loss(self.tracks@) as u128)
            } else {
                None
            }),
    {
        let (_, loss, found) = self.elevation_change();
        if found {
            Some(loss)
        } else {
            None
        }
    }

    /// The number of points over all tracks.
    pub fn total_points(&self) -> (r: usize)
        requires
            self.within_limits(),
        ensures
            r == tracks_points(self.tracks@).len(),
    {
        let ts = &self.tracks;
        let mut total: usize = 0;
        let mut j: usize = 0;
        while j < ts.len()
            invariant
                j <= ts@.len(),
                total == tracks_points(ts@.take(j as int)).len(),
                tracks_points(ts@).len() <= usize::MAX,
            decreases ts@.len() - j,
        {
            assert(ts@.take(j + 1).drop_last() =~= ts@.take(j as int));
            proof {
                lemma_tracks_prefix(ts@, j + 1);
            }
            total = total + ts[j].total_points();
            j = j + 1;
        }
        assert(ts@.take(j as int) =~= ts@);
        total
    }

    /// The number of segments over all tracks.
    pub fn total_segments(&self) -> (r: usize)
        requires
            self.within_limits(),
        ensures
            r == tracks_segment_count(self.tracks@),
    {
        let ts = &self.tracks;
        let mut total: usize = 0;
        let mut j: usize = 0;
        while j < ts.len()
            invariant
                j <= ts@.len(),
                total == tracks_segment_count(ts@.take(j as int)),
                tracks_segment_count(ts@) <= usize::MAX,
            decreases ts@.len() - j,
        {
            assert(ts@.take(j + 1).drop_last() =~= ts@.take(j as int));
            proof {
                lemma_tracks_prefix(ts@, j + 1);
            }
            total = total + ts[j].segments.len();
            j = j + 1;
        }
        assert(ts@.take(j as int) =~= ts@);
        total
    }

    /// Whole seconds from the earliest to the latest track point timestamp,
    /// in whatever order they were recorded; `None` without timestamps.
    pub fn total_duration_seconds(&self) -> (r: Option<u64>)
        ensures
            r matches Some(d) ==> duration_of(timestamps(tracks_points(self.tracks@))) == Some(
                d as int,
            ),
            r is None <==> duration_of(timestamps(tracks_points(self.tracks@))) is None,
    {
        let all = self.get_all_points();
        match timestamp_span_of(all.as_slice()) {
            Some((lo, hi)) => {
                proof {
                    lemma_span_ordered(timestamps(all@));
                }
                Some(hi.seconds_since(&lo) as u64)
            },
            None => None,
        }
    }

    /// The duration as `HH:MM:SS`, hours not wrapped into days.
    pub fn total_duration_formatted(&self) -> (r: Option<String>)
        ensures
            r matches Some(s) <==> duration_of(timestamps(tracks_points(self.tracks@))) is Some,
            r matches Some(s) ==> s@ == clock_text(
                duration_of(timestamps(tracks_points(self.tracks@)))->0 as nat,
            ),
    {
        match self.total_duration_seconds() {
            Some(d) => Some(format_duration(d)),
            None => None,
        }
    }

    /// The average speed in thousandths of a km/h (metres per hour, rounded
    /// down) over a distance of `distance_m` metres; `None` when the duration
    /// is unknown or zero.
    pub fn average_speed_kmh(&self, distance_m: u64) -> (r: Option<u128>)
        ensures
            r matches Some(v) <==> self.speed_spec(distance_m as int) is Some,
            r matches Some(v) ==> v == self.speed_spec(distance_m as int)->0,
    {
        match self.total_duration_seconds() {
            Some(d) => if d == 0 {
                None
            } else {
                Some((distance_m as u128) * 3600 / (d as u128))
            },
            None => None,
        }
    }

    /// A fresh snapshot of every statistic, given the total track distance in
    /// metres.
    pub fn statistics(&self, total_distance_m: u64) -> (r: GpxStatistics)
        requires
            self.within_limits(),
        ensures
            r.total_tracks == self.tracks@.len(),
            r.total_waypoints == self.waypoints@.len(),
            r.total_segments == tracks_segment_count(self.tracks@),
            r.total_points == tracks_points(self.tracks@).len(),
            r.total_distance_m == total_distance_m,
            r.elevation_range == range_of(elevations(tracks_points(self.tracks@))),
            r.elevation_gain == (if tracks_have_pair(self.tracks@) {
                Some(tracks_gain(self.tracks@) as u128)
            } else {
                None
            }),
            r.elevation_loss == (if tracks_have_pair(self.tracks@) {
                Some(tracks_loss(self.tracks@) as u128)
            } else {
                None
            }),
            r.duration_seconds matches Some(d) <==> duration_of(
                timestamps(tracks_points(self.tracks@)),
            ) is Some,
            r.duration_seconds matches Some(d) ==> d == duration_of(
                timestamps(tracks_points(self.tracks@)),
            )->0,
            r.average_speed_m_per_h matches Some(v) <==> self.speed_spec(total_distance_m as int) is Some,
            r.average_speed_m_per_h matches Some(v) ==> v == self.speed_spec(total_distance_m as int)->0,
    {
        GpxStatistics {
            total_tracks: self.tracks.len(),
            total_waypoints: self.waypoints.len(),
            total_segments: self.total_segments(),
            total_points: self.total_points(),
            total_distance_m,
            elevation_range: self.elevation_range(),
            elevation_gain: self.total_elevation_gain(),
            elevation_loss: self.total_elevation_loss(),
            duration_seconds: self.total_duration_seconds(),
            average_speed_m_per_h: self.average_speed_kmh(total_distance_m),
        }
    }

    pub fn add_track(&mut self, track: Track)
        ensures
            final(self).tracks@ == old(self).tracks@.push(track),
            final(self).waypoints@ == old(self).waypoints@,
            final(self).metadata == old(self).metadata,
    {
        self.tracks.push(track);
    }

    pub fn add_waypoint(&mut self, waypoint: Waypoint)
        ensures
            final(self).tracks@ == old(self).tracks@,
            final(self).waypoints@ == old(self).waypoints@.push(waypoint),
            final(self).metadata == old(self).metadata,
    {
        self.waypoints.push(waypoint);
    }

    /// Whether the document has neither tracks nor waypoints.
    pub fn is_empty(&self) -> (r: bool)
        ensures
            r == (self.tracks@.len() == 0 && self.waypoints@.len() == 0),
    {
        self.tracks.len() == 0 && self.waypoints.len() == 0
    }

    /// The display name of each track, in order.
    pub fn track_names(&self) -> (r: Vec<String>)
        ensures
            r@.len() == self.tracks@.len(),
            forall|i: int|
                0 <= i < r@.len() ==> #[trigger] r@[i]@ == (match self.tracks@[i].name {
                    Some(n) => n@,
                    None => "Unnamed Track"@,
                }),
    {
        let mut out: Vec<String> = Vec::new();
        let mut i: usize = 0;
        while i < self.tracks.len()
            invariant
                i <= self.tracks@.len(),
                out@.len() == i,
                forall|t: int|
                    0 <= t < i ==> #[trigger] out@[t]@ == (match self.tracks@[t].name {
                        Some(n) => n@,
                        None => "Unnamed Track"@,
                    }),
            decreases self.tracks@.len() - i,
        {
            out.push(self.tracks[i].display_name());
            i = i + 1;
        }
        out
    }

    /// The display name of each waypoint, in order.
    pub fn waypoint_names(&self) -> (r: Vec<String>)
        ensures
            r@.len() == self.waypoints@.len(),
            forall|i: int| 0 <= i < r@.len() ==> #[trigger] r@[i]@ == waypoint_label(self.waypoints@[i]),
    {
        let mut out: Vec<String> = Vec::new();
        let mut i: usize = 0;
        while i < self.waypoints.len()
            invariant
                i <= self.waypoints@.len(),
                out@.len() == i,
                forall|t: int| 0 <= t < i ==> #[trigger] out@[t]@ == waypoint_label(self.waypoints@[t]),
            decreases self.waypoints@.len() - i,
        {
            out.push(self.waypoints[i].display_name());
            i = i + 1;
        }
        out
    }
}

impl Default for Gpx {
    fn default() -> (r: Gpx)
        ensures
            r.tracks@.len() == 0,
            r.waypoints@.len() == 0,
            r.metadata is None,
    {
        Gpx::new()
    }
}

/// A snapshot of the statistics of a document: counts, distance in metres,
/// elevations in millimetres, duration in seconds and speed in metres per
/// hour.
#[derive(Clone, Debug)]
pub struct GpxStatistics {
    pub total_tracks: usize,
    pub total_waypoints: usize,
    pub total_segments: usize,
    pub total_points: usize,
    pub total_distance_m: u64,
    pub elevation_range: Option<(i64, i64)>,
    pub elevation_gain: Option<u128>,
    pub elevation_loss: Option<u128>,
    pub duration_seconds: Option<u64>,
    pub average_speed_m_per_h: Option<u128>,
}

/// The largest gain or loss that `summary` writes.
pub const SUMMARY_BOUND: u128 = 0xffff_ffff_ffff_ffff_ffff_ffff_c465_35ff;

/// The lines of a statistics summary.
pub open spec fn summary_text(s: GpxStatistics) -> Seq<char> {
    let head = "GPX Statistics:\n- Tracks: "@ + nat_digits(s.total_tracks as nat)
        + "\n- Waypoints: "@ + nat_digits(s.total_waypoints as nat) + "\n- Segments: "@
        + nat_digits(s.total_segments as nat) + "\n- Points: "@ + nat_digits(
        s.total_points as nat,
    ) + "\n- Distance: "@ + decimal_text(s.total_distance_m as int, 1, 2) + " km"@;
    let a = match s.duration_seconds {
        Some(d) => head + "\n- Duration: "@ + clock_text(d as nat),
        None => head,
    };
    let b = match s.average_speed_m_per_h {
        Some(v) => a + "\n- Average speed: "@ + decimal_text(v as int, 1, 2) + " km/h"@,
        None => a,
    };
    let c = match s.elevation_range {
        Some((lo, hi)) => b + "\n- Elevation range: "@ + decimal_text(lo as int, 2, 1) + "m - "@
            + decimal_text(hi as int, 2, 1) + "m"@,
        None => b,
    };
    let d = match s.elevation_gain {
        Some(g) => c + "\n- Elevation gain: "@ + decimal_text(g as int, 2, 1) + "m"@,
        None => c,
    };
    match s.elevation_loss {
        Some(l) => d + "\n- Elevation loss: "@ + decimal_text(l as int, 2, 1) + "m"@,
        None => d,
    }
}

impl GpxStatistics {
    /// The height between the lowest and the highest point, in millimetres.
    pub fn elevation_difference(&self) -> (r: Option<i128>)
        ensures
            r == (match self.elevation_range {
                Some((lo, hi)) => Some((hi - lo) as i128),
                None => None,
            }),
    {
        match self.elevation_range {
            Some((lo, hi)) => Some(hi as i128 - lo as i128),
            None => None,
        }
    }

    /// The duration as `HH:MM:SS`.
    pub fn duration_formatted(&self) -> (r: Option<String>)
        ensures
            r matches Some(s) <==> self.duration_seconds is Some,
            r matches Some(s) ==> s@ == clock_text(self.duration_seconds->0 as nat),
    {
        match self.duration_seconds {
            Some(d) => Some(format_duration(d)),
            None => None,
        }
    }

    /// A readable summary, one statistic per line; distance and speed in
    /// kilometres with two decimals, elevations in metres with one.
    pub fn summary(&self) -> (r: String)
        requires
            self.average_speed_m_per_h matches Some(v) ==> v <= SUMMARY_BOUND,
            self.elevation_gain matches Some(g) ==> g <= SUMMARY_BOUND,
            self.elevation_loss matches Some(l) ==> l <= SUMMARY_BOUND,
        ensures
            r@ == summary_text(*self),
    {
        let mut out: Vec<char> = Vec::new();
        push_str(&mut out, "GPX Statistics:\n- Tracks: ");
        push_nat(&mut out, self.total_tracks as u128);
        push_str(&mut out, "\n- Waypoints: ");
        push_nat(&mut out, self.total_waypoints as u128);
        push_str(&mut out, "\n- Segments: ");
        push_nat(&mut out, self.total_segments as u128);
        push_str(&mut out, "\n- Points: ");
        push_nat(&mut out, self.total_points as u128);
        push_str(&mut out, "\n- Distance: ");
        push_scaled(&mut out, self.total_distance_m as u128, 1, 2);
        push_str(&mut out, " km");
        if let Some(d) = self.duration_seconds {
            push_str(&mut out, "\n- Duration: ");
            let f = format_duration(d);
            let cs = crate::text::chars_of(f.as_str());
            crate::text::push_chars(&mut out, cs.as_slice());
        }
        if let Some(v) = self.average_speed_m_per_h {
            push_str(&mut out, "\n- Average speed: ");
            push_scaled(&mut out, v, 1, 2);
            push_str(&mut out, " km/h");
        }
        if let Some((lo, hi)) = self.elevation_range {
            push_str(&mut out, "\n- Elevation range: ");
            push_decimal(&mut out, lo, 2, 1);
            push_str(&mut out, "m - ");
            push_decimal(&mut out, hi, 2, 1);
            push_str(&mut out, "m");
        }
        if let Some(g) = self.elevation_gain {
            push_str(&mut out, "\n- Elevation gain: ");
            push_scaled(&mut out, g, 2, 1);
            push_str(&mut out, "m");
        }
        if let Some(l) = self.elevation_loss {
            push_str(&mut out, "\n- Elevation loss: ");
            push_scaled(&mut out, l, 2, 1);
            push_str(&mut out, "m");
        }
        assert(out@ =~= summary_text(*self));
        string_of(out.as_slice())
    }
}

proof fn lemma_no_elevations(ps: Seq<Point>)
    requires
        forall|i: int| 0 <= i < ps.len() ==> (#[trigger] ps[i]).elevation is None,
    ensures
        elevations(ps) == Seq::<i64>::empty(),
    decreases ps.len(),
{
    if ps.len() > 0 {
        lemma_no_elevations(ps.drop_last());
    }
}

proof fn lemma_segments_without_elevation(segs: Seq<crate::track::TrackSegment>)
    requires
        forall|k: int, i: int|
            0 <= k < segs.len() && 0 <= i < segs[k].points@.len() ==> (
            #[trigger] segs[k].points@[i]).elevation is None,
    ensures
        forall|i: int|
            0 <= i < segments_points(segs).len() ==> (#[trigger] segments_points(segs)[i]).elevation is None,
    decreases segs.len(),
{
    if segs.len() > 0 {
        let rest = segs.drop_last();
        assert forall|k: int, i: int|
            0 <= k < rest.len() && 0 <= i < rest[k].points@.len() implies (
            #[trigger] rest[k].points@[i]).elevation is None by {
            assert(rest[k] == segs[k]);
        }
        lemma_segments_without_elevation(rest);
        let a = segments_points(rest);
        let b = segs.last().points@;
        assert forall|i: int| 0 <= i < segments_points(segs).len() implies (
        #[trigger] segments_points(segs)[i]).elevation is None by {
            if i >= a.len() {
                assert(segments_points(segs)[i] == segs[segs.len() - 1].points@[i - a.len()]);
            } else {
                assert(segments_points(segs)[i] == a[i]);
            }
        }
    }
}

proof fn lemma_tracks_without_elevation(ts: Seq<Track>)
    requires
        forall|j: int, k: int, i: int|
            0 <= j < ts.len() && 0 <= k < ts[j].segments@.len() && 0 <= i
                < ts[j].segments@[k].points@.len() ==> (
            #[trigger] ts[j].segments@[k].points@[i]).elevation is None,
    ensures
        forall|i: int|
            0 <= i < tracks_points(ts).len() ==> (#[trigger] tracks_points(ts)[i]).elevation is None,
    decreases ts.len(),
{
    if ts.len() > 0 {
        let rest = ts.drop_last();
        assert forall|j: int, k: int, i: int|
            0 <= j < rest.len() && 0 <= k < rest[j].segments@.len() && 0 <= i
                < rest[j].segments@[k].points@.len() implies (
            #[trigger] rest[j].segments@[k].points@[i]).elevation is None by {
            assert(rest[j] == ts[j]);
        }
        lemma_tracks_without_elevation(rest);
        let last = ts[ts.len() - 1];
        assert forall|k: int, i: int|
            0 <= k < last.segments@.len() && 0 <= i < last.segments@[k].points@.len() implies (
            #[trigger] last.segments@[k].points@[i]).elevation is None by {
            assert(ts[ts.len() - 1].segments@[k].points@[i] == last.segments@[k].points@[i]);
        }
        lemma_segments_without_elevation(last.segments@);
        let a = tracks_points(rest);
        assert forall|i: int| 0 <= i < tracks_points(ts).len() implies (
        #[trigger] tracks_points(ts)[i]).elevation is None by {
            if i >= a.len() {
                assert(tracks_points(ts)[i] == segments_points(last.segments@)[i - a.len()]);
            } else {
                assert(tracks_points(ts)[i] == a[i]);
            }
        }
    }
}

/// When no track point carries an elevation, the document has no elevation
/// range, and its elevation gain and loss are unavailable (no consecutive pair
/// has elevations at both ends).
pub proof fn lemma_no_elevation_no_metrics(g: Gpx)
    requires
        forall|j: int, k: int, i: int|
            0 <= j < g.tracks@.len() && 0 <= k < g.tracks@[j].segments@.len() && 0 <= i
                < g.tracks@[j].segments@[k].points@.len() ==> (
            #[trigger] g.tracks@[j].segments@[k].points@[i]).elevation is None,
    ensures
        range_of(elevations(tracks_points(g.tracks@))) is None,
        !tracks_have_pair(g.tracks@),
{
    let ts = g.tracks@;
    lemma_tracks_without_elevation(ts);
    lemma_no_elevations(tracks_points(ts));
    assert forall|j: int| 0 <= j < ts.len() implies !segments_have_pair(#[trigger] ts[j].segments@) by {
        let segs = ts[j].segments@;
        assert forall|k: int| 0 <= k < segs.len() implies !run_has_pair(#[trigger] segs[k].points@) by {
            let ps = segs[k].points@;
            assert forall|i: int| 0 < i < ps.len() implies !#[trigger] pair_has_elevations(
                ps[i - 1],
                ps[i],
            ) by {
                assert(g.tracks@[j].segments@[k].points@[i] == ps[i]);
            }
        }
    }
}

/// A document whose only track is one segment of two points stamped with the
/// same instant has no average speed, whatever the distance.
pub proof fn lemma_equal_timestamps_no_speed(g: Gpx, distance_m: int)
    requires
        g.tracks@.len() == 1,
        g.tracks@[0].segments@.len() == 1,
        g.tracks@[0].segments@[0].points@.len() == 2,
        g.tracks@[0].segments@[0].points@[0].time is Some,
        g.tracks@[0].segments@[0].points@[0].time == g.tracks@[0].segments@[0].points@[1].time,
    ensures
        g.speed_spec(distance_m) is None,
{
    let ts = g.tracks@;
    let segs = ts[0].segments@;
    let ps = segs[0].points@;
    assert(ts.drop_last() =~= Seq::<Track>::empty());
    assert(segs.drop_last() =~= Seq::<crate::track::TrackSegment>::empty());
    assert(segments_points(segs.drop_last()) == Seq::<Point>::empty());
    assert(segs.last() == segs[0]);
    assert(segments_points(segs) =~= ps);
    assert(tracks_points(ts.drop_last()) == Seq::<Point>::empty());
    assert(ts.last() == ts[0]);
    assert(tracks_points(ts) =~= ps);
    let t = ps[0].time->0;
    let p1 = ps.drop_last();
    assert(p1.drop_last() =~= Seq::<Point>::empty());
    assert(timestamps(p1.drop_last()) == Seq::<Timestamp>::empty());
    assert(p1.last() == ps[0]);
    assert(ps.last() == ps[1]);
    assert(timestamps(p1) =~= seq![t]);
    assert(timestamps(ps) =~= seq![t, t]);
    let s2 = seq![t, t];
    assert(s2.drop_last() =~= seq![t]);
    assert(seq![t].drop_last() =~= Seq::<Timestamp>::empty());
    assert(span_of(Seq::<Timestamp>::empty()) is None);
    assert(span_of(seq![t]) == Some((t, t)));
    assert(span_of(s2) == Some((t, t)));
}

} // verus!
