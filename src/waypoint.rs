//! Waypoints: named points of interest, independent of tracks.
use vstd::prelude::*;
use crate::text::{decimal_text, push_decimal, push_str, string_of, chars_of, push_chars};
use crate::time::{utc_clock_text, Timestamp};

verus! {

/// A point of interest: latitude and longitude in nanodegrees, optional name,
/// elevation in millimetres and timestamp.
#[derive(Clone, Debug)]
pub struct Waypoint {
    pub lat: i64,
    pub lon: i64,
    pub name: Option<String>,
    pub elevation: Option<i64>,
    pub time: Option<Timestamp>,
}

/// The name shown for a waypoint: its own, or `Waypoint (lat, lon)` with four
/// decimal places.
pub open spec fn waypoint_label(w: Waypoint) -> Seq<char> {
    match w.name {
        Some(n) => n@,
        None => "Waypoint ("@ + decimal_text(w.lat as int, 5, 4) + ", "@ + decimal_text(
            w.lon as int,
            5,
            4,
        ) + ")"@,
    }
}

/// `label at (lat, lon)` with six decimal places, then `, elevation: Em` and
/// `, time: ...` for what the waypoint carries.
pub open spec fn waypoint_description(w: Waypoint) -> Seq<char> {
    let head = waypoint_label(w) + " at ("@ + decimal_text(w.lat as int, 3, 6) + ", "@
        + decimal_text(w.lon as int, 3, 6) + ")"@;
    let with_ele = match w.elevation {
        Some(e) => head + ", elevation: "@ + decimal_text(e as int, 2, 1) + "m"@,
        None => head,
    };
    match w.time {
        Some(t) => with_ele + ", time: "@ + utc_clock_text(t.unix_seconds(), t.subsec_nanos()),
        None => with_ele,
    }
}

impl Waypoint {
    pub fn new(lat: i64, lon: i64) -> (r: Waypoint)
        ensures
            r == (Waypoint { lat, lon, name: None, elevation: None, time: None }),
    {
        Waypoint { lat, lon, name: None, elevation: None, time: None }
    }

    pub fn with_name(lat: i64, lon: i64, name: String) -> (r: Waypoint)
        ensures
            r == (Waypoint { lat, lon, name: Some(name), elevation: None, time: None }),
    {
        Waypoint { lat, lon, name: Some(name), elevation: None, time: None }
    }

    pub fn with_details(
        lat: i64,
        lon: i64,
        name: Option<String>,
        elevation: Option<i64>,
        time: Option<Timestamp>,
    ) -> (r: Waypoint)
        ensures
            r == (Waypoint { lat, lon, name, elevation, time }),
    {
        Waypoint { lat, lon, name, elevation, time }
    }

    fn push_label(&self, out: &mut Vec<char>)
        ensures
            final(out)@ == old(out)@ + waypoint_label(*self),
    {
        match &self.name {
            Some(n) => {
                let cs = chars_of(n.as_str());
                push_chars(out, cs.as_slice());
            },
            None => {
                push_str(out, "Waypoint (");
                push_decimal(out, self.lat, 5, 4);
                push_str(out, ", ");
                push_decimal(out, self.lon, 5, 4);
                push_str(out, ")");
            },
        }
    }

    /// The stored name, or `Waypoint (lat, lon)` with four decimal places.
    pub fn display_name(&self) -> (r: String)
        ensures
            r@ == waypoint_label(*self),
    {
        let mut out: Vec<char> = Vec::new();
        self.push_label(&mut out);
        assert(out@ =~= waypoint_label(*self));
        string_of(out.as_slice())
    }

    pub fn has_elevation(&self) -> (r: bool)
        ensures
            r == self.elevation is Some,
    {
        self.elevation.is_some()
    }

    pub fn has_time(&self) -> (r: bool)
        ensures
            r == self.time is Some,
    {
        self.time.is_some()
    }

    /// One line naming the waypoint, its coordinates and, when present, its
    /// elevation and time.
    pub fn description(&self) -> (r: String)
        ensures
            r@ == waypoint_description(*self),
    {
        let mut out: Vec<char> = Vec::new();
        self.push_label(&mut out);
        push_str(&mut out, " at (");
        push_decimal(&mut out, self.lat, 3, 6);
        push_str(&mut out, ", ");
        push_decimal(&mut out, self.lon, 3, 6);
        push_str(&mut out, ")");
        let ghost head = out@;
        if let Some(e) = self.elevation {
            push_str(&mut out, ", elevation: ");
            push_decimal(&mut out, e, 2, 1);
            push_str(&mut out, "m");
        }
        if let Some(t) = self.time {
            push_str(&mut out, ", time: ");
            let clock = t.to_utc_clock();
            let cs = chars_of(clock.as_str());
            push_chars(&mut out, cs.as_slice());
        }
        assert(out@ =~= waypoint_description(*self));
        string_of(out.as_slice())
    }
}

} // verus!
