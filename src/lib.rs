//! GPS track recordings (GPX): an in-memory document model, an XML codec and
//! trip statistics, all over exact fixed-point values.
//!
//! Coordinates are held in nanodegrees, elevations in millimetres, distances in
//! metres and instants as seconds and nanoseconds since the Unix epoch. The
//! great-circle distance itself is floating-point work left to the caller; the
//! statistics take the resulting distance in metres.
pub mod codec;
pub mod gpx;
pub mod point;
pub mod text;
pub mod time;
pub mod track;
pub mod waypoint;
pub mod xml;

pub use codec::{default_creator, default_version, DecodeError};
pub use gpx::{Gpx, GpxStatistics, Metadata};
pub use point::Point;
pub use text::{decimal_string, parse_decimal};
pub use time::{format_duration, Timestamp};
pub use track::{Track, TrackSegment};
pub use waypoint::Waypoint;
