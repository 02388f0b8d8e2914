use chrono::{TimeZone, Utc};
use gpx_extractor::{
    decimal_string, format_duration, parse_decimal, DecodeError, Gpx, GpxStatistics, Metadata,
    Point, Timestamp, Track, TrackSegment, Waypoint,
};

fn stamp(y: i32, mo: u32, d: u32, h: u32, mi: u32, s: u32) -> Timestamp {
    let t = Utc.with_ymd_and_hms(y, mo, d, h, mi, s).unwrap();
    Timestamp::new(t.timestamp(), t.timestamp_subsec_nanos()).unwrap()
}

fn chars(s: &str) -> Vec<char> {
    s.chars().collect()
}

#[test]
fn decode_two_points_with_elevation() {
    let xml = r#"<gpx><trk><trkseg><trkpt lat="40.7128" lon="-74.0060"><ele>10.0</ele></trkpt><trkpt lat="40.7589" lon="-73.9851"><ele>15.0</ele></trkpt></trkseg></trk></gpx>"#;
    let gpx = Gpx::try_from_str(xml).unwrap();
    assert_eq!(gpx.tracks.len(), 1);
    assert_eq!(gpx.total_segments(), 1);
    assert_eq!(gpx.total_points(), 2);
    assert_eq!(gpx.elevation_range(), Some((10_000, 15_000)));
    assert_eq!(gpx.total_elevation_gain(), Some(5_000));
    assert_eq!(gpx.total_elevation_loss(), Some(0));
    let p = gpx.tracks[0].segments[0].points[1];
    assert_eq!((p.lat, p.lon), (40_758_900_000, -73_985_100_000));
}

#[test]
fn duration_of_two_timestamps() {
    let mut track = Track::new();
    track.add_segment(TrackSegment::with_points(vec![
        Point::with_time(0, 0, None, stamp(2024, 7, 11, 12, 30, 45)),
        Point::with_time(0, 0, None, stamp(2024, 7, 11, 10, 0, 0)),
    ]));
    let mut gpx = Gpx::new();
    gpx.add_track(track);
    assert_eq!(gpx.total_duration_seconds(), Some(9045));
    assert_eq!(gpx.total_duration_formatted(), Some("02:30:45".to_string()));
    assert_eq!(gpx.average_speed_kmh(9045), Some(3600));
}

#[test]
fn empty_document_has_no_metrics() {
    let gpx = Gpx::try_from_str("<gpx></gpx>").unwrap();
    assert_eq!(gpx.tracks.len(), 0);
    assert_eq!(gpx.waypoints.len(), 0);
    assert_eq!(gpx.elevation_range(), None);
    assert_eq!(gpx.total_elevation_gain(), None);
    assert_eq!(gpx.total_elevation_loss(), None);
    assert_eq!(gpx.total_duration_seconds(), None);
    assert_eq!(gpx.average_speed_kmh(0), None);
    let stats = gpx.statistics(0);
    assert_eq!(stats.total_distance_m, 0);
    assert_eq!(stats.average_speed_m_per_h, None);
}

#[test]
fn malformed_input_fails_with_a_message() {
    let err = Gpx::try_from_str("not valid xml at all").unwrap_err();
    assert_eq!(err, DecodeError::Syntax);
    assert!(!err.message().is_empty());
    assert_eq!(err.message(), "malformed XML");
}

#[test]
fn decode_errors_by_kind() {
    assert_eq!(Gpx::try_from_str("<trk></trk>").unwrap_err(), DecodeError::Root);
    assert_eq!(
        Gpx::try_from_str(r#"<gpx><wpt lat="1"/></gpx>"#).unwrap_err(),
        DecodeError::Coordinate
    );
    assert_eq!(
        Gpx::try_from_str(r#"<gpx><wpt lat="1" lon="x"/></gpx>"#).unwrap_err(),
        DecodeError::Coordinate
    );
    assert_eq!(
        Gpx::try_from_str(r#"<gpx><trk><trkseg><trkpt lat="1" lon="2"><ele>high</ele></trkpt></trkseg></trk></gpx>"#)
            .unwrap_err(),
        DecodeError::Elevation
    );
    assert_eq!(
        Gpx::try_from_str(r#"<gpx><trk><trkseg><trkpt lat="1" lon="2"><time>noon</time></trkpt></trkseg></trk></gpx>"#)
            .unwrap_err(),
        DecodeError::Time
    );
    assert!(matches!(Gpx::try_from_str(""), Err(DecodeError::Syntax)));
    assert!(matches!(Gpx::try_from_str("<gpx>"), Err(DecodeError::Syntax)));
    assert!(matches!(Gpx::try_from_str("<gpx></gpx><gpx></gpx>"), Err(DecodeError::Syntax)));
}

#[test]
fn decode_reads_times_entities_comments_and_cdata() {
    let xml = "\u{feff}<?xml version=\"1.0\"?>\n<!-- recorded -->\n<gpx xmlns=\"http://www.topografix.com/GPX/1/1\">\n<wpt lat='-1.5' lon=\"+2\"><name> Caf&#233; &amp; Bar </name><ele>-3.25</ele><time>2024-07-11T10:00:00.5+02:00</time></wpt>\n<trk><name><![CDATA[a<b]]></name><extensions><x/></extensions></trk></gpx>\n";
    let gpx = Gpx::try_from_str(xml).unwrap();
    let w = &gpx.waypoints[0];
    assert_eq!((w.lat, w.lon), (-1_500_000_000, 2_000_000_000));
    assert_eq!(w.name, Some("Café & Bar".to_string()));
    assert_eq!(w.elevation, Some(-3_250));
    let t = w.time.unwrap();
    assert_eq!(t.seconds(), Utc.with_ymd_and_hms(2024, 7, 11, 8, 0, 0).unwrap().timestamp());
    assert_eq!(t.nanoseconds(), 500_000_000);
    assert_eq!(gpx.tracks[0].name, Some("a<b".to_string()));
    assert_eq!(gpx.tracks[0].segments.len(), 0);
}

#[test]
fn encode_writes_every_field() {
    let mut gpx = Gpx::new();
    gpx.metadata = Some(Metadata { time: Some("2024-07-11T17:16:43Z".to_string()) });
    let mut track = Track::with_name("A & B".to_string());
    track.add_segment(TrackSegment::with_points(vec![Point::with_time(
        1_500_000_000,
        -2_000_000_000,
        Some(10_500),
        stamp(2024, 7, 11, 10, 0, 0),
    )]));
    gpx.add_track(track);
    gpx.add_waypoint(Waypoint::with_name(0, 0, "<x>".to_string()));
    assert_eq!(
        gpx.to_xml(),
        "<?xml version=\"1.0\" encoding=\"UTF-8\"?>\n<gpx version=\"1.1\" creator=\"gpx-extractor\"><metadata><time>2024-07-11T17:16:43Z</time></metadata><trk><name>A &amp; B</name><trkseg><trkpt lat=\"1.500000000\" lon=\"-2.000000000\"><ele>10.500</ele><time>2024-07-11T10:00:00Z</time></trkpt></trkseg></trk><wpt lat=\"0.000000000\" lon=\"0.000000000\"><name>&lt;x&gt;</name></wpt></gpx>"
    );
}

#[test]
fn round_trip_keeps_counts_and_values() {
    let mut gpx = Gpx::new();
    let mut track = Track::with_name("Q's \"run\"\r!".to_string());
    track.add_segment(TrackSegment::with_points(vec![
        Point::with_elevation(1, -2, 3),
        Point::with_time(4, 5, None, stamp(2000, 1, 1, 0, 0, 0)),
    ]));
    track.add_segment(TrackSegment::new());
    gpx.add_track(track);
    gpx.add_track(Track::new());
    gpx.add_waypoint(Waypoint::new(7, 8));
    let back = Gpx::try_from_str(&gpx.to_xml()).unwrap();
    assert_eq!(back.tracks.len(), 2);
    assert_eq!(back.waypoints.len(), 1);
    assert_eq!(back.total_points(), 2);
    assert_eq!(back.total_segments(), 2);
    assert_eq!(back.tracks[0].name, gpx.tracks[0].name);
    assert_eq!(back.tracks[0].segments[0].points, gpx.tracks[0].segments[0].points);
}

#[test]
fn no_elevation_anywhere_gives_no_elevation_metrics() {
    let mut track = Track::new();
    track.add_segment(TrackSegment::with_points(vec![Point::new(0, 0), Point::new(1, 1)]));
    track.add_segment(TrackSegment::with_points(vec![Point::new(2, 2)]));
    let mut gpx = Gpx::new();
    gpx.add_track(track);
    gpx.add_waypoint(Waypoint::with_details(0, 0, None, Some(5), None));
    assert_eq!(gpx.elevation_range(), None);
    assert_eq!(gpx.total_elevation_gain(), None);
    assert_eq!(gpx.total_elevation_loss(), None);
}

#[test]
fn gain_and_loss_stay_within_segments() {
    let mut track = Track::new();
    track.add_segment(TrackSegment::with_points(vec![
        Point::with_elevation(0, 0, 100),
        Point::with_elevation(0, 0, 400),
    ]));
    track.add_segment(TrackSegment::with_points(vec![
        Point::with_elevation(0, 0, 50),
        Point::with_elevation(0, 0, 20),
    ]));
    let mut gpx = Gpx::new();
    gpx.add_track(track);
    assert_eq!(gpx.total_elevation_gain(), Some(300));
    assert_eq!(gpx.total_elevation_loss(), Some(30));
    assert_eq!(gpx.elevation_range(), Some((20, 400)));
}

#[test]
fn summary_exact_text() {
    let stats = GpxStatistics {
        total_tracks: 2,
        total_waypoints: 3,
        total_segments: 4,
        total_points: 1000,
        total_distance_m: 25_505,
        elevation_range: Some((-1_250, 300_000)),
        elevation_gain: Some(200_049),
        elevation_loss: None,
        duration_seconds: Some(360_000),
        average_speed_m_per_h: Some(12_750),
    };
    assert_eq!(
        stats.summary(),
        "GPX Statistics:\n- Tracks: 2\n- Waypoints: 3\n- Segments: 4\n- Points: 1000\n- Distance: 25.51 km\n- Duration: 100:00:00\n- Average speed: 12.75 km/h\n- Elevation range: -1.3m - 300.0m\n- Elevation gain: 200.0m"
    );
    assert_eq!(stats.duration_formatted(), Some("100:00:00".to_string()));
    assert_eq!(stats.elevation_difference(), Some(301_250));
}

#[test]
fn numbers_as_text() {
    assert_eq!(decimal_string(-74_006_000_000, 5, 4), "-74.0060");
    assert_eq!(decimal_string(25_505, 1, 2), "25.51");
    assert_eq!(decimal_string(7, 0, 0), "7");
    assert_eq!(format_duration(0), "00:00:00");
    assert_eq!(format_duration(3_599), "00:59:59");
    assert_eq!(parse_decimal(&chars("40.7128"), 9), Some(40_712_800_000));
    assert_eq!(parse_decimal(&chars("-.5"), 3), Some(-500));
    assert_eq!(parse_decimal(&chars("12.34567"), 3), Some(12_345));
    assert_eq!(parse_decimal(&chars("3."), 0), Some(3));
    assert_eq!(parse_decimal(&chars("."), 3), None);
    assert_eq!(parse_decimal(&chars(""), 3), None);
    assert_eq!(parse_decimal(&chars("1e3"), 3), None);
    assert_eq!(parse_decimal(&chars("9223372036854775807"), 0), Some(i64::MAX));
    assert_eq!(parse_decimal(&chars("-9223372036854775808"), 0), Some(i64::MIN));
    assert_eq!(parse_decimal(&chars("9223372036854775808"), 0), None);
    assert_eq!(parse_decimal(&chars("99999999999999999999999"), 0), None);
}

#[test]
fn timestamps_in_range_only() {
    assert!(Timestamp::new(0, 999_999_999).is_some());
    assert!(Timestamp::new(0, 1_000_000_000).is_none());
    assert!(Timestamp::new(253_402_300_800, 0).is_none());
    let t = Timestamp::parse_rfc3339("2024-07-11T10:00:00Z").unwrap();
    assert_eq!(t.to_rfc3339(), "2024-07-11T10:00:00Z");
    assert_eq!(t.to_utc_clock(), "2024-07-11 10:00:00 UTC");
    assert!(Timestamp::parse_rfc3339("yesterday").is_none());
    let later = Timestamp::new(t.seconds() + 10, 0).unwrap();
    let early = Timestamp::new(t.seconds(), 500).unwrap();
    assert_eq!(later.seconds_since(&early), 9);
    assert!(early.is_before(&later));
    assert!(!later.is_before(&early));
}

#[test]
fn written_numbers_read_back() {
    for v in [0i64, 7, -1, 40_712_800_000, -74_006_000_000, i64::MAX, i64::MIN] {
        for p in [0u32, 3, 9] {
            let text = decimal_string(v, 0, p);
            assert_eq!(parse_decimal(&chars(&text), p), Some(v), "{} {}", text, p);
        }
    }
    assert_eq!(decimal_string(-5, 0, 3), "-0.005");
}

#[test]
fn leap_second_counts_into_next_minute() {
    let leap = Timestamp::parse_rfc3339("2016-12-31T23:59:60Z").unwrap();
    let next = Timestamp::parse_rfc3339("2017-01-01T00:00:00Z").unwrap();
    assert_eq!(leap, next);
    let xml = r#"<gpx><trk><trkseg><trkpt lat="0" lon="0"><time>2016-12-31T23:59:60.5Z</time></trkpt></trkseg></trk></gpx>"#;
    let gpx = Gpx::try_from_str(xml).unwrap();
    let t = gpx.tracks[0].segments[0].points[0].time.unwrap();
    assert_eq!((t.seconds(), t.nanoseconds()), (next.seconds(), 500_000_000));
}

#[test]
fn point_without_coordinates_fails() {
    let xml = r#"<gpx><trk><trkseg><trkpt lon="2"></trkpt></trkseg></trk></gpx>"#;
    assert_eq!(Gpx::try_from_str(xml).unwrap_err(), DecodeError::Coordinate);
    assert_eq!(Gpx::try_from_str("<gpx><trk></gpx>").unwrap_err(), DecodeError::Syntax);
}
