use chrono::{TimeZone, Utc};
use std::convert::TryFrom;
use gpx_extractor::{Gpx, GpxStatistics, Point, Timestamp, Track, TrackSegment};

fn deg(x: f64) -> i64 {
    (x * 1e9).round() as i64
}

fn metres(x: f64) -> i64 {
    (x * 1e3).round() as i64
}

fn stamp(y: i32, mo: u32, d: u32, h: u32, mi: u32, s: u32) -> Timestamp {
    let t = Utc.with_ymd_and_hms(y, mo, d, h, mi, s).unwrap();
    Timestamp::new(t.timestamp(), t.timestamp_subsec_nanos()).unwrap()
}

#[test]
fn parser_test_gpx_new() {
    let gpx = Gpx::new();
    assert!(gpx.tracks.is_empty());
    assert!(gpx.waypoints.is_empty());
    assert!(gpx.is_empty());
    assert_eq!(gpx.total_points(), 0);
    assert!(gpx.get_all_points().is_empty());
}

#[test]
fn parser_test_gpx_from_empty_xml() {
    let gpx = Gpx::try_from_str("<gpx></gpx>").unwrap();
    assert!(gpx.tracks.is_empty());
    assert!(gpx.waypoints.is_empty());
}

#[test]
fn parser_test_gpx_try_from_str_success() {
    let xml = r#"<gpx><trk><name>Test</name></trk></gpx>"#;
    let result = Gpx::try_from_str(xml);
    assert!(result.is_ok());
    let gpx = result.unwrap();
    assert_eq!(gpx.tracks.len(), 1);
}

#[test]
fn parser_test_gpx_try_from_str_error() {
    let invalid_xml = "not valid xml at all";
    let result = Gpx::try_from_str(invalid_xml);
    assert!(result.is_err());
}

#[test]
fn parser_test_gpx_error_handling_preserves_information() {
    let malformed_xml = "<gpx><trk><invalid></trk></gpx>";
    let result = Gpx::try_from_str(malformed_xml);

    match result {
        Ok(_) => panic!("Expected error for malformed XML"),
        Err(e) => {
            let error_string = e.message();
            assert!(!error_string.is_empty());
        }
    }
}

#[test]
fn parser_test_gpx_try_from_trait_success() {
    let xml = r#"<gpx><trk><name>TryFrom Test</name></trk></gpx>"#;
    let gpx = Gpx::try_from(xml).unwrap();
    assert_eq!(gpx.tracks.len(), 1);
    assert_eq!(gpx.tracks[0].name.as_ref().unwrap(), "TryFrom Test");
}

#[test]
fn parser_test_gpx_try_from_trait_error() {
    let invalid_xml = "not valid xml at all";
    let result = Gpx::try_from(invalid_xml);
    assert!(result.is_err());
}

#[test]
fn parser_test_gpx_try_from_trait_vs_try_from_str() {
    let xml = r#"<gpx><trk><name>Comparison Test</name></trk></gpx>"#;

    let gpx1 = Gpx::try_from_str(xml).unwrap();
    let gpx2 = Gpx::try_from(xml).unwrap();

    assert_eq!(gpx1.tracks.len(), gpx2.tracks.len());
    assert_eq!(gpx1.tracks[0].name, gpx2.tracks[0].name);
}

#[test]
fn parser_test_gpx_from_invalid_xml_returns_error() {
    let result = Gpx::try_from_str("invalid xml");
    assert!(result.is_err());
}

#[test]
fn parser_test_gpx_with_track() {
    let xml = r#"
    <gpx>
        <trk>
            <name>Test Track</name>
            <trkseg>
                <trkpt lat="40.7128" lon="-74.0060">
                    <ele>10.0</ele>
                </trkpt>
                <trkpt lat="40.7589" lon="-73.9851">
                    <ele>15.0</ele>
                </trkpt>
            </trkseg>
        </trk>
    </gpx>"#;

    let gpx = Gpx::try_from_str(xml).unwrap();
    assert_eq!(gpx.tracks.len(), 1);
    assert_eq!(gpx.tracks[0].segments.len(), 1);
    assert_eq!(gpx.tracks[0].segments[0].points.len(), 2);
    assert_eq!(gpx.total_points(), 2);
    assert_eq!(gpx.tracks[0].segments[0].points[0].lat, deg(40.7128));
}

#[test]
fn parser_test_gpx_add_track() {
    let mut gpx = Gpx::new();
    let mut track = Track::with_name("Test Track".to_string());
    let segment = TrackSegment::with_points(vec![
        Point::new(deg(40.7128), deg(-74.0060)),
        Point::new(deg(40.7589), deg(-73.9851)),
    ]);
    track.add_segment(segment);

    gpx.add_track(track);
    assert_eq!(gpx.tracks.len(), 1);
    assert_eq!(gpx.total_points(), 2);
    assert!(!gpx.is_empty());
}

#[test]
fn parser_test_gpx_statistics() {
    let mut gpx = Gpx::new();
    let mut track = Track::with_name("Test Track".to_string());
    let segment = TrackSegment::with_points(vec![
        Point::with_elevation(deg(40.7128), deg(-74.0060), metres(10.0)),
        Point::with_elevation(deg(40.7589), deg(-73.9851), metres(20.0)),
    ]);
    track.add_segment(segment);
    gpx.add_track(track);

    let stats = gpx.statistics(5_340);
    assert_eq!(stats.total_tracks, 1);
    assert_eq!(stats.total_waypoints, 0);
    assert_eq!(stats.total_segments, 1);
    assert_eq!(stats.total_points, 2);
    assert_eq!(stats.elevation_range, Some((metres(10.0), metres(20.0))));
    assert_eq!(stats.elevation_difference(), Some(metres(10.0) as i128));
}

#[test]
fn parser_test_gpx_track_names() {
    let mut gpx = Gpx::new();
    gpx.add_track(Track::with_name("Track 1".to_string()));
    gpx.add_track(Track::new());

    let names = gpx.track_names();
    assert_eq!(names.len(), 2);
    assert_eq!(names[0], "Track 1");
    assert_eq!(names[1], "Unnamed Track");
}

#[test]
fn parser_test_gpx_to_xml() {
    let mut gpx = Gpx::new();
    let mut track = Track::with_name("Test Track".to_string());
    let segment = TrackSegment::with_points(vec![
        Point::new(deg(40.7128), deg(-74.0060)),
        Point::new(deg(40.7589), deg(-73.9851)),
    ]);
    track.add_segment(segment);
    gpx.add_track(track);

    let xml_output = gpx.to_xml();

    assert!(xml_output.contains("<?xml version=\"1.0\" encoding=\"UTF-8\"?>"));
    assert!(xml_output.contains("<gpx"));
    assert!(xml_output.contains("version=\"1.1\""));
    assert!(xml_output.contains("creator=\"gpx-extractor\""));
    assert!(xml_output.contains("Test Track"));
    assert!(xml_output.contains("40.7128"));
    assert!(xml_output.contains("-74.006"));
}

#[test]
fn parser_test_gpx_display_trait() {
    let mut gpx = Gpx::new();
    let mut track = Track::with_name("Display Test".to_string());
    let segment = TrackSegment::with_points(vec![Point::new(deg(1.0), deg(2.0))]);
    track.add_segment(segment);
    gpx.add_track(track);

    let display_output = gpx.to_xml();
    assert!(display_output.contains("Display Test"));
    assert!(display_output.contains("<?xml"));
}

#[test]
fn parser_test_gpx_into_string() {
    let mut gpx = Gpx::new();
    let mut track = Track::with_name("Into Test".to_string());
    let segment = TrackSegment::with_points(vec![Point::new(deg(3.0), deg(4.0))]);
    track.add_segment(segment);
    gpx.add_track(track);

    let string_output: String = gpx.into();
    assert!(string_output.contains("Into Test"));
    assert!(string_output.contains("<?xml"));
}

#[test]
fn parser_test_gpx_roundtrip() {
    let input_xml = r#"<?xml version="1.0" encoding="UTF-8"?>
    <gpx version="1.1" creator="test">
        <trk>
            <name>Test Track</name>
            <trkseg>
                <trkpt lat="40.7128" lon="-74.0060">
                    <ele>10.5</ele>
                </trkpt>
            </trkseg>
        </trk>
        <wpt lat="40.7589" lon="-73.9851">
            <name>Test Waypoint</name>
            <ele>15.0</ele>
        </wpt>
    </gpx>"#;

    let gpx = Gpx::try_from_str(input_xml).unwrap();
    let serialized_xml = gpx.to_xml();
    let reparsed_gpx = Gpx::try_from_str(&serialized_xml).unwrap();

    assert_eq!(gpx.tracks.len(), reparsed_gpx.tracks.len());
    assert_eq!(gpx.waypoints.len(), reparsed_gpx.waypoints.len());
    assert_eq!(gpx.total_points(), reparsed_gpx.total_points());
}

#[test]
fn parser_test_statistics_summary() {
    let stats = GpxStatistics {
        total_tracks: 2,
        total_waypoints: 3,
        total_segments: 4,
        total_points: 1000,
        total_distance_m: 25_500,
        elevation_range: Some((metres(100.0), metres(300.0))),
        elevation_gain: Some(200_000),
        elevation_loss: Some(50_000),
        duration_seconds: Some(7200),
        average_speed_m_per_h: Some(12_750),
    };

    let summary = stats.summary();
    assert!(summary.contains("Tracks: 2"));
    assert!(summary.contains("Waypoints: 3"));
    assert!(summary.contains("Distance: 25.50 km"));
    assert!(summary.contains("Duration: 02:00:00"));
    assert!(summary.contains("Average speed: 12.75 km/h"));
    assert!(summary.contains("gain: 200.0m"));
    assert!(summary.contains("loss: 50.0m"));
}

#[test]
fn test_gpx_metadata_parsing() {
    let xml = r#"
    <gpx version="1.1" creator="StravaGPX">
        <metadata>
            <time>2024-07-11T17:16:43Z</time>
        </metadata>
        <trk>
            <name>Test Track</name>
        </trk>
    </gpx>"#;

    let gpx = Gpx::try_from_str(xml).unwrap();
    assert!(gpx.metadata.is_some());
    assert_eq!(gpx.date(), Some("2024-07-11T17:16:43Z"));
}

#[test]
fn test_gpx_without_metadata() {
    let xml = r#"
    <gpx version="1.1" creator="test">
        <trk>
            <name>Test Track</name>
        </trk>
    </gpx>"#;

    let gpx = Gpx::try_from_str(xml).unwrap();
    assert!(gpx.metadata.is_none());
    assert_eq!(gpx.date(), None);
}

#[test]
fn test_gpx_metadata_without_time() {
    let xml = r#"
    <gpx version="1.1" creator="test">
        <metadata>
        </metadata>
        <trk>
            <name>Test Track</name>
        </trk>
    </gpx>"#;

    let gpx = Gpx::try_from_str(xml).unwrap();
    assert!(gpx.metadata.is_some());
    assert_eq!(gpx.date(), None);
}

#[test]
fn test_gpx_duration_calculation() {
    let mut gpx = Gpx::new();
    let mut track = Track::with_name("Test Track".to_string());

    let time1 = stamp(2024, 7, 11, 10, 0, 0);
    let time2 = stamp(2024, 7, 11, 12, 30, 45);

    let segment = TrackSegment::with_points(vec![
        Point::with_time(deg(40.7128), deg(-74.0060), Some(metres(10.0)), time1),
        Point::with_time(deg(40.7589), deg(-73.9851), Some(metres(15.0)), time2),
    ]);

    track.add_segment(segment);
    gpx.add_track(track);

    let duration = gpx.total_duration_seconds();
    assert_eq!(duration, Some(9045));

    let formatted = gpx.total_duration_formatted();
    assert_eq!(formatted, Some("02:30:45".to_string()));
}

#[test]
fn test_gpx_duration_without_time() {
    let mut gpx = Gpx::new();
    let mut track = Track::with_name("Test Track".to_string());
    let segment = TrackSegment::with_points(vec![
        Point::new(deg(40.7128), deg(-74.0060)),
        Point::new(deg(40.7589), deg(-73.9851)),
    ]);
    track.add_segment(segment);
    gpx.add_track(track);

    assert_eq!(gpx.total_duration_seconds(), None);
    assert_eq!(gpx.total_duration_formatted(), None);
}

#[test]
fn test_gpx_average_speed_kmh() {
    let mut gpx = Gpx::new();
    let mut track = Track::with_name("Test Track".to_string());

    let time1 = stamp(2024, 7, 11, 10, 0, 0);
    let time2 = stamp(2024, 7, 11, 11, 0, 0);

    let segment = TrackSegment::with_points(vec![
        Point::with_time(deg(40.7128), deg(-74.0060), Some(metres(10.0)), time1),
        Point::with_time(deg(40.7589), deg(-73.9851), Some(metres(15.0)), time2),
    ]);

    track.add_segment(segment);
    gpx.add_track(track);

    let speed = gpx.average_speed_kmh(5_340);
    assert!(speed.is_some());
    assert!(speed.unwrap() > 0);
}

#[test]
fn test_gpx_average_speed_without_duration() {
    let mut gpx = Gpx::new();
    let mut track = Track::with_name("Test Track".to_string());
    let segment = TrackSegment::with_points(vec![
        Point::new(deg(40.7128), deg(-74.0060)),
        Point::new(deg(40.7589), deg(-73.9851)),
    ]);
    track.add_segment(segment);
    gpx.add_track(track);

    assert_eq!(gpx.average_speed_kmh(5_340), None);
}

#[test]
fn test_statistics_with_duration() {
    let mut gpx = Gpx::new();
    let mut track = Track::with_name("Test Track".to_string());

    let time1 = stamp(2024, 7, 11, 10, 0, 0);
    let time2 = stamp(2024, 7, 11, 12, 0, 0);

    let segment = TrackSegment::with_points(vec![
        Point::with_time(deg(40.7128), deg(-74.0060), Some(metres(10.0)), time1),
        Point::with_time(deg(40.7589), deg(-73.9851), Some(metres(20.0)), time2),
    ]);

    track.add_segment(segment);
    gpx.add_track(track);

    let stats = gpx.statistics(5_340);
    assert!(stats.duration_seconds.is_some());
    assert!(stats.average_speed_m_per_h.is_some());

    let summary = stats.summary();
    assert!(summary.contains("Duration:"));
    assert!(summary.contains("Average speed:"));
}

#[test]
fn test_gpx_average_speed_zero_duration() {
    let mut gpx = Gpx::new();
    let mut track = Track::with_name("Test Track".to_string());

    let time1 = stamp(2024, 7, 11, 10, 0, 0);

    let segment = TrackSegment::with_points(vec![
        Point::with_time(deg(40.7128), deg(-74.0060), Some(metres(10.0)), time1),
        Point::with_time(deg(40.7589), deg(-73.9851), Some(metres(15.0)), time1),
    ]);

    track.add_segment(segment);
    gpx.add_track(track);

    assert_eq!(gpx.average_speed_kmh(5_340), None);
}
