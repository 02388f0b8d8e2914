use chrono::{TimeZone, Utc};
use gpx_extractor::{Timestamp, Waypoint};

fn deg(x: f64) -> i64 {
    (x * 1e9).round() as i64
}

fn metres(x: f64) -> i64 {
    (x * 1e3).round() as i64
}

fn stamp(t: chrono::DateTime<Utc>) -> Timestamp {
    Timestamp::new(t.timestamp(), t.timestamp_subsec_nanos()).unwrap()
}

#[test]
fn test_waypoint_new() {
    let waypoint = Waypoint::new(deg(40.7128), deg(-74.0060));
    assert_eq!(waypoint.lat, deg(40.7128));
    assert_eq!(waypoint.lon, deg(-74.0060));
    assert!(waypoint.name.is_none());
    assert!(waypoint.elevation.is_none());
    assert!(waypoint.time.is_none());
    assert!(!waypoint.has_elevation());
    assert!(!waypoint.has_time());
}

#[test]
fn test_waypoint_with_name() {
    let waypoint = Waypoint::with_name(deg(40.7128), deg(-74.0060), "New York City".to_string());
    assert_eq!(waypoint.lat, deg(40.7128));
    assert_eq!(waypoint.lon, deg(-74.0060));
    assert_eq!(waypoint.name, Some("New York City".to_string()));
    assert_eq!(waypoint.display_name(), "New York City");
}

#[test]
fn test_waypoint_display_name_default() {
    let waypoint = Waypoint::new(deg(40.7128), deg(-74.0060));
    assert_eq!(waypoint.display_name(), "Waypoint (40.7128, -74.0060)");
}

#[test]
fn test_waypoint_with_details() {
    let time = stamp(Utc.with_ymd_and_hms(2024, 6, 9, 10, 30, 0).unwrap());
    let waypoint = Waypoint::with_details(
        deg(40.7128),
        deg(-74.0060),
        Some("NYC".to_string()),
        Some(metres(10.5)),
        Some(time),
    );

    assert_eq!(waypoint.lat, deg(40.7128));
    assert_eq!(waypoint.lon, deg(-74.0060));
    assert_eq!(waypoint.name, Some("NYC".to_string()));
    assert_eq!(waypoint.elevation, Some(metres(10.5)));
    assert_eq!(waypoint.time, Some(time));
    assert!(waypoint.has_elevation());
    assert!(waypoint.has_time());
}

#[test]
fn test_waypoint_description() {
    let time = stamp(Utc.with_ymd_and_hms(2024, 6, 9, 10, 30, 0).unwrap());
    let waypoint = Waypoint::with_details(
        deg(40.712800),
        deg(-74.006000),
        Some("NYC".to_string()),
        Some(metres(10.5)),
        Some(time),
    );

    let desc = waypoint.description();
    assert!(desc.contains("NYC"));
    assert!(desc.contains("40.712800"));
    assert!(desc.contains("-74.006000"));
    assert!(desc.contains("elevation: 10.5m"));
    assert!(desc.contains("2024-06-09 10:30:00 UTC"));
}

#[test]
fn test_waypoint_description_minimal() {
    let waypoint = Waypoint::new(deg(40.7128), deg(-74.0060));
    let desc = waypoint.description();
    assert!(desc.contains("Waypoint (40.7128, -74.0060)"));
    assert!(desc.contains("40.712800"));
    assert!(desc.contains("-74.006000"));
    assert!(!desc.contains("elevation"));
    assert!(!desc.contains("time"));
}

#[test]
fn test_waypoint_has_flags() {
    let mut waypoint = Waypoint::new(deg(40.7128), deg(-74.0060));
    assert!(!waypoint.has_elevation());
    assert!(!waypoint.has_time());

    waypoint.elevation = Some(metres(100.0));
    assert!(waypoint.has_elevation());
    assert!(!waypoint.has_time());

    waypoint.time = Some(stamp(Utc::now()));
    assert!(waypoint.has_elevation());
    assert!(waypoint.has_time());
}

#[test]
fn waypoint_description_exact_text() {
    let time = stamp(Utc.with_ymd_and_hms(2024, 6, 9, 10, 30, 0).unwrap());
    let waypoint = Waypoint::with_details(
        deg(40.7128),
        deg(-74.006),
        Some("NYC".to_string()),
        Some(metres(10.5)),
        Some(time),
    );
    assert_eq!(
        waypoint.description(),
        "NYC at (40.712800, -74.006000), elevation: 10.5m, time: 2024-06-09 10:30:00 UTC"
    );
}

#[test]
fn waypoint_label_rounds_to_four_places() {
    let waypoint = Waypoint::new(deg(1.23456), deg(-0.00004));
    assert_eq!(waypoint.display_name(), "Waypoint (1.2346, -0.0000)");
}
