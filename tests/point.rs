use gpx_extractor::Point;

/// Degrees to nanodegrees.
fn deg(x: f64) -> i64 {
    (x * 1e9).round() as i64
}

/// Metres to millimetres.
fn metres(x: f64) -> i64 {
    (x * 1e3).round() as i64
}

#[test]
fn test_point_new() {
    let point = Point::new(deg(40.7128), deg(-74.0060));
    assert_eq!(point.lat, deg(40.7128));
    assert_eq!(point.lon, deg(-74.0060));
    assert!(point.elevation.is_none());
    assert!(point.time.is_none());
}

#[test]
fn test_point_with_elevation() {
    let point = Point::with_elevation(deg(40.7128), deg(-74.0060), metres(10.5));
    assert_eq!(point.lat, deg(40.7128));
    assert_eq!(point.lon, deg(-74.0060));
    assert_eq!(point.elevation, Some(metres(10.5)));
    assert!(point.time.is_none());
}
