use seapath_core::calculations::{
    dead_reckon, great_circle_bearing, great_circle_distance, rhumb_line_bearing,
    rhumb_line_navigation,
};
use seapath_core::geodesy::GeoPoint;
use seapath_core::units::{Angle, Distance};

fn pico(x: f64) -> i64 {
    (x * 1e12).round() as i64
}

fn point(lat: f64, lon: f64) -> GeoPoint {
    GeoPoint::new(pico(lat), pico(lon)).unwrap()
}

#[test]
fn test_rhumb_line_bearing_north() {
    let p1 = point(0.0, 0.0);
    let p2 = point(10.0, 0.0);
    let bearing = rhumb_line_bearing(&p1, &p2);
    assert!((bearing.degrees() as f64 / 1e12 - 0.0).abs() < 1e-6);
}

#[test]
fn test_great_circle_equator() {
    let p1 = point(0.0, 0.0);
    let p2 = point(0.0, 1.0);
    let dist = great_circle_distance(p1, p2);

    let expected = 111120.0;
    assert!((dist.meters() as f64 / 1e6 - expected).abs() < 1000.0);
}

#[test]
fn test_great_circle_distance_self_is_zero() {
    let p = point(37.25, -42.5);
    assert_eq!(great_circle_distance(p, p).meters(), 0);
}

#[test]
fn test_great_circle_distance_symmetric() {
    let p1 = point(12.5, 33.25);
    let p2 = point(-7.75, 101.5);
    let d12 = great_circle_distance(p1, p2).meters();
    let d21 = great_circle_distance(p2, p1).meters();
    assert_eq!(d12, d21);
}

#[test]
fn test_great_circle_bearing_due_east() {
    let p1 = point(0.0, 0.0);
    let p2 = point(0.0, 1.0);
    let b = great_circle_bearing(&p1, &p2).degrees() as f64 / 1e12;
    assert!((b - 90.0).abs() < 0.01);
}

#[test]
fn test_great_circle_bearing_is_normalized() {
    let p1 = point(10.0, 10.0);
    let p2 = point(5.0, 5.0);
    let b = great_circle_bearing(&p1, &p2).degrees() as f64 / 1e12;
    assert!((0.0..360.0).contains(&b));
    // South-westerly course.
    assert!(b > 180.0 && b < 270.0);
}

#[test]
fn test_rhumb_line_navigation_equator() {
    let p1 = point(0.0, 0.0);
    let p2 = point(0.0, 1.0);
    let (dist, bearing) = rhumb_line_navigation(p1, p2);
    // One degree of equator on the semi-major axis: 6378137 * pi / 180.
    assert!((dist.meters() as f64 / 1e6 - 111319.49).abs() < 50.0);
    assert!((bearing.degrees() as f64 / 1e12 - 90.0).abs() < 0.01);
}

#[test]
fn test_rhumb_line_navigation_across_date_line() {
    let p1 = point(0.0, 179.5);
    let p2 = point(0.0, -179.5);
    let (dist, bearing) = rhumb_line_navigation(p1, p2);
    // The short way: one degree eastward across the antimeridian.
    assert!((dist.meters() as f64 / 1e6 - 111319.49).abs() < 50.0);
    assert!((bearing.degrees() as f64 / 1e12 - 90.0).abs() < 0.01);
}

#[test]
fn test_dead_reckon_north_one_degree() {
    let start = point(0.0, 0.0);
    let p = dead_reckon(start, Angle::from_degrees(0), Distance::from_meters(111_120_000_000));
    assert!((p.lat() as f64 / 1e12 - 1.0).abs() < 1e-2);
    assert!((p.lon() as f64 / 1e12).abs() < 1e-6);
}

#[test]
fn test_dead_reckon_wraps_longitude() {
    let start = point(0.0, 179.5);
    let p = dead_reckon(start, Angle::from_degrees(pico(90.0)),
        Distance::from_meters(111_195_000_000));
    // Crossed the antimeridian heading east: longitude near -179.5.
    let lon = p.lon() as f64 / 1e12;
    assert!((lon + 179.5).abs() < 0.01);
}
