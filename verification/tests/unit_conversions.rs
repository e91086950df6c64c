use seapath_core::units::{Angle, Distance, Speed};

// One picodegree/picoradian is 1e-12 of a degree/radian; one micrometer is
// 1e-6 m; one speed unit is 1e-10 m/s; one micro-knot is 1e-6 knot.

fn pico(x: f64) -> i64 {
    (x * 1e12).round() as i64
}

#[test]
fn test_knot_conversion() {
    let mps = Speed::from_knots(1_000_000).mps() as f64 / 1e10;
    assert!((mps - 0.5144444444).abs() < 1e-6);
}

#[test]
fn test_angle_conversions() {
    let a = Angle::from_degrees(pico(180.0));
    assert!((a.radians() as f64 / 1e12 - std::f64::consts::PI).abs() < 1e-10);

    let b = Angle::from_radians(pico(std::f64::consts::PI / 2.0));
    assert!((b.degrees() as f64 / 1e12 - 90.0).abs() < 1e-10);
}

#[test]
fn test_distance_conversions() {
    let d = Distance::from_nautical_miles(1_000_000);
    assert_eq!(d.meters() as f64 / 1e6, 1852.0);

    let d2 = Distance::from_meters(1_852_000_000);
    assert_eq!(d2.nautical_miles() as f64 / 1e6, 1.0);
}

#[test]
fn test_speed_conversions() {
    let s = Speed::from_knots(1_000_000);
    assert!((s.mps() as f64 / 1e10 - 0.5144444444).abs() < 1e-10);

    assert!((s.knots() as f64 / 1e6 - 1.0).abs() < 1e-10);
}

#[test]
fn test_negative_speed_round_trip() {
    let s = Speed::from_knots(-2_500_000);
    assert!((s.mps() as f64 / 1e10 + 2.5 * 0.5144444444).abs() < 1e-9);
    assert_eq!(s.knots(), -2_500_000);
}

#[test]
fn test_angle_degree_round_trip_exact() {
    let a = Angle::from_degrees(123_456_789_012_345);
    assert_eq!(a.degrees(), 123_456_789_012_345);
}
