use seapath_core::geodesy::GeoPoint;
use seapath_core::state::StateVector;
use seapath_core::units::{Angle, Speed};

fn pico(x: f64) -> i64 {
    (x * 1e12).round() as i64
}

#[test]
fn test_state_initialization() {
    let pos = GeoPoint::new(pico(10.0), pico(20.0)).unwrap();
    let state = StateVector::new(pos);

    assert_eq!(state.position.lat() as f64 / 1e12, 10.0);
    assert_eq!(state.position.lon() as f64 / 1e12, 20.0);
    assert_eq!(state.timestamp_us, 0);
    assert_eq!(state.sog.knots(), 0);
}

#[test]
fn test_dead_reckoning_update() {
    let pos = GeoPoint::new(0, 0).unwrap();
    let mut state = StateVector::new(pos);

    state.heading = Angle::from_degrees(0);
    state.sog = Speed::from_knots(60_000_000);

    state.advance_dead_reckoning(3_600_000_000);

    assert_eq!(state.timestamp_us, 3_600_000_000);

    assert!((state.position.lat() as f64 / 1e12 - 1.0).abs() < 1e-2);
    assert!((state.position.lon() as f64 / 1e12 - 0.0).abs() < 1e-6);
}

#[test]
fn test_timestamp_accumulates_over_steps() {
    let mut state = StateVector::new(GeoPoint::new(0, 0).unwrap());
    state.sog = Speed::from_knots(10_000_000);
    state.advance_dead_reckoning(250_000);
    state.advance_dead_reckoning(750_000);
    assert_eq!(state.timestamp_us, 1_000_000);
}

#[test]
fn test_zero_speed_keeps_position() {
    let mut state = StateVector::new(GeoPoint::new(pico(12.0), pico(34.0)).unwrap());
    state.heading = Angle::from_degrees(pico(45.0));
    state.advance_dead_reckoning(5_000_000);
    assert!((state.position.lat() as f64 / 1e12 - 12.0).abs() < 1e-5);
    assert!((state.position.lon() as f64 / 1e12 - 34.0).abs() < 1e-9);
    assert_eq!(state.timestamp_us, 5_000_000);
}
