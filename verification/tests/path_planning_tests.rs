use seapath_core::geodesy::GeoPoint;
use seapath_core::path_planning::{Leg, Route, Waypoint};

fn pico(x: f64) -> i64 {
    (x * 1e12).round() as i64
}

fn point(lat: f64, lon: f64) -> GeoPoint {
    GeoPoint::new(pico(lat), pico(lon)).unwrap()
}

#[test]
fn test_leg_progress_start() {
    let start = Waypoint { name: "Start".to_string(), location: point(0.0, 0.0) };
    let end = Waypoint { name: "End".to_string(), location: point(1.0, 0.0) };
    let leg = Leg::new(start, end);

    let current_pos = point(0.0, 0.0);
    let progress = leg.get_progress(&current_pos);

    assert!(progress.dtg.meters() > 0);
    assert!((progress.xte.meters() as f64 / 1e6).abs() < 1.0);
}

#[test]
fn test_leg_progress_midway() {
    let start = Waypoint { name: "A".to_string(), location: point(0.0, 0.0) };
    let end = Waypoint { name: "B".to_string(), location: point(1.0, 0.0) };
    let leg = Leg::new(start, end);

    let midway_pos = point(0.5, 0.0);
    let progress = leg.get_progress(&midway_pos);

    assert!(progress.atd.meters() > 0);
}

#[test]
fn test_leg_progress_bearing_wrap() {
    let start = Waypoint::new("Start", 0, 0);
    let end = Waypoint::new("End", 0, pico(1.0));
    let leg = Leg::new(start, end);

    let pos_wrap_pos = point(0.1, -0.01);
    let progress_pos = leg.get_progress(&pos_wrap_pos);
    assert!(progress_pos.atd.meters() != 0);

    let start_2 = Waypoint::new("Start2", 0, 0);
    let end_2 = Waypoint::new("End2", 0, pico(-1.0));
    let leg_2 = Leg::new(start_2, end_2);

    let pos_wrap_neg = point(0.1, 0.01);
    let progress_neg = leg_2.get_progress(&pos_wrap_neg);
    assert!(progress_neg.atd.meters() != 0);
}

#[test]
fn test_route_and_leg_generation() {
    let mut route = Route::new("Test Route");
    route.add_waypoint(Waypoint::new("WP1", 0, 0));
    route.add_waypoint(Waypoint::new("WP2", pico(1.0), 0));
    route.add_waypoint(Waypoint::new("WP3", pico(2.0), 0));

    assert_eq!(route.waypoints.len(), 3);

    let leg_1 = route.get_leg(0).unwrap();
    assert_eq!(leg_1.start.lat() as f64 / 1e12, 0.0);
    assert_eq!(leg_1.end.lat() as f64 / 1e12, 1.0);

    let no_leg = route.get_leg(2);
    assert!(no_leg.is_none());
}

#[test]
fn test_get_progress_angle_wraps() {
    let start = Waypoint::new("A", 0, 0);
    let end = Waypoint::new("B", pico(1.0), 0);
    let leg = Leg::new(start, end);

    let pos_right = point(0.0, 0.1);
    let _ = leg.get_progress(&pos_right);

    let pos_left = point(0.0, -0.1);
    let _ = leg.get_progress(&pos_left);
}

#[test]
fn test_basic_navigation_flow() {
    let start_point = point(0.0, 0.0);
    let end_point = point(0.1, 0.0);

    let start_wp = Waypoint { name: "Origin".to_string(), location: start_point };
    let end_wp = Waypoint { name: "North_Point".to_string(), location: end_point };

    let leg = Leg::new(start_wp, end_wp);

    let progress = leg.get_progress(&start_point);

    assert!(progress.dtg.meters() > 0);
    assert!((progress.atd.meters() as f64 / 1e6) < 1.0);
}

#[test]
fn test_leg_cross_track_sign_convention() {
    // Northward leg; a vessel east of the track is starboard of it.
    let leg = Leg::from_points(point(0.0, 0.0), point(1.0, 0.0));
    let progress_right = leg.get_progress(&point(0.5, 0.1));
    assert!(progress_right.xte.meters() > 0);
    let progress_left = leg.get_progress(&point(0.5, -0.1));
    assert!(progress_left.xte.meters() < 0);
}

#[test]
fn test_route_leg_indices() {
    let mut route = Route::new("idx");
    for i in 0..4 {
        route.add_waypoint(Waypoint::new("wp", pico(i as f64), 0));
    }
    for i in 0..3 {
        assert!(route.get_leg(i).is_some());
    }
    assert!(route.get_leg(3).is_none());
    assert!(route.get_leg(100).is_none());
}
