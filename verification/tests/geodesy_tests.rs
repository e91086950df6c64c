use seapath_core::geodesy::{CoordError, Ellipsoid, GeoPoint};

fn pico(x: f64) -> i64 {
    (x * 1e12).round() as i64
}

#[test]
fn test_geopoint_creation() {
    let point = GeoPoint::new(pico(45.0), pico(-75.0));
    assert!(point.is_ok());
    let p = point.unwrap();
    assert_eq!(p.lat() as f64 / 1e12, 45.0);
    assert_eq!(p.lon() as f64 / 1e12, -75.0);
}

#[test]
fn test_invalid_geopoint() {
    let point = GeoPoint::new(pico(95.0), 0);
    assert!(point.is_err());
}

#[test]
fn test_mean_radius_wgs84() {
    let radius = Ellipsoid::wgs84().mean_radius() as f64 / 1e6;
    assert!((radius - 6371008.0).abs() < 1.0);
}

#[test]
fn test_latitude_error_reports_value_and_bounds() {
    match GeoPoint::new(pico(90.5), pico(10.0)) {
        Err(CoordError::LatitudeOutOfRange { value, min, max }) => {
            assert_eq!(value, pico(90.5));
            assert_eq!(min, pico(-90.0));
            assert_eq!(max, pico(90.0));
        },
        _ => panic!("expected a latitude error"),
    }
}

#[test]
fn test_longitude_error_reports_value_and_bounds() {
    match GeoPoint::new(pico(45.0), pico(-180.5)) {
        Err(CoordError::LongitudeOutOfRange { value, min, max }) => {
            assert_eq!(value, pico(-180.5));
            assert_eq!(min, pico(-180.0));
            assert_eq!(max, pico(180.0));
        },
        _ => panic!("expected a longitude error"),
    }
}

#[test]
fn test_boundary_coordinates_are_valid() {
    assert!(GeoPoint::new(pico(90.0), pico(180.0)).is_ok());
    assert!(GeoPoint::new(pico(-90.0), pico(-180.0)).is_ok());
    assert!(GeoPoint::new(pico(90.0) + 1, 0).is_err());
    assert!(GeoPoint::new(0, pico(-180.0) - 1).is_err());
}

#[test]
fn test_mercator_latitude_at_45_degrees() {
    let p = GeoPoint::new(pico(45.0), 0).unwrap();
    let merc = p.mercator_latitude() as f64 / 1e12;
    // ln(tan(pi/4 + 22.5 degrees)) = 0.8813735870...
    assert!((merc - 0.8813735870).abs() < 1e-4);
}

#[test]
fn test_mercator_latitude_clamped_at_pole() {
    let p_pole = GeoPoint::new(pico(90.0), 0).unwrap();
    let p_clamp = GeoPoint::new(pico(89.5), 0).unwrap();
    assert_eq!(p_pole.mercator_latitude(), p_clamp.mercator_latitude());
}

#[test]
fn test_flattening_and_semi_minor_axis() {
    let e = Ellipsoid::wgs84();
    let f = e.flattening() as f64 / 1e9;
    assert!((f - 1.0 / 298.257223563).abs() < 1e-8);
    let b = e.semi_minor_axis() as f64 / 1e6;
    assert!((b - 6356752.3142).abs() < 0.01);
}

#[test]
fn test_to_radians() {
    let p = GeoPoint::new(pico(90.0), pico(-180.0)).unwrap();
    let (lat_rad, lon_rad) = p.to_radians();
    assert!((lat_rad as f64 / 1e12 - std::f64::consts::FRAC_PI_2).abs() < 1e-9);
    assert!((lon_rad as f64 / 1e12 + std::f64::consts::PI).abs() < 1e-9);
}
