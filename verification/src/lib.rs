//! Marine navigation geometry on a spherical/ellipsoidal Earth model.
//!
//! All quantities are held in fixed-point integer representations so that
//! every computation has an exact, machine-checked contract:
//! angles in picodegrees (1e-12 degree) and picoradians (1e-12 radian),
//! distances in micrometers, speeds in tenth-nanometers per second
//! (1e-10 m/s), timestamps in integer microseconds.

pub mod calculations;
pub mod fixed;
pub mod geodesy;
pub mod path_planning;
pub mod state;
pub mod trig;
pub mod units;

pub use geodesy::GeoPoint;
pub use state::StateVector;

pub use units::Angle;
pub use units::Distance;
pub use units::Speed;
