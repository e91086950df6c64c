//! Strongly-typed scalar units.
//!
//! Canonical fixed-point representations:
//! * [`Angle`]: picodegrees (1e-12 degree) and picoradians (1e-12 radian),
//! * [`Distance`]: micrometers (1e-6 meter),
//! * [`Speed`]: tenth-nanometers per second (1e-10 m/s).
//!
//! The conversion factors are the exact marine-navigation constants:
//! 1852 meters per nautical mile and 0.5144444444 (m/s) per knot.

use vstd::prelude::*;
use vstd::arithmetic::mul::*;
use crate::fixed::{iabs, stdiv, fxmuldiv, fxdiv};

verus! {

/// Meters per nautical mile (equivalently, micrometers per micro-nautical-mile).
pub const NM_TO_METERS: i64 = 1852;

/// (m/s) per knot, scaled by 1e10: 0.5144444444 exactly.
pub const KNOTS_TO_MPS_E10: i64 = 5_144_444_444;

/// Picoradians per picodegree, scaled by 1e15: pi/180 * 1e15, rounded.
pub const RAD_PER_DEG_E15: i64 = 17_453_292_519_943;

/// Picodegrees per picoradian, scaled by 1e12: 180/pi * 1e12, rounded.
pub const DEG_PER_RAD_E12: i64 = 57_295_779_513_082;

/// Degrees (in picodegrees) converted to radians (in picoradians).
pub open spec fn deg_to_rad(d: int) -> int {
    stdiv(d * RAD_PER_DEG_E15, 1_000_000_000_000_000)
}

/// Radians (in picoradians) converted to degrees (in picodegrees).
pub open spec fn rad_to_deg(r: int) -> int {
    stdiv(r * DEG_PER_RAD_E12, 1_000_000_000_000)
}

/// An angle, stored in picodegrees (1e-12 degree).
/// No normalization is enforced: callers may hold any multiple of a turn.
#[derive(Debug, Clone, Copy, PartialEq, Eq, Structural)]
pub struct Angle {
    pd: i64,
}

impl View for Angle {
    type V = int;

    closed spec fn view(&self) -> int {
        self.pd as int
    }
}

impl Angle {
    /// Builds an angle from a value in picodegrees.
    pub fn from_degrees(pd: i64) -> (a: Angle)
        ensures
            a@ == pd as int,
    {
        Angle { pd }
    }

    /// The angle in picodegrees.
    pub fn degrees(&self) -> (d: i64)
        ensures
            d as int == self@,
    {
        self.pd
    }

    /// The angle in picoradians.
    pub fn radians(&self) -> (r: i64)
        ensures
            r as int == deg_to_rad(self@),
    {
        proof {
            lemma_mul_upper_bound(iabs(self.pd as int), 0x8000_0000_0000_0000,
                RAD_PER_DEG_E15 as int, RAD_PER_DEG_E15 as int);
        }
        fxmuldiv(self.pd, RAD_PER_DEG_E15, 1_000_000_000_000_000)
    }

    /// Builds an angle from a value in picoradians.
    pub fn from_radians(r: i64) -> (a: Angle)
        requires
            iabs(r as int) <= 160_000_000_000_000_000,
        ensures
            a@ == rad_to_deg(r as int),
    {
        proof {
            lemma_mul_upper_bound(iabs(r as int), 160_000_000_000_000_000,
                DEG_PER_RAD_E12 as int, DEG_PER_RAD_E12 as int);
        }
        Angle { pd: fxmuldiv(r, DEG_PER_RAD_E12, 1_000_000_000_000) }
    }
}

/// A distance, stored in micrometers (1e-6 meter).
#[derive(Debug, Clone, Copy, PartialEq, Eq, Structural)]
pub struct Distance {
    um: i64,
}

impl View for Distance {
    type V = int;

    closed spec fn view(&self) -> int {
        self.um as int
    }
}

impl Distance {
    /// Builds a distance from a value in micro-nautical-miles.
    pub fn from_nautical_miles(unm: i64) -> (d: Distance)
        requires
            iabs(unm as int) * 1852 <= i64::MAX,
        ensures
            d@ == unm * 1852,
    {
        proof {
            assert(iabs((unm as int) * 1852) == iabs(unm as int) * 1852) by (nonlinear_arith);
        }
        let um: i64 = if unm < 0 {
            -((-unm) * 1852)
        } else {
            unm * 1852
        };
        Distance { um }
    }

    /// Builds a distance from a value in micrometers.
    pub fn from_meters(um: i64) -> (d: Distance)
        ensures
            d@ == um as int,
    {
        Distance { um }
    }

    /// The distance in micro-nautical-miles, rounded toward zero.
    pub fn nautical_miles(&self) -> (r: i64)
        ensures
            r as int == stdiv(self@, 1852),
    {
        fxdiv(self.um, 1852)
    }

    /// The distance in micrometers.
    pub fn meters(&self) -> (m: i64)
        ensures
            m as int == self@,
    {
        self.um
    }
}

/// A speed, stored in tenth-nanometers per second (1e-10 m/s).
#[derive(Debug, Clone, Copy, PartialEq, Eq, Structural)]
pub struct Speed {
    tn: i64,
}

impl View for Speed {
    type V = int;

    closed spec fn view(&self) -> int {
        self.tn as int
    }
}

impl Speed {
    /// Builds a speed from a value in micro-knots.
    pub fn from_knots(uk: i64) -> (s: Speed)
        requires
            iabs(uk as int) <= 1_790_000_000_000_000,
        ensures
            s@ == stdiv((uk as int) * KNOTS_TO_MPS_E10, 1_000_000),
    {
        proof {
            lemma_mul_upper_bound(iabs(uk as int), 1_790_000_000_000_000,
                KNOTS_TO_MPS_E10 as int, KNOTS_TO_MPS_E10 as int);
        }
        Speed { tn: fxmuldiv(uk, KNOTS_TO_MPS_E10, 1_000_000) }
    }

    /// The speed in micro-knots, rounded toward zero.
    pub fn knots(&self) -> (r: i64)
        ensures
            r as int == stdiv(self@ * 1_000_000, KNOTS_TO_MPS_E10 as int),
    {
        proof {
            lemma_mul_upper_bound(iabs(self.tn as int), 0x8000_0000_0000_0000, 1_000_000,
                1_000_000);
        }
        fxmuldiv(self.tn, 1_000_000, KNOTS_TO_MPS_E10)
    }

    /// The speed in tenth-nanometers per second (1e-10 m/s).
    pub fn mps(&self) -> (v: i64)
        ensures
            v as int == self@,
    {
        self.tn
    }
}

} // verus!
