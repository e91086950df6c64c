//! Vessel kinematic state and dead-reckoning integration.

use vstd::prelude::*;
use vstd::arithmetic::div_mod::*;
use crate::calculations::dead_reckon_spec;
use crate::fixed::iabs;
use crate::geodesy::GeoPoint;
use crate::units::{Angle, Distance, Speed};

verus! {

/// The distance (micrometers) covered at speed `sog` (1e-10 m/s) over
/// `dt_us` microseconds, rounded toward zero.
pub open spec fn travel_spec(sog: int, dt_us: int) -> int {
    crate::fixed::stdiv(sog * dt_us, 10_000_000_000)
}

/// A vessel kinematic snapshot.  The timestamp only ever advances, and
/// only through [`StateVector::advance_dead_reckoning`]; the position is
/// replaced wholesale by that update, never partially mutated.
#[derive(Debug, Clone, Copy)]
pub struct StateVector {
    /// Microseconds since an epoch.
    pub timestamp_us: u64,
    /// The physical location of the vessel.
    pub position: GeoPoint,
    /// True-north heading of the bow, in picodegrees.
    pub heading: Angle,
    /// Speed over ground, in 1e-10 m/s.
    pub sog: Speed,
    /// Course over ground, in picodegrees.
    pub cog: Angle,
    /// Attitude: tilt along the longitudinal axis, in picodegrees.
    pub roll: Angle,
    /// Attitude: tilt along the lateral axis, in picodegrees.
    pub pitch: Angle,
    /// Rate of turn, in microdegrees per second.
    pub yaw_rate: i64,
}

impl StateVector {
    /// A zeroed snapshot at a given position, for initializing filters
    /// before sensor lock.
    pub fn new(pos: GeoPoint) -> (s: StateVector)
        ensures
            s.timestamp_us == 0,
            s.position == pos,
            s.heading@ == 0,
            s.sog@ == 0,
            s.cog@ == 0,
            s.roll@ == 0,
            s.pitch@ == 0,
            s.yaw_rate == 0,
    {
        StateVector {
            timestamp_us: 0,
            position: pos,
            heading: Angle::from_degrees(0),
            sog: Speed::from_knots(0),
            cog: Angle::from_degrees(0),
            roll: Angle::from_degrees(0),
            pitch: Angle::from_degrees(0),
            yaw_rate: 0,
        }
    }

    /// Advances the position by dead reckoning at the current speed over
    /// ground along the current heading, and the timestamp by `dt_us`
    /// microseconds.  Taking the time step as an unsigned microsecond
    /// count rejects negative steps by construction, so the timestamp is
    /// monotone.
    pub fn advance_dead_reckoning(&mut self, dt_us: u64)
        requires
            old(self).timestamp_us + dt_us <= u64::MAX,
            iabs(old(self).sog@) * dt_us <= 0x7fff_ffff_ffff_ffff * 10_000_000_000,
        ensures
            final(self).timestamp_us == old(self).timestamp_us + dt_us,
            final(self).position@ == dead_reckon_spec(old(self).position@,
                old(self).heading@, travel_spec(old(self).sog@, dt_us as int)),
            final(self).heading == old(self).heading,
            final(self).sog == old(self).sog,
            final(self).cog == old(self).cog,
            final(self).roll == old(self).roll,
            final(self).pitch == old(self).pitch,
            final(self).yaw_rate == old(self).yaw_rate,
    {
        let sog = self.sog.mps();
        proof {
            vstd::arithmetic::mul::lemma_mul_upper_bound(iabs(sog as int),
                0x8000_0000_0000_0000, dt_us as int, 0xffff_ffff_ffff_ffff);
        }
        let mag: u128 = if sog < 0 {
            ((-(sog as i128)) as u128) * (dt_us as u128)
        } else {
            (sog as u128) * (dt_us as u128)
        };
        let q: u128 = mag / 10_000_000_000u128;
        proof {
            assert(mag as int == iabs(sog as int) * (dt_us as int));
            lemma_div_is_ordered(mag as int, 0x7fff_ffff_ffff_ffffint * 10_000_000_000,
                10_000_000_000);
            vstd::arithmetic::mul::lemma_mul_is_commutative(0x7fff_ffff_ffff_ffff,
                10_000_000_000);
            lemma_div_multiples_vanish(0x7fff_ffff_ffff_ffff, 10_000_000_000);
            lemma_div_pos_is_pos(mag as int, 10_000_000_000);
            assert(iabs((sog as int) * (dt_us as int)) == iabs(sog as int) * (dt_us as int)
                && (((sog as int) * (dt_us as int) >= 0) <==> (sog as int >= 0 || dt_us
                == 0))) by (nonlinear_arith)
                requires
                    dt_us >= 0,
            ;
        }
        let dist_um: i64 = if sog < 0 {
            -(q as i64)
        } else {
            q as i64
        };
        let new_pos = crate::calculations::dead_reckon(self.position, self.heading,
            Distance::from_meters(dist_um));
        self.position = new_pos;
        self.timestamp_us = self.timestamp_us + dt_us;
    }
}

} // verus!
