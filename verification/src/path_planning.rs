//! Waypoints, legs and routes, with leg-relative progress tracking.

use vstd::prelude::*;
use crate::calculations::{
    great_circle_distance, great_circle_distance_spec, rhumb_line_bearing,
    rhumb_line_bearing_spec,
};
use crate::fixed::{SCALE, iabs, smul_div, fxmul_s};
use crate::geodesy::{GeoPoint, valid_lat, valid_lon};
use crate::trig::{PI_PR, TWO_PI_PR, sin_pr, cos_pr, sin_e, cos_e, TRIG_ABS_BOUND};
use crate::units::{Angle, Distance, deg_to_rad};

verus! {

/// A named waypoint.  Unlike [`GeoPoint::new`], whose rejection of bad
/// coordinates is a routine, recoverable event, a waypoint is assumed to
/// be hand-authored: its constructor demands valid coordinates up front
/// and verified callers must prove them.
#[derive(Debug, Clone)]
pub struct Waypoint {
    pub name: String,
    pub location: GeoPoint,
}

impl Waypoint {
    pub fn new(name: &str, lat: i64, lon: i64) -> (w: Waypoint)
        requires
            valid_lat(lat as int),
            valid_lon(lon as int),
        ensures
            w.name@ == name@,
            w.location@ == (lat as int, lon as int),
    {
        Waypoint { name: name.to_owned(), location: GeoPoint::new_unchecked(lat, lon) }
    }
}

/// Leg-relative progress: cross-track error (positive to starboard of the
/// track), along-track distance, and distance to go, all in micrometers.
#[derive(Debug, Clone, Copy)]
pub struct LegProgress {
    pub xte: Distance,
    pub atd: Distance,
    pub dtg: Distance,
}

/// A leg between two waypoints.  The desired track is the rhumb-line
/// bearing from start to end (a constant compass course, the way a
/// helmsman steers) while the total distance is the great-circle distance
/// (the physical length): the mix is deliberate marine practice.
/// Both are computed once at construction and never recomputed.
#[derive(Debug, Clone, Copy)]
pub struct Leg {
    pub start: GeoPoint,
    pub end: GeoPoint,
    pub desired_track: Angle,
    pub total_distance: Distance,
}

/// The leg-progress numbers for a current position, as a triple
/// `(xte, atd, dtg)` over the leg's start, desired track (picodegrees)
/// and total distance (micrometers).
pub open spec fn leg_progress_spec(
    start: (int, int),
    desired_track: int,
    total_distance: int,
    current: (int, int),
) -> (int, int, int) {
    let d = great_circle_distance_spec(start, current);
    let b = rhumb_line_bearing_spec(start, current);
    let ad0 = deg_to_rad(b) - deg_to_rad(desired_track);
    let ad = if ad0 > PI_PR {
        ad0 - TWO_PI_PR
    } else if ad0 < -PI_PR {
        ad0 + TWO_PI_PR
    } else {
        ad0
    };
    let atd = smul_div(d, cos_pr(ad), SCALE as int);
    let xte = smul_div(d, sin_pr(ad), SCALE as int);
    (xte, atd, total_distance - atd)
}

impl Leg {
    /// Builds a leg from two geographic points, freezing the rhumb-line
    /// desired track and the great-circle total distance.
    pub fn from_points(start: GeoPoint, end: GeoPoint) -> (l: Leg)
        ensures
            l.start == start,
            l.end == end,
            l.desired_track@ == rhumb_line_bearing_spec(start@, end@),
            l.total_distance@ == great_circle_distance_spec(start@, end@),
    {
        let bearing = rhumb_line_bearing(&start, &end);
        let distance = great_circle_distance(start, end);
        Leg { start, end, desired_track: bearing, total_distance: distance }
    }

    /// Builds a leg from two waypoints.
    pub fn new(start: Waypoint, end: Waypoint) -> (l: Leg)
        ensures
            l.start == start.location,
            l.end == end.location,
            l.desired_track@ == rhumb_line_bearing_spec(start.location@, end.location@),
            l.total_distance@ == great_circle_distance_spec(start.location@, end.location@),
    {
        Leg::from_points(start.location, end.location)
    }

    /// Progress of a vessel at `current_pos` relative to this leg, by the
    /// flat local-tangent-plane approximation: the bearing error from the
    /// desired track is normalized into (-pi, pi] by at most one whole
    /// turn, then resolved into along-track and cross-track components.
    pub fn get_progress(&self, current_pos: &GeoPoint) -> (p: LegProgress)
        requires
            iabs(self.total_distance@) <= 100_000_000_000_000_000,
        ensures
            p.xte@ == leg_progress_spec(self.start@, self.desired_track@,
                self.total_distance@, current_pos@).0,
            p.atd@ == leg_progress_spec(self.start@, self.desired_track@,
                self.total_distance@, current_pos@).1,
            p.dtg@ == leg_progress_spec(self.start@, self.desired_track@,
                self.total_distance@, current_pos@).2,
    {
        let dist_to_start = great_circle_distance(self.start, *current_pos);
        let bearing_to_current = rhumb_line_bearing(&self.start, current_pos);
        let dtd: i64 = self.desired_track.degrees();
        proof {
            crate::geodesy::lemma_deg_to_rad_le(bearing_to_current@, 181_000_000_000_000,
                3_200_000_000_000);
            assert(181_000_000_000_000int * crate::units::RAD_PER_DEG_E15
                <= 3_200_000_000_000int * 1_000_000_000_000_000) by (nonlinear_arith);
            crate::geodesy::lemma_deg_to_rad_le(dtd as int, 0x8000_0000_0000_0000,
                161_000_000_000_000_000);
            assert(0x8000_0000_0000_0000int * crate::units::RAD_PER_DEG_E15
                <= 161_000_000_000_000_000int * 1_000_000_000_000_000) by (nonlinear_arith);
        }
        let ad0: i64 = bearing_to_current.radians() - self.desired_track.radians();
        let ad: i64 = if ad0 > PI_PR {
            ad0 - TWO_PI_PR
        } else if ad0 < -PI_PR {
            ad0 + TWO_PI_PR
        } else {
            ad0
        };
        let d = dist_to_start.meters();
        let atd = fxmul_s(d, cos_e(ad), Ghost(21_000_000_000_000),
            Ghost(TRIG_ABS_BOUND as int));
        let xte = fxmul_s(d, sin_e(ad), Ghost(21_000_000_000_000),
            Ghost(TRIG_ABS_BOUND as int));
        LegProgress {
            xte: Distance::from_meters(xte),
            atd: Distance::from_meters(atd),
            dtg: Distance::from_meters(self.total_distance.meters() - atd),
        }
    }
}

/// A named, ordered sequence of waypoints.  Insertion order defines leg
/// adjacency; legs are derived on demand and never cached.
#[derive(Debug)]
pub struct Route {
    pub name: String,
    pub waypoints: Vec<Waypoint>,
}

impl Route {
    pub fn new(name: &str) -> (r: Route)
        ensures
            r.name@ == name@,
            r.waypoints@.len() == 0,
    {
        Route { name: name.to_owned(), waypoints: Vec::new() }
    }

    pub fn add_waypoint(&mut self, wp: Waypoint)
        ensures
            final(self).waypoints@ == old(self).waypoints@.push(wp),
            final(self).name == old(self).name,
    {
        self.waypoints.push(wp);
    }

    /// The leg from waypoint `start_idx` to waypoint `start_idx + 1`,
    /// freshly built on every call; `None` exactly when no waypoint pair
    /// starts at that index.
    pub fn get_leg(&self, start_idx: usize) -> (r: Option<Leg>)
        ensures
            r is Some <==> start_idx + 1 < self.waypoints@.len(),
            r is Some ==> ({
                let l = r->0;
                &&& l.start == self.waypoints@[start_idx as int].location
                &&& l.end == self.waypoints@[start_idx as int + 1].location
                &&& l.desired_track@ == rhumb_line_bearing_spec(
                    self.waypoints@[start_idx as int].location@,
                    self.waypoints@[start_idx as int + 1].location@,
                )
                &&& l.total_distance@ == great_circle_distance_spec(
                    self.waypoints@[start_idx as int].location@,
                    self.waypoints@[start_idx as int + 1].location@,
                )
            }),
    {
        if start_idx >= self.waypoints.len() || start_idx + 1 >= self.waypoints.len() {
            return None;
        }
        Some(Leg::from_points(self.waypoints[start_idx].location,
            self.waypoints[start_idx + 1].location))
    }
}

} // verus!
