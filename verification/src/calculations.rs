//! Sailing calculations: great-circle, rhumb-line and dead-reckoning
//! formulas over validated geographic points.
//!
//! Great-circle math uses the WGS84 mean radius; rhumb-line distances use
//! the equatorial (semi-major) radius, following traditional
//! Mercator-sailing practice.

use vstd::prelude::*;
use vstd::arithmetic::div_mod::*;
use vstd::arithmetic::mul::*;
use crate::fixed::{
    SCALE, iabs, stdiv, smul_div, fxmul_s, fxdiv_b, fxmuldiv, isqrt, sqrt_floor,
    lemma_stdiv_facts, lemma_sqrt_floor,
};
use crate::geodesy::{
    GeoPoint, Ellipsoid, mean_radius_spec, mercator_latitude_spec, lemma_deg_to_rad_bound,
    lemma_deg_to_rad_le, LAT_MAX_PD, LON_MAX_PD,
};
use crate::trig::{
    PI_PR, TWO_PI_PR, sin_pr, cos_pr, atan2_pr, asin_pr, sin_e, cos_e, atan2_e, asin_e,
    TRIG_ABS_BOUND,
};
use crate::units::{Angle, Distance, deg_to_rad, rad_to_deg, RAD_PER_DEG_E15, DEG_PER_RAD_E12};

verus! {

/// One full turn in picodegrees.
pub const FULL_TURN_PD: i64 = 360_000_000_000_000;

/// Half a turn in picodegrees.
pub const HALF_TURN_PD: i64 = 180_000_000_000_000;

/// The WGS84 ellipsoid as a value, for use in specifications.
pub open spec fn wgs84_ellipsoid() -> Ellipsoid {
    Ellipsoid { semi_major_axis: 6_378_137_000_000, inverse_flattening: 298_257_223_563 }
}

/// The WGS84 derived radii, evaluated.
pub proof fn lemma_wgs84_values()
    ensures
        crate::geodesy::flattening_spec(wgs84_ellipsoid()) == 3_352_810,
        crate::geodesy::semi_minor_spec(wgs84_ellipsoid()) == 6_356_752_318_485,
        mean_radius_spec(wgs84_ellipsoid()) == 6_371_008_772_828,
{
    assert(3_352_810int * 298_257_223_563 == 999_999_801_734_262_030int
        && 6_356_752_318_485int * 1_000_000_000 == 6_356_752_318_485_000_000_000int
        && 6_371_008_772_828int * 3 == 19_113_026_318_484int
        && 6_378_137_000_000int * 996_647_190 == 6_356_752_318_485_030_000_000int)
        by (nonlinear_arith);
    lemma_fundamental_div_mod_converse(1_000_000_000_000_000_000int, 298_257_223_563int,
        3_352_810int, 198_265_737_970int);
    lemma_fundamental_div_mod_converse(6_356_752_318_485_030_000_000int, 1_000_000_000int,
        6_356_752_318_485int, 30_000_000int);
    lemma_fundamental_div_mod_converse(19_113_026_318_485int, 3int, 6_371_008_772_828int,
        1int);
}

/// Clamp into the unit range [0, SCALE].
pub open spec fn clamp_unit(v: int) -> int {
    if v < 0 {
        0
    } else if v > SCALE {
        SCALE as int
    } else {
        v
    }
}

/// The haversine great-circle distance between two points (views), in
/// micrometers, on a sphere of the WGS84 mean radius.
pub open spec fn great_circle_distance_spec(p1: (int, int), p2: (int, int)) -> int {
    let dphi2 = stdiv(deg_to_rad(iabs(p2.0 - p1.0)), 2);
    let dlam2 = stdiv(deg_to_rad(iabs(p2.1 - p1.1)), 2);
    let sdp = sin_pr(dphi2);
    let sdl = sin_pr(dlam2);
    let c1 = cos_pr(deg_to_rad(p1.0));
    let c2 = cos_pr(deg_to_rad(p2.0));
    let a = clamp_unit(
        smul_div(sdp, sdp, SCALE as int) + smul_div(
            smul_div(c1, c2, SCALE as int),
            smul_div(sdl, sdl, SCALE as int),
            SCALE as int,
        ),
    );
    let c = 2 * atan2_pr(
        sqrt_floor((a * SCALE) as nat) as int,
        sqrt_floor(((SCALE - a) * SCALE) as nat) as int,
    );
    smul_div(c, mean_radius_spec(wgs84_ellipsoid()), SCALE as int)
}

/// Great-circle distance by the haversine formula, on a sphere of the
/// WGS84 mean radius.  Numerically total: the haversine term is clamped
/// into [0, 1] before the square roots.
pub fn great_circle_distance(p1: GeoPoint, p2: GeoPoint) -> (d: Distance)
    ensures
        d@ == great_circle_distance_spec(p1@, p2@),
        0 <= d@ <= 21_000_000_000_000,
{
    proof {
        use_type_invariant(&p1);
        use_type_invariant(&p2);
    }
    let dlat: i64 = if p2.lat() >= p1.lat() {
        p2.lat() - p1.lat()
    } else {
        p1.lat() - p2.lat()
    };
    let dlon: i64 = if p2.lon() >= p1.lon() {
        p2.lon() - p1.lon()
    } else {
        p1.lon() - p2.lon()
    };
    proof {
        lemma_deg_to_rad_bound(dlat as int, 180_000_000_000_000);
        lemma_deg_to_rad_bound(dlon as int, 360_000_000_000_000);
    }
    let dphi2 = fxdiv_b(Angle::from_degrees(dlat).radians(), 2, Ghost(3_200_000_000_000));
    let dlam2 = fxdiv_b(Angle::from_degrees(dlon).radians(), 2, Ghost(6_300_000_000_000));
    let sdp = sin_e(dphi2);
    let sdl = sin_e(dlam2);
    let c1 = cos_e(Angle::from_degrees(p1.lat()).radians());
    let c2 = cos_e(Angle::from_degrees(p2.lat()).radians());
    let t1 = fxmul_s(sdp, sdp, Ghost(TRIG_ABS_BOUND as int), Ghost(TRIG_ABS_BOUND as int));
    let cc = fxmul_s(c1, c2, Ghost(TRIG_ABS_BOUND as int), Ghost(TRIG_ABS_BOUND as int));
    let sl2 = fxmul_s(sdl, sdl, Ghost(TRIG_ABS_BOUND as int), Ghost(TRIG_ABS_BOUND as int));
    let t2 = fxmul_s(cc, sl2, Ghost(1_960_000_000_000), Ghost(1_960_000_000_000));
    let araw: i64 = t1 + t2;
    let a: i64 = if araw < 0 {
        0
    } else if araw > SCALE {
        SCALE
    } else {
        araw
    };
    proof {
        lemma_mul_upper_bound(a as int, SCALE as int, SCALE as int, SCALE as int);
        lemma_mul_nonnegative(a as int, SCALE as int);
        lemma_mul_upper_bound((SCALE - a) as int, SCALE as int, SCALE as int, SCALE as int);
        lemma_mul_nonnegative((SCALE - a) as int, SCALE as int);
    }
    let sqa: u64 = isqrt((a as u128) * (SCALE as u128));
    let sqb: u64 = isqrt(((SCALE - a) as u128) * (SCALE as u128));
    let c: i64 = 2 * atan2_e(sqa as i64, sqb as i64);
    let radius: i64 = Ellipsoid::wgs84().mean_radius();
    proof {
        lemma_wgs84_values();
        lemma_mul_upper_bound(iabs(c as int), 3_200_000_000_000, iabs(radius as int),
            6_371_008_772_828);
        lemma_stdiv_facts((c as int) * (radius as int), SCALE as int);
        assert(iabs((c as int) * (radius as int)) == iabs(c as int) * iabs(radius as int))
            by (nonlinear_arith);
        lemma_div_is_ordered(iabs((c as int) * (radius as int)),
            3_200_000_000_000int * 6_371_008_772_828, SCALE as int);
    }
    Distance::from_meters(fxmuldiv(c, radius, SCALE))
}

/// The initial great-circle bearing from the first point toward the
/// second, in picodegrees, normalized into [0, 360) degrees.
pub open spec fn great_circle_bearing_spec(p1: (int, int), p2: (int, int)) -> int {
    let phi1 = deg_to_rad(p1.0);
    let phi2 = deg_to_rad(p2.0);
    let dlam = deg_to_rad(p2.1 - p1.1);
    let y = smul_div(sin_pr(dlam), cos_pr(phi2), SCALE as int);
    let x = smul_div(cos_pr(phi1), sin_pr(phi2), SCALE as int) - smul_div(
        smul_div(sin_pr(phi1), cos_pr(phi2), SCALE as int),
        cos_pr(dlam),
        SCALE as int,
    );
    (rad_to_deg(atan2_pr(y, x)) + FULL_TURN_PD) % (FULL_TURN_PD as int)
}

/// Initial great-circle bearing, normalized into [0, 360) degrees.
pub fn great_circle_bearing(p1: &GeoPoint, p2: &GeoPoint) -> (a: Angle)
    ensures
        a@ == great_circle_bearing_spec(p1@, p2@),
        0 <= a@ < FULL_TURN_PD,
{
    proof {
        use_type_invariant(p1);
        use_type_invariant(p2);
    }
    let dlon: i64 = p2.lon() - p1.lon();
    let (phi1, _) = p1.to_radians();
    let (phi2, _) = p2.to_radians();
    proof {
        lemma_deg_to_rad_bound(dlon as int, 360_000_000_000_000);
        lemma_deg_to_rad_bound(p1@.0, LAT_MAX_PD as int);
        lemma_deg_to_rad_bound(p2@.0, LAT_MAX_PD as int);
    }
    let dlam = Angle::from_degrees(dlon).radians();
    let y = fxmul_s(sin_e(dlam), cos_e(phi2), Ghost(TRIG_ABS_BOUND as int),
        Ghost(TRIG_ABS_BOUND as int));
    let x1 = fxmul_s(cos_e(phi1), sin_e(phi2), Ghost(TRIG_ABS_BOUND as int),
        Ghost(TRIG_ABS_BOUND as int));
    let x2a = fxmul_s(sin_e(phi1), cos_e(phi2), Ghost(TRIG_ABS_BOUND as int),
        Ghost(TRIG_ABS_BOUND as int));
    let x2 = fxmul_s(x2a, cos_e(dlam), Ghost(1_960_000_000_000), Ghost(TRIG_ABS_BOUND as int));
    let x: i64 = x1 - x2;
    let brg_rad = atan2_e(y, x);
    let brg = Angle::from_radians(brg_rad);
    proof {
        lemma_rad_to_deg_bound(brg_rad as int, PI_PR as int);
    }
    let n: i64 = brg.degrees() + FULL_TURN_PD;
    let nn: u64 = (n as u64) % (FULL_TURN_PD as u64);
    Angle::from_degrees(nn as i64)
}

/// Radian-to-degree bound with an explicit degree ceiling.
pub proof fn lemma_rad_to_deg_le(r: int, bound: int, dbound: int)
    requires
        iabs(r) <= bound,
        0 <= bound,
        0 <= dbound,
        bound * DEG_PER_RAD_E12 <= dbound * 1_000_000_000_000,
    ensures
        iabs(rad_to_deg(r)) <= dbound,
{
    lemma_stdiv_facts(r * DEG_PER_RAD_E12, 1_000_000_000_000);
    assert(iabs(r * DEG_PER_RAD_E12) == iabs(r) * DEG_PER_RAD_E12) by (nonlinear_arith);
    lemma_mul_inequality(iabs(r), bound, DEG_PER_RAD_E12 as int);
    lemma_div_is_ordered(iabs(r) * DEG_PER_RAD_E12, dbound * 1_000_000_000_000,
        1_000_000_000_000);
    lemma_mul_is_commutative(dbound, 1_000_000_000_000);
    lemma_div_multiples_vanish(dbound, 1_000_000_000_000);
}

/// A magnitude bound on a radian value carries to its degree conversion.
pub proof fn lemma_rad_to_deg_bound(r: int, bound: int)
    requires
        iabs(r) <= bound,
        0 <= bound,
    ensures
        iabs(rad_to_deg(r)) <= (bound * DEG_PER_RAD_E12) / 1_000_000_000_000,
{
    lemma_stdiv_facts(r * DEG_PER_RAD_E12, 1_000_000_000_000);
    assert(iabs(r * DEG_PER_RAD_E12) == iabs(r) * DEG_PER_RAD_E12) by (nonlinear_arith);
    lemma_mul_inequality(iabs(r), bound, DEG_PER_RAD_E12 as int);
    lemma_div_is_ordered(iabs(r) * DEG_PER_RAD_E12, bound * DEG_PER_RAD_E12,
        1_000_000_000_000);
}

/// The rhumb-line (Mercator) bearing from the first point toward the
/// second, in picodegrees.  The longitude difference is corrected across
/// the antimeridian; the result is *not* normalized into [0, 360).
pub open spec fn rhumb_line_bearing_spec(p1: (int, int), p2: (int, int)) -> int {
    let dlon0 = deg_to_rad(p2.1) - deg_to_rad(p1.1);
    let dlon = if dlon0 > PI_PR {
        dlon0 - TWO_PI_PR
    } else if dlon0 < -PI_PR {
        dlon0 + TWO_PI_PR
    } else {
        dlon0
    };
    let dm = mercator_latitude_spec(p2.0) - mercator_latitude_spec(p1.0);
    rad_to_deg(atan2_pr(dlon, dm))
}

/// Rhumb-line bearing using the pole-clamped Mercator latitude.
pub fn rhumb_line_bearing(start: &GeoPoint, end: &GeoPoint) -> (a: Angle)
    ensures
        a@ == rhumb_line_bearing_spec(start@, end@),
        iabs(a@) <= 181_000_000_000_000,
{
    proof {
        use_type_invariant(start);
        use_type_invariant(end);
    }
    let (_, lam1) = start.to_radians();
    let (_, lam2) = end.to_radians();
    proof {
        lemma_deg_to_rad_bound(start@.1, LON_MAX_PD as int);
        lemma_deg_to_rad_bound(end@.1, LON_MAX_PD as int);
    }
    let dlon0: i64 = lam2 - lam1;
    let dlon: i64 = if dlon0 > PI_PR {
        dlon0 - TWO_PI_PR
    } else if dlon0 < -PI_PR {
        dlon0 + TWO_PI_PR
    } else {
        dlon0
    };
    let dm: i64 = end.mercator_latitude() - start.mercator_latitude();
    let brg_rad = atan2_e(dlon, dm);
    proof {
        lemma_rad_to_deg_bound(brg_rad as int, PI_PR as int);
    }
    Angle::from_radians(brg_rad)
}

/// Clamp into [-2, 2] (scaled by 1e12), the numerical guard on the
/// rhumb-line aspect ratio.
pub open spec fn clamp_two(v: int) -> int {
    if v < -2 * (SCALE as int) {
        -2 * (SCALE as int)
    } else if v > 2 * (SCALE as int) {
        2 * (SCALE as int)
    } else {
        v
    }
}

/// The rhumb-line distance (micrometers, on the equatorial radius) and
/// bearing (picodegrees, normalized into [0, 360) degrees) between two
/// points, by the Mercator-sailing formulas.
pub open spec fn rhumb_line_navigation_spec(p1: (int, int), p2: (int, int)) -> (int, int) {
    let dphi = deg_to_rad(p2.0) - deg_to_rad(p1.0);
    let dlon0 = deg_to_rad(p2.1) - deg_to_rad(p1.1);
    let dlam = if dlon0 > PI_PR {
        dlon0 - TWO_PI_PR
    } else if dlon0 < -PI_PR {
        dlon0 + TWO_PI_PR
    } else {
        dlon0
    };
    let dpsi = mercator_latitude_spec(p2.0) - mercator_latitude_spec(p1.0);
    let bearing = (rad_to_deg(atan2_pr(dlam, dpsi)) + FULL_TURN_PD) % (FULL_TURN_PD as int);
    let q = if iabs(dphi) > 1000 && dpsi != 0 {
        clamp_two(stdiv(dphi * SCALE, dpsi))
    } else {
        cos_pr(deg_to_rad(p1.0))
    };
    let qdl = smul_div(q, dlam, SCALE as int);
    let rt = sqrt_floor((dphi * dphi + qdl * qdl) as nat) as int;
    let dist = smul_div(rt, wgs84_ellipsoid().semi_major_axis as int, SCALE as int);
    (dist, bearing)
}

/// Rhumb-line distance and course.  The Mercator stretching factor uses
/// the pole-clamped Mercator latitude for both endpoints: one consistent
/// policy for all rhumb-line math in this crate.  Because the clamp can
/// make the stretching factor vanish for two distinct near-pole latitudes,
/// the east-west fallback aspect `cos(lat1)` also covers that case, not
/// only a near-zero latitude difference.  Distance uses the equatorial
/// radius, deliberately not the mean radius.
#[verifier::rlimit(100)]
pub fn rhumb_line_navigation(p1: GeoPoint, p2: GeoPoint) -> (r: (Distance, Angle))
    ensures
        r.0@ == rhumb_line_navigation_spec(p1@, p2@).0,
        r.1@ == rhumb_line_navigation_spec(p1@, p2@).1,
        0 <= r.0@ <= 60_000_000_000_000,
{
    proof {
        use_type_invariant(&p1);
        use_type_invariant(&p2);
    }
    let (phi1, lam1) = p1.to_radians();
    let (phi2, lam2) = p2.to_radians();
    proof {
        lemma_deg_to_rad_bound(p1@.0, LAT_MAX_PD as int);
        lemma_deg_to_rad_bound(p2@.0, LAT_MAX_PD as int);
        lemma_deg_to_rad_bound(p1@.1, LON_MAX_PD as int);
        lemma_deg_to_rad_bound(p2@.1, LON_MAX_PD as int);
    }
    let dphi: i64 = phi2 - phi1;
    let dlon0: i64 = lam2 - lam1;
    let dlam: i64 = if dlon0 > PI_PR {
        dlon0 - TWO_PI_PR
    } else if dlon0 < -PI_PR {
        dlon0 + TWO_PI_PR
    } else {
        dlon0
    };
    let dpsi: i64 = p2.mercator_latitude() - p1.mercator_latitude();
    let brg_rad = atan2_e(dlam, dpsi);
    proof {
        lemma_rad_to_deg_bound(brg_rad as int, PI_PR as int);
    }
    let brg = Angle::from_radians(brg_rad);
    let n: i64 = brg.degrees() + FULL_TURN_PD;
    let nn: u64 = (n as u64) % (FULL_TURN_PD as u64);
    let bearing = Angle::from_degrees(nn as i64);
    let adphi: i64 = if dphi < 0 {
        -dphi
    } else {
        dphi
    };
    let q: i64 = if adphi > 1000 && dpsi != 0 {
        scaled_ratio_clamped(dphi, dpsi)
    } else {
        cos_e(phi1)
    };
    let qdl = fxmul_s(q, dlam, Ghost(2_000_000_000_000), Ghost(3_200_000_000_000));
    proof {
        lemma_mul_upper_bound(iabs(dphi as int), 3_200_000_000_000, iabs(dphi as int),
            3_200_000_000_000);
        lemma_mul_upper_bound(iabs(qdl as int), 6_400_000_000_000, iabs(qdl as int),
            6_400_000_000_000);
        assert((dphi as int) * (dphi as int) == iabs(dphi as int) * iabs(dphi as int)
            && (qdl as int) * (qdl as int) == iabs(qdl as int) * iabs(qdl as int))
            by (nonlinear_arith);
    }
    let s1: u128 = (adphi as u128) * (adphi as u128);
    let aqdl: i64 = if qdl < 0 {
        -qdl
    } else {
        qdl
    };
    let s2: u128 = (aqdl as u128) * (aqdl as u128);
    let rt: u64 = isqrt(s1 + s2);
    proof {
        lemma_sqrt_floor((s1 + s2) as nat);
        assert((rt as int) <= 9_100_000_000_000) by (nonlinear_arith)
            requires
                (rt as int) * (rt as int) <= ((s1 + s2) as int),
                ((s1 + s2) as int) <= 82_000_000_000_000_000_000_000_000,
                rt as int >= 0,
        ;
        lemma_stdiv_facts((rt as int) * 6_378_137_000_000, SCALE as int);
        lemma_mul_upper_bound(rt as int, 9_100_000_000_000, 6_378_137_000_000,
            6_378_137_000_000);
        assert(iabs((rt as int) * 6_378_137_000_000) == (rt as int) * 6_378_137_000_000);
        lemma_div_is_ordered((rt as int) * 6_378_137_000_000,
            9_100_000_000_000int * 6_378_137_000_000, SCALE as int);
    }
    let dist = Distance::from_meters(fxmuldiv(rt as i64, 6_378_137_000_000, SCALE));
    (dist, bearing)
}

/// `(num / den) * SCALE`, rounded toward zero and clamped into
/// [-2 SCALE, 2 SCALE].
fn scaled_ratio_clamped(num: i64, den: i64) -> (r: i64)
    requires
        den != 0,
        iabs(num as int) <= 10_000_000_000_000,
    ensures
        r as int == clamp_two(stdiv((num as int) * SCALE, den as int)),
{
    proof {
        assert(iabs((num as int) * (SCALE as int)) <= 10_000_000_000_000_000_000_000_000int)
            by (nonlinear_arith)
            requires
                iabs(num as int) <= 10_000_000_000_000,
                SCALE == 1_000_000_000_000i64,
        ;
    }
    let wn: i128 = (num as i128) * (SCALE as i128);
    let un: u128 = if wn < 0 {
        (-wn) as u128
    } else {
        wn as u128
    };
    let wd: i128 = den as i128;
    let ud: u128 = if wd < 0 {
        (-wd) as u128
    } else {
        wd as u128
    };
    let q: u128 = un / ud;
    proof {
        assert(iabs((num as int) * (SCALE as int)) == iabs(num as int) * (SCALE as int))
            by (nonlinear_arith);
        assert(un as int == iabs((num as int) * (SCALE as int)));
        assert(ud as int == iabs(den as int));
        lemma_div_pos_is_pos(un as int, ud as int);
        lemma_div_nonincreasing(un as int, ud as int);
    }
    let v: i128 = if (num < 0) != (den < 0) {
        -(q as i128)
    } else {
        q as i128
    };
    if v < -2 * (SCALE as i128) {
        -2 * SCALE
    } else if v > 2 * (SCALE as i128) {
        2 * SCALE
    } else {
        v as i64
    }
}

/// The spherical direct-geodesic (dead-reckoning) result: the point
/// reached from `start` on initial bearing `bearing` (picodegrees) after
/// `distance` micrometers on a sphere of the WGS84 mean radius.  The new
/// latitude is within bounds by construction; the new longitude is
/// wrapped across the antimeridian into [-180, 180] degrees.
pub open spec fn dead_reckon_spec(start: (int, int), bearing: int, distance: int) -> (
    int,
    int,
) {
    let phi1 = deg_to_rad(start.0);
    let lam1 = deg_to_rad(start.1);
    let brng = deg_to_rad(bearing);
    let delta = stdiv(distance * SCALE, mean_radius_spec(wgs84_ellipsoid()));
    let sp = smul_div(sin_pr(phi1), cos_pr(delta), SCALE as int) + smul_div(
        smul_div(cos_pr(phi1), sin_pr(delta), SCALE as int),
        cos_pr(brng),
        SCALE as int,
    );
    let spc = if sp < -SCALE {
        -SCALE as int
    } else if sp > SCALE {
        SCALE as int
    } else {
        sp
    };
    let phi2 = asin_pr(spc);
    let y = smul_div(
        smul_div(sin_pr(brng), sin_pr(delta), SCALE as int),
        cos_pr(phi1),
        SCALE as int,
    );
    let x = cos_pr(delta) - smul_div(sin_pr(phi1), sin_pr(phi2), SCALE as int);
    let lam2 = lam1 + atan2_pr(y, x);
    let lon0 = rad_to_deg(lam2);
    let lon1 = if lon0 > HALF_TURN_PD {
        lon0 - FULL_TURN_PD
    } else if lon0 < -HALF_TURN_PD {
        lon0 + FULL_TURN_PD
    } else {
        lon0
    };
    let lon = if lon1 > HALF_TURN_PD {
        HALF_TURN_PD as int
    } else if lon1 < -HALF_TURN_PD {
        -HALF_TURN_PD as int
    } else {
        lon1
    };
    let lat0 = rad_to_deg(phi2);
    let lat = if lat0 > LAT_MAX_PD {
        LAT_MAX_PD as int
    } else if lat0 < -LAT_MAX_PD {
        -LAT_MAX_PD as int
    } else {
        lat0
    };
    (lat, lon)
}

/// Dead reckoning on a sphere of the WGS84 mean radius.  Always returns a
/// valid point: the latitude comes from an arcsine (so it stays within
/// [-90, 90] degrees) and the longitude is wrapped, resolving the
/// out-of-bounds hazard of the naive formula.
#[verifier::rlimit(100)]
pub fn dead_reckon(start: GeoPoint, bearing: Angle, distance: Distance) -> (p: GeoPoint)
    ensures
        p@ == dead_reckon_spec(start@, bearing@, distance@),
{
    let (phi1, lam1) = start.to_radians();
    proof {
        use_type_invariant(&start);
        lemma_deg_to_rad_bound(start@.0, LAT_MAX_PD as int);
        lemma_deg_to_rad_bound(start@.1, LON_MAX_PD as int);
    }
    let brng = bearing.radians();
    let radius: i64 = Ellipsoid::wgs84().mean_radius();
    let dist_um = distance.meters();
    proof {
        lemma_wgs84_values();
        lemma_mul_upper_bound(iabs(dist_um as int), 0x8000_0000_0000_0000, SCALE as int,
            SCALE as int);
    }
    let delta = fxmuldiv(dist_um, SCALE, radius);
    let sp1 = fxmul_s(sin_e(phi1), cos_e(delta), Ghost(TRIG_ABS_BOUND as int),
        Ghost(TRIG_ABS_BOUND as int));
    let sp2a = fxmul_s(cos_e(phi1), sin_e(delta), Ghost(TRIG_ABS_BOUND as int),
        Ghost(TRIG_ABS_BOUND as int));
    let sp2 = fxmul_s(sp2a, cos_e(brng), Ghost(1_960_000_000_000),
        Ghost(TRIG_ABS_BOUND as int));
    let sp: i64 = sp1 + sp2;
    let spc: i64 = if sp < -SCALE {
        -SCALE
    } else if sp > SCALE {
        SCALE
    } else {
        sp
    };
    let phi2 = asin_e(spc);
    let y = fxmul_s(
        fxmul_s(sin_e(brng), sin_e(delta), Ghost(TRIG_ABS_BOUND as int),
            Ghost(TRIG_ABS_BOUND as int)),
        cos_e(phi1),
        Ghost(1_960_000_000_000),
        Ghost(TRIG_ABS_BOUND as int),
    );
    let x: i64 = cos_e(delta) - fxmul_s(sin_e(phi1), sin_e(phi2),
        Ghost(TRIG_ABS_BOUND as int), Ghost(TRIG_ABS_BOUND as int));
    proof {
        lemma_deg_to_rad_le(start@.1, LON_MAX_PD as int, 3_141_592_653_590);
        assert((LON_MAX_PD as int) * RAD_PER_DEG_E15 <= 3_141_592_653_590int
            * 1_000_000_000_000_000) by (nonlinear_arith);
    }
    let lam2: i64 = lam1 + atan2_e(y, x);
    let lat2: i64 = Angle::from_radians(phi2).degrees();
    let lon0: i64 = Angle::from_radians(lam2).degrees();
    proof {
        lemma_rad_to_deg_le(lam2 as int, 6_283_185_307_180, 360_000_000_000_022);
        assert(6_283_185_307_180int * DEG_PER_RAD_E12 <= 360_000_000_000_022int
            * 1_000_000_000_000) by (nonlinear_arith);
    }
    let lon1: i64 = if lon0 > HALF_TURN_PD {
        lon0 - FULL_TURN_PD
    } else if lon0 < -HALF_TURN_PD {
        lon0 + FULL_TURN_PD
    } else {
        lon0
    };
    let lon: i64 = if lon1 > HALF_TURN_PD {
        HALF_TURN_PD
    } else if lon1 < -HALF_TURN_PD {
        -HALF_TURN_PD
    } else {
        lon1
    };
    let lat: i64 = if lat2 > LAT_MAX_PD {
        LAT_MAX_PD
    } else if lat2 < -LAT_MAX_PD {
        -LAT_MAX_PD
    } else {
        lat2
    };
    GeoPoint::new_unchecked(lat, lon)
}

/// The great-circle distance is symmetric in its endpoints.
pub proof fn lemma_great_circle_distance_symmetric(p1: GeoPoint, p2: GeoPoint)
    ensures
        great_circle_distance_spec(p1@, p2@) == great_circle_distance_spec(p2@, p1@),
{
    lemma_mul_is_commutative(cos_pr(deg_to_rad(p1@.0)), cos_pr(deg_to_rad(p2@.0)));
}

/// The great-circle distance from a point to itself is zero.
pub proof fn lemma_great_circle_distance_self(p: GeoPoint)
    ensures
        great_circle_distance_spec(p@, p@) == 0,
{
    let c1 = cos_pr(deg_to_rad(p@.0));
    assert(deg_to_rad(0) == 0);
    assert(sin_pr(stdiv(0, 2)) == 0);
    lemma_mul_by_zero_is_zero(c1);
    assert(smul_div(0, 0, SCALE as int) == 0);
    let cc = smul_div(c1, c1, SCALE as int);
    lemma_mul_by_zero_is_zero(cc);
    assert(smul_div(cc, 0, SCALE as int) == 0);
    assert(clamp_unit(0) == 0);
    lemma_sqrt_floor_value_zero();
    lemma_sqrt_floor_value_scale();
    assert(atan2_pr(0, SCALE as int) == 0);
    lemma_mul_by_zero_is_zero(mean_radius_spec(wgs84_ellipsoid()));
    assert(smul_div(0, mean_radius_spec(wgs84_ellipsoid()), SCALE as int) == 0);
}

proof fn lemma_sqrt_floor_value_zero()
    ensures
        sqrt_floor(0) == 0,
{
    assert((0nat + 1) * (0nat + 1) == 1nat) by (nonlinear_arith);
    crate::fixed::lemma_sqrt_floor_unique(0, 0);
}

proof fn lemma_sqrt_floor_value_scale()
    ensures
        sqrt_floor(1_000_000_000_000_000_000_000_000nat) == 1_000_000_000_000nat,
{
    assert(1_000_000_000_000nat * 1_000_000_000_000nat
        == 1_000_000_000_000_000_000_000_000nat && (1_000_000_000_000nat + 1) * (
    1_000_000_000_000nat + 1) > 1_000_000_000_000_000_000_000_000nat) by (nonlinear_arith);
    crate::fixed::lemma_sqrt_floor_unique(1_000_000_000_000_000_000_000_000nat,
        1_000_000_000_000nat);
}

} // verus!
