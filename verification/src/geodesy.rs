//! Geodesy primitives: a validated geographic point and an Earth ellipsoid.

use vstd::prelude::*;
use vstd::arithmetic::mul::*;
use crate::fixed::{iabs, stdiv, fxmuldiv, fxdiv, lemma_stdiv_facts};
use crate::units::deg_to_rad;
use crate::trig::{mercator_spec, mercator};

verus! {

/// Largest valid latitude, in picodegrees (90 degrees).
pub const LAT_MAX_PD: i64 = 90_000_000_000_000;

/// Largest valid longitude, in picodegrees (180 degrees).
pub const LON_MAX_PD: i64 = 180_000_000_000_000;

/// Pole-avoidance clamp for the Mercator latitude, in picodegrees
/// (89.5 degrees).
pub const MERCATOR_CLAMP_PD: i64 = 89_500_000_000_000;

pub open spec fn valid_lat(lat: int) -> bool {
    -LAT_MAX_PD <= lat <= LAT_MAX_PD
}

pub open spec fn valid_lon(lon: int) -> bool {
    -LON_MAX_PD <= lon <= LON_MAX_PD
}

/// A coordinate that violated its bound, reported with the offending
/// value and the bound itself (all in picodegrees).
#[derive(Debug, Clone, Copy, PartialEq, Eq, Structural)]
pub enum CoordError {
    LatitudeOutOfRange { value: i64, min: i64, max: i64 },
    LongitudeOutOfRange { value: i64, min: i64, max: i64 },
}

/// An immutable, validated geographic point.  Latitude and longitude are
/// stored in picodegrees; the view is the pair `(latitude, longitude)`.
#[derive(Debug, Clone, Copy, PartialEq, Eq, Structural)]
pub struct GeoPoint {
    lat: i64,
    lon: i64,
}

impl View for GeoPoint {
    type V = (int, int);

    closed spec fn view(&self) -> (int, int) {
        (self.lat as int, self.lon as int)
    }
}

impl GeoPoint {
    /// Every point ever constructed has both coordinates within bounds.
    #[verifier::type_invariant]
    pub open spec fn inv(self) -> bool {
        valid_lat(self@.0) && valid_lon(self@.1)
    }

    /// Validating constructor: out-of-range values are rejected, never
    /// clamped.  Latitude is checked before longitude.
    pub fn new(lat: i64, lon: i64) -> (r: Result<GeoPoint, CoordError>)
        ensures
            r is Ok <==> (valid_lat(lat as int) && valid_lon(lon as int)),
            r is Ok ==> r->Ok_0@ == (lat as int, lon as int),
            !valid_lat(lat as int) ==> r == Result::<GeoPoint, CoordError>::Err(
                CoordError::LatitudeOutOfRange { value: lat, min: ((-LAT_MAX_PD) as i64), max: LAT_MAX_PD }),
            valid_lat(lat as int) && !valid_lon(lon as int) ==> r
                == Result::<GeoPoint, CoordError>::Err(CoordError::LongitudeOutOfRange {
                value: lon,
                min: ((-LON_MAX_PD) as i64),
                max: LON_MAX_PD,
            }),
    {
        if lat < -LAT_MAX_PD || lat > LAT_MAX_PD {
            return Err(CoordError::LatitudeOutOfRange {
                value: lat,
                min: -LAT_MAX_PD,
                max: LAT_MAX_PD,
            });
        }
        if lon < -LON_MAX_PD || lon > LON_MAX_PD {
            return Err(CoordError::LongitudeOutOfRange {
                value: lon,
                min: -LON_MAX_PD,
                max: LON_MAX_PD,
            });
        }
        Ok(GeoPoint { lat, lon })
    }

    /// Constructor for callers that have already established validity.
    pub fn new_unchecked(lat: i64, lon: i64) -> (p: GeoPoint)
        requires
            valid_lat(lat as int),
            valid_lon(lon as int),
        ensures
            p@ == (lat as int, lon as int),
    {
        GeoPoint { lat, lon }
    }

    /// The latitude in picodegrees.
    pub fn lat(&self) -> (r: i64)
        ensures
            r as int == self@.0,
    {
        self.lat
    }

    /// The longitude in picodegrees.
    pub fn lon(&self) -> (r: i64)
        ensures
            r as int == self@.1,
    {
        self.lon
    }

    /// Both coordinates converted to picoradians.
    pub fn to_radians(&self) -> (r: (i64, i64))
        ensures
            r.0 as int == deg_to_rad(self@.0),
            r.1 as int == deg_to_rad(self@.1),
    {
        (crate::units::Angle::from_degrees(self.lat).radians(),
        crate::units::Angle::from_degrees(self.lon).radians())
    }

    /// The Mercator latitude (meridional parts), `ln(tan(pi/4 + phi/2))`,
    /// with the latitude clamped to +/-89.5 degrees first so that the
    /// tangent singularity at the poles is never reached.
    pub fn mercator_latitude(&self) -> (r: i64)
        ensures
            r as int == mercator_latitude_spec(self@.0),
            iabs(r as int) <= crate::trig::MERC_LIMIT,
    {
        let clamped: i64 = if self.lat < -MERCATOR_CLAMP_PD {
            -MERCATOR_CLAMP_PD
        } else if self.lat > MERCATOR_CLAMP_PD {
            MERCATOR_CLAMP_PD
        } else {
            self.lat
        };
        proof {
            lemma_deg_to_rad_bound(clamped as int, MERCATOR_CLAMP_PD as int);
        }
        let phi: i64 = crate::units::Angle::from_degrees(clamped).radians();
        mercator(phi)
    }
}

/// The Mercator latitude of a latitude given in picodegrees.
pub open spec fn mercator_latitude_spec(lat: int) -> int {
    let clamped = if lat < -MERCATOR_CLAMP_PD {
        -MERCATOR_CLAMP_PD as int
    } else if lat > MERCATOR_CLAMP_PD {
        MERCATOR_CLAMP_PD as int
    } else {
        lat
    };
    mercator_spec(deg_to_rad(clamped))
}

/// A magnitude bound on a degree value carries to its radian conversion.
pub proof fn lemma_deg_to_rad_bound(d: int, bound: int)
    requires
        iabs(d) <= bound,
        0 <= bound,
    ensures
        iabs(deg_to_rad(d)) <= (bound * crate::units::RAD_PER_DEG_E15)
            / 1_000_000_000_000_000,
{
    lemma_stdiv_facts(d * crate::units::RAD_PER_DEG_E15, 1_000_000_000_000_000);
    assert(iabs(d * crate::units::RAD_PER_DEG_E15) == iabs(d) * crate::units::RAD_PER_DEG_E15)
        by (nonlinear_arith);
    lemma_mul_inequality(iabs(d), bound, crate::units::RAD_PER_DEG_E15 as int);
    vstd::arithmetic::div_mod::lemma_div_is_ordered(iabs(d) * crate::units::RAD_PER_DEG_E15,
        bound * crate::units::RAD_PER_DEG_E15, 1_000_000_000_000_000);
}

/// Degree-to-radian bound with an explicit radian ceiling.
pub proof fn lemma_deg_to_rad_le(d: int, bound: int, rbound: int)
    requires
        iabs(d) <= bound,
        0 <= bound,
        0 <= rbound,
        bound * crate::units::RAD_PER_DEG_E15 <= rbound * 1_000_000_000_000_000,
    ensures
        iabs(deg_to_rad(d)) <= rbound,
{
    lemma_stdiv_facts(d * crate::units::RAD_PER_DEG_E15, 1_000_000_000_000_000);
    assert(iabs(d * crate::units::RAD_PER_DEG_E15) == iabs(d) * crate::units::RAD_PER_DEG_E15)
        by (nonlinear_arith);
    lemma_mul_inequality(iabs(d), bound, crate::units::RAD_PER_DEG_E15 as int);
    vstd::arithmetic::div_mod::lemma_div_is_ordered(iabs(d) * crate::units::RAD_PER_DEG_E15,
        rbound * 1_000_000_000_000_000, 1_000_000_000_000_000);
    lemma_mul_is_commutative(rbound, 1_000_000_000_000_000);
    vstd::arithmetic::div_mod::lemma_div_multiples_vanish(rbound, 1_000_000_000_000_000);
}

/// An Earth model: semi-major axis in micrometers, inverse flattening
/// scaled by 1e9.
#[derive(Debug, Clone, Copy, PartialEq, Eq, Structural)]
pub struct Ellipsoid {
    pub semi_major_axis: i64,
    pub inverse_flattening: i64,
}

impl Ellipsoid {
    /// Well-formedness: axis and flattening in physically sensible ranges.
    pub open spec fn wf(self) -> bool {
        &&& 1_000_000 <= self.semi_major_axis <= 10_000_000_000_000_000
        &&& 1_000_000_000 <= self.inverse_flattening <= 1_000_000_000_000_000_000
    }

    /// The WGS84 reference ellipsoid: a = 6,378,137 m, 1/f = 298.257223563.
    pub fn wgs84() -> (e: Ellipsoid)
        ensures
            e.semi_major_axis == 6_378_137_000_000i64,
            e.inverse_flattening == 298_257_223_563i64,
            e.wf(),
    {
        Ellipsoid { semi_major_axis: 6_378_137_000_000, inverse_flattening: 298_257_223_563 }
    }

    /// Flattening, scaled by 1e9.
    pub fn flattening(&self) -> (f: i64)
        requires
            self.wf(),
        ensures
            f as int == flattening_spec(*self),
            0 <= f <= 1_000_000_000,
    {
        proof {
            lemma_stdiv_facts(1_000_000_000_000_000_000, self.inverse_flattening as int);
            vstd::arithmetic::div_mod::lemma_div_is_ordered(1_000_000_000_000_000_000,
                1_000_000_000_000_000_000, self.inverse_flattening as int);
            vstd::arithmetic::div_mod::lemma_div_is_ordered_by_denominator(
                1_000_000_000_000_000_000, 1_000_000_000, self.inverse_flattening as int);
        }
        fxdiv(1_000_000_000_000_000_000, self.inverse_flattening)
    }

    /// Semi-minor axis in micrometers.
    pub fn semi_minor_axis(&self) -> (b: i64)
        requires
            self.wf(),
        ensures
            b as int == semi_minor_spec(*self),
            0 <= b <= self.semi_major_axis,
    {
        let f: i64 = self.flattening();
        proof {
            lemma_mul_upper_bound(iabs(self.semi_major_axis as int), 10_000_000_000_000_000,
                iabs((1_000_000_000 - f) as int), 1_000_000_000);
            lemma_stdiv_facts(self.semi_major_axis as int * (1_000_000_000 - f),
                1_000_000_000);
            assert(iabs(self.semi_major_axis as int * (1_000_000_000 - f)) == iabs(
                self.semi_major_axis as int) * iabs((1_000_000_000 - f) as int))
                by (nonlinear_arith);
            assert(iabs(self.semi_major_axis as int) * iabs((1_000_000_000 - f) as int) <= (
            self.semi_major_axis as int) * 1_000_000_000) by (nonlinear_arith)
                requires
                    0 <= 1_000_000_000 - f <= 1_000_000_000,
                    0 <= self.semi_major_axis,
            ;
            vstd::arithmetic::div_mod::lemma_div_is_ordered(iabs(
                self.semi_major_axis as int * (1_000_000_000 - f)),
                (self.semi_major_axis as int) * 1_000_000_000, 1_000_000_000);
            vstd::arithmetic::div_mod::lemma_div_multiples_vanish(self.semi_major_axis as int,
                1_000_000_000);
            lemma_mul_is_commutative(self.semi_major_axis as int, 1_000_000_000);
        }
        fxmuldiv(self.semi_major_axis, 1_000_000_000 - f, 1_000_000_000)
    }

    /// Mean radius `(2a + b) / 3` in micrometers: the spherical radius used
    /// by all great-circle formulas.
    pub fn mean_radius(&self) -> (r: i64)
        requires
            self.wf(),
        ensures
            r as int == mean_radius_spec(*self),
            0 <= r <= 10_000_000_000_000_000,
    {
        let b: i64 = self.semi_minor_axis();
        proof {
            lemma_stdiv_facts(2 * (self.semi_major_axis as int) + b, 3);
        }
        fxdiv(2 * self.semi_major_axis + b, 3)
    }
}

/// Flattening scaled by 1e9: `1e18 / inverse_flattening`, truncated.
pub open spec fn flattening_spec(e: Ellipsoid) -> int {
    stdiv(1_000_000_000_000_000_000, e.inverse_flattening as int)
}

/// Semi-minor axis in micrometers: `a * (1 - f)`, truncated.
pub open spec fn semi_minor_spec(e: Ellipsoid) -> int {
    stdiv((e.semi_major_axis as int) * (1_000_000_000 - flattening_spec(e)), 1_000_000_000)
}

/// Mean radius in micrometers: `(2a + b) / 3`, truncated.
pub open spec fn mean_radius_spec(e: Ellipsoid) -> int {
    stdiv(2 * (e.semi_major_axis as int) + semi_minor_spec(e), 3)
}

} // verus!
