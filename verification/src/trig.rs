//! Fixed-point circular functions on picoradians.
//!
//! Angles are `i64` values in units of 1e-12 radian.  Dimensionless results
//! (sines, cosines, tangents, logarithms) are scaled by [`SCALE`] (1e-12).
//! Each executable kernel has an exact contract: its result equals a spec
//! function that states the polynomial-approximation formula it computes
//! (truncated Taylor/Maclaurin series after range reduction).

use vstd::prelude::*;
use vstd::arithmetic::div_mod::*;
use vstd::arithmetic::mul::*;
use vstd::arithmetic::power2::*;
use crate::fixed::{
    SCALE, iabs, stdiv, smul_div, fxmul_s, fxdiv_b, fxmuldiv, fxdiv, isqrt, sqrt_floor,
    lemma_stdiv_facts, lemma_sqrt_floor,
};

verus! {

/// pi, in picoradians (rounded).
pub const PI_PR: i64 = 3_141_592_653_590;

/// 2 pi, in picoradians.
pub const TWO_PI_PR: i64 = 6_283_185_307_180;

/// pi/2, in picoradians.
pub const HALF_PI_PR: i64 = 1_570_796_326_795;

/// pi/4, in picoradians.
pub const QUARTER_PI_PR: i64 = 785_398_163_397;

/// 3 pi/4, in picoradians.
pub const THREE_QUARTER_PI_PR: i64 = 2_356_194_490_193;

/// tan(pi/8), scaled by 1e12.
pub const TAN_EIGHTH_PI: i64 = 414_213_562_373;

/// ln 2, scaled by 1e12.
pub const LN2_PR: i64 = 693_147_180_560;

/// Saturation value for the Mercator latitude where its formula leaves the
/// representable domain (never reached for pole-clamped inputs).
pub const MERC_LIMIT: i64 = 30_000_000_000_000;

/// Every circular kernel's result magnitude stays under this bound.
pub const TRIG_ABS_BOUND: i64 = 1_400_000_000_000;

/// Reduction of an angle into [-pi, pi] by whole turns.
pub open spec fn wrap_pi(x: int) -> int
    decreases iabs(x),
{
    if x > PI_PR {
        wrap_pi(x - TWO_PI_PR)
    } else if x < -PI_PR {
        wrap_pi(x + TWO_PI_PR)
    } else {
        x
    }
}

pub fn wrap_pi_e(x: i64) -> (r: i64)
    ensures
        r as int == wrap_pi(x as int),
        -PI_PR <= r <= PI_PR,
{
    let mut v: i64 = x;
    if v > PI_PR {
        while v > PI_PR
            invariant
                wrap_pi(v as int) == wrap_pi(x as int),
                v > -PI_PR,
            decreases v + PI_PR,
        {
            v = v - TWO_PI_PR;
        }
    } else if v < -PI_PR {
        while v < -PI_PR
            invariant
                wrap_pi(v as int) == wrap_pi(x as int),
                v < PI_PR,
            decreases PI_PR - v,
        {
            v = v + TWO_PI_PR;
        }
    }
    v
}

/// Maclaurin polynomial for the sine on [-pi/4, pi/4]:
/// `y - y^3/6 + y^5/120 - y^7/5040`, evaluated in fixed point.
pub open spec fn sin_poly(y: int) -> int {
    let u = smul_div(y, y, SCALE as int);
    let t3 = smul_div(u, y, SCALE as int);
    let t5 = smul_div(t3, u, SCALE as int);
    let t7 = smul_div(t5, u, SCALE as int);
    y - stdiv(t3, 6) + stdiv(t5, 120) - stdiv(t7, 5040)
}

fn sin_poly_e(y: i64) -> (r: i64)
    requires
        iabs(y as int) <= 790_000_000_000,
    ensures
        r as int == sin_poly(y as int),
        iabs(r as int) <= 900_000_000_000,
{
    let u = fxmul_s(y, y, Ghost(790_000_000_000), Ghost(790_000_000_000));
    let t3 = fxmul_s(u, y, Ghost(630_000_000_000), Ghost(790_000_000_000));
    let t5 = fxmul_s(t3, u, Ghost(500_000_000_000), Ghost(630_000_000_000));
    let t7 = fxmul_s(t5, u, Ghost(320_000_000_000), Ghost(630_000_000_000));
    let a3 = fxdiv_b(t3, 6, Ghost(500_000_000_000));
    let a5 = fxdiv_b(t5, 120, Ghost(320_000_000_000));
    let a7 = fxdiv_b(t7, 5040, Ghost(210_000_000_000));
    y - a3 + a5 - a7
}

/// Maclaurin polynomial for the cosine on [-pi/4, pi/4]:
/// `1 - y^2/2 + y^4/24 - y^6/720 + y^8/40320`, evaluated in fixed point.
pub open spec fn cos_poly(y: int) -> int {
    let u = smul_div(y, y, SCALE as int);
    let t4 = smul_div(u, u, SCALE as int);
    let t6 = smul_div(t4, u, SCALE as int);
    let t8 = smul_div(t6, u, SCALE as int);
    SCALE - stdiv(u, 2) + stdiv(t4, 24) - stdiv(t6, 720) + stdiv(t8, 40320)
}

fn cos_poly_e(y: i64) -> (r: i64)
    requires
        iabs(y as int) <= 790_000_000_000,
    ensures
        r as int == cos_poly(y as int),
        iabs(r as int) <= 1_400_000_000_000,
{
    let u = fxmul_s(y, y, Ghost(790_000_000_000), Ghost(790_000_000_000));
    let t4 = fxmul_s(u, u, Ghost(630_000_000_000), Ghost(630_000_000_000));
    let t6 = fxmul_s(t4, u, Ghost(400_000_000_000), Ghost(630_000_000_000));
    let t8 = fxmul_s(t6, u, Ghost(260_000_000_000), Ghost(630_000_000_000));
    let a2 = fxdiv_b(u, 2, Ghost(630_000_000_000));
    let a4 = fxdiv_b(t4, 24, Ghost(400_000_000_000));
    let a6 = fxdiv_b(t6, 720, Ghost(260_000_000_000));
    let a8 = fxdiv_b(t8, 40320, Ghost(170_000_000_000));
    SCALE - a2 + a4 - a6 + a8
}

/// The sine on [0, pi], by quadrant folding onto the two polynomials.
pub open spec fn sin_half(x: int) -> int {
    if x <= QUARTER_PI_PR {
        sin_poly(x)
    } else if x <= THREE_QUARTER_PI_PR {
        cos_poly(x - HALF_PI_PR)
    } else {
        sin_poly(PI_PR - x)
    }
}

fn sin_half_e(x: i64) -> (r: i64)
    requires
        0 <= x <= PI_PR,
    ensures
        r as int == sin_half(x as int),
        iabs(r as int) <= TRIG_ABS_BOUND,
{
    if x <= QUARTER_PI_PR {
        sin_poly_e(x)
    } else if x <= THREE_QUARTER_PI_PR {
        cos_poly_e(x - HALF_PI_PR)
    } else {
        sin_poly_e(PI_PR - x)
    }
}

/// The cosine on [0, pi], by quadrant folding onto the two polynomials.
pub open spec fn cos_half(x: int) -> int {
    if x <= QUARTER_PI_PR {
        cos_poly(x)
    } else if x <= THREE_QUARTER_PI_PR {
        sin_poly(HALF_PI_PR - x)
    } else {
        -cos_poly(PI_PR - x)
    }
}

fn cos_half_e(x: i64) -> (r: i64)
    requires
        0 <= x <= PI_PR,
    ensures
        r as int == cos_half(x as int),
        iabs(r as int) <= TRIG_ABS_BOUND,
{
    if x <= QUARTER_PI_PR {
        cos_poly_e(x)
    } else if x <= THREE_QUARTER_PI_PR {
        sin_poly_e(HALF_PI_PR - x)
    } else {
        -cos_poly_e(PI_PR - x)
    }
}

/// The sine of an angle in picoradians, scaled by 1e12.
pub open spec fn sin_pr(x: int) -> int {
    let w = wrap_pi(x);
    if w >= 0 {
        sin_half(w)
    } else {
        -sin_half(-w)
    }
}

/// The cosine of an angle in picoradians, scaled by 1e12.
pub open spec fn cos_pr(x: int) -> int {
    cos_half(iabs(wrap_pi(x)))
}

pub fn sin_e(x: i64) -> (r: i64)
    ensures
        r as int == sin_pr(x as int),
        iabs(r as int) <= TRIG_ABS_BOUND,
{
    let w = wrap_pi_e(x);
    if w >= 0 {
        sin_half_e(w)
    } else {
        -sin_half_e(-w)
    }
}

pub fn cos_e(x: i64) -> (r: i64)
    ensures
        r as int == cos_pr(x as int),
        iabs(r as int) <= TRIG_ABS_BOUND,
{
    let w = wrap_pi_e(x);
    if w >= 0 {
        cos_half_e(w)
    } else {
        cos_half_e(-w)
    }
}

/// Maclaurin polynomial for the arctangent on roughly [-0.42, 0.42]:
/// `z - z^3/3 + z^5/5 - z^7/7 + z^9/9`, evaluated in fixed point.
pub open spec fn atan_poly(z: int) -> int {
    let w = smul_div(z, z, SCALE as int);
    let z3 = smul_div(w, z, SCALE as int);
    let z5 = smul_div(z3, w, SCALE as int);
    let z7 = smul_div(z5, w, SCALE as int);
    let z9 = smul_div(z7, w, SCALE as int);
    z - stdiv(z3, 3) + stdiv(z5, 5) - stdiv(z7, 7) + stdiv(z9, 9)
}

fn atan_poly_e(z: i64) -> (r: i64)
    requires
        iabs(z as int) <= 420_000_000_000,
    ensures
        r as int == atan_poly(z as int),
        iabs(r as int) <= 520_000_000_000,
{
    let w = fxmul_s(z, z, Ghost(420_000_000_000), Ghost(420_000_000_000));
    let z3 = fxmul_s(w, z, Ghost(180_000_000_000), Ghost(420_000_000_000));
    let z5 = fxmul_s(z3, w, Ghost(80_000_000_000), Ghost(180_000_000_000));
    let z7 = fxmul_s(z5, w, Ghost(15_000_000_000), Ghost(180_000_000_000));
    let z9 = fxmul_s(z7, w, Ghost(3_000_000_000), Ghost(180_000_000_000));
    let a3 = fxdiv_b(z3, 3, Ghost(80_000_000_000));
    let a5 = fxdiv_b(z5, 5, Ghost(15_000_000_000));
    let a7 = fxdiv_b(z7, 7, Ghost(3_000_000_000));
    let a9 = fxdiv_b(z9, 9, Ghost(600_000_000));
    z - a3 + a5 - a7 + a9
}

/// The arctangent of a ratio in [0, 1] (scaled by 1e12), in picoradians,
/// clamped into [0, pi/2].  Ratios above tan(pi/8) go through the identity
/// `atan(z) = pi/4 + atan((z-1)/(z+1))`.
pub open spec fn atan1(z: int) -> int {
    let raw = if z <= TAN_EIGHTH_PI {
        atan_poly(z)
    } else {
        QUARTER_PI_PR + atan_poly(smul_div(z - SCALE, SCALE as int, z + SCALE))
    };
    if raw < 0 {
        0
    } else if raw > HALF_PI_PR {
        HALF_PI_PR as int
    } else {
        raw
    }
}

fn atan1_e(z: i64) -> (r: i64)
    requires
        0 <= z <= SCALE,
    ensures
        r as int == atan1(z as int),
        0 <= r <= HALF_PI_PR,
{
    let raw: i64 = if z <= TAN_EIGHTH_PI {
        atan_poly_e(z)
    } else {
        proof {
            lemma_mul_upper_bound(iabs((z - SCALE) as int), 585_786_437_627, SCALE as int,
                SCALE as int);
            assert(iabs(((z - SCALE) as int) * (SCALE as int)) == iabs((z - SCALE) as int) * (
            SCALE as int)) by (nonlinear_arith);
            lemma_mul_left_inequality(i64::MAX as int, 1_414_213_562_373, (z + SCALE) as int);
        }
        let w = fxmuldiv(z - SCALE, SCALE, z + SCALE);
        proof {
            lemma_div_is_ordered_by_denominator(iabs(((z - SCALE) as int) * (SCALE as int)),
                1_414_213_562_373, (z + SCALE) as int);
            lemma_div_is_ordered(iabs(((z - SCALE) as int) * (SCALE as int)),
                585_786_437_627_000_000_000_000, 1_414_213_562_373);
        }
        QUARTER_PI_PR + atan_poly_e(w)
    };
    if raw < 0 {
        0
    } else if raw > HALF_PI_PR {
        HALF_PI_PR
    } else {
        raw
    }
}

/// The two-argument arctangent in picoradians, in (-pi, pi], with the
/// conventions `atan2(0, 0) == 0`, `atan2(0, x<0) == pi`.
pub open spec fn atan2_pr(y: int, x: int) -> int {
    if y == 0 && x == 0 {
        0
    } else if y == 0 {
        if x > 0 {
            0
        } else {
            PI_PR as int
        }
    } else if x == 0 {
        if y > 0 {
            HALF_PI_PR as int
        } else {
            -HALF_PI_PR as int
        }
    } else {
        let ay = iabs(y);
        let ax = iabs(x);
        let t = if ay <= ax {
            atan1(stdiv(ay * SCALE, ax))
        } else {
            HALF_PI_PR - atan1(stdiv(ax * SCALE, ay))
        };
        let m = if x > 0 {
            t
        } else {
            PI_PR - t
        };
        if y > 0 {
            m
        } else {
            -m
        }
    }
}

pub fn atan2_e(y: i64, x: i64) -> (r: i64)
    requires
        y > i64::MIN,
        x > i64::MIN,
    ensures
        r as int == atan2_pr(y as int, x as int),
        -PI_PR <= r <= PI_PR,
        x >= 0 ==> iabs(r as int) <= HALF_PI_PR,
{
    if y == 0 && x == 0 {
        0
    } else if y == 0 {
        if x > 0 {
            0
        } else {
            PI_PR
        }
    } else if x == 0 {
        if y > 0 {
            HALF_PI_PR
        } else {
            -HALF_PI_PR
        }
    } else {
        let ay: i64 = if y < 0 {
            -y
        } else {
            y
        };
        let ax: i64 = if x < 0 {
            -x
        } else {
            x
        };
        let t: i64 = if ay <= ax {
            proof {
                lemma_ratio_in_unit(ay as int, ax as int);
            }
            atan1_e(fxmuldiv(ay, SCALE, ax))
        } else {
            proof {
                lemma_ratio_in_unit(ax as int, ay as int);
            }
            HALF_PI_PR - atan1_e(fxmuldiv(ax, SCALE, ay))
        };
        let m: i64 = if x > 0 {
            t
        } else {
            PI_PR - t
        };
        if y > 0 {
            m
        } else {
            -m
        }
    }
}

/// For `0 <= a <= b` with `b > 0`, the scaled ratio `a * SCALE / b` lies in
/// [0, SCALE], and the product obligations for computing it hold.
proof fn lemma_ratio_in_unit(a: int, b: int)
    requires
        0 <= a <= b,
        1 <= b,
    ensures
        iabs(a * SCALE) == a * SCALE,
        a * SCALE <= i64::MAX * b,
        0 <= stdiv(a * SCALE, b) <= SCALE,
{
    lemma_mul_inequality(a, b, SCALE as int);
    lemma_mul_nonnegative(a, SCALE as int);
    lemma_mul_left_inequality(b, SCALE as int, i64::MAX as int);
    lemma_mul_is_commutative(b, SCALE as int);
    lemma_mul_is_commutative(b, i64::MAX as int);
    lemma_stdiv_facts(a * SCALE, b);
    lemma_div_is_ordered(a * SCALE, b * SCALE, b);
    lemma_div_multiples_vanish(SCALE as int, b);
}

/// The arcsine of a ratio in [-1, 1] (scaled by 1e12), in picoradians,
/// via `asin(x) = atan2(x, sqrt(1 - x^2))`.
pub open spec fn asin_pr(x: int) -> int {
    atan2_pr(x, sqrt_floor((((SCALE - x) * (SCALE + x))) as nat) as int)
}

pub fn asin_e(x: i64) -> (r: i64)
    requires
        iabs(x as int) <= SCALE,
    ensures
        r as int == asin_pr(x as int),
        iabs(r as int) <= HALF_PI_PR,
{
    proof {
        assert(0 <= ((SCALE - x) as int) * ((SCALE + x) as int)
            <= 4_000_000_000_000_000_000_000_000) by (nonlinear_arith)
            requires
                iabs(x as int) <= SCALE as int,
                SCALE == 1_000_000_000_000i64,
        ;
    }
    let p: i128 = ((SCALE - x) as i128) * ((SCALE + x) as i128);
    let sq: u64 = isqrt(p as u128);
    proof {
        lemma_sqrt_floor(p as nat);
        assert(sq as int <= 2 * (SCALE as int)) by (nonlinear_arith)
            requires
                (sq as int) * (sq as int) <= (p as int),
                (p as int) <= 4_000_000_000_000_000_000_000_000,
                sq as int >= 0,
                SCALE == 1_000_000_000_000i64,
        ;
    }
    atan2_e(x, sq as i64)
}

/// Natural-logarithm range reduction: the pair `(m, k)` with
/// `x == m * 2^k` up to truncation and `SCALE <= m < 2 * SCALE`.
/// Inputs below one, outside the logarithm's domain here, map to the
/// unit value.
pub open spec fn ln_norm(x: int) -> (int, int)
    decreases (if x < SCALE {
        SCALE - x
    } else {
        x
    }),
    via ln_norm_decreases
{
    if x < 1 {
        (SCALE as int, 0int)
    } else if x < SCALE {
        if 2 * x >= SCALE {
            (2 * x, -1int)
        } else {
            (ln_norm(2 * x).0, ln_norm(2 * x).1 - 1)
        }
    } else if x < 2 * SCALE {
        (x, 0int)
    } else {
        (ln_norm(stdiv(x, 2)).0, ln_norm(stdiv(x, 2)).1 + 1)
    }
}

#[via_fn]
proof fn ln_norm_decreases(x: int) {
    if x >= 2 * SCALE && x >= 1 {
        lemma_stdiv_facts(x, 2);
        lemma_div_is_ordered(2 * (SCALE as int), x, 2);
        lemma_mul_is_commutative(2, SCALE as int);
        lemma_div_multiples_vanish(SCALE as int, 2);
        assert(stdiv(x, 2) >= SCALE);
        lemma_div_is_strictly_smaller(x, 2);
    }
}

/// Series for the logarithm on [1, 2): with `u = (m - 1)/(m + 1)`,
/// `ln m = 2 (u + u^3/3 + u^5/5 + u^7/7 + u^9/9)`, in fixed point.
pub open spec fn ln_series(m: int) -> int {
    let u = stdiv((m - SCALE) * SCALE, m + SCALE);
    let w = smul_div(u, u, SCALE as int);
    let u3 = smul_div(w, u, SCALE as int);
    let u5 = smul_div(u3, w, SCALE as int);
    let u7 = smul_div(u5, w, SCALE as int);
    let u9 = smul_div(u7, w, SCALE as int);
    2 * (u + stdiv(u3, 3) + stdiv(u5, 5) + stdiv(u7, 7) + stdiv(u9, 9))
}

/// The natural logarithm of `x / SCALE`, scaled by 1e12.
pub open spec fn ln_pr(x: int) -> int {
    let (m, k) = ln_norm(x);
    ln_series(m) + k * LN2_PR
}

pub fn ln_e(x: i64) -> (r: i64)
    requires
        1 <= x <= 500_000_000_000_000,
    ensures
        r as int == ln_pr(x as int),
        iabs(r as int) <= MERC_LIMIT,
{
    let mut m: i64 = x;
    let mut k: i64 = 0;
    proof {
        lemma2_to64();
        lemma2_to64_rest();
        assert((x as int) * pow2(0) == x as int) by (nonlinear_arith)
            requires
                pow2(0) == 1,
        ;
    }
    if m < SCALE {
        while m < SCALE
            invariant
                1 <= m < 2 * SCALE,
                -40 <= k <= 0,
                ln_norm(x as int) == (ln_norm(m as int).0, ln_norm(m as int).1 + k),
                m as int == (x as int) * pow2((-k) as nat),
                x >= 1,
            decreases 2 * SCALE - m,
        {
            proof {
                lemma2_to64();
                lemma2_to64_rest();
                lemma_pow2_pos((-k) as nat);
                lemma_mul_increases(x as int, pow2((-k) as nat) as int);
                if -k >= 40 {
                    if -k > 40 {
                        lemma_pow2_strictly_increases(40, (-k) as nat);
                    }
                    assert(pow2((-k) as nat) >= pow2(40));
                    assert(false);
                }
                lemma_pow2_adds((-k) as nat, 1);
                assert((-(k - 1)) as nat == (-k) as nat + 1);
                assert(pow2(1) == 2);
                assert((x as int) * (pow2((-k) as nat) * 2) == ((x as int) * pow2(
                (-k) as nat)) * 2) by (nonlinear_arith);
                if 2 * (m as int) >= SCALE as int {
                    assert(ln_norm(m as int) == (2 * (m as int), -1int));
                    assert(ln_norm(2 * (m as int)) == (2 * (m as int), 0int));
                } else {
                    assert(ln_norm(m as int) == (ln_norm(2 * (m as int)).0, ln_norm(2 * (
                    m as int)).1 - 1));
                }
            }
            m = 2 * m;
            k = k - 1;
        }
    } else if m >= 2 * SCALE {
        proof {
            assert((m as int) * pow2(0) == m as int) by (nonlinear_arith)
                requires
                    pow2(0) == 1,
            ;
        }
        while m >= 2 * SCALE
            invariant
                SCALE <= m <= 500_000_000_000_000,
                0 <= k <= 9,
                ln_norm(x as int) == (ln_norm(m as int).0, ln_norm(m as int).1 + k),
                (m as int) * pow2(k as nat) <= x as int,
                1 <= x <= 500_000_000_000_000,
            decreases m,
        {
            proof {
                lemma2_to64();
                lemma_pow2_pos(k as nat);
                lemma_mul_inequality(SCALE as int, m as int, pow2(k as nat) as int);
                if k >= 9 {
                    if k > 9 {
                        lemma_pow2_strictly_increases(9, k as nat);
                    }
                    assert(pow2(k as nat) >= 512);
                    lemma_mul_left_inequality(SCALE as int, 512, pow2(k as nat) as int);
                    assert(false);
                }
                assert(m as int >= 1);
                assert(!((m as int) < (SCALE as int)) && !((m as int) < 2 * (SCALE as int)));
                reveal_with_fuel(ln_norm, 2);
                assert(ln_norm(m as int).0 == ln_norm(stdiv(m as int, 2)).0);
                assert(ln_norm(m as int).1 == ln_norm(stdiv(m as int, 2)).1 + 1);
                lemma_stdiv_facts(m as int, 2);
                lemma_div_is_ordered(2 * (SCALE as int), m as int, 2);
                lemma_mul_is_commutative(2, SCALE as int);
                lemma_div_multiples_vanish(SCALE as int, 2);
            }
            let m2 = fxdiv_b(m, 2, Ghost(500_000_000_000_000));
            proof {
                lemma_pow2_adds(k as nat, 1);
                assert((k + 1) as nat == k as nat + 1);
                assert(pow2(1) == 2);
                assert((m2 as int) * (pow2(k as nat) * 2) == ((m2 as int) * 2) * pow2(k as nat))
                    by (nonlinear_arith);
                lemma_mul_inequality((m2 as int) * 2, m as int, pow2(k as nat) as int);
            }
            m = m2;
            k = k + 1;
        }
    }
    proof {
        assert(ln_norm(m as int) == (m as int, 0int));
        lemma_stdiv_facts((m as int - SCALE) * SCALE, m as int + SCALE);
        lemma_mul_upper_bound(iabs((m as int - SCALE)), SCALE as int, SCALE as int,
            SCALE as int);
        assert(iabs((m as int - SCALE) * SCALE) == iabs(m as int - SCALE) * (SCALE as int))
            by (nonlinear_arith);
        lemma_div_is_ordered_by_denominator(iabs((m as int - SCALE) * SCALE), 2 * SCALE,
            m as int + SCALE);
        lemma_div_is_ordered(iabs((m as int - SCALE) * SCALE),
            (SCALE as int) * (SCALE as int), 2 * SCALE);
        lemma_mul_left_inequality(i64::MAX as int, 2 * SCALE, m as int + SCALE);
    }
    let u = fxmuldiv(m - SCALE, SCALE, m + SCALE);
    let w = fxmul_s(u, u, Ghost(500_000_000_000), Ghost(500_000_000_000));
    let u3 = fxmul_s(w, u, Ghost(250_000_000_000), Ghost(500_000_000_000));
    let u5 = fxmul_s(u3, w, Ghost(125_000_000_000), Ghost(250_000_000_000));
    let u7 = fxmul_s(u5, w, Ghost(32_000_000_000), Ghost(250_000_000_000));
    let u9 = fxmul_s(u7, w, Ghost(8_000_000_000), Ghost(250_000_000_000));
    let a3 = fxdiv_b(u3, 3, Ghost(125_000_000_000));
    let a5 = fxdiv_b(u5, 5, Ghost(32_000_000_000));
    let a7 = fxdiv_b(u7, 7, Ghost(8_000_000_000));
    let a9 = fxdiv_b(u9, 9, Ghost(2_000_000_000));
    let s = 2 * (u + a3 + a5 + a7 + a9);
    s + k * LN2_PR
}

/// The Mercator latitude of a latitude `phi` given in picoradians:
/// `ln(tan(pi/4 + phi/2))`, scaled by 1e12.  Where the tangent leaves the
/// representable domain the value saturates at +/-[`MERC_LIMIT`]; with
/// latitudes clamped to +/-89.5 degrees that never happens.
pub open spec fn mercator_spec(phi: int) -> int {
    let v = QUARTER_PI_PR + stdiv(phi, 2);
    let s = sin_pr(v);
    let c = cos_pr(v);
    if c <= 0 {
        MERC_LIMIT as int
    } else if s <= 0 {
        -MERC_LIMIT as int
    } else {
        let cc = if c < 3_000_000_000 {
            3_000_000_000int
        } else {
            c
        };
        let t = stdiv(s * SCALE, cc);
        if t < 1 {
            -MERC_LIMIT as int
        } else {
            ln_pr(t)
        }
    }
}

pub fn mercator(phi: i64) -> (r: i64)
    requires
        iabs(phi as int) <= 3_200_000_000_000,
    ensures
        r as int == mercator_spec(phi as int),
        iabs(r as int) <= MERC_LIMIT,
{
    proof {
        lemma_stdiv_facts(phi as int, 2);
    }
    let v = QUARTER_PI_PR + fxdiv_b(phi, 2, Ghost(3_200_000_000_000));
    let s = sin_e(v);
    let c = cos_e(v);
    if c <= 0 {
        MERC_LIMIT
    } else if s <= 0 {
        -MERC_LIMIT
    } else {
        let cc: i64 = if c < 3_000_000_000 {
            3_000_000_000
        } else {
            c
        };
        proof {
            lemma_mul_upper_bound(iabs(s as int), TRIG_ABS_BOUND as int, SCALE as int,
                SCALE as int);
            assert(iabs((s as int) * (SCALE as int)) == iabs(s as int) * (SCALE as int))
                by (nonlinear_arith);
            lemma_mul_left_inequality(i64::MAX as int, 3_000_000_000, cc as int);
            lemma_stdiv_facts((s as int) * SCALE, cc as int);
            lemma_div_is_ordered_by_denominator(iabs((s as int) * (SCALE as int)),
                3_000_000_000, cc as int);
            lemma_div_is_ordered(iabs((s as int) * (SCALE as int)),
                (TRIG_ABS_BOUND as int) * (SCALE as int), 3_000_000_000);
        }
        let t = fxmuldiv(s, SCALE, cc);
        if t < 1 {
            -MERC_LIMIT
        } else {
            ln_e(t)
        }
    }
}

} // verus!
