//! Fixed-point arithmetic primitives.
//!
//! Every fractional quantity in this crate is an `i64` holding the
//! mathematical value times a power of ten.  The shared dimensionless scale
//! is [`SCALE`]: one unit is 1e-12.  All rounding is truncation toward zero
//! ([`stdiv`]), which keeps negation symmetry: `stdiv(-a, d) == -stdiv(a, d)`.

use vstd::prelude::*;
use vstd::arithmetic::div_mod::*;
use vstd::arithmetic::mul::*;

verus! {

/// Dimensionless fixed-point scale: one unit is 1e-12.
pub const SCALE: i64 = 1_000_000_000_000;

/// Magnitude of a mathematical integer.
pub open spec fn iabs(a: int) -> int {
    if a >= 0 {
        a
    } else {
        -a
    }
}

/// Division rounded toward zero, the rounding of every fixed-point
/// operation here.  Meaningful only for `d != 0`.
pub open spec fn stdiv(a: int, d: int) -> int {
    if (a >= 0) == (d >= 0) {
        iabs(a) / iabs(d)
    } else {
        -(iabs(a) / iabs(d))
    }
}

/// Scaled product rounded toward zero: `(a * b) / d`.
pub open spec fn smul_div(a: int, b: int, d: int) -> int {
    stdiv(a * b, d)
}

/// Basic facts about truncating division by a positive divisor.
pub proof fn lemma_stdiv_facts(a: int, d: int)
    requires
        d >= 1,
    ensures
        iabs(stdiv(a, d)) == iabs(a) / d,
        iabs(stdiv(a, d)) <= iabs(a),
        a >= 0 ==> stdiv(a, d) >= 0 && stdiv(a, d) == a / d,
        a <= 0 ==> stdiv(a, d) <= 0,
        iabs(stdiv(a, d)) * d <= iabs(a),
        stdiv(-a, d) == -stdiv(a, d),
{
    lemma_div_pos_is_pos(iabs(a), d);
    lemma_div_nonincreasing(iabs(a), d);
    lemma_fundamental_div_mod(iabs(a), d);
    lemma_mul_is_commutative(d, iabs(a) / d);
}

/// Truncating division of machine integers.
pub fn fxdiv(a: i64, d: i64) -> (r: i64)
    requires
        d != 0,
        !(a == i64::MIN && d == -1),
    ensures
        r as int == stdiv(a as int, d as int),
{
    let wa: i128 = a as i128;
    let wd: i128 = d as i128;
    let ua: u128 = if wa < 0 {
        (-wa) as u128
    } else {
        wa as u128
    };
    let ud: u128 = if wd < 0 {
        (-wd) as u128
    } else {
        wd as u128
    };
    let q: u128 = ua / ud;
    proof {
        assert(ua as int == iabs(a as int));
        assert(ud as int == iabs(d as int));
        lemma_div_pos_is_pos(ua as int, ud as int);
        lemma_div_nonincreasing(ua as int, ud as int);
        if ud >= 2 {
            lemma_div_is_ordered_by_denominator(ua as int, 2, ud as int);
        }
    }
    let rw: i128 = if (a < 0) != (d < 0) {
        -(q as i128)
    } else {
        q as i128
    };
    rw as i64
}

/// Truncating scaled product of machine integers: `(a * b) / d`.
pub fn fxmuldiv(a: i64, b: i64, d: i64) -> (r: i64)
    requires
        d >= 1,
        iabs(a as int) * iabs(b as int) <= i64::MAX * (d as int),
    ensures
        r as int == smul_div(a as int, b as int, d as int),
        iabs(r as int) == iabs((a as int) * (b as int)) / (d as int),
{
    let wa: i128 = a as i128;
    let wb: i128 = b as i128;
    let ua: u128 = if wa < 0 {
        (-wa) as u128
    } else {
        wa as u128
    };
    let ub: u128 = if wb < 0 {
        (-wb) as u128
    } else {
        wb as u128
    };
    proof {
        assert(ua as int == iabs(a as int));
        assert(ub as int == iabs(b as int));
        lemma_mul_upper_bound(ua as int, 0x8000_0000_0000_0000, ub as int, 0x8000_0000_0000_0000);
    }
    let p: u128 = ua * ub;
    let q: u128 = p / (d as u128);
    proof {
        assert(p as int == iabs(a as int) * iabs(b as int));
        lemma_div_of0(d as int);
        lemma_div_is_ordered(p as int, i64::MAX * (d as int), d as int);
        lemma_mul_is_commutative(i64::MAX as int, d as int);
        lemma_div_multiples_vanish(i64::MAX as int, d as int);
        lemma_div_pos_is_pos(p as int, d as int);
        assert(iabs((a as int) * (b as int)) == p as int && (((a as int) * (b as int) >= 0)
            <==> (((a as int) >= 0 && (b as int) >= 0) || ((a as int) <= 0 && (b as int) <= 0)))
            && ((a as int == 0 || b as int == 0) ==> (a as int) * (b as int) == 0)) by (nonlinear_arith)
            requires
                p as int == iabs(a as int) * iabs(b as int),
        ;
        assert(q as int == iabs((a as int) * (b as int)) / (d as int));
        assert(stdiv((a as int) * (b as int), d as int) == if ((a as int) * (b as int) >= 0) {
            q as int
        } else {
            -(q as int)
        });
    }
    if (a < 0) != (b < 0) {
        -(q as i64)
    } else {
        q as i64
    }
}

/// Scaled product with a bound carried as ghost information:
/// computes `(a * b) / SCALE` with the result magnitude bounded by
/// `(ca * cb) / SCALE`.
pub fn fxmul_s(a: i64, b: i64, Ghost(ca): Ghost<int>, Ghost(cb): Ghost<int>) -> (r: i64)
    requires
        iabs(a as int) <= ca,
        iabs(b as int) <= cb,
        0 <= ca,
        0 <= cb,
        ca * cb <= i64::MAX * (SCALE as int),
    ensures
        r as int == smul_div(a as int, b as int, SCALE as int),
        iabs(r as int) <= (ca * cb) / (SCALE as int),
{
    proof {
        lemma_mul_upper_bound(iabs(a as int), ca, iabs(b as int), cb);
        assert(iabs((a as int) * (b as int)) == iabs(a as int) * iabs(b as int))
            by (nonlinear_arith);
    }
    let r = fxmuldiv(a, b, SCALE);
    proof {
        lemma_div_is_ordered(iabs((a as int) * (b as int)), ca * cb, SCALE as int);
    }
    r
}

/// Division by a positive constant with a bound carried as ghost
/// information: the result magnitude is bounded by `ca / d`.
pub fn fxdiv_b(a: i64, d: i64, Ghost(ca): Ghost<int>) -> (r: i64)
    requires
        d >= 1,
        iabs(a as int) <= ca,
    ensures
        r as int == stdiv(a as int, d as int),
        iabs(r as int) <= ca / (d as int),
{
    proof {
        lemma_stdiv_facts(a as int, d as int);
        lemma_div_is_ordered(iabs(a as int), ca, d as int);
    }
    fxdiv(a, d)
}

/// The integer square root: the greatest `r` with `r * r <= x`.
pub open spec fn sqrt_floor(x: nat) -> nat
    decreases x,
{
    if x == 0 {
        0
    } else {
        let p = sqrt_floor((x - 1) as nat);
        if (p + 1) * (p + 1) <= x {
            p + 1
        } else {
            p
        }
    }
}

pub proof fn lemma_sqrt_floor(x: nat)
    ensures
        sqrt_floor(x) * sqrt_floor(x) <= x,
        x < (sqrt_floor(x) + 1) * (sqrt_floor(x) + 1),
    decreases x,
{
    if x == 0 {
        assert(sqrt_floor(x) == 0);
        assert(sqrt_floor(x) * sqrt_floor(x) <= x && x < (sqrt_floor(x) + 1) * (sqrt_floor(x)
            + 1)) by (nonlinear_arith)
            requires
                x == 0,
                sqrt_floor(x) == 0,
        ;
    } else {
        lemma_sqrt_floor((x - 1) as nat);
        let p = sqrt_floor((x - 1) as nat);
        assert(p * p <= x - 1);
        assert(x - 1 < (p + 1) * (p + 1));
        if (p + 1) * (p + 1) <= x {
            assert(sqrt_floor(x) == p + 1);
            assert(x == (p + 1) * (p + 1));
            assert((p + 1) * (p + 1) < (p + 2) * (p + 2)) by (nonlinear_arith);
            assert(sqrt_floor(x) * sqrt_floor(x) <= x);
            assert(x < (sqrt_floor(x) + 1) * (sqrt_floor(x) + 1));
        } else {
            assert(sqrt_floor(x) == p);
            assert(sqrt_floor(x) * sqrt_floor(x) <= x);
            assert(x < (sqrt_floor(x) + 1) * (sqrt_floor(x) + 1));
        }
    }
}

pub proof fn lemma_sqrt_floor_unique(x: nat, r: nat)
    requires
        r * r <= x,
        x < (r + 1) * (r + 1),
    ensures
        r == sqrt_floor(x),
{
    let s = sqrt_floor(x);
    lemma_sqrt_floor(x);
    if r < s {
        assert(false) by (nonlinear_arith)
            requires
                r < s,
                s * s <= x,
                x < (r + 1) * (r + 1),
        ;
    }
    if s < r {
        assert(false) by (nonlinear_arith)
            requires
                s < r,
                r * r <= x,
                x < (s + 1) * (s + 1),
        ;
    }
}

/// Integer square root of a wide fixed-point value.
pub fn isqrt(x: u128) -> (r: u64)
    requires
        (x as int) < 10_000_000_000_000_000_000_000_000_000,
    ensures
        r as nat == sqrt_floor(x as nat),
        r <= 100_000_000_000_000u64,
{
    let mut lo: u64 = 0;
    let mut hi: u64 = 100_000_000_000_000;
    proof {
        assert((hi as int) * (hi as int) == 10_000_000_000_000_000_000_000_000_000int);
    }
    while hi - lo > 1
        invariant
            lo < hi <= 100_000_000_000_000u64,
            (lo as int) * (lo as int) <= x as int,
            (x as int) < (hi as int) * (hi as int),
        decreases hi - lo,
    {
        let mid: u64 = lo + (hi - lo) / 2;
        proof {
            lemma_mul_upper_bound(mid as int, 100_000_000_000_000, mid as int, 100_000_000_000_000);
        }
        if (mid as u128) * (mid as u128) <= x {
            lo = mid;
        } else {
            hi = mid;
        }
    }
    proof {
        lemma_sqrt_floor_unique(x as nat, lo as nat);
    }
    lo
}

} // verus!
