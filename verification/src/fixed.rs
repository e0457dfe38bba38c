//! Fixed-point scalar arithmetic.
//!
//! A scalar is an `i64` counting steps of `1 / SCALE` world units. Products
//! and quotients round toward zero, mirroring the way the executable code
//! computes them, so the spec-level model is exact.

use vstd::prelude::*;
use vstd::arithmetic::div_mod::{lemma_div_is_ordered, lemma_div_pos_is_pos, lemma_remainder};
use vstd::arithmetic::mul::lemma_mul_inequality;

verus! {

/// Fixed-point steps per world unit.
pub const SCALE: i64 = 1000;

/// `SCALE * SCALE`, the scale of a product of two weights.
pub const SCALE_SQ: i64 = 1000000;

/// One half of a unit (0.5) in fixed-point steps.
pub const HALF_UNIT: i64 = 500;

/// Three quarters of a unit (0.75) in fixed-point steps.
pub const THREE_QUARTER_UNIT: i64 = 750;

pub open spec fn abs_int(x: int) -> int {
    if x < 0 {
        -x
    } else {
        x
    }
}

/// Division rounding toward zero, the rounding used by all executable
/// divisions in this crate.
pub open spec fn tdiv(a: int, d: int) -> int
    recommends
        d >= 1,
{
    if a >= 0 {
        a / d
    } else {
        -((-a) / d)
    }
}

/// The fixed-point product: `a * b` rescaled back to `SCALE`, rounded
/// toward zero.
pub open spec fn fx_mul(a: int, b: int) -> int {
    tdiv(a * b, SCALE as int)
}

/// The magnitude of a truncated quotient never exceeds the magnitude of a
/// true (rational) quotient: `|tdiv(a, d)| * d <= |a|`.
pub proof fn lemma_tdiv_bounds(a: int, d: int)
    requires
        d >= 1,
    ensures
        abs_int(tdiv(a, d)) * d <= abs_int(a),
        abs_int(tdiv(a, d)) <= abs_int(a),
        a >= 0 ==> tdiv(a, d) >= 0,
        a <= 0 ==> tdiv(a, d) <= 0,
        a - d < tdiv(a, d) * d <= a || a <= tdiv(a, d) * d < a + d,
{
    if a >= 0 {
        lemma_remainder(a, d);
        lemma_div_pos_is_pos(a, d);
        lemma_mul_inequality(1, d, a / d);
    } else {
        lemma_remainder(-a, d);
        lemma_div_pos_is_pos(-a, d);
        lemma_mul_inequality(1, d, (-a) / d);
        vstd::arithmetic::mul::lemma_mul_unary_negation((-a) / d, d);
    }
}

/// Sign and magnitude facts about a product of two integers.
pub proof fn lemma_mul_signs(a: int, b: int)
    by (nonlinear_arith)
    ensures
        a >= 0 && b >= 0 ==> a * b >= 0,
        a <= 0 && b <= 0 ==> a * b >= 0 && a * b == (-a) * (-b),
        a >= 0 && b <= 0 ==> a * b <= 0 && -(a * b) == a * (-b),
        a <= 0 && b >= 0 ==> a * b <= 0 && -(a * b) == (-a) * b,
{
}

/// The exact integer square root, rounded down.
pub open spec fn sqrt_floor(n: nat) -> nat
    decreases n,
{
    if n == 0 {
        0
    } else {
        let r = sqrt_floor((n - 1) as nat);
        if (r + 1) * (r + 1) <= n {
            r + 1
        } else {
            r
        }
    }
}

/// `sqrt_floor(n)` really is the square root rounded down.
pub proof fn lemma_sqrt_floor_bounds(n: nat)
    ensures
        sqrt_floor(n) * sqrt_floor(n) <= n,
        n < (sqrt_floor(n) + 1) * (sqrt_floor(n) + 1),
    decreases n,
{
    if n > 0 {
        lemma_sqrt_floor_bounds((n - 1) as nat);
        let r = sqrt_floor((n - 1) as nat);
        let s = sqrt_floor(n);
        if (r + 1) * (r + 1) <= n {
            assert(s == r + 1);
            assert(s * s <= n);
            assert(n <= (r + 1) * (r + 1));
            assert((s + 1) * (s + 1) == (r + 2) * (r + 2));
            assert((r + 1) * (r + 1) < (r + 2) * (r + 2)) by (nonlinear_arith);
            assert(n < (s + 1) * (s + 1));
        } else {
            assert(s == r);
            assert(s * s <= n - 1);
            assert(n < (s + 1) * (s + 1));
        }
    } else {
        let s = sqrt_floor(n);
        assert(s == 0);
        assert(s + 1 == 1nat);
        assert((s + 1) * (s + 1) == 1nat);
        assert(n < (sqrt_floor(n) + 1) * (sqrt_floor(n) + 1));
    }
}

/// Any integer bracketing the same value is that square root.
pub proof fn lemma_sqrt_floor_unique(n: nat, r: nat)
    requires
        r * r <= n,
        n < (r + 1) * (r + 1),
    ensures
        r == sqrt_floor(n),
{
    let s = sqrt_floor(n);
    lemma_sqrt_floor_bounds(n);
    assert(r < s ==> (r + 1) * (r + 1) <= s * s) by (nonlinear_arith);
    assert(s < r ==> (s + 1) * (s + 1) <= r * r) by (nonlinear_arith);
}

/// Comparing a rounded-down square root with an integer is comparing the
/// radicand with that integer's square.
pub proof fn lemma_sqrt_floor_lt(n: nat, m: nat)
    ensures
        sqrt_floor(n) < m <==> n < m * m,
{
    let s = sqrt_floor(n);
    lemma_sqrt_floor_bounds(n);
    assert(s < m ==> (s + 1) * (s + 1) <= m * m) by (nonlinear_arith);
    assert(m <= s ==> m * m <= s * s) by (nonlinear_arith);
}

/// The exact integer square root, rounded up.
pub open spec fn sqrt_ceil(n: nat) -> nat {
    if sqrt_floor(n) * sqrt_floor(n) == n {
        sqrt_floor(n)
    } else {
        sqrt_floor(n) + 1
    }
}

/// `sqrt_ceil(n)` squares to at least `n`.
pub proof fn lemma_sqrt_ceil_bounds(n: nat)
    ensures
        n <= sqrt_ceil(n) * sqrt_ceil(n),
        n > 0 ==> sqrt_ceil(n) >= 1,
{
    lemma_sqrt_floor_bounds(n);
}

/// The magnitude of a truncated quotient is the quotient of the magnitude.
pub proof fn lemma_tdiv_abs(a: int, d: int)
    requires
        d >= 1,
    ensures
        abs_int(tdiv(a, d)) == abs_int(a) / d,
{
    if a >= 0 {
        lemma_div_pos_is_pos(a, d);
    } else {
        lemma_div_pos_is_pos(-a, d);
    }
}

/// A magnitude bound on a fixed-point product from magnitude bounds on its
/// factors.
pub proof fn lemma_fx_mul_abs(a: int, b: int, ca: int, cb: int)
    requires
        abs_int(a) <= ca,
        abs_int(b) <= cb,
    ensures
        abs_int(a) * abs_int(b) <= ca * cb,
        abs_int(a * b) <= ca * cb,
        abs_int(fx_mul(a, b)) <= (ca * cb) / (SCALE as int),
        abs_int(fx_mul(a, b)) <= ca * cb,
{
    assert(abs_int(a * b) == abs_int(a) * abs_int(b) && abs_int(a) * abs_int(b) <= ca * cb)
        by (nonlinear_arith)
        requires
            abs_int(a) <= ca,
            abs_int(b) <= cb,
    ;
    lemma_tdiv_abs(a * b, SCALE as int);
    lemma_div_is_ordered(abs_int(a * b), ca * cb, SCALE as int);
    lemma_div_is_ordered(0, abs_int(a * b), SCALE as int);
    vstd::arithmetic::div_mod::lemma_div_nonincreasing(ca * cb, SCALE as int);
}

/// The magnitude of an `i64`, as an `i64`.
pub fn abs64(x: i64) -> (r: i64)
    requires
        x > i64::MIN,
    ensures
        r == abs_int(x as int),
{
    if x < 0 {
        -x
    } else {
        x
    }
}

/// The magnitude of an `i64`, as a `u64` so that `i64::MIN` would also have
/// a representable magnitude; callers here keep well clear of it anyway.
pub fn magnitude(x: i64) -> (r: u64)
    requires
        x > i64::MIN,
    ensures
        r == abs_int(x as int),
{
    if x >= 0 {
        x as u64
    } else {
        (-x) as u64
    }
}

/// Division of a signed scalar by a positive divisor, rounding toward zero.
pub fn div_trunc(a: i64, d: i64) -> (r: i64)
    requires
        d >= 1,
        a > i64::MIN,
    ensures
        r == tdiv(a as int, d as int),
{
    let m: u64 = magnitude(a);
    let q: u64 = m / (d as u64);
    proof {
        lemma_div_is_ordered(0, m as int, d as int);
        lemma_div_is_ordered(q as int, m as int, 1);
        vstd::arithmetic::div_mod::lemma_div_is_ordered_by_denominator(m as int, 1, d as int);
    }
    if a >= 0 {
        q as i64
    } else {
        -(q as i64)
    }
}

/// Division of a signed scalar by a positive divisor, rounding toward
/// negative infinity (the `/` of the specification language).
pub fn div_floor(a: i64, d: i64) -> (r: i64)
    requires
        1 <= d <= i64::MAX - 1,
        a > i64::MIN + d,
    ensures
        r == (a as int) / (d as int),
{
    if a >= 0 {
        proof {
            lemma_div_pos_is_pos(a as int, d as int);
            vstd::arithmetic::div_mod::lemma_div_nonincreasing(a as int, d as int);
        }
        (a as u64 / d as u64) as i64
    } else {
        let m: u64 = ((-a) as u64) + (d as u64) - 1;
        let q: u64 = m / (d as u64);
        proof {
            lemma_div_pos_is_pos(m as int, d as int);
            vstd::arithmetic::div_mod::lemma_div_nonincreasing(m as int, d as int);
            lemma_remainder(m as int, d as int);
            lemma_remainder(-a as int, d as int);
            vstd::arithmetic::div_mod::lemma_fundamental_div_mod(a as int, d as int);
            vstd::arithmetic::div_mod::lemma_mod_division_less_than_divisor(a as int, d as int);
            assert((d as int) * ((a as int) / (d as int)) == (d as int) * (-(q as int)))
                by (nonlinear_arith)
                requires
                    d >= 1,
                    (q as int) * (d as int) <= (m as int) < (q as int) * (d as int) + (d as int),
                    m == -(a as int) + (d as int) - 1,
                    a as int == (d as int) * ((a as int) / (d as int)) + (a as int) % (d as int),
                    0 <= (a as int) % (d as int) < (d as int),
            ;
            vstd::arithmetic::mul::lemma_mul_equality_converse(
                d as int,
                (a as int) / (d as int),
                -(q as int),
            );
        }
        -(q as i64)
    }
}

/// The fixed-point product of two scalars, rounded toward zero.
pub fn mul_fixed(a: i64, b: i64) -> (r: i64)
    requires
        a > i64::MIN,
        b > i64::MIN,
        abs_int(a as int) * abs_int(b as int) <= i64::MAX,
    ensures
        r == fx_mul(a as int, b as int),
{
    proof {
        lemma_mul_signs(a as int, b as int);
    }
    let ma: u64 = magnitude(a);
    let mb: u64 = magnitude(b);
    let p: u64 = ma * mb;
    let q: u64 = p / (SCALE as u64);
    proof {
        assert(p == abs_int((a as int) * (b as int)));
        vstd::arithmetic::div_mod::lemma_div_nonincreasing(p as int, SCALE as int);
        lemma_div_pos_is_pos(p as int, SCALE as int);
    }
    if (a >= 0) == (b >= 0) {
        q as i64
    } else {
        -(q as i64)
    }
}

/// The square root of a `u64`, rounded down, by bisection.
pub fn isqrt(n: u64) -> (r: u64)
    ensures
        r == sqrt_floor(n as nat),
        r <= 0xffff_ffff,
{
    let mut lo: u64 = 0;
    let mut hi: u64 = 0x1_0000_0000;
    while hi - lo > 1
        invariant
            lo < hi <= 0x1_0000_0000,
            (lo as int) * (lo as int) <= n as int,
            (n as int) < (hi as int) * (hi as int),
        decreases hi - lo,
    {
        let mid: u64 = lo + (hi - lo) / 2;
        proof {
            assert((mid as int) * (mid as int) <= 0x1_0000_0000 * 0x1_0000_0000)
                by (nonlinear_arith)
                requires
                    0 <= mid as int <= 0x1_0000_0000,
            ;
        }
        let sq: u128 = (mid as u128) * (mid as u128);
        if sq <= n as u128 {
            lo = mid;
        } else {
            hi = mid;
        }
    }
    proof {
        lemma_sqrt_floor_unique(n as nat, lo as nat);
    }
    lo
}

/// The square root of a `u64`, rounded up.
pub fn isqrt_up(n: u64) -> (r: u64)
    ensures
        r == sqrt_ceil(n as nat),
        r <= 0x1_0000_0000,
{
    let f: u64 = isqrt(n);
    proof {
        lemma_sqrt_floor_bounds(n as nat);
    }
    if f * f == n {
        f
    } else {
        f + 1
    }
}

} // verus!
