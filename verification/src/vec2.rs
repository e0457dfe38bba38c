//! Fixed-point 2-D vectors and their mathematical model.

use vstd::prelude::*;
use crate::fixed::{
    div_trunc,
    abs_int, fx_mul, lemma_mul_signs, lemma_sqrt_floor_bounds, mul_fixed, sqrt_floor, tdiv,
    isqrt, magnitude, SCALE,
};

verus! {

/// The model of a vector: a pair of unbounded integers.
pub ghost struct V2i {
    pub x: int,
    pub y: int,
}

/// A fixed-point 2-D vector; each component counts steps of `1 / SCALE`
/// world units.
#[derive(Clone, Copy, PartialEq, Eq, Structural, Debug)]
pub struct Vec2 {
    pub x: i64,
    pub y: i64,
}

impl View for Vec2 {
    type V = V2i;

    open spec fn view(&self) -> V2i {
        V2i { x: self.x as int, y: self.y as int }
    }
}

/// A value that stays clear of `i64::MIN`, so that its negation and
/// magnitude are representable.
pub open spec fn ok64(x: int) -> bool {
    -i64::MAX <= x <= i64::MAX
}

pub open spec fn v2i(x: int, y: int) -> V2i {
    V2i { x, y }
}

pub open spec fn v2i_plus(a: V2i, b: V2i) -> V2i {
    V2i { x: a.x + b.x, y: a.y + b.y }
}

pub open spec fn v2i_minus(a: V2i, b: V2i) -> V2i {
    V2i { x: a.x - b.x, y: a.y - b.y }
}

pub open spec fn v2i_neg(a: V2i) -> V2i {
    V2i { x: -a.x, y: -a.y }
}

/// Componentwise fixed-point scaling by the scalar `k`.
pub open spec fn v2i_scale(a: V2i, k: int) -> V2i {
    V2i { x: fx_mul(a.x, k), y: fx_mul(a.y, k) }
}

/// The squared Euclidean norm, at scale `SCALE * SCALE`.
pub open spec fn v2i_norm_sq(a: V2i) -> int {
    a.x * a.x + a.y * a.y
}

/// The Euclidean norm rounded down, at scale `SCALE`.
pub open spec fn v2i_len(a: V2i) -> int {
    sqrt_floor(v2i_norm_sq(a) as nat) as int
}

/// The fixed-point dot product: the componentwise products summed, then
/// rescaled once, rounded toward zero.
pub open spec fn v2i_dot(a: V2i, b: V2i) -> int {
    tdiv(a.x * b.x + a.y * b.y, SCALE as int)
}

impl Vec2 {
    pub fn new(x: i64, y: i64) -> (r: Vec2)
        ensures
            r@ == v2i(x as int, y as int),
    {
        Vec2 { x, y }
    }

    pub fn plus(&self, o: &Vec2) -> (r: Vec2)
        requires
            ok64(self@.x + o@.x),
            ok64(self@.y + o@.y),
        ensures
            r@ == v2i_plus(self@, o@),
    {
        Vec2 { x: self.x + o.x, y: self.y + o.y }
    }

    pub fn minus(&self, o: &Vec2) -> (r: Vec2)
        requires
            ok64(self@.x - o@.x),
            ok64(self@.y - o@.y),
        ensures
            r@ == v2i_minus(self@, o@),
    {
        Vec2 { x: self.x - o.x, y: self.y - o.y }
    }

    pub fn scale(&self, k: i64) -> (r: Vec2)
        requires
            ok64(self@.x),
            ok64(self@.y),
            ok64(k as int),
            abs_int(self@.x) * abs_int(k as int) <= i64::MAX,
            abs_int(self@.y) * abs_int(k as int) <= i64::MAX,
        ensures
            r@ == v2i_scale(self@, k as int),
    {
        Vec2 { x: mul_fixed(self.x, k), y: mul_fixed(self.y, k) }
    }

    /// The fixed-point dot product with `o`.
    pub fn dot_scaled(&self, o: &Vec2) -> (r: i64)
        requires
            ok64(self@.x),
            ok64(self@.y),
            ok64(o@.x),
            ok64(o@.y),
            abs_int(self@.x) * abs_int(o@.x) + abs_int(self@.y) * abs_int(o@.y) < i64::MAX,
        ensures
            r == v2i_dot(self@, o@),
    {
        proof {
            lemma_mul_signs(self@.x, o@.x);
            lemma_mul_signs(self@.y, o@.y);
            assert(abs_int(self@.x * o@.x) == abs_int(self@.x) * abs_int(o@.x) && abs_int(
                self@.y * o@.y,
            ) == abs_int(self@.y) * abs_int(o@.y)) by (nonlinear_arith);
            assert(abs_int(self@.x) * abs_int(o@.x) >= 0 && abs_int(self@.y) * abs_int(o@.y) >= 0)
                by (nonlinear_arith);
        }
        let px: i64 = self.x * o.x;
        let py: i64 = self.y * o.y;
        div_trunc(px + py, SCALE)
    }

    /// The squared norm; exact, with no rescaling.
    pub fn norm_sq(&self) -> (r: u64)
        requires
            abs_int(self@.x) <= 2_100_000_000,
            abs_int(self@.y) <= 2_100_000_000,
        ensures
            r == v2i_norm_sq(self@),
    {
        proof {
            lemma_mul_signs(self@.x, self@.x);
            lemma_mul_signs(self@.y, self@.y);
            assert(abs_int(self@.x) * abs_int(self@.x) + abs_int(self@.y) * abs_int(self@.y)
                <= 2_100_000_000i64 * 2_100_000_000i64 + 2_100_000_000i64 * 2_100_000_000i64)
                by (nonlinear_arith)
                requires
                    0 <= abs_int(self@.x) <= 2_100_000_000,
                    0 <= abs_int(self@.y) <= 2_100_000_000,
            ;
        }
        let ax: u64 = magnitude(self.x);
        let ay: u64 = magnitude(self.y);
        ax * ax + ay * ay
    }

    /// The Euclidean norm, rounded down.
    pub fn length(&self) -> (r: i64)
        requires
            abs_int(self@.x) <= 2_100_000_000,
            abs_int(self@.y) <= 2_100_000_000,
        ensures
            r == v2i_len(self@),
            0 <= r <= 0xffff_ffff,
    {
        let n: u64 = self.norm_sq();
        isqrt(n) as i64
    }
}

} // verus!
