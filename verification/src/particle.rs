//! Particles and the per-tick integrator: gravity, boundary reflection and
//! the speed clamp.

use vstd::prelude::*;
use crate::fixed::{
    abs64, abs_int, div_trunc, fx_mul, isqrt_up, lemma_fx_mul_abs, lemma_mul_signs,
    lemma_sqrt_ceil_bounds, lemma_tdiv_bounds, mul_fixed, sqrt_ceil, tdiv, SCALE,
};
use crate::vec2::{v2i, v2i_norm_sq, v2i_plus, v2i_scale, V2i, Vec2};
use crate::{BounceDampening, Gravity, WorldBounds};
use crate::{ACC_LIMIT, DT_LIMIT, POS_LIMIT, RADIUS_LIMIT, VEL_LIMIT};

verus! {

/// Velocity magnitudes below this snap to zero after a vertical bounce
/// (0.1 world units per second), so a particle comes to rest instead of
/// bouncing forever.
pub const REST_EPSILON: i64 = 100;

/// The model of a particle: position, velocity and half-size as unbounded
/// integer vectors.
pub ghost struct PModel {
    pub pos: V2i,
    pub vel: V2i,
    pub half: V2i,
}

/// A point particle with an axis-aligned half-size; `half.x` doubles as the
/// collision radius.
#[derive(Clone, Copy, PartialEq, Eq, Structural, Debug)]
pub struct Particle {
    pub position: Vec2,
    pub velocity: Vec2,
    pub half_size: Vec2,
}

impl View for Particle {
    type V = PModel;

    open spec fn view(&self) -> PModel {
        PModel { pos: self.position@, vel: self.velocity@, half: self.half_size@ }
    }
}

impl Particle {
    pub fn new(position: Vec2, velocity: Vec2, half_size: Vec2) -> (r: Particle)
        ensures
            r@ == (PModel { pos: position@, vel: velocity@, half: half_size@ }),
    {
        Particle { position, velocity, half_size }
    }
}

/// The models of a particle sequence.
pub open spec fn models(s: Seq<Particle>) -> Seq<PModel> {
    s.map_values(|p: Particle| p@)
}

/// The state every particle handed to the simulation must be in: components
/// within the fixed machine limits.
pub open spec fn pm_wf(p: PModel) -> bool {
    &&& abs_int(p.pos.x) <= POS_LIMIT
    &&& abs_int(p.pos.y) <= POS_LIMIT
    &&& abs_int(p.vel.x) <= VEL_LIMIT
    &&& abs_int(p.vel.y) <= VEL_LIMIT
    &&& 0 <= p.half.x <= RADIUS_LIMIT
    &&& 0 <= p.half.y <= RADIUS_LIMIT
}

pub open spec fn sign_of(x: int) -> int {
    if x > 0 {
        1
    } else if x < 0 {
        -1
    } else {
        0
    }
}

pub open spec fn max2(a: int, b: int) -> int {
    if a >= b {
        a
    } else {
        b
    }
}

/// A bounced velocity component: reversed and scaled by the dampening
/// factor.
pub open spec fn reflect(v: int, damp: int) -> int {
    -fx_mul(v, damp)
}

/// The rest deadband: a magnitude below `REST_EPSILON` snaps to zero.
pub open spec fn rest_deadband(v: int) -> int {
    if abs_int(v) < REST_EPSILON {
        0
    } else {
        v
    }
}

/// One axis of boundary handling without the deadband (the horizontal
/// axis): clamp the candidate position to the bound and reflect the
/// velocity if the candidate left the world.
pub open spec fn bounce_x(cand: int, v: int, bound: int, damp: int) -> (int, int) {
    if abs_int(cand) > bound {
        (bound * sign_of(cand), reflect(v, damp))
    } else {
        (cand, v)
    }
}

/// The vertical axis: as `bounce_x`, with the rest deadband applied to a
/// reflected velocity.
pub open spec fn bounce_y(cand: int, v: int, bound: int, damp: int) -> (int, int) {
    if abs_int(cand) > bound {
        (bound * sign_of(cand), rest_deadband(reflect(v, damp)))
    } else {
        (cand, v)
    }
}

/// The speed clamp: a velocity whose norm exceeds `limit` is rescaled by
/// `limit / |v|`, with the norm rounded up so the result never exceeds
/// `limit`.
pub open spec fn clamp_speed(v: V2i, limit: int) -> V2i {
    if v2i_norm_sq(v) > limit * limit {
        let m = sqrt_ceil(v2i_norm_sq(v) as nat) as int;
        V2i { x: tdiv(v.x * limit, m), y: tdiv(v.y * limit, m) }
    } else {
        v
    }
}

/// One integrator step for one particle: apply gravity to the velocity,
/// advance the position, reflect at the world bounds on each axis
/// independently, and clamp the speed to twice the larger half-extent.
pub open spec fn integrate_model(p: PModel, dt: int, g: V2i, damp: int, w: int, h: int) -> PModel {
    let v1 = v2i_plus(p.vel, v2i_scale(g, dt));
    let cand = v2i_plus(p.pos, v2i_scale(v1, dt));
    let bound_x = bounce_x(cand.x, v1.x, w - p.half.x, damp);
    let bound_y = bounce_y(cand.y, v1.y, h - p.half.y, damp);
    let vc = clamp_speed(v2i(bound_x.1, bound_y.1), 2 * max2(w, h));
    PModel { pos: v2i(bound_x.0, bound_y.0), vel: vc, half: p.half }
}

/// Advances one particle by `dt`, exactly as `integrate_model` describes.
pub fn integrate_particle(
    p: &mut Particle,
    dt: i64,
    gravity: &Gravity,
    damp: &BounceDampening,
    bounds: &WorldBounds,
)
    requires
        pm_wf(old(p)@),
        0 <= dt <= DT_LIMIT,
        gravity.wf(),
        damp.wf(),
        bounds.wf(),
        old(p)@.half.x <= bounds.half_width,
        old(p)@.half.y <= bounds.half_height,
    ensures
        final(p)@ == integrate_model(
            old(p)@,
            dt as int,
            gravity.0@,
            damp.0 as int,
            bounds.half_width as int,
            bounds.half_height as int,
        ),
{
    proof {
        lemma_fx_mul_abs(gravity.0@.x, dt as int, ACC_LIMIT as int, DT_LIMIT as int);
        lemma_fx_mul_abs(gravity.0@.y, dt as int, ACC_LIMIT as int, DT_LIMIT as int);
    }
    let gstep = gravity.0.scale(dt);
    let v1 = p.velocity.plus(&gstep);
    proof {
        lemma_fx_mul_abs(v1@.x, dt as int, 2_010_000_000, DT_LIMIT as int);
        lemma_fx_mul_abs(v1@.y, dt as int, 2_010_000_000, DT_LIMIT as int);
    }
    let step = v1.scale(dt);
    let cand = p.position.plus(&step);

    let bound_x = bounds.half_width - p.half_size.x;
    let bound_y = bounds.half_height - p.half_size.y;

    proof {
        lemma_fx_mul_abs(v1@.x, damp.0 as int, 2_010_000_000, SCALE as int);
        lemma_fx_mul_abs(v1@.y, damp.0 as int, 2_010_000_000, SCALE as int);
    }
    let npx: i64;
    let nvx: i64;
    if abs64(cand.x) > bound_x {
        npx = if cand.x >= 0 {
            bound_x
        } else {
            -bound_x
        };
        nvx = -mul_fixed(v1.x, damp.0);
    } else {
        npx = cand.x;
        nvx = v1.x;
    }
    let npy: i64;
    let nvy: i64;
    if abs64(cand.y) > bound_y {
        npy = if cand.y >= 0 {
            bound_y
        } else {
            -bound_y
        };
        let reflected: i64 = -mul_fixed(v1.y, damp.0);
        nvy = if abs64(reflected) < REST_EPSILON {
            0
        } else {
            reflected
        };
    } else {
        npy = cand.y;
        nvy = v1.y;
    }

    let maxwh: i64 = if bounds.half_width >= bounds.half_height {
        bounds.half_width
    } else {
        bounds.half_height
    };
    let limit: i64 = 2 * maxwh;
    let vtmp = Vec2::new(nvx, nvy);
    let ns: u64 = vtmp.norm_sq();
    proof {
        assert(0 <= (limit as int) * (limit as int) <= 4_000_000_000_000_000_000)
            by (nonlinear_arith)
            requires
                0 <= limit as int <= 2_000_000_000,
        ;
    }
    let lsq: u64 = (limit * limit) as u64;
    let vfinal: Vec2;
    if ns > lsq {
        proof {
            lemma_sqrt_ceil_bounds(ns as nat);
        }
        let m: i64 = isqrt_up(ns) as i64;
        proof {
            lemma_fx_mul_abs(nvx as int, limit as int, 2_010_000_000, VEL_LIMIT as int);
            lemma_fx_mul_abs(nvy as int, limit as int, 2_010_000_000, VEL_LIMIT as int);
        }
        vfinal = Vec2::new(div_trunc(nvx * limit, m), div_trunc(nvy * limit, m));
    } else {
        vfinal = vtmp;
    }
    p.position = Vec2::new(npx, npy);
    p.velocity = vfinal;
}

/// Dampening sign law: a reflected velocity component has the opposite
/// sign of the incoming one, and its magnitude is the incoming magnitude
/// scaled by the dampening factor (rounded toward zero), so it never grows.
pub proof fn lemma_reflect_sign(v: int, damp: int)
    requires
        0 <= damp <= SCALE,
    ensures
        v >= 0 ==> reflect(v, damp) <= 0,
        v <= 0 ==> reflect(v, damp) >= 0,
        abs_int(reflect(v, damp)) == (abs_int(v) * damp) / (SCALE as int),
        abs_int(reflect(v, damp)) <= abs_int(v),
{
    lemma_mul_signs(v, damp);
    crate::fixed::lemma_tdiv_abs(v * damp, SCALE as int);
    assert(abs_int(v * damp) == abs_int(v) * damp) by (nonlinear_arith)
        requires
            damp >= 0,
    ;
    assert(abs_int(v) * damp <= abs_int(v) * SCALE) by (nonlinear_arith)
        requires
            damp <= SCALE,
            abs_int(v) >= 0,
    ;
    vstd::arithmetic::div_mod::lemma_div_is_ordered(
        abs_int(v) * damp,
        abs_int(v) * (SCALE as int),
        SCALE as int,
    );
    vstd::arithmetic::div_mod::lemma_div_multiples_vanish(abs_int(v), SCALE as int);
}

/// Rest deadband law: after a vertical bounce the velocity is either zero
/// or at least `REST_EPSILON` in magnitude; no nonzero residue below the
/// deadband survives.
pub proof fn lemma_rest_deadband(v: int)
    ensures
        abs_int(rest_deadband(v)) < REST_EPSILON ==> rest_deadband(v) == 0,
        rest_deadband(v) == 0 || rest_deadband(v) == v,
{
}

/// A quotient `r` of `a * lim` by `m` (in magnitude) has
/// `r^2 * m^2 <= a^2 * lim^2`.
proof fn lemma_scaled_square_bound(a: int, lim: int, m: int, r: int)
    by (nonlinear_arith)
    requires
        m >= 1,
        abs_int(r) * m <= abs_int(a * lim),
        abs_int(r) == if r < 0 {
            -r
        } else {
            r
        },
        abs_int(a * lim) == if a * lim < 0 {
            -(a * lim)
        } else {
            a * lim
        },
    ensures
        r * r * (m * m) <= (a * a) * (lim * lim),
{
}

/// Speed clamp law: the clamped velocity's squared norm never exceeds
/// `limit * limit`, and each component stays within `limit`.
pub proof fn lemma_clamp_speed(v: V2i, limit: int)
    requires
        limit >= 1,
    ensures
        v2i_norm_sq(clamp_speed(v, limit)) <= limit * limit,
        abs_int(clamp_speed(v, limit).x) <= limit,
        abs_int(clamp_speed(v, limit).y) <= limit,
{
    let ns = v2i_norm_sq(v);
    assert(v.x * v.x >= 0 && v.y * v.y >= 0) by (nonlinear_arith);
    if ns > limit * limit {
        lemma_sqrt_ceil_bounds(ns as nat);
        let m = sqrt_ceil(ns as nat) as int;
        assert(m >= 1);
        assert(ns <= m * m);
        let rx = tdiv(v.x * limit, m);
        let ry = tdiv(v.y * limit, m);
        crate::fixed::lemma_tdiv_bounds(v.x * limit, m);
        crate::fixed::lemma_tdiv_bounds(v.y * limit, m);
        assert(abs_int(rx) * m <= abs_int(v.x * limit));
        assert(abs_int(ry) * m <= abs_int(v.y * limit));
        lemma_scaled_square_bound(v.x, limit, m, rx);
        lemma_scaled_square_bound(v.y, limit, m, ry);
        assert((v.x * v.x) * (limit * limit) + (v.y * v.y) * (limit * limit) == ns * (limit
            * limit)) by (nonlinear_arith)
            requires
                ns == v.x * v.x + v.y * v.y,
        ;
        assert(rx * rx * (m * m) + ry * ry * (m * m) <= ns * (limit * limit));
        vstd::arithmetic::mul::lemma_mul_inequality(ns, m * m, limit * limit);
        assert((rx * rx + ry * ry) * (m * m) == rx * rx * (m * m) + ry * ry * (m * m))
            by (nonlinear_arith);
        assert((m * m) * (limit * limit) == (limit * limit) * (m * m)) by (nonlinear_arith);
        assert(m * m >= 1) by (nonlinear_arith)
            requires
                m >= 1,
        ;
        vstd::arithmetic::mul::lemma_mul_inequality_converse(
            rx * rx + ry * ry,
            limit * limit,
            m * m,
        );
        assert(rx * rx >= 0 && ry * ry >= 0) by (nonlinear_arith);
        assert(abs_int(rx) <= limit && abs_int(ry) <= limit) by (nonlinear_arith)
            requires
                rx * rx <= limit * limit,
                ry * ry <= limit * limit,
                limit >= 1,
        ;
    } else {
        assert(v.x * v.x <= ns && v.y * v.y <= ns);
        assert(abs_int(v.x) <= limit && abs_int(v.y) <= limit) by (nonlinear_arith)
            requires
                v.x * v.x <= limit * limit,
                v.y * v.y <= limit * limit,
                limit >= 1,
        ;
    }
}

/// Boundary and speed-clamp law for one whole integrator step: the new
/// position lies inside the world on both axes, the new speed is at most
/// twice the larger half-extent, and the particle stays well-formed.
pub proof fn lemma_integrate_in_bounds(p: PModel, dt: int, g: V2i, damp: int, w: int, h: int)
    requires
        pm_wf(p),
        0 <= dt <= DT_LIMIT,
        abs_int(g.x) <= ACC_LIMIT,
        abs_int(g.y) <= ACC_LIMIT,
        0 <= damp <= SCALE,
        1 <= w <= POS_LIMIT,
        1 <= h <= POS_LIMIT,
        p.half.x <= w,
        p.half.y <= h,
    ensures
        abs_int(integrate_model(p, dt, g, damp, w, h).pos.x) <= w - p.half.x,
        abs_int(integrate_model(p, dt, g, damp, w, h).pos.y) <= h - p.half.y,
        v2i_norm_sq(integrate_model(p, dt, g, damp, w, h).vel) <= (2 * max2(w, h)) * (2 * max2(
            w,
            h,
        )),
        pm_wf(integrate_model(p, dt, g, damp, w, h)),
{
    let r = integrate_model(p, dt, g, damp, w, h);
    let v1 = v2i_plus(p.vel, v2i_scale(g, dt));
    let cand = v2i_plus(p.pos, v2i_scale(v1, dt));
    let limit = 2 * max2(w, h);
    lemma_clamp_speed(v2i(bounce_x(cand.x, v1.x, w - p.half.x, damp).1,
        bounce_y(cand.y, v1.y, h - p.half.y, damp).1), limit);
    assert(abs_int(r.pos.x) <= w - p.half.x) by {
        if abs_int(cand.x) > w - p.half.x {
            let b = w - p.half.x;
            let s = sign_of(cand.x);
            assert(s == 1 || s == -1);
            assert(b * 1 == b && b * (-1) == -b) by (nonlinear_arith);
            assert(r.pos.x == b * s);
        }
    }
    assert(abs_int(r.pos.y) <= h - p.half.y) by {
        if abs_int(cand.y) > h - p.half.y {
            let b = h - p.half.y;
            let s = sign_of(cand.y);
            assert(s == 1 || s == -1);
            assert(b * 1 == b && b * (-1) == -b) by (nonlinear_arith);
            assert(r.pos.y == b * s);
        }
    }
}

/// Advances every particle by `dt`, each exactly as `integrate_model`
/// describes; afterwards every particle sits inside the world bounds and
/// its speed is clamped (the boundary and speed-clamp laws).
pub fn update_particles(
    particles: &mut Vec<Particle>,
    dt: i64,
    gravity: &Gravity,
    damp: &BounceDampening,
    bounds: &WorldBounds,
)
    requires
        0 <= dt <= DT_LIMIT,
        gravity.wf(),
        damp.wf(),
        bounds.wf(),
        forall|j: int|
            0 <= j < old(particles)@.len() ==> pm_wf(#[trigger] old(particles)@[j]@)
                && old(particles)@[j]@.half.x <= bounds.half_width
                && old(particles)@[j]@.half.y <= bounds.half_height,
    ensures
        final(particles)@.len() == old(particles)@.len(),
        forall|j: int|
            0 <= j < old(particles)@.len() ==> #[trigger] final(particles)@[j]@ == integrate_model(
                old(particles)@[j]@,
                dt as int,
                gravity.0@,
                damp.0 as int,
                bounds.half_width as int,
                bounds.half_height as int,
            ),
        forall|j: int|
            0 <= j < old(particles)@.len() ==> pm_wf(#[trigger] final(particles)@[j]@) && abs_int(
                final(particles)@[j]@.pos.x,
            ) <= bounds.half_width - old(particles)@[j]@.half.x && abs_int(
                final(particles)@[j]@.pos.y,
            ) <= bounds.half_height - old(particles)@[j]@.half.y && v2i_norm_sq(
                final(particles)@[j]@.vel,
            ) <= (2 * max2(bounds.half_width as int, bounds.half_height as int)) * (2 * max2(
                bounds.half_width as int,
                bounds.half_height as int,
            )),
{
    let ghost w = bounds.half_width as int;
    let ghost h = bounds.half_height as int;
    let n: usize = particles.len();
    let mut i: usize = 0;
    while i < n
        invariant
            0 <= i <= n,
            n == particles@.len(),
            n == old(particles)@.len(),
            0 <= dt <= DT_LIMIT,
            gravity.wf(),
            damp.wf(),
            bounds.wf(),
            w == bounds.half_width as int,
            h == bounds.half_height as int,
            forall|j: int|
                0 <= j < n ==> pm_wf(#[trigger] old(particles)@[j]@) && old(particles)@[j]@.half.x
                    <= bounds.half_width && old(particles)@[j]@.half.y <= bounds.half_height,
            forall|j: int|
                0 <= j < i ==> #[trigger] particles@[j]@ == integrate_model(
                    old(particles)@[j]@,
                    dt as int,
                    gravity.0@,
                    damp.0 as int,
                    w,
                    h,
                ),
            forall|j: int| i <= j < n ==> #[trigger] particles@[j] == old(particles)@[j],
        decreases n - i,
    {
        integrate_particle(&mut particles[i], dt, gravity, damp, bounds);
        i = i + 1;
    }
    proof {
        assert forall|j: int| 0 <= j < old(particles)@.len() implies pm_wf(
            #[trigger] particles@[j]@,
        ) && abs_int(particles@[j]@.pos.x) <= bounds.half_width - old(particles)@[j]@.half.x
            && abs_int(particles@[j]@.pos.y) <= bounds.half_height - old(particles)@[j]@.half.y
            && v2i_norm_sq(particles@[j]@.vel) <= (2 * max2(
            bounds.half_width as int,
            bounds.half_height as int,
        )) * (2 * max2(bounds.half_width as int, bounds.half_height as int)) by {
            lemma_integrate_in_bounds(old(particles)@[j]@, dt as int, gravity.0@, damp.0 as int, w, h);
        }
    }
}

} // verus!
