//! Pairwise collision resolution: positional separation plus an
//! impulse along the contact normal with fixed restitution.

use vstd::prelude::*;
use crate::fixed::{
    abs_int, div_trunc, fx_mul, isqrt, lemma_fx_mul_abs, lemma_sqrt_floor_lt,
    lemma_tdiv_abs, lemma_tdiv_bounds, mul_fixed, sqrt_floor, tdiv, SCALE,
};
use crate::particle::{models, pm_wf, Particle, PModel};
use crate::vec2::{
    v2i, v2i_dot, v2i_minus, v2i_neg, v2i_norm_sq, v2i_plus, v2i_scale, V2i, Vec2,
};
use crate::{POS_LIMIT, RADIUS_LIMIT, VEL_LIMIT};

verus! {

/// The fraction of the relative approach speed returned by a collision
/// (0.8), as a fixed-point scalar.
pub const RESTITUTION: i64 = 800;

/// Centre-to-centre offset of a pair.
pub open spec fn pair_diff(a: PModel, b: PModel) -> V2i {
    v2i_minus(b.pos, a.pos)
}

/// Centre distance, rounded down.
pub open spec fn pair_dist(a: PModel, b: PModel) -> int {
    sqrt_floor(v2i_norm_sq(pair_diff(a, b)) as nat) as int
}

/// The sum of the two collision radii: the closest the centres may come.
pub open spec fn pair_min_dist(a: PModel, b: PModel) -> int {
    a.half.x + b.half.x
}

/// The contact normal at scale `SCALE`: the offset normalized, or zero for
/// coincident centres (no direction is available, so none is invented).
pub open spec fn contact_normal(a: PModel, b: PModel) -> V2i {
    let d = pair_diff(a, b);
    let dist = pair_dist(a, b);
    if dist == 0 {
        v2i(0, 0)
    } else {
        v2i(tdiv(d.x * SCALE, dist), tdiv(d.y * SCALE, dist))
    }
}

/// The relative velocity of the pair along the contact normal.
pub open spec fn approach_speed(a: PModel, b: PModel) -> int {
    v2i_dot(v2i_minus(b.vel, a.vel), contact_normal(a, b))
}

/// One pair resolution with no representability guard: if the disks
/// overlap, separate the centres symmetrically by half the penetration
/// each, and, if the pair is still approaching, apply equal-and-opposite
/// impulses of magnitude `(1 + restitution) * |approach speed| / 2` along
/// the normal.
pub open spec fn pair_raw(a: PModel, b: PModel) -> (PModel, PModel) {
    let dist = pair_dist(a, b);
    if dist >= pair_min_dist(a, b) {
        (a, b)
    } else {
        let n = contact_normal(a, b);
        let corr = v2i_scale(n, tdiv(pair_min_dist(a, b) - dist, 2));
        let pa = v2i_minus(a.pos, corr);
        let pb = v2i_plus(b.pos, corr);
        let van = approach_speed(a, b);
        if van >= 0 {
            (PModel { pos: pa, ..a }, PModel { pos: pb, ..b })
        } else {
            let jmag = tdiv(fx_mul((SCALE + RESTITUTION) as int, -van), 2);
            let imp = v2i_scale(n, jmag);
            (
                PModel { pos: pa, vel: v2i_minus(a.vel, imp), ..a },
                PModel { pos: pb, vel: v2i_plus(b.vel, imp), ..b },
            )
        }
    }
}

/// One pair resolution as executed: a pair whose inputs or outputs leave
/// the representable range is left exactly as it was.
pub open spec fn pair_step(a: PModel, b: PModel) -> (PModel, PModel) {
    let r = pair_raw(a, b);
    if pm_wf(a) && pm_wf(b) && pm_wf(r.0) && pm_wf(r.1) {
        r
    } else {
        (a, b)
    }
}

/// A particle's fields are within the machine limits.
fn particle_fits(p: &Particle) -> (r: bool)
    ensures
        r == pm_wf(p@),
{
    -POS_LIMIT <= p.position.x && p.position.x <= POS_LIMIT && -POS_LIMIT <= p.position.y
        && p.position.y <= POS_LIMIT && -VEL_LIMIT <= p.velocity.x && p.velocity.x <= VEL_LIMIT
        && -VEL_LIMIT <= p.velocity.y && p.velocity.y <= VEL_LIMIT && 0 <= p.half_size.x
        && p.half_size.x <= RADIUS_LIMIT && 0 <= p.half_size.y && p.half_size.y <= RADIUS_LIMIT
}

/// The components of a contact normal are at most `SCALE` in magnitude.
proof fn lemma_normal_bounds(a: PModel, b: PModel)
    ensures
        abs_int(contact_normal(a, b).x) <= SCALE,
        abs_int(contact_normal(a, b).y) <= SCALE,
{
    let d = pair_diff(a, b);
    let dist = pair_dist(a, b);
    if dist != 0 {
        let nsq = v2i_norm_sq(d);
        assert(d.x * d.x >= 0 && d.y * d.y >= 0) by (nonlinear_arith);
        crate::fixed::lemma_sqrt_floor_bounds(nsq as nat);
        assert(abs_int(d.x) <= dist && abs_int(d.y) <= dist) by {
            lemma_sqrt_floor_lt(nsq as nat, abs_int(d.x) as nat);
            lemma_sqrt_floor_lt(nsq as nat, abs_int(d.y) as nat);
            assert(abs_int(d.x) * abs_int(d.x) <= nsq && abs_int(d.y) * abs_int(d.y) <= nsq)
                by (nonlinear_arith)
                requires
                    nsq == d.x * d.x + d.y * d.y,
                    d.x * d.x >= 0 && d.y * d.y >= 0,
            ;
        }
        lemma_tdiv_abs(d.x * SCALE, dist);
        lemma_tdiv_abs(d.y * SCALE, dist);
        assert(abs_int(d.x * SCALE) == abs_int(d.x) * SCALE && abs_int(d.y * SCALE) == abs_int(d.y)
            * SCALE) by (nonlinear_arith);
        assert(abs_int(d.x) * SCALE <= dist * SCALE && abs_int(d.y) * SCALE <= dist * SCALE)
            by (nonlinear_arith)
            requires
                abs_int(d.x) <= dist && abs_int(d.y) <= dist,
        ;
        vstd::arithmetic::div_mod::lemma_div_is_ordered(
            abs_int(d.x) * SCALE,
            dist * SCALE,
            dist,
        );
        vstd::arithmetic::div_mod::lemma_div_is_ordered(
            abs_int(d.y) * SCALE,
            dist * SCALE,
            dist,
        );
        assert(dist * SCALE == SCALE * dist) by (nonlinear_arith);
        vstd::arithmetic::div_mod::lemma_div_multiples_vanish(SCALE as int, dist);
    }
}

/// Resolves one pair, exactly as `pair_step` describes.
pub fn resolve_pair(a: Particle, b: Particle) -> (r: (Particle, Particle))
    ensures
        r.0@ == pair_step(a@, b@).0,
        r.1@ == pair_step(a@, b@).1,
{
    if !particle_fits(&a) || !particle_fits(&b) {
        return (a, b);
    }
    let diff = b.position.minus(&a.position);
    let dsq: u64 = diff.norm_sq();
    let dist: i64 = isqrt(dsq) as i64;
    let min_d: i64 = a.half_size.x + b.half_size.x;
    if dist >= min_d {
        return (a, b);
    }
    proof {
        lemma_normal_bounds(a@, b@);
    }
    let normal: Vec2 = if dist == 0 {
        Vec2::new(0, 0)
    } else {
        Vec2::new(div_trunc(diff.x * SCALE, dist), div_trunc(diff.y * SCALE, dist))
    };
    proof {
        lemma_tdiv_abs((min_d - dist) as int, 2);
        vstd::arithmetic::div_mod::lemma_div_is_ordered(
            abs_int((min_d - dist) as int),
            2 * RADIUS_LIMIT,
            2,
        );
        lemma_fx_mul_abs(normal@.x as int, tdiv((min_d - dist) as int, 2), SCALE as int, RADIUS_LIMIT as int);
        lemma_fx_mul_abs(normal@.y as int, tdiv((min_d - dist) as int, 2), SCALE as int, RADIUS_LIMIT as int);
    }
    let half_pen: i64 = div_trunc(min_d - dist, 2);
    let corr = normal.scale(half_pen);
    let pa = a.position.minus(&corr);
    let pb = b.position.plus(&corr);
    let rel = b.velocity.minus(&a.velocity);
    proof {
        lemma_fx_mul_abs(rel@.x, normal@.x as int, 2 * VEL_LIMIT, SCALE as int);
        lemma_fx_mul_abs(rel@.y, normal@.y as int, 2 * VEL_LIMIT, SCALE as int);
    }
    let van: i64 = rel.dot_scaled(&normal);
    let na: Particle;
    let nb: Particle;
    if van >= 0 {
        na = Particle { position: pa, ..a };
        nb = Particle { position: pb, ..b };
    } else {
        proof {
            lemma_tdiv_abs(rel@.x * normal@.x + rel@.y * normal@.y, SCALE as int);
            vstd::arithmetic::div_mod::lemma_div_is_ordered(
                abs_int(rel@.x * normal@.x + rel@.y * normal@.y),
                2 * VEL_LIMIT * SCALE + 2 * VEL_LIMIT * SCALE,
                SCALE as int,
            );
            lemma_fx_mul_abs((SCALE + RESTITUTION) as int, -van as int, 1800, 8_000_000_000);
            lemma_tdiv_abs(fx_mul((SCALE + RESTITUTION) as int, -(van as int)), 2);
            vstd::arithmetic::div_mod::lemma_div_is_ordered(
                abs_int(fx_mul((SCALE + RESTITUTION) as int, -(van as int))),
                14_400_000_000,
                2,
            );
        }
        let jmag: i64 = div_trunc(mul_fixed(SCALE + RESTITUTION, -van), 2);
        proof {
            lemma_fx_mul_abs(normal@.x as int, jmag as int, SCALE as int, 7_200_000_000);
            lemma_fx_mul_abs(normal@.y as int, jmag as int, SCALE as int, 7_200_000_000);
        }
        let imp = normal.scale(jmag);
        na = Particle { position: pa, velocity: a.velocity.minus(&imp), ..a };
        nb = Particle { position: pb, velocity: b.velocity.plus(&imp), ..b };
    }
    if particle_fits(&na) && particle_fits(&nb) {
        (na, nb)
    } else {
        (a, b)
    }
}

/// The index pairs visited from row `i`, column `j` on: `(i, j)`,
/// `(i, j + 1)`, ... then the rows below, each row `r` starting at column
/// `r + 1`.
pub open spec fn pairs_from(i: int, j: int, n: int) -> Seq<(int, int)>
    decreases n - i, n - j,
{
    if i < n && j < n {
        seq![(i, j)].add(pairs_from(i, j + 1, n))
    } else if i < n - 1 {
        pairs_from(i + 1, i + 2, n)
    } else {
        Seq::empty()
    }
}

/// Every distinct unordered pair of indices below `n`, each exactly once.
pub open spec fn all_pairs(n: int) -> Seq<(int, int)> {
    pairs_from(0, 1, n)
}

/// Applies `pair_step` to entries `i` and `j` of the sequence.
pub open spec fn apply_pair(ps: Seq<PModel>, i: int, j: int) -> Seq<PModel> {
    if 0 <= i < ps.len() && 0 <= j < ps.len() && i != j {
        let r = pair_step(ps[i], ps[j]);
        ps.update(i, r.0).update(j, r.1)
    } else {
        ps
    }
}

/// Folds `apply_pair` over a list of index pairs, in order.
pub open spec fn fold_pairs(ps: Seq<PModel>, pl: Seq<(int, int)>) -> Seq<PModel>
    decreases pl.len(),
{
    if pl.len() == 0 {
        ps
    } else {
        fold_pairs(apply_pair(ps, pl[0].0, pl[0].1), pl.drop_first())
    }
}

/// One whole collision-resolution pass over the particle set.
pub open spec fn resolve_pass(ps: Seq<PModel>) -> Seq<PModel> {
    fold_pairs(ps, all_pairs(ps.len() as int))
}

/// Dedup law: the pass visits every unordered pair exactly once. Each
/// listed pair has its lower index first, every two listed pairs differ
/// even as unordered pairs (strict lexicographic order), and every
/// unordered pair of distinct indices below `n` is listed.
pub proof fn lemma_pairs_from_props(i: int, j: int, n: int)
    requires
        0 <= i < j,
    ensures
        forall|k: int|
            0 <= k < pairs_from(i, j, n).len() ==> {
                let p = #[trigger] pairs_from(i, j, n)[k];
                p.0 < p.1 < n && (p.0 > i || (p.0 == i && p.1 >= j))
            },
        forall|k: int, l: int|
            0 <= k < l < pairs_from(i, j, n).len() ==> (#[trigger] pairs_from(i, j, n)[k]).0
                < (#[trigger] pairs_from(i, j, n)[l]).0 || (pairs_from(i, j, n)[k].0 == pairs_from(
                i,
                j,
                n,
            )[l].0 && pairs_from(i, j, n)[k].1 < pairs_from(i, j, n)[l].1),
        forall|a: int, b: int|
            (i <= a && (a > i || b >= j) && a < b < n) ==> pairs_from(i, j, n).contains((a, b)),
    decreases n - i, n - j,
{
    let s = pairs_from(i, j, n);
    if i < n && j < n {
        lemma_pairs_from_props(i, j + 1, n);
        let rest = pairs_from(i, j + 1, n);
        assert(s == seq![(i, j)].add(rest));
        assert(s[0] == (i, j));
        assert forall|k: int| 0 <= k < rest.len() implies s[k + 1] == rest[k] by {}
        assert forall|a: int, b: int|
            (i <= a && (a > i || b >= j) && a < b < n) implies s.contains((a, b)) by {
            if a == i && b == j {
                assert(s[0] == (a, b));
            } else {
                assert(rest.contains((a, b)));
                let k = choose|k: int| 0 <= k < rest.len() && rest[k] == (a, b);
                assert(s[k + 1] == (a, b));
            }
        }
    } else if i < n - 1 {
        lemma_pairs_from_props(i + 1, i + 2, n);
        assert forall|a: int, b: int|
            (i <= a && (a > i || b >= j) && a < b < n) implies s.contains((a, b)) by {
            assert(a >= i + 1 || (a == i && b >= j && b < n));
            assert(pairs_from(i + 1, i + 2, n).contains((a, b)));
        }
    }
}

/// Dedup law for the whole pass: in `all_pairs(n)` every entry is an
/// ordered pair of distinct indices below `n`, no two entries name the
/// same unordered pair, and every unordered pair appears — so one pass
/// processes each pair exactly once, whatever the iteration order within
/// an entry.
pub proof fn lemma_all_pairs_dedup(n: int)
    ensures
        forall|k: int|
            0 <= k < all_pairs(n).len() ==> 0 <= (#[trigger] all_pairs(n)[k]).0 < all_pairs(
                n,
            )[k].1 < n,
        forall|k: int, l: int|
            0 <= k < l < all_pairs(n).len() ==> #[trigger] all_pairs(n)[k]
                != #[trigger] all_pairs(n)[l] && !(all_pairs(n)[k].0 == all_pairs(n)[l].1
                && all_pairs(n)[k].1 == all_pairs(n)[l].0),
        forall|a: int, b: int| 0 <= a < b < n ==> all_pairs(n).contains((a, b)),
{
    lemma_pairs_from_props(0, 1, n);
}

/// For moderate states — positions a radius clear of the outermost
/// representable coordinate and speeds at a tenth of the velocity limit,
/// far beyond anything the integrator's clamp lets through — the
/// representability guard never fires: the executed step is exactly the
/// ideal resolution.
pub proof fn lemma_pair_step_unguarded(a: PModel, b: PModel)
    requires
        pm_wf(a),
        pm_wf(b),
        abs_int(a.pos.x) <= POS_LIMIT - RADIUS_LIMIT,
        abs_int(a.pos.y) <= POS_LIMIT - RADIUS_LIMIT,
        abs_int(b.pos.x) <= POS_LIMIT - RADIUS_LIMIT,
        abs_int(b.pos.y) <= POS_LIMIT - RADIUS_LIMIT,
        abs_int(a.vel.x) <= 200_000_000,
        abs_int(a.vel.y) <= 200_000_000,
        abs_int(b.vel.x) <= 200_000_000,
        abs_int(b.vel.y) <= 200_000_000,
    ensures
        pair_step(a, b) == pair_raw(a, b),
{
    let r = pair_raw(a, b);
    let dist = pair_dist(a, b);
    let min_d = pair_min_dist(a, b);
    if dist < min_d {
        lemma_normal_bounds(a, b);
        let n = contact_normal(a, b);
        let hp = tdiv(min_d - dist, 2);
        lemma_tdiv_bounds(min_d - dist, 2);
        assert(0 <= hp <= RADIUS_LIMIT);
        let corr = v2i_scale(n, hp);
        lemma_fx_mul_abs(n.x, hp, 1000, 100_000_000);
        lemma_fx_mul_abs(n.y, hp, 1000, 100_000_000);
        assert(abs_int(corr.x) <= 100_000_000 && abs_int(corr.y) <= 100_000_000);
        let van = approach_speed(a, b);
        if van < 0 {
            let rel = v2i_minus(b.vel, a.vel);
            lemma_fx_mul_abs(rel.x, n.x, 400_000_000, 1000);
            lemma_fx_mul_abs(rel.y, n.y, 400_000_000, 1000);
            lemma_tdiv_abs(rel.x * n.x + rel.y * n.y, SCALE as int);
            vstd::arithmetic::div_mod::lemma_div_is_ordered(
                abs_int(rel.x * n.x + rel.y * n.y),
                800_000_000_000,
                SCALE as int,
            );
            assert(abs_int(van) <= 800_000_000);
            lemma_fx_mul_abs((SCALE + RESTITUTION) as int, -van, 1800, 800_000_000);
            let jmag = tdiv(fx_mul((SCALE + RESTITUTION) as int, -van), 2);
            lemma_tdiv_abs(fx_mul((SCALE + RESTITUTION) as int, -van), 2);
            vstd::arithmetic::div_mod::lemma_div_is_ordered(
                abs_int(fx_mul((SCALE + RESTITUTION) as int, -van)),
                1_440_000_000,
                2,
            );
            assert(abs_int(jmag) <= 720_000_000);
            lemma_fx_mul_abs(n.x, jmag, 1000, 720_000_000);
            lemma_fx_mul_abs(n.y, jmag, 1000, 720_000_000);
        }
        assert(pm_wf(r.0) && pm_wf(r.1));
    }
}

/// Non-overlap law: a pair whose centre distance is at least the sum of
/// the radii is left exactly as it was — positions and velocities both.
pub proof fn lemma_non_overlap_unaffected(a: PModel, b: PModel)
    requires
        pair_dist(a, b) >= pair_min_dist(a, b),
    ensures
        pair_step(a, b) == (a, b),
{
}

/// Separating-pair law: when the pair is not approaching (the relative
/// velocity along the contact normal is nonnegative), no impulse is
/// applied; only the positional correction may act.
pub proof fn lemma_separating_no_impulse(a: PModel, b: PModel)
    requires
        approach_speed(a, b) >= 0,
    ensures
        pair_step(a, b).0.vel == a.vel,
        pair_step(a, b).1.vel == b.vel,
{
}

/// Impulse conservation law for the equal-mass model: a pair approaching
/// with exactly opposite velocities leaves with exactly opposite
/// velocities, whether or not an impulse was applied.
pub proof fn lemma_opposite_velocities(a: PModel, b: PModel)
    requires
        b.vel == v2i_neg(a.vel),
    ensures
        pair_step(a, b).0.vel == v2i_neg(pair_step(a, b).1.vel),
{
    assert(a.vel == v2i_neg(b.vel));
}

/// Resolves every unordered pair of particles once, exactly as
/// `resolve_pass` describes.
pub fn resolve_collisions(particles: &mut Vec<Particle>)
    ensures
        final(particles)@.len() == old(particles)@.len(),
        models(final(particles)@) == resolve_pass(models(old(particles)@)),
{
    let n: usize = particles.len();
    let ghost goal = resolve_pass(models(particles@));
    let mut i: usize = 0;
    while i < n
        invariant
            0 <= i <= n,
            n == particles@.len(),
            fold_pairs(models(particles@), pairs_from(i as int, i + 1, n as int)) == goal,
        decreases n - i,
    {
        let mut j: usize = i + 1;
        while j < n
            invariant
                0 <= i < j,
                i < n,
                n == particles@.len(),
                fold_pairs(models(particles@), pairs_from(i as int, j as int, n as int)) == goal,
            decreases n - j,
        {
            let ghost before = models(particles@);
            let (na, nb) = resolve_pair(particles[i], particles[j]);
            particles[i] = na;
            particles[j] = nb;
            proof {
                assert(models(particles@) =~= apply_pair(before, i as int, j as int));
                let pl = pairs_from(i as int, j as int, n as int);
                assert(pl[0] == (i as int, j as int));
                assert(pl.drop_first() =~= pairs_from(i as int, j + 1, n as int));
            }
            j = j + 1;
        }
        i = i + 1;
    }
    proof {
        assert(pairs_from(n as int, n as int + 1, n as int).len() == 0);
        assert(models(particles@) == goal);
    }
}

} // verus!
