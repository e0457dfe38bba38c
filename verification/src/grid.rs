//! The sparse grid velocity field: particle-to-grid scatter with a
//! quadratic kernel, temporal smoothing against the previous tick's field,
//! and per-tick gravity injection.

use vstd::prelude::*;
use crate::fixed::{
    abs_int, div_floor, div_trunc, fx_mul, lemma_fx_mul_abs, lemma_tdiv_abs,
    lemma_tdiv_bounds, mul_fixed, tdiv, HALF_UNIT, SCALE, SCALE_SQ,
    THREE_QUARTER_UNIT,
};
use crate::vec2::{v2i, v2i_len, v2i_plus, V2i, Vec2};
use crate::POS_LIMIT;
use crate::particle::{models, pm_wf, Particle, PModel};
use crate::Gravity;

verus! {

/// The signed integer coordinate of one grid cell.
#[derive(Clone, Copy, PartialEq, Eq, Structural, Debug)]
pub struct CellIndex {
    pub x: i64,
    pub y: i64,
}

/// One grid cell: the velocity and weight-sum ("mass") accumulated from
/// nearby particles this tick.
#[derive(Clone, Copy, PartialEq, Eq, Structural, Debug)]
pub struct GridCell {
    pub velocity: Vec2,
    pub mass: i64,
}

/// The index of the cell whose centre is nearest to the coordinate `p`:
/// `p / s` rounded to the nearest integer (ties toward positive
/// infinity). Rounding to the nearest centre keeps the kernel offset
/// within half a cell, so the quadratic weights are never negative.
pub open spec fn cell_coord(p: int, s: int) -> int
    recommends
        s >= 1,
{
    (2 * p + s) / (2 * s)
}

/// The fixed-point offset of `p` from its cell's centre, in cell widths:
/// `p / s - cell_coord(p, s)` at scale `SCALE`.
pub open spec fn cell_offset(p: int, s: int) -> int
    recommends
        s >= 1,
{
    tdiv(p * SCALE, s) - cell_coord(p, s) * SCALE
}

/// The three quadratic kernel weights for a fixed-point offset `f`, at
/// scale `SCALE`: `0.5 * (0.5 - f)^2`, `0.75 - f^2`, `0.5 * (0.5 + f)^2`,
/// each evaluated left to right with fixed-point rounding.
pub open spec fn w_lo(f: int) -> int {
    fx_mul(fx_mul(HALF_UNIT as int, HALF_UNIT - f), HALF_UNIT - f)
}

pub open spec fn w_mid(f: int) -> int {
    THREE_QUARTER_UNIT - fx_mul(f, f)
}

pub open spec fn w_hi(f: int) -> int {
    fx_mul(fx_mul(HALF_UNIT as int, HALF_UNIT + f), HALF_UNIT + f)
}

/// The weight for neighbour offset `o` in `{0, 1, 2}` (cells `-1`, `0`,
/// `+1` relative to the base cell).
pub open spec fn w1d(f: int, o: int) -> int {
    if o == 0 {
        w_lo(f)
    } else if o == 1 {
        w_mid(f)
    } else {
        w_hi(f)
    }
}

/// The base cell index stays within range for in-range coordinates.
pub proof fn lemma_cell_coord_range(p: int, s: int)
    requires
        1 <= s <= POS_LIMIT,
        abs_int(p) <= 2 * POS_LIMIT,
    ensures
        abs_int(cell_coord(p, s)) <= 5 * POS_LIMIT,
{
    let a = 2 * p + s;
    let d = 2 * s;
    let q = a / d;
    if a >= 0 {
        vstd::arithmetic::div_mod::lemma_div_nonincreasing(a, d);
        vstd::arithmetic::div_mod::lemma_div_pos_is_pos(a, d);
    } else {
        vstd::arithmetic::div_mod::lemma_fundamental_div_mod(a, d);
        vstd::arithmetic::div_mod::lemma_mod_division_less_than_divisor(a, d);
        assert(a <= q < 0) by (nonlinear_arith)
            requires
                a == d * q + a % d,
                0 <= a % d < d,
                d >= 2,
                a < 0,
        ;
    }
}

/// The kernel offset of an in-range coordinate is within half a cell
/// (plus one rounding step either way).
pub proof fn lemma_cell_offset_range(p: int, s: int)
    requires
        1 <= s <= POS_LIMIT,
        abs_int(p) <= 2 * POS_LIMIT,
    ensures
        abs_int(cell_offset(p, s)) <= HALF_UNIT + 1,
{
    let c = cell_coord(p, s);
    let t = tdiv(p * SCALE, s);
    let f = cell_offset(p, s);
    vstd::arithmetic::div_mod::lemma_fundamental_div_mod(2 * p + s, 2 * s);
    vstd::arithmetic::div_mod::lemma_mod_division_less_than_divisor(2 * p + s, 2 * s);
    assert(c * (2 * s) <= 2 * p + s < c * (2 * s) + 2 * s) by (nonlinear_arith)
        requires
            2 * p + s == (2 * s) * c + (2 * p + s) % (2 * s),
            0 <= (2 * p + s) % (2 * s) < 2 * s,
    ;
    lemma_tdiv_bounds(p * SCALE, s);
    assert(p * SCALE - s < t * s <= p * SCALE || p * SCALE <= t * s < p * SCALE + s);
    assert(abs_int(f) <= HALF_UNIT + 1) by (nonlinear_arith)
        requires
            f == t - c * SCALE,
            s >= 1,
            SCALE == 2 * HALF_UNIT,
            c * (2 * s) <= 2 * p + s < c * (2 * s) + 2 * s,
            p * SCALE - s < t * s <= p * SCALE || p * SCALE <= t * s < p * SCALE + s,
            abs_int(f) == if f < 0 {
                -f
            } else {
                f
            },
    ;
}

/// Kernel weight law: for offsets within half a cell of the centre (the
/// range the rounded base cell produces) every weight is nonnegative and
/// bounded, and at an exact cell centre (`f == 0`) the three weights are
/// exactly `1/8`, `3/4`, `1/8` of `SCALE`, which sum to `SCALE`.
#[verifier::rlimit(100)]
pub proof fn lemma_weight_bounds(f: int)
    requires
        abs_int(f) <= HALF_UNIT + 1,
    ensures
        0 <= w_lo(f) <= HALF_UNIT,
        0 <= w_mid(f) <= THREE_QUARTER_UNIT,
        0 <= w_hi(f) <= HALF_UNIT,
        f == 0 ==> w_lo(f) == SCALE / 8 && w_mid(f) == 3 * SCALE / 4 && w_hi(f) == SCALE / 8
            && w_lo(f) + w_mid(f) + w_hi(f) == SCALE,
{
    let lo_in = fx_mul(HALF_UNIT as int, HALF_UNIT - f);
    let hi_in = fx_mul(HALF_UNIT as int, HALF_UNIT + f);
    lemma_fx_mul_abs(HALF_UNIT as int, HALF_UNIT - f, 500, 1001);
    lemma_fx_mul_abs(HALF_UNIT as int, HALF_UNIT + f, 500, 1001);
    lemma_tdiv_bounds(HALF_UNIT * (HALF_UNIT - f), SCALE as int);
    lemma_tdiv_bounds(HALF_UNIT * (HALF_UNIT + f), SCALE as int);
    assert(HALF_UNIT * (HALF_UNIT - f) >= -HALF_UNIT && HALF_UNIT * (HALF_UNIT + f)
        >= -HALF_UNIT) by (nonlinear_arith)
        requires
            -(HALF_UNIT + 1) <= f <= HALF_UNIT + 1,
    ;
    assert(lo_in >= 0 && hi_in >= 0) by {
        if HALF_UNIT * (HALF_UNIT - f) >= 0 {
        } else {
            lemma_tdiv_abs(HALF_UNIT * (HALF_UNIT - f), SCALE as int);
            vstd::arithmetic::div_mod::lemma_basic_div(
                abs_int(HALF_UNIT * (HALF_UNIT - f)),
                SCALE as int,
            );
        }
        if HALF_UNIT * (HALF_UNIT + f) >= 0 {
        } else {
            lemma_tdiv_abs(HALF_UNIT * (HALF_UNIT + f), SCALE as int);
            vstd::arithmetic::div_mod::lemma_basic_div(
                abs_int(HALF_UNIT * (HALF_UNIT + f)),
                SCALE as int,
            );
        }
    }
    lemma_fx_mul_abs(lo_in, HALF_UNIT - f, 500, 1001);
    lemma_fx_mul_abs(hi_in, HALF_UNIT + f, 500, 1001);
    assert(w_lo(f) >= 0 && w_hi(f) >= 0) by {
        if HALF_UNIT - f >= 0 {
            assert(lo_in * (HALF_UNIT - f) >= 0) by (nonlinear_arith)
                requires
                    lo_in >= 0,
                    HALF_UNIT - f >= 0,
            ;
            lemma_tdiv_bounds(lo_in * (HALF_UNIT - f), SCALE as int);
        } else {
            assert(abs_int(lo_in * (HALF_UNIT - f)) <= HALF_UNIT) by (nonlinear_arith)
                requires
                    0 <= lo_in <= HALF_UNIT,
                    -1 <= HALF_UNIT - f < 0,
            ;
            lemma_tdiv_abs(lo_in * (HALF_UNIT - f), SCALE as int);
        }
        if HALF_UNIT + f >= 0 {
            assert(hi_in * (HALF_UNIT + f) >= 0) by (nonlinear_arith)
                requires
                    hi_in >= 0,
                    HALF_UNIT + f >= 0,
            ;
            lemma_tdiv_bounds(hi_in * (HALF_UNIT + f), SCALE as int);
        } else {
            assert(abs_int(hi_in * (HALF_UNIT + f)) <= HALF_UNIT) by (nonlinear_arith)
                requires
                    0 <= hi_in <= HALF_UNIT,
                    -1 <= HALF_UNIT + f < 0,
            ;
            lemma_tdiv_abs(hi_in * (HALF_UNIT + f), SCALE as int);
        }
    }
    lemma_fx_mul_abs(f, f, 501, 501);
    assert(f * f >= 0) by (nonlinear_arith);
    lemma_tdiv_bounds(f * f, SCALE as int);
    if f == 0 {
        lemma_weights_at_center();
    }
}

/// At an exact cell centre the weight triple is `1/8`, `3/4`, `1/8`,
/// summing exactly to one.
pub proof fn lemma_weights_at_center()
    ensures
        w_lo(0) == SCALE / 8,
        w_mid(0) == 3 * SCALE / 4,
        w_hi(0) == SCALE / 8,
        w_lo(0) + w_mid(0) + w_hi(0) == SCALE,
        w1d(0, 0) * w1d(0, 0) + w1d(0, 0) * w1d(0, 1) + w1d(0, 0) * w1d(0, 2) + w1d(0, 1) * w1d(
            0,
            0,
        ) + w1d(0, 1) * w1d(0, 1) + w1d(0, 1) * w1d(0, 2) + w1d(0, 2) * w1d(0, 0) + w1d(0, 2)
            * w1d(0, 1) + w1d(0, 2) * w1d(0, 2) == SCALE * SCALE,
{
    assert(fx_mul(500, 500) == 250);
    assert(fx_mul(250, 500) == 125);
    assert(fx_mul(0, 0) == 0);
    assert(w1d(0, 0) == 125 && w1d(0, 1) == 750 && w1d(0, 2) == 125);
    assert(125 * 125 == 15625int && 125 * 750 == 93750int && 750 * 125 == 93750int && 750 * 750
        == 562500int && 1000 * 1000 == 1000000int);
}

/// The model of one grid cell and its coordinate.
pub ghost struct CellM {
    pub kx: int,
    pub ky: int,
    pub vel: V2i,
    pub mass: int,
}

/// The model of one entry of the previous tick's velocity snapshot.
pub ghost struct PrevM {
    pub kx: int,
    pub ky: int,
    pub vel: V2i,
}

/// The index of the first entry with the given key, or `-1`.
pub open spec fn find_key(keys: Seq<(int, int)>, kx: int, ky: int) -> int
    decreases keys.len(),
{
    if keys.len() == 0 {
        -1
    } else if keys[0].0 == kx && keys[0].1 == ky {
        0
    } else {
        let r = find_key(keys.drop_first(), kx, ky);
        if r < 0 {
            -1
        } else {
            r + 1
        }
    }
}

/// `find_key` returns the first match: a valid index whose key matches
/// with no earlier match, or `-1` when no entry matches.
pub proof fn lemma_find_key(keys: Seq<(int, int)>, kx: int, ky: int)
    ensures
        -1 <= find_key(keys, kx, ky) < keys.len(),
        find_key(keys, kx, ky) >= 0 ==> keys[find_key(keys, kx, ky)] == (kx, ky),
        forall|i: int|
            0 <= i < keys.len() && i < find_key(keys, kx, ky) ==> #[trigger] keys[i] != (kx, ky),
        find_key(keys, kx, ky) < 0 ==> forall|i: int|
            0 <= i < keys.len() ==> #[trigger] keys[i] != (kx, ky),
    decreases keys.len(),
{
    if keys.len() > 0 && !(keys[0].0 == kx && keys[0].1 == ky) {
        lemma_find_key(keys.drop_first(), kx, ky);
        assert forall|i: int| 1 <= i < keys.len() implies keys[i] == keys.drop_first()[i - 1] by {}
        assert(keys[0] != (kx, ky));
    }
}

pub open spec fn cell_keys(s: Seq<CellM>) -> Seq<(int, int)> {
    s.map_values(|c: CellM| (c.kx, c.ky))
}

pub open spec fn prev_keys(s: Seq<PrevM>) -> Seq<(int, int)> {
    s.map_values(|c: PrevM| (c.kx, c.ky))
}

/// Adds a mass and velocity contribution to the cell with the given key,
/// inserting a fresh zero cell at the end first if the key is new.
pub open spec fn scatter_cell(s: Seq<CellM>, kx: int, ky: int, dm: int, dv: V2i) -> Seq<CellM> {
    let i = find_key(cell_keys(s), kx, ky);
    if i >= 0 {
        s.update(i, CellM { kx, ky, vel: v2i_plus(s[i].vel, dv), mass: s[i].mass + dm })
    } else {
        s.push(CellM { kx, ky, vel: dv, mass: dm })
    }
}

/// One of the nine scatter contributions of one particle: neighbour
/// `(gx, gy)` in `{0, 1, 2} x {0, 1, 2}` (offsets `-1, 0, +1` from the
/// base cell). The 2-D weight is the product of the two axis weights at
/// scale `SCALE * SCALE`; the cell gains that fraction of the particle's
/// speed as mass and of its velocity as velocity.
pub open spec fn scatter_one(s: Seq<CellM>, p: PModel, cs: int, gx: int, gy: int) -> Seq<CellM> {
    let w = w1d(cell_offset(p.pos.x, cs), gx) * w1d(cell_offset(p.pos.y, cs), gy);
    let len = v2i_len(p.vel);
    scatter_cell(
        s,
        cell_coord(p.pos.x, cs) + gx - 1,
        cell_coord(p.pos.y, cs) + gy - 1,
        tdiv(w * len, SCALE_SQ as int),
        v2i(tdiv(w * p.vel.x, SCALE_SQ as int), tdiv(w * p.vel.y, SCALE_SQ as int)),
    )
}

/// Adding a contribution only updates or appends the addressed key.
pub proof fn lemma_scatter_cell_keys(s: Seq<CellM>, kx: int, ky: int, dm: int, dv: V2i)
    ensures
        cell_keys(scatter_cell(s, kx, ky, dm, dv)) == if find_key(cell_keys(s), kx, ky) >= 0 {
            cell_keys(s)
        } else {
            cell_keys(s).push((kx, ky))
        },
{
    lemma_find_key(cell_keys(s), kx, ky);
    if find_key(cell_keys(s), kx, ky) >= 0 {
        assert(cell_keys(scatter_cell(s, kx, ky, dm, dv)) =~= cell_keys(s));
    } else {
        assert(cell_keys(scatter_cell(s, kx, ky, dm, dv)) =~= cell_keys(s).push((kx, ky)));
    }
}

/// The first `gy` contributions of neighbour row `gx`.
pub open spec fn scatter_row(s: Seq<CellM>, p: PModel, cs: int, gx: int, gy: int) -> Seq<CellM>
    decreases gy,
{
    if gy <= 0 {
        s
    } else {
        scatter_one(scatter_row(s, p, cs, gx, gy - 1), p, cs, gx, gy - 1)
    }
}

/// The first `gx` whole neighbour rows of one particle.
pub open spec fn scatter_rows(s: Seq<CellM>, p: PModel, cs: int, gx: int) -> Seq<CellM>
    decreases gx,
{
    if gx <= 0 {
        s
    } else {
        scatter_row(scatter_rows(s, p, cs, gx - 1), p, cs, gx - 1, 3)
    }
}

/// The whole 3 x 3 footprint of one particle.
pub open spec fn scatter_particle(s: Seq<CellM>, p: PModel, cs: int) -> Seq<CellM> {
    scatter_rows(s, p, cs, 3)
}

/// Support law: one particle scattered into an empty grid touches
/// exactly its base cell and the eight neighbours, in row-major order —
/// no other cell receives anything.
pub proof fn lemma_single_particle_footprint(p: PModel, cs: int)
    ensures
        cell_keys(scatter_particle(Seq::empty(), p, cs)) =~= seq![
            (cell_coord(p.pos.x, cs) - 1, cell_coord(p.pos.y, cs) - 1),
            (cell_coord(p.pos.x, cs) - 1, cell_coord(p.pos.y, cs)),
            (cell_coord(p.pos.x, cs) - 1, cell_coord(p.pos.y, cs) + 1),
            (cell_coord(p.pos.x, cs), cell_coord(p.pos.y, cs) - 1),
            (cell_coord(p.pos.x, cs), cell_coord(p.pos.y, cs)),
            (cell_coord(p.pos.x, cs), cell_coord(p.pos.y, cs) + 1),
            (cell_coord(p.pos.x, cs) + 1, cell_coord(p.pos.y, cs) - 1),
            (cell_coord(p.pos.x, cs) + 1, cell_coord(p.pos.y, cs)),
            (cell_coord(p.pos.x, cs) + 1, cell_coord(p.pos.y, cs) + 1),
        ],
{
    lemma_footprint_steps(p, cs, 2, 3);
    let keys = cell_keys(scatter_row(scatter_rows(Seq::empty(), p, cs, 2), p, cs, 2, 3));
    assert(scatter_particle(Seq::empty(), p, cs) == scatter_rows(Seq::empty(), p, cs, 3));
    assert(scatter_rows(Seq::empty(), p, cs, 3) == scatter_row(
        scatter_rows(Seq::empty(), p, cs, 2),
        p,
        cs,
        2,
        3,
    ));
    assert(keys.len() == 9);
    assert forall|k: int| 0 <= k < 9 implies #[trigger] keys[k] == (
        cell_coord(p.pos.x, cs) + k / 3 - 1,
        cell_coord(p.pos.y, cs) + k % 3 - 1,
    ) by {}
    assert(keys[0] == (cell_coord(p.pos.x, cs) - 1, cell_coord(p.pos.y, cs) - 1));
    assert(keys[1] == (cell_coord(p.pos.x, cs) - 1, cell_coord(p.pos.y, cs)));
    assert(keys[2] == (cell_coord(p.pos.x, cs) - 1, cell_coord(p.pos.y, cs) + 1));
    assert(keys[3] == (cell_coord(p.pos.x, cs), cell_coord(p.pos.y, cs) - 1));
    assert(keys[4] == (cell_coord(p.pos.x, cs), cell_coord(p.pos.y, cs)));
    assert(keys[5] == (cell_coord(p.pos.x, cs), cell_coord(p.pos.y, cs) + 1));
    assert(keys[6] == (cell_coord(p.pos.x, cs) + 1, cell_coord(p.pos.y, cs) - 1));
    assert(keys[7] == (cell_coord(p.pos.x, cs) + 1, cell_coord(p.pos.y, cs)));
    assert(keys[8] == (cell_coord(p.pos.x, cs) + 1, cell_coord(p.pos.y, cs) + 1));
}

/// After `gx` whole neighbour rows and `gy` further steps of the scatter
/// of one particle into an empty grid, the keys are exactly the first
/// `3 * gx + gy` neighbour offsets, in row-major order.
proof fn lemma_footprint_steps(p: PModel, cs: int, gx: int, gy: int)
    requires
        0 <= gx < 3,
        0 <= gy <= 3,
    ensures
        cell_keys(scatter_row(scatter_rows(Seq::empty(), p, cs, gx), p, cs, gx, gy)).len() == 3
            * gx + gy,
        forall|k: int|
            0 <= k < 3 * gx + gy ==> #[trigger] cell_keys(
                scatter_row(scatter_rows(Seq::empty(), p, cs, gx), p, cs, gx, gy),
            )[k] == (cell_coord(p.pos.x, cs) + k / 3 - 1, cell_coord(p.pos.y, cs) + k % 3 - 1),
    decreases gx, gy,
{
    let cx = cell_coord(p.pos.x, cs);
    let cy = cell_coord(p.pos.y, cs);
    if gy == 0 {
        if gx == 0 {
            assert(cell_keys(Seq::<CellM>::empty()) =~= Seq::<(int, int)>::empty());
        } else {
            lemma_footprint_steps(p, cs, gx - 1, 3);
            assert(scatter_rows(Seq::empty(), p, cs, gx) == scatter_row(
                scatter_rows(Seq::empty(), p, cs, gx - 1),
                p,
                cs,
                gx - 1,
                3,
            ));
        }
    } else {
        lemma_footprint_steps(p, cs, gx, gy - 1);
        let prev = scatter_row(scatter_rows(Seq::empty(), p, cs, gx), p, cs, gx, gy - 1);
        let keys = cell_keys(prev);
        let w = w1d(cell_offset(p.pos.x, cs), gx) * w1d(cell_offset(p.pos.y, cs), gy - 1);
        let len = v2i_len(p.vel);
        let dm = tdiv(w * len, SCALE_SQ as int);
        let dv = v2i(tdiv(w * p.vel.x, SCALE_SQ as int), tdiv(w * p.vel.y, SCALE_SQ as int));
        lemma_scatter_cell_keys(prev, cx + gx - 1, cy + gy - 2, dm, dv);
        lemma_find_key(keys, cx + gx - 1, cy + gy - 2);
        assert forall|k: int| 0 <= k < keys.len() implies #[trigger] keys[k] != (
            cx + gx - 1,
            cy + gy - 2,
        ) by {
            assert(keys[k] == (cx + k / 3 - 1, cy + k % 3 - 1));
            assert((k / 3 == gx && k % 3 == gy - 1) ==> k == 3 * gx + gy - 1)
                by (nonlinear_arith)
                requires
                    0 <= k,
                    0 <= gy - 1 < 3,
            ;
            assert(k < 3 * gx + gy - 1 ==> !(k / 3 == gx && k % 3 == gy - 1));
        }
        assert(find_key(keys, cx + gx - 1, cy + gy - 2) < 0);
        assert(scatter_row(scatter_rows(Seq::empty(), p, cs, gx), p, cs, gx, gy) == scatter_one(
            prev,
            p,
            cs,
            gx,
            gy - 1,
        ));
        let keys2 = cell_keys(scatter_row(scatter_rows(Seq::empty(), p, cs, gx), p, cs, gx, gy));
        assert(keys2 == keys.push((cx + gx - 1, cy + gy - 2)));
        assert forall|k: int| 0 <= k < 3 * gx + gy implies #[trigger] keys2[k] == (
            cx + k / 3 - 1,
            cy + k % 3 - 1,
        ) by {
            if k == 3 * gx + gy - 1 {
                assert(k / 3 == gx && k % 3 == gy - 1) by (nonlinear_arith)
                    requires
                        k == 3 * gx + gy - 1,
                        0 <= gy - 1 < 3,
                        0 <= gx < 3,
                ;
            } else {
                assert(keys2[k] == keys[k]);
            }
        }
    }
}

/// The first `n` particles scattered, in order.
pub open spec fn scatter_seq(s: Seq<CellM>, ps: Seq<PModel>, cs: int, n: int) -> Seq<CellM>
    decreases n,
{
    if n <= 0 {
        s
    } else {
        scatter_particle(scatter_seq(s, ps, cs, n - 1), ps[n - 1], cs)
    }
}

/// The previous tick's velocity for a cell, or zero if the cell is new.
pub open spec fn prev_vel_or_zero(prev: Seq<PrevM>, kx: int, ky: int) -> V2i {
    let i = find_key(prev_keys(prev), kx, ky);
    if i >= 0 {
        prev[i].vel
    } else {
        v2i(0, 0)
    }
}

/// The per-cell smoothing step: a populated cell's velocity becomes the
/// mean of the freshly scattered velocity and last tick's velocity for
/// the same cell, plus one tick of gravity; empty cells are untouched.
pub open spec fn blend_cell(c: CellM, prev: Seq<PrevM>, g: V2i) -> CellM {
    if c.mass > 0 {
        let pv = prev_vel_or_zero(prev, c.kx, c.ky);
        CellM {
            vel: v2i_plus(v2i(tdiv(c.vel.x + pv.x, 2), tdiv(c.vel.y + pv.y, 2)), g),
            ..c
        }
    } else {
        c
    }
}

pub open spec fn blend_all(s: Seq<CellM>, prev: Seq<PrevM>, g: V2i) -> Seq<CellM> {
    s.map_values(|c: CellM| blend_cell(c, prev, g))
}

/// The velocity snapshot taken of a grid before it is rebuilt.
pub open spec fn snapshot(s: Seq<CellM>) -> Seq<PrevM> {
    s.map_values(|c: CellM| PrevM { kx: c.kx, ky: c.ky, vel: c.vel })
}

/// The model of the whole grid resource.
pub ghost struct GridM {
    pub cell_size: int,
    pub cells: Seq<CellM>,
    pub prev: Seq<PrevM>,
}

/// The sparse velocity field, rebuilt from the particles every tick.
pub struct Grid {
    pub cell_size: i64,
    pub cells: Vec<(CellIndex, GridCell)>,
    pub previous_velocities: Vec<(CellIndex, Vec2)>,
}

pub open spec fn cells_model(s: Seq<(CellIndex, GridCell)>) -> Seq<CellM> {
    s.map_values(
        |e: (CellIndex, GridCell)|
            CellM { kx: e.0.x as int, ky: e.0.y as int, vel: e.1.velocity@, mass: e.1.mass as int },
    )
}

pub open spec fn prevs_model(s: Seq<(CellIndex, Vec2)>) -> Seq<PrevM> {
    s.map_values(|e: (CellIndex, Vec2)| PrevM { kx: e.0.x as int, ky: e.0.y as int, vel: e.1@ })
}

impl View for Grid {
    type V = GridM;

    open spec fn view(&self) -> GridM {
        GridM {
            cell_size: self.cell_size as int,
            cells: cells_model(self.cells@),
            prev: prevs_model(self.previous_velocities@),
        }
    }
}

/// Magnitude bound on everything a stored grid cell may hold.
pub const CELL_LIMIT: i64 = 4_000_000_000_000_000;

/// The most particles one grid transfer accepts.
pub const MAX_PARTICLES: usize = 100_000;

pub open spec fn cellm_wf(c: CellM) -> bool {
    &&& abs_int(c.vel.x) <= CELL_LIMIT
    &&& abs_int(c.vel.y) <= CELL_LIMIT
    &&& 0 <= c.mass <= CELL_LIMIT
}

pub open spec fn grid_wf(g: GridM) -> bool {
    &&& 1 <= g.cell_size <= POS_LIMIT
    &&& forall|i: int| 0 <= i < g.cells.len() ==> cellm_wf(#[trigger] g.cells[i])
    &&& forall|i: int|
        0 <= i < g.prev.len() ==> abs_int(#[trigger] g.prev[i].vel.x) <= CELL_LIMIT && abs_int(
            g.prev[i].vel.y,
        ) <= CELL_LIMIT
}

impl Grid {
    /// A fresh, empty grid with the given cell size.
    pub fn new(cell_size: i64) -> (r: Grid)
        requires
            1 <= cell_size <= POS_LIMIT,
        ensures
            r@.cell_size == cell_size,
            r@.cells.len() == 0,
            r@.prev.len() == 0,
            grid_wf(r@),
    {
        let r = Grid { cell_size, cells: Vec::new(), previous_velocities: Vec::new() };
        proof {
            assert(cells_model(r.cells@) =~= Seq::<CellM>::empty());
            assert(prevs_model(r.previous_velocities@) =~= Seq::<PrevM>::empty());
        }
        r
    }

    /// Snapshots every cell's velocity as the previous field, then empties
    /// the grid.
    pub fn clear(&mut self)
        ensures
            final(self)@.cell_size == old(self)@.cell_size,
            final(self)@.prev == snapshot(old(self)@.cells),
            final(self)@.cells.len() == 0,
    {
        let n: usize = self.cells.len();
        let mut prev: Vec<(CellIndex, Vec2)> = Vec::new();
        let mut i: usize = 0;
        while i < n
            invariant
                0 <= i <= n,
                n == self.cells@.len(),
                self == old(self),
                prev@.len() == i,
                forall|j: int|
                    0 <= j < i ==> #[trigger] prev@[j] == (
                        self.cells@[j].0,
                        self.cells@[j].1.velocity,
                    ),
            decreases n - i,
        {
            let e = self.cells[i];
            prev.push((e.0, e.1.velocity));
            i = i + 1;
        }
        self.previous_velocities = prev;
        self.cells = Vec::new();
        proof {
            assert(prevs_model(self.previous_velocities@) =~= snapshot(cells_model(old(self).cells@)));
            assert(cells_model(self.cells@) =~= Seq::<CellM>::empty());
        }
    }

    /// Adds one scatter contribution to the cell at `key`, inserting a
    /// fresh cell at the end if the key is new.
    fn upsert(&mut self, key: CellIndex, dm: i64, dvx: i64, dvy: i64, Ghost(bound): Ghost<int>)
        requires
            0 <= bound <= 2_000_000_000_000_000_000,
            0 <= dm <= 3_000_000_000,
            -3_000_000_000 <= dvx <= 3_000_000_000,
            -3_000_000_000 <= dvy <= 3_000_000_000,
            forall|j: int|
                0 <= j < old(self).cells@.len() ==> -bound <= (
                #[trigger] old(self).cells@[j]).1.velocity.x <= bound && -bound
                    <= old(self).cells@[j].1.velocity.y <= bound && 0 <= old(
                    self,
                ).cells@[j].1.mass <= bound,
        ensures
            cells_model(final(self).cells@) == scatter_cell(
                cells_model(old(self).cells@),
                key.x as int,
                key.y as int,
                dm as int,
                v2i(dvx as int, dvy as int),
            ),
            forall|j: int|
                0 <= j < final(self).cells@.len() ==> -(bound + 3_000_000_000) <= (
                #[trigger] final(self).cells@[j]).1.velocity.x <= bound + 3_000_000_000 && -(bound
                    + 3_000_000_000) <= final(self).cells@[j].1.velocity.y <= bound
                    + 3_000_000_000 && 0 <= final(self).cells@[j].1.mass <= bound + 3_000_000_000,
            final(self).cell_size == old(self).cell_size,
            final(self).previous_velocities == old(self).previous_velocities,
    {
        let ghost s0 = cells_model(self.cells@);
        let ghost keys = cell_keys(s0);
        proof {
            lemma_find_key(keys, key.x as int, key.y as int);
            assert(forall|j: int| 0 <= j < keys.len() ==> #[trigger] keys[j] == (
                s0[j].kx,
                s0[j].ky,
            ));
        }
        let n: usize = self.cells.len();
        let mut i: usize = 0;
        while i < n
            invariant
                0 <= i <= n,
                n == self.cells@.len(),
                self == old(self),
                s0 == cells_model(self.cells@),
                keys == cell_keys(s0),
                0 <= bound <= 2_000_000_000_000_000_000,
                0 <= dm <= 3_000_000_000,
                -3_000_000_000 <= dvx <= 3_000_000_000,
                -3_000_000_000 <= dvy <= 3_000_000_000,
                forall|j: int|
                    0 <= j < self.cells@.len() ==> -bound <= (
                    #[trigger] self.cells@[j]).1.velocity.x <= bound && -bound
                        <= self.cells@[j].1.velocity.y <= bound && 0 <= self.cells@[j].1.mass
                        <= bound,
                forall|j: int| 0 <= j < keys.len() ==> #[trigger] keys[j] == (s0[j].kx, s0[j].ky),
                forall|j: int|
                    0 <= j < i ==> #[trigger] keys[j] != (key.x as int, key.y as int),
            decreases n - i,
        {
            let e = self.cells[i];
            if e.0.x == key.x && e.0.y == key.y {
                proof {
                    lemma_find_key(keys, key.x as int, key.y as int);
                    assert(keys[i as int] == (key.x as int, key.y as int));
                    assert(find_key(keys, key.x as int, key.y as int) == i);
                }
                let nv = Vec2::new(e.1.velocity.x + dvx, e.1.velocity.y + dvy);
                self.cells[i] = (e.0, GridCell { velocity: nv, mass: e.1.mass + dm });
                proof {
                    assert(cells_model(self.cells@) =~= scatter_cell(
                        s0,
                        key.x as int,
                        key.y as int,
                        dm as int,
                        v2i(dvx as int, dvy as int),
                    ));
                }
                return ;
            }
            i = i + 1;
        }
        proof {
            assert(find_key(keys, key.x as int, key.y as int) < 0) by {
                if find_key(keys, key.x as int, key.y as int) >= 0 {
                    assert(keys[find_key(keys, key.x as int, key.y as int)] == (
                        key.x as int,
                        key.y as int,
                    ));
                }
            }
        }
        self.cells.push((key, GridCell { velocity: Vec2::new(dvx, dvy), mass: dm }));
        proof {
            assert(cells_model(self.cells@) =~= scatter_cell(
                s0,
                key.x as int,
                key.y as int,
                dm as int,
                v2i(dvx as int, dvy as int),
            ));
        }
    }

    /// Last tick's velocity for the cell at `(kx, ky)`, or zero if that
    /// cell held nothing.
    fn prev_velocity(&self, kx: i64, ky: i64) -> (r: Vec2)
        ensures
            r@ == prev_vel_or_zero(self@.prev, kx as int, ky as int),
    {
        let ghost s0 = prevs_model(self.previous_velocities@);
        let ghost keys = prev_keys(s0);
        let n: usize = self.previous_velocities.len();
        let mut i: usize = 0;
        while i < n
            invariant
                0 <= i <= n,
                n == self.previous_velocities@.len(),
                s0 == prevs_model(self.previous_velocities@),
                keys == prev_keys(s0),
                forall|j: int| 0 <= j < keys.len() ==> #[trigger] keys[j] == (s0[j].kx, s0[j].ky),
                forall|j: int| 0 <= j < i ==> #[trigger] keys[j] != (kx as int, ky as int),
            decreases n - i,
        {
            let e = self.previous_velocities[i];
            if e.0.x == kx && e.0.y == ky {
                proof {
                    lemma_find_key(keys, kx as int, ky as int);
                    assert(keys[i as int] == (kx as int, ky as int));
                    assert(find_key(keys, kx as int, ky as int) == i);
                }
                return e.1;
            }
            i = i + 1;
        }
        proof {
            lemma_find_key(keys, kx as int, ky as int);
            assert(find_key(keys, kx as int, ky as int) < 0) by {
                if find_key(keys, kx as int, ky as int) >= 0 {
                    assert(keys[find_key(keys, kx as int, ky as int)] == (kx as int, ky as int));
                }
            }
        }
        Vec2::new(0, 0)
    }

    /// The index of the cell whose centre is nearest to `position`.
    pub fn world_to_cell(&self, position: Vec2) -> (r: CellIndex)
        requires
            1 <= self@.cell_size <= POS_LIMIT,
            abs_int(position@.x) <= 2 * POS_LIMIT,
            abs_int(position@.y) <= 2 * POS_LIMIT,
        ensures
            r.x == cell_coord(position@.x, self@.cell_size),
            r.y == cell_coord(position@.y, self@.cell_size),
            abs_int(r.x as int) <= 5 * POS_LIMIT,
            abs_int(r.y as int) <= 5 * POS_LIMIT,
    {
        proof {
            lemma_cell_coord_range(position@.x, self@.cell_size);
            lemma_cell_coord_range(position@.y, self@.cell_size);
        }
        let s = self.cell_size;
        CellIndex {
            x: div_floor(2 * position.x + s, 2 * s),
            y: div_floor(2 * position.y + s, 2 * s),
        }
    }
}

/// Rebuilds the grid from the particles: snapshot and clear, scatter
/// every particle's momentum over its 3 x 3 neighbourhood, then blend
/// each populated cell with last tick's field and inject gravity —
/// exactly as `scatter_seq` and `blend_all` describe.
pub fn update_grid(grid: &mut Grid, gravity: &Gravity, particles: &Vec<Particle>)
    requires
        grid_wf(old(grid)@),
        gravity.wf(),
        particles@.len() <= MAX_PARTICLES,
        forall|i: int| 0 <= i < particles@.len() ==> pm_wf(#[trigger] particles@[i]@),
    ensures
        final(grid)@.cell_size == old(grid)@.cell_size,
        final(grid)@.prev == snapshot(old(grid)@.cells),
        final(grid)@.cells == blend_all(
            scatter_seq(
                Seq::empty(),
                models(particles@),
                old(grid)@.cell_size,
                particles@.len() as int,
            ),
            snapshot(old(grid)@.cells),
            gravity.0@,
        ),
        grid_wf(final(grid)@),
{
    let ghost cs = old(grid)@.cell_size;
    let ghost prevm = snapshot(old(grid)@.cells);
    grid.clear();
    proof {
        assert(cells_model(grid.cells@) =~= Seq::<CellM>::empty());
        assert(forall|j: int|
            0 <= j < prevm.len() ==> abs_int(#[trigger] prevm[j].vel.x) <= CELL_LIMIT && abs_int(
                prevm[j].vel.y,
            ) <= CELL_LIMIT);
    }
    let npart: usize = particles.len();
    let mut pi: usize = 0;
    while pi < npart
        invariant
            0 <= pi <= npart,
            npart == particles@.len() <= MAX_PARTICLES,
            1 <= grid.cell_size <= POS_LIMIT,
            cs == grid.cell_size as int,
            prevs_model(grid.previous_velocities@) == prevm,
            gravity.wf(),
            forall|i: int| 0 <= i < particles@.len() ==> pm_wf(#[trigger] particles@[i]@),
            cells_model(grid.cells@) == scatter_seq(
                Seq::empty(),
                models(particles@),
                cs,
                pi as int,
            ),
            forall|j: int|
                0 <= j < grid.cells@.len() ==> -27_000_000_000 * (pi as int) <= (
                #[trigger] grid.cells@[j]).1.velocity.x <= 27_000_000_000 * (pi as int)
                    && -27_000_000_000 * (pi as int) <= grid.cells@[j].1.velocity.y
                    <= 27_000_000_000 * (pi as int) && 0 <= grid.cells@[j].1.mass <= 27_000_000_000
                    * (pi as int),
        decreases npart - pi,
    {
        let p = particles[pi];
        proof {
            assert(pm_wf(p@));
            lemma_cell_offset_range(p@.pos.x, cs);
            lemma_cell_offset_range(p@.pos.y, cs);
            assert(abs_int(p@.pos.x * SCALE) <= 1_000_000_000_000 && abs_int(
                p@.pos.y * SCALE,
            ) <= 1_000_000_000_000) by (nonlinear_arith)
                requires
                    abs_int(p@.pos.x) <= 1_000_000_000 && abs_int(p@.pos.y) <= 1_000_000_000,
                    abs_int(p@.pos.x) == if p@.pos.x < 0 { -p@.pos.x } else { p@.pos.x },
                    abs_int(p@.pos.y) == if p@.pos.y < 0 { -p@.pos.y } else { p@.pos.y },
                    abs_int(p@.pos.x * SCALE) == if p@.pos.x * SCALE < 0 {
                        -(p@.pos.x * SCALE)
                    } else {
                        p@.pos.x * SCALE
                    },
                    abs_int(p@.pos.y * SCALE) == if p@.pos.y * SCALE < 0 {
                        -(p@.pos.y * SCALE)
                    } else {
                        p@.pos.y * SCALE
                    },
            ;
        }
        let ci = grid.world_to_cell(p.position);
        let fx: i64 = div_trunc(p.position.x * SCALE, grid.cell_size) - ci.x * SCALE;
        let fy: i64 = div_trunc(p.position.y * SCALE, grid.cell_size) - ci.y * SCALE;
        proof {
            assert(fx == cell_offset(p@.pos.x, cs) && fy == cell_offset(p@.pos.y, cs));
            lemma_weight_bounds(fx as int);
            lemma_weight_bounds(fy as int);
            lemma_fx_mul_abs(HALF_UNIT as int, HALF_UNIT - fx, 500, 1001);
            lemma_fx_mul_abs(fx_mul(HALF_UNIT as int, HALF_UNIT - fx), HALF_UNIT - fx, 500, 1001);
            lemma_fx_mul_abs(HALF_UNIT as int, HALF_UNIT + fx, 500, 1001);
            lemma_fx_mul_abs(fx_mul(HALF_UNIT as int, HALF_UNIT + fx), HALF_UNIT + fx, 500, 1001);
            lemma_fx_mul_abs(fx as int, fx as int, 501, 501);
            lemma_fx_mul_abs(HALF_UNIT as int, HALF_UNIT - fy, 500, 1001);
            lemma_fx_mul_abs(fx_mul(HALF_UNIT as int, HALF_UNIT - fy), HALF_UNIT - fy, 500, 1001);
            lemma_fx_mul_abs(HALF_UNIT as int, HALF_UNIT + fy, 500, 1001);
            lemma_fx_mul_abs(fx_mul(HALF_UNIT as int, HALF_UNIT + fy), HALF_UNIT + fy, 500, 1001);
            lemma_fx_mul_abs(fy as int, fy as int, 501, 501);
        }
        let wx0: i64 = mul_fixed(mul_fixed(HALF_UNIT, HALF_UNIT - fx), HALF_UNIT - fx);
        let wx1: i64 = THREE_QUARTER_UNIT - mul_fixed(fx, fx);
        let wx2: i64 = mul_fixed(mul_fixed(HALF_UNIT, HALF_UNIT + fx), HALF_UNIT + fx);
        let wy0: i64 = mul_fixed(mul_fixed(HALF_UNIT, HALF_UNIT - fy), HALF_UNIT - fy);
        let wy1: i64 = THREE_QUARTER_UNIT - mul_fixed(fy, fy);
        let wy2: i64 = mul_fixed(mul_fixed(HALF_UNIT, HALF_UNIT + fy), HALF_UNIT + fy);
        proof {
        }
        let lenv: i64 = p.velocity.length();
        let ghost sp_start = cells_model(grid.cells@);
        let mut gx: usize = 0;
        while gx < 3
            invariant
                0 <= gx <= 3,
                0 <= pi < npart,
                npart == particles@.len() <= MAX_PARTICLES,
                1 <= grid.cell_size <= POS_LIMIT,
                cs == grid.cell_size as int,
                prevs_model(grid.previous_velocities@) == prevm,
                gravity.wf(),
                p == particles@[pi as int],
                pm_wf(p@),
                ci.x == cell_coord(p@.pos.x, cs) && ci.y == cell_coord(p@.pos.y, cs),
                abs_int(ci.x as int) <= 5_000_000_000 && abs_int(ci.y as int) <= 5_000_000_000,
                fx == cell_offset(p@.pos.x, cs) && fy == cell_offset(p@.pos.y, cs),
                wx0 == w1d(fx as int, 0) && wx1 == w1d(fx as int, 1) && wx2 == w1d(fx as int, 2),
                wy0 == w1d(fy as int, 0) && wy1 == w1d(fy as int, 1) && wy2 == w1d(fy as int, 2),
                0 <= wx0 <= 750 && 0 <= wx1 <= 750 && 0 <= wx2 <= 750,
                0 <= wy0 <= 750 && 0 <= wy1 <= 750 && 0 <= wy2 <= 750,
                lenv == v2i_len(p@.vel),
                0 <= lenv <= 0xffff_ffff,
                cells_model(grid.cells@) == scatter_rows(sp_start, p@, cs, gx as int),
                forall|j: int|
                    0 <= j < grid.cells@.len() ==> -(27_000_000_000 * (pi as int) + 9_000_000_000
                        * (gx as int)) <= (#[trigger] grid.cells@[j]).1.velocity.x
                        <= 27_000_000_000 * (pi as int) + 9_000_000_000 * (gx as int) && -(
                    27_000_000_000 * (pi as int) + 9_000_000_000 * (gx as int))
                        <= grid.cells@[j].1.velocity.y <= 27_000_000_000 * (pi as int)
                        + 9_000_000_000 * (gx as int) && 0 <= grid.cells@[j].1.mass
                        <= 27_000_000_000 * (pi as int) + 9_000_000_000 * (gx as int),
            decreases 3 - gx,
        {
            let wx: i64 = if gx == 0 {
                wx0
            } else if gx == 1 {
                wx1
            } else {
                wx2
            };
            let mut gy: usize = 0;
            while gy < 3
                invariant
                    0 <= gy <= 3,
                    0 <= gx < 3,
                    0 <= pi < npart,
                    npart == particles@.len() <= MAX_PARTICLES,
                    1 <= grid.cell_size <= POS_LIMIT,
                    cs == grid.cell_size as int,
                    prevs_model(grid.previous_velocities@) == prevm,
                    gravity.wf(),
                    p == particles@[pi as int],
                    pm_wf(p@),
                    ci.x == cell_coord(p@.pos.x, cs) && ci.y == cell_coord(p@.pos.y, cs),
                    abs_int(ci.x as int) <= 5_000_000_000 && abs_int(ci.y as int)
                        <= 5_000_000_000,
                    fx == cell_offset(p@.pos.x, cs) && fy == cell_offset(p@.pos.y, cs),
                    wx0 == w1d(fx as int, 0) && wx1 == w1d(fx as int, 1) && wx2 == w1d(
                        fx as int,
                        2,
                    ),
                    wy0 == w1d(fy as int, 0) && wy1 == w1d(fy as int, 1) && wy2 == w1d(
                        fy as int,
                        2,
                    ),
                    0 <= wx0 <= 750 && 0 <= wx1 <= 750 && 0 <= wx2 <= 750,
                    0 <= wy0 <= 750 && 0 <= wy1 <= 750 && 0 <= wy2 <= 750,
                    wx == w1d(fx as int, gx as int) && 0 <= wx <= 750,
                    lenv == v2i_len(p@.vel),
                    0 <= lenv <= 0xffff_ffff,
                    cells_model(grid.cells@) == scatter_row(
                        scatter_rows(sp_start, p@, cs, gx as int),
                        p@,
                        cs,
                        gx as int,
                        gy as int,
                    ),
                    forall|j: int|
                        0 <= j < grid.cells@.len() ==> -(27_000_000_000 * (pi as int)
                            + 9_000_000_000 * (gx as int) + 3_000_000_000 * (gy as int)) <= (
                        #[trigger] grid.cells@[j]).1.velocity.x <= 27_000_000_000 * (pi as int)
                            + 9_000_000_000 * (gx as int) + 3_000_000_000 * (gy as int) && -(
                        27_000_000_000 * (pi as int) + 9_000_000_000 * (gx as int)
                            + 3_000_000_000 * (gy as int)) <= grid.cells@[j].1.velocity.y
                            <= 27_000_000_000 * (pi as int) + 9_000_000_000 * (gx as int)
                            + 3_000_000_000 * (gy as int) && 0 <= grid.cells@[j].1.mass
                            <= 27_000_000_000 * (pi as int) + 9_000_000_000 * (gx as int)
                            + 3_000_000_000 * (gy as int),
                decreases 3 - gy,
            {
                let wy: i64 = if gy == 0 {
                    wy0
                } else if gy == 1 {
                    wy1
                } else {
                    wy2
                };
                proof {
                    assert(0 <= (wx as int) * (wy as int) <= 562_500) by (nonlinear_arith)
                        requires
                            0 <= wx as int <= 750,
                            0 <= wy as int <= 750,
                    ;
                }
                let w: i64 = wx * wy;
                proof {
                    assert(0 <= (w as int) * (lenv as int) <= 2_415_919_103_437_500)
                        by (nonlinear_arith)
                        requires
                            0 <= w as int <= 562_500,
                            0 <= lenv as int <= 0xffff_ffff,
                    ;
                    lemma_tdiv_abs((w as int) * (lenv as int), SCALE_SQ as int);
                    vstd::arithmetic::div_mod::lemma_div_is_ordered(
                        (w as int) * (lenv as int),
                        2_415_919_103_437_500,
                        SCALE_SQ as int,
                    );
                    lemma_tdiv_bounds((w as int) * (lenv as int), SCALE_SQ as int);
                    lemma_fx_mul_abs(w as int, p@.vel.x, 562_500, 2_000_000_000);
                    lemma_fx_mul_abs(w as int, p@.vel.y, 562_500, 2_000_000_000);
                    lemma_tdiv_abs((w as int) * p@.vel.x, SCALE_SQ as int);
                    lemma_tdiv_abs((w as int) * p@.vel.y, SCALE_SQ as int);
                    vstd::arithmetic::div_mod::lemma_div_is_ordered(
                        abs_int((w as int) * p@.vel.x),
                        1_125_000_000_000_000,
                        SCALE_SQ as int,
                    );
                    vstd::arithmetic::div_mod::lemma_div_is_ordered(
                        abs_int((w as int) * p@.vel.y),
                        1_125_000_000_000_000,
                        SCALE_SQ as int,
                    );
                }
                let dm: i64 = div_trunc(w * lenv, SCALE_SQ);
                let dvx: i64 = div_trunc(w * p.velocity.x, SCALE_SQ);
                let dvy: i64 = div_trunc(w * p.velocity.y, SCALE_SQ);
                let key = CellIndex { x: ci.x + gx as i64 - 1, y: ci.y + gy as i64 - 1 };
                grid.upsert(
                    key,
                    dm,
                    dvx,
                    dvy,
                    Ghost(
                        27_000_000_000 * (pi as int) + 9_000_000_000 * (gx as int)
                            + 3_000_000_000 * (gy as int),
                    ),
                );
                gy = gy + 1;
            }
            gx = gx + 1;
        }
        pi = pi + 1;
    }
    let ghost scat = cells_model(grid.cells@);
    let mcells: usize = grid.cells.len();
    let mut ix: usize = 0;
    while ix < mcells
        invariant
            0 <= ix <= mcells,
            mcells == grid.cells@.len(),
            1 <= grid.cell_size <= POS_LIMIT,
            cs == grid.cell_size as int,
            prevs_model(grid.previous_velocities@) == prevm,
            gravity.wf(),
            scat.len() == mcells,
            forall|j: int|
                0 <= j < prevm.len() ==> abs_int(#[trigger] prevm[j].vel.x) <= CELL_LIMIT
                    && abs_int(prevm[j].vel.y) <= CELL_LIMIT,
            forall|j: int|
                0 <= j < scat.len() ==> abs_int(#[trigger] scat[j].vel.x)
                    <= 2_700_000_000_000_000 && abs_int(scat[j].vel.y) <= 2_700_000_000_000_000
                    && 0 <= scat[j].mass <= 2_700_000_000_000_000,
            forall|j: int|
                ix <= j < mcells ==> #[trigger] cells_model(grid.cells@)[j] == scat[j],
            forall|j: int|
                0 <= j < ix ==> #[trigger] cells_model(grid.cells@)[j] == blend_cell(
                    scat[j],
                    prevm,
                    gravity.0@,
                ) && cellm_wf(cells_model(grid.cells@)[j]),
        decreases mcells - ix,
    {
        let e = grid.cells[ix];
        if e.1.mass > 0 {
            let pv = grid.prev_velocity(e.0.x, e.0.y);
            proof {
                lemma_find_key(prev_keys(prevm), e.0.x as int, e.0.y as int);
                assert(cells_model(grid.cells@)[ix as int] == scat[ix as int]);
                assert(abs_int(scat[ix as int].vel.x) <= 2_700_000_000_000_000 && abs_int(
                    scat[ix as int].vel.y,
                ) <= 2_700_000_000_000_000);
                assert(abs_int(e.1.velocity.x as int) <= 2_700_000_000_000_000 && abs_int(
                    e.1.velocity.y as int,
                ) <= 2_700_000_000_000_000);
                let fi = find_key(prev_keys(prevm), e.0.x as int, e.0.y as int);
                if fi >= 0 {
                    assert(abs_int(prevm[fi].vel.x) <= CELL_LIMIT && abs_int(prevm[fi].vel.y)
                        <= CELL_LIMIT);
                }
                assert(abs_int(pv@.x) <= CELL_LIMIT && abs_int(pv@.y) <= CELL_LIMIT);
                assert(abs_int(e.1.velocity.x + pv.x) <= 6_700_000_000_000_000 && abs_int(
                    e.1.velocity.y + pv.y,
                ) <= 6_700_000_000_000_000);
                lemma_tdiv_bounds(e.1.velocity.x + pv.x, 2);
                lemma_tdiv_bounds(e.1.velocity.y + pv.y, 2);
                lemma_tdiv_abs(e.1.velocity.x + pv.x, 2);
                lemma_tdiv_abs(e.1.velocity.y + pv.y, 2);
                vstd::arithmetic::div_mod::lemma_div_is_ordered(
                    abs_int(e.1.velocity.x + pv.x),
                    6_700_000_000_000_000,
                    2,
                );
                vstd::arithmetic::div_mod::lemma_div_is_ordered(
                    abs_int(e.1.velocity.y + pv.y),
                    6_700_000_000_000_000,
                    2,
                );
            }
            let nvx: i64 = div_trunc(e.1.velocity.x + pv.x, 2) + gravity.0.x;
            let nvy: i64 = div_trunc(e.1.velocity.y + pv.y, 2) + gravity.0.y;
            let ghost pre = grid.cells@;
            grid.cells[ix] = (e.0, GridCell { velocity: Vec2::new(nvx, nvy), mass: e.1.mass });
            proof {
                assert forall|j: int| 0 <= j < mcells && j != ix implies #[trigger] cells_model(
                    grid.cells@,
                )[j] == cells_model(pre)[j] by {
                    assert(grid.cells@[j] == pre[j]);
                }
                assert(cells_model(grid.cells@)[ix as int] == blend_cell(
                    scat[ix as int],
                    prevm,
                    gravity.0@,
                ));
                assert(cellm_wf(cells_model(grid.cells@)[ix as int]));
            }
        } else {
            proof {
                assert(cells_model(grid.cells@)[ix as int] == scat[ix as int]);
                assert(cells_model(grid.cells@)[ix as int] == blend_cell(
                    scat[ix as int],
                    prevm,
                    gravity.0@,
                ));
            }
        }
        ix = ix + 1;
    }
    proof {
        assert(cells_model(grid.cells@) =~= blend_all(scat, prevm, gravity.0@));
    }
}

} // verus!
