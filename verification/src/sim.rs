//! One whole simulation tick: integrate, rebuild the grid, resolve
//! collisions — strictly in that order, each stage exactly as its own
//! model describes.

use vstd::prelude::*;
use crate::collision::{resolve_collisions, resolve_pass};
use crate::grid::{blend_all, grid_wf, scatter_seq, snapshot, update_grid, Grid, MAX_PARTICLES};
use crate::particle::{
    integrate_model, models, pm_wf, update_particles, Particle, PModel,
};
use crate::vec2::V2i;
use crate::{BounceDampening, Gravity, WorldBounds, DT_LIMIT};

verus! {

/// Every particle advanced by one integrator step.
pub open spec fn integrate_all(
    ps: Seq<PModel>,
    dt: int,
    g: V2i,
    damp: int,
    w: int,
    h: int,
) -> Seq<PModel> {
    ps.map_values(|p: PModel| integrate_model(p, dt, g, damp, w, h))
}

/// Advances the whole simulation by `dt`: the integrator moves and
/// reflects every particle, the grid transfer rebuilds the velocity field
/// from the moved particles, and the collision resolver separates
/// overlapping pairs — the composition of the three stage models.
pub fn tick(
    particles: &mut Vec<Particle>,
    grid: &mut Grid,
    dt: i64,
    gravity: &Gravity,
    damp: &BounceDampening,
    bounds: &WorldBounds,
)
    requires
        0 <= dt <= DT_LIMIT,
        gravity.wf(),
        damp.wf(),
        bounds.wf(),
        grid_wf(old(grid)@),
        old(particles)@.len() <= MAX_PARTICLES,
        forall|j: int|
            0 <= j < old(particles)@.len() ==> pm_wf(#[trigger] old(particles)@[j]@)
                && old(particles)@[j]@.half.x <= bounds.half_width
                && old(particles)@[j]@.half.y <= bounds.half_height,
    ensures
        final(particles)@.len() == old(particles)@.len(),
        models(final(particles)@) == resolve_pass(
            integrate_all(
                models(old(particles)@),
                dt as int,
                gravity.0@,
                damp.0 as int,
                bounds.half_width as int,
                bounds.half_height as int,
            ),
        ),
        final(grid)@.cell_size == old(grid)@.cell_size,
        final(grid)@.prev == snapshot(old(grid)@.cells),
        final(grid)@.cells == blend_all(
            scatter_seq(
                Seq::empty(),
                integrate_all(
                    models(old(particles)@),
                    dt as int,
                    gravity.0@,
                    damp.0 as int,
                    bounds.half_width as int,
                    bounds.half_height as int,
                ),
                old(grid)@.cell_size,
                old(particles)@.len() as int,
            ),
            snapshot(old(grid)@.cells),
            gravity.0@,
        ),
        grid_wf(final(grid)@),
{
    let ghost moved = integrate_all(
        models(old(particles)@),
        dt as int,
        gravity.0@,
        damp.0 as int,
        bounds.half_width as int,
        bounds.half_height as int,
    );
    update_particles(particles, dt, gravity, damp, bounds);
    proof {
        assert(models(particles@) =~= moved);
    }
    update_grid(grid, gravity, particles);
    resolve_collisions(particles);
}

} // verus!
