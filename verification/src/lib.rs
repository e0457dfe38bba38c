//! A small 2-D particle simulation: per-particle integration with boundary
//! bouncing, a sparse grid velocity field rebuilt from the particles each
//! tick, and pairwise impulse-based collision resolution.
//!
//! All state is kept in fixed-point form: a coordinate, velocity component or
//! scalar weight is an `i64` counting steps of `1 / SCALE` world units, so
//! every tick is a deterministic integer computation with an exact
//! mathematical model.

pub mod fixed;
pub mod vec2;
pub mod particle;
pub mod collision;
pub mod grid;
pub mod sim;

use vstd::prelude::*;
use crate::fixed::{abs_int, SCALE};
use crate::vec2::Vec2;

verus! {

/// Largest magnitude of a position component the simulation handles.
pub const POS_LIMIT: i64 = 1_000_000_000;

/// Largest magnitude of a velocity component the simulation handles.
pub const VEL_LIMIT: i64 = 2_000_000_000;

/// Largest magnitude of a gravity component.
pub const ACC_LIMIT: i64 = 1_000_000;

/// Largest time step: ten seconds.
pub const DT_LIMIT: i64 = 10_000;

/// Largest half-size / collision radius of a particle.
pub const RADIUS_LIMIT: i64 = 100_000_000;

/// The constant acceleration applied to every particle and injected into
/// populated grid cells each tick.
#[derive(Clone, Copy, PartialEq, Eq, Structural, Debug)]
pub struct Gravity(pub Vec2);

impl Gravity {
    pub open spec fn wf(&self) -> bool {
        abs_int(self.0@.x) <= ACC_LIMIT && abs_int(self.0@.y) <= ACC_LIMIT
    }

    /// The stock gravity: (0, -9.8) units per second squared.
    pub fn standard() -> (r: Gravity)
        ensures
            r.0@.x == 0 && r.0@.y == -9800,
            r.wf(),
    {
        Gravity(Vec2 { x: 0, y: -9800 })
    }
}

/// The fraction of a velocity component kept (and negated) by a boundary
/// bounce; a fixed-point scalar in `[0, SCALE]`.
#[derive(Clone, Copy, PartialEq, Eq, Structural, Debug)]
pub struct BounceDampening(pub i64);

impl BounceDampening {
    pub open spec fn wf(&self) -> bool {
        0 <= self.0 <= SCALE
    }

    /// The stock dampening factor: 0.8.
    pub fn standard() -> (r: BounceDampening)
        ensures
            r.0 == 800,
            r.wf(),
    {
        BounceDampening(800)
    }
}

/// Axis-aligned world half-extents; particles live in
/// `[-half_width, half_width] x [-half_height, half_height]`.
#[derive(Clone, Copy, PartialEq, Eq, Structural, Debug)]
pub struct WorldBounds {
    pub half_width: i64,
    pub half_height: i64,
}

impl WorldBounds {
    pub open spec fn wf(&self) -> bool {
        1 <= self.half_width <= POS_LIMIT && 1 <= self.half_height <= POS_LIMIT
    }

    /// The stock world: half-extents 400 x 300 units.
    pub fn standard() -> (r: WorldBounds)
        ensures
            r.half_width == 400_000 && r.half_height == 300_000,
            r.wf(),
    {
        WorldBounds { half_width: 400_000, half_height: 300_000 }
    }
}

/// The stock grid cell size: 20 units.
pub const DEFAULT_CELL_SIZE: i64 = 20_000;

} // verus!
