use pbmpm::grid::{update_grid, CellIndex, Grid, GridCell};
use pbmpm::particle::Particle;
use pbmpm::vec2::Vec2;
use pbmpm::{Gravity, DEFAULT_CELL_SIZE};

fn cell_of(g: &Grid, x: i64, y: i64) -> GridCell {
    for (k, c) in g.cells.iter() {
        if k.x == x && k.y == y {
            return *c;
        }
    }
    panic!("no cell at ({}, {})", x, y);
}

#[test]
fn world_to_cell_rounds_to_nearest_centre() {
    let g = Grid::new(DEFAULT_CELL_SIZE);
    assert_eq!(g.world_to_cell(Vec2::new(9_999, -9_999)), CellIndex { x: 0, y: 0 });
    assert_eq!(g.world_to_cell(Vec2::new(10_001, 0)), CellIndex { x: 1, y: 0 });
    assert_eq!(g.world_to_cell(Vec2::new(-10_001, 30_000)), CellIndex { x: -1, y: 2 });
}

#[test]
fn single_particle_at_centre_touches_nine_cells() {
    // One particle exactly on a cell centre (offset 0 on both axes) with
    // speed 5.0 (a 3-4-5 triangle, so the norm is exact).
    let mut g = Grid::new(DEFAULT_CELL_SIZE);
    let ps = vec![Particle::new(
        Vec2::new(0, 0),
        Vec2::new(3000, 4000),
        Vec2::new(2500, 2500),
    )];
    update_grid(&mut g, &Gravity::standard(), &ps);
    // Exactly the centre cell and its eight neighbours.
    assert_eq!(g.cells.len(), 9);
    for (k, c) in g.cells.iter() {
        assert!((-1..=1).contains(&k.x) && (-1..=1).contains(&k.y));
        assert!(c.mass >= 0);
    }
    // Weights at offset 0 are 1/8, 3/4, 1/8 per axis; the centre cell's
    // 2-D weight is (3/4)^2 = 0.5625 of the speed 5.0: mass 2.8125.
    assert_eq!(cell_of(&g, 0, 0).mass, 2812);
    // Corner weight (1/8)^2 = 0.015625: mass 0.078125.
    assert_eq!(cell_of(&g, -1, -1).mass, 78);
    // Edge weight 3/4 * 1/8 = 0.09375: mass 0.46875.
    assert_eq!(cell_of(&g, 0, -1).mass, 468);
    // Centre velocity: the scattered (1.6875, 2.25) halved (no previous
    // field), plus one tick of gravity.
    assert_eq!(cell_of(&g, 0, 0).velocity, Vec2::new(843, 1125 - 9800));
}

#[test]
fn previous_field_is_blended_in() {
    let mut g = Grid::new(DEFAULT_CELL_SIZE);
    let ps = vec![Particle::new(
        Vec2::new(0, 0),
        Vec2::new(3000, 4000),
        Vec2::new(2500, 2500),
    )];
    let grav = Gravity::standard();
    update_grid(&mut g, &grav, &ps);
    update_grid(&mut g, &grav, &ps);
    // Second pass: scattered centre velocity (1687, 2250) is averaged with
    // last tick's (843, -8675), truncating toward zero, then gravity.
    assert_eq!(cell_of(&g, 0, 0).velocity, Vec2::new(1265, -3212 - 9800));
    // The snapshot of the first field is held as the previous velocities.
    assert_eq!(g.previous_velocities.len(), 9);
}

#[test]
fn grid_is_rebuilt_each_tick() {
    let mut g = Grid::new(DEFAULT_CELL_SIZE);
    let far = vec![Particle::new(
        Vec2::new(200_000, 0),
        Vec2::new(1000, 0),
        Vec2::new(2500, 2500),
    )];
    let near = vec![Particle::new(
        Vec2::new(0, 0),
        Vec2::new(1000, 0),
        Vec2::new(2500, 2500),
    )];
    let grav = Gravity(Vec2::new(0, 0));
    update_grid(&mut g, &grav, &far);
    update_grid(&mut g, &grav, &near);
    // No cell of the old footprint (around x = 10) survives.
    for (k, _) in g.cells.iter() {
        assert!((-1..=1).contains(&k.x));
    }
    assert_eq!(g.cells.len(), 9);
}
