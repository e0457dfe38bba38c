use pbmpm::grid::Grid;
use pbmpm::particle::Particle;
use pbmpm::sim::tick;
use pbmpm::vec2::Vec2;
use pbmpm::{BounceDampening, Gravity, WorldBounds, DEFAULT_CELL_SIZE};

#[test]
fn one_tick_runs_all_three_stages() {
    let mut ps = vec![Particle::new(
        Vec2::new(0, 0),
        Vec2::new(0, 0),
        Vec2::new(2500, 2500),
    )];
    let mut grid = Grid::new(DEFAULT_CELL_SIZE);
    let g = Gravity::standard();
    let d = BounceDampening::standard();
    let b = WorldBounds::standard();
    tick(&mut ps, &mut grid, 1000, &g, &d, &b);
    // Integrator: one second of free fall.
    assert_eq!(ps[0].position, Vec2::new(0, -9800));
    assert_eq!(ps[0].velocity, Vec2::new(0, -9800));
    // Grid transfer ran on the moved particle: its base cell is still
    // (0, 0) and the whole 3 x 3 footprint is present, including cells
    // whose accumulated weight is zero ("touched but empty").
    assert_eq!(grid.cells.len(), 9);
    let mut zero_mass_seen = false;
    for (k, c) in grid.cells.iter() {
        assert!((-1..=1).contains(&k.x) && (-1..=1).contains(&k.y));
        assert!(c.mass >= 0);
        if c.mass == 0 {
            zero_mass_seen = true;
        }
    }
    assert!(zero_mass_seen);
}

#[test]
fn colliding_pair_through_a_tick() {
    // Two disks made overlapping and approaching; dt = 0 isolates the
    // collision stage from gravity and motion.
    let mut ps = vec![
        Particle::new(Vec2::new(0, 0), Vec2::new(5000, 0), Vec2::new(2500, 2500)),
        Particle::new(Vec2::new(4000, 0), Vec2::new(-5000, 0), Vec2::new(2500, 2500)),
    ];
    let mut grid = Grid::new(DEFAULT_CELL_SIZE);
    let g = Gravity(Vec2::new(0, 0));
    let d = BounceDampening::standard();
    let b = WorldBounds::standard();
    tick(&mut ps, &mut grid, 0, &g, &d, &b);
    assert_eq!(ps[0].velocity.x, -ps[1].velocity.x);
    assert_eq!(ps[1].position.x - ps[0].position.x, 5000);
}
