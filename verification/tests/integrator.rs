use pbmpm::particle::{update_particles, Particle};
use pbmpm::vec2::Vec2;
use pbmpm::{BounceDampening, Gravity, WorldBounds};

fn one(px: i64, py: i64, vx: i64, vy: i64) -> Vec<Particle> {
    vec![Particle::new(
        Vec2::new(px, py),
        Vec2::new(vx, vy),
        Vec2::new(2500, 2500),
    )]
}

#[test]
fn free_fall_one_second() {
    let mut ps = one(0, 0, 0, 0);
    let g = Gravity::standard();
    let d = BounceDampening::standard();
    let b = WorldBounds::standard();
    update_particles(&mut ps, 1000, &g, &d, &b);
    // v += g * dt, then p += v * dt (symplectic order).
    assert_eq!(ps[0].velocity.x, 0);
    assert_eq!(ps[0].velocity.y, -9800);
    assert_eq!(ps[0].position.x, 0);
    assert_eq!(ps[0].position.y, -9800);
}

#[test]
fn bounce_reflects_and_dampens() {
    // Moving 10 units/s toward the +x wall from 3 units away of it.
    let mut ps = one(397_000, 0, 10_000, 0);
    let g = Gravity(Vec2::new(0, 0));
    let d = BounceDampening::standard();
    let b = WorldBounds::standard();
    update_particles(&mut ps, 1000, &g, &d, &b);
    // Candidate 407000 exceeds the 397500 bound: clamped, velocity
    // reversed and scaled by 0.8.
    assert_eq!(ps[0].position.x, 397_500);
    assert_eq!(ps[0].velocity.x, -8_000);
    assert!(ps[0].velocity.x * 10_000 < 0, "sign must flip");
    assert_eq!(ps[0].position.y, 0);
    assert_eq!(ps[0].velocity.y, 0);
}

#[test]
fn vertical_rest_deadband() {
    // A slow fall onto the floor: the reflected speed 0.096 is below the
    // 0.1 deadband, so the particle comes exactly to rest.
    let mut ps = one(0, -297_490, 0, -120);
    let g = Gravity(Vec2::new(0, 0));
    let d = BounceDampening::standard();
    let b = WorldBounds::standard();
    update_particles(&mut ps, 1000, &g, &d, &b);
    assert_eq!(ps[0].position.y, -297_500);
    assert_eq!(ps[0].velocity.y, 0);
}

#[test]
fn speed_clamp_caps_at_twice_largest_extent() {
    // 900 units/s against a clamp limit of 2 * 400 = 800.
    let mut ps = one(0, 0, 900_000, 0);
    let g = Gravity(Vec2::new(0, 0));
    let d = BounceDampening::standard();
    let b = WorldBounds::standard();
    update_particles(&mut ps, 0, &g, &d, &b);
    assert_eq!(ps[0].velocity.x, 800_000);
    assert_eq!(ps[0].velocity.y, 0);
    let n = ps[0].velocity.x as i128 * ps[0].velocity.x as i128
        + ps[0].velocity.y as i128 * ps[0].velocity.y as i128;
    assert!(n <= 800_000i128 * 800_000i128);
}

#[test]
fn elastic_bounce_keeps_magnitude() {
    let mut ps = one(397_000, 0, 10_000, 0);
    let g = Gravity(Vec2::new(0, 0));
    let d = BounceDampening(1000);
    let b = WorldBounds::standard();
    update_particles(&mut ps, 1000, &g, &d, &b);
    assert_eq!(ps[0].velocity.x, -10_000);
}

#[test]
fn dampened_magnitude_rounds_toward_zero() {
    // 10.001 * 0.8 = 8.0008, which truncates to 8.000.
    let mut ps = one(397_000, 0, 10_001, 0);
    let g = Gravity(Vec2::new(0, 0));
    let d = BounceDampening::standard();
    let b = WorldBounds::standard();
    update_particles(&mut ps, 1000, &g, &d, &b);
    assert_eq!(ps[0].velocity.x, -8_000);
    assert!(ps[0].velocity.x.abs() <= 10_001);
}

#[test]
fn both_axes_bounce_in_one_tick() {
    let mut ps = one(397_000, 297_000, 10_000, 10_000);
    let g = Gravity(Vec2::new(0, 0));
    let d = BounceDampening::standard();
    let b = WorldBounds::standard();
    update_particles(&mut ps, 1000, &g, &d, &b);
    assert_eq!(ps[0].position.x, 397_500);
    assert_eq!(ps[0].position.y, 297_500);
    assert_eq!(ps[0].velocity.x, -8_000);
    assert_eq!(ps[0].velocity.y, -8_000);
}
