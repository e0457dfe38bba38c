use pbmpm::collision::{resolve_collisions, resolve_pair};
use pbmpm::particle::Particle;
use pbmpm::vec2::Vec2;

fn disk(px: i64, py: i64, vx: i64, vy: i64) -> Particle {
    Particle::new(Vec2::new(px, py), Vec2::new(vx, vy), Vec2::new(2500, 2500))
}

#[test]
fn overlapping_pair_is_separated_symmetrically() {
    // Radii 2.5 each, centres 3.0 apart on the x axis, at rest.
    let (a, b) = resolve_pair(disk(0, 0, 0, 0), disk(3000, 0, 0, 0));
    // Centres end exactly 5.0 apart, symmetric about the old midpoint 1.5.
    assert_eq!(a.position, Vec2::new(-1000, 0));
    assert_eq!(b.position, Vec2::new(4000, 0));
    assert_eq!(b.position.x - a.position.x, 5000);
    assert_eq!(a.position.x + b.position.x, 3000);
    // No impulse: the pair was not approaching.
    assert_eq!(a.velocity, Vec2::new(0, 0));
    assert_eq!(b.velocity, Vec2::new(0, 0));
}

#[test]
fn equal_and_opposite_impulse() {
    // Overlapping and approaching at +-5 units/s.
    let (a, b) = resolve_pair(disk(0, 0, 5000, 0), disk(4000, 0, -5000, 0));
    // Impulse magnitude (1 + 0.8) * 10 / 2 = 9 along the normal.
    assert_eq!(a.velocity, Vec2::new(-4000, 0));
    assert_eq!(b.velocity, Vec2::new(4000, 0));
    // Momentum conservation for equal masses: vA' == -vB'.
    assert_eq!(a.velocity.x, -b.velocity.x);
    assert_eq!(a.velocity.y, -b.velocity.y);
    // Positional correction of half the 1.0 penetration each.
    assert_eq!(a.position, Vec2::new(-500, 0));
    assert_eq!(b.position, Vec2::new(4500, 0));
}

#[test]
fn separating_pair_gets_no_impulse() {
    // Overlapping but already moving apart: positions are corrected,
    // velocities are left alone.
    let (a, b) = resolve_pair(disk(0, 0, -5000, 0), disk(4000, 0, 5000, 0));
    assert_eq!(a.velocity, Vec2::new(-5000, 0));
    assert_eq!(b.velocity, Vec2::new(5000, 0));
    assert_eq!(a.position, Vec2::new(-500, 0));
    assert_eq!(b.position, Vec2::new(4500, 0));
}

#[test]
fn non_overlapping_pair_is_untouched() {
    let (a, b) = resolve_pair(disk(0, 0, 1000, 0), disk(6000, 0, -1000, 0));
    assert_eq!(a.position, Vec2::new(0, 0));
    assert_eq!(b.position, Vec2::new(6000, 0));
    assert_eq!(a.velocity, Vec2::new(1000, 0));
    assert_eq!(b.velocity, Vec2::new(-1000, 0));
    // Exactly touching counts as no collision as well.
    let (c, d) = resolve_pair(disk(0, 0, 0, 0), disk(5000, 0, 0, 0));
    assert_eq!(c.position.x, 0);
    assert_eq!(d.position.x, 5000);
}

#[test]
fn coincident_centres_have_no_normal() {
    // Degenerate case: identical centres give a zero normal, so there is
    // no direction to correct or push along.
    let (a, b) = resolve_pair(disk(0, 0, 0, 0), disk(0, 0, 0, 0));
    assert_eq!(a.position, Vec2::new(0, 0));
    assert_eq!(b.position, Vec2::new(0, 0));
    assert_eq!(a.velocity, Vec2::new(0, 0));
    assert_eq!(b.velocity, Vec2::new(0, 0));
}

#[test]
fn pass_visits_each_pair_once() {
    // Three disks; only the outer two overlap. One pass must fix exactly
    // that pair and leave the far one alone.
    let mut ps = vec![
        disk(0, 0, 0, 0),
        disk(3000, 0, 0, 0),
        disk(100_000, 0, 0, 0),
    ];
    resolve_collisions(&mut ps);
    assert_eq!(ps[1].position.x - ps[0].position.x, 5000);
    assert_eq!(ps[2].position, Vec2::new(100_000, 0));
    assert_eq!(ps[2].velocity, Vec2::new(0, 0));
}
