//! Tests of the pairwise force law and the direct evaluator.

use dagon::gravity::{
    force_between_particles, forces_by_direct_summation, newtonian_gravity_force, ForceError,
};
use dagon::particle::GravityParticle;
use dagon::vector::Vector;

fn v(x: i128, y: i128, z: i128) -> Vector {
    Vector { x, y, z }
}

fn particle(x: i128, y: i128, z: i128, mass: i128) -> GravityParticle {
    GravityParticle { position: v(x, y, z), velocity: v(0, 0, 0), mass }
}

/// Two unit masses one unit apart attract with exactly one force unit.
#[test]
fn unit_pair_force_is_exact() {
    let f = newtonian_gravity_force(1_000_000, 1_000_000, v(0, 0, 0), v(1_000_000, 0, 0));
    assert_eq!(f, v(1_000_000, 0, 0));
}

/// A 3-4-5 configuration: separation 5, force magnitude 1/25, direction
/// (3/5, 4/5, 0), all exact in fixed point.
#[test]
fn off_axis_force_is_exact() {
    let f = newtonian_gravity_force(1_000_000, 1_000_000, v(0, 0, 0), v(3_000_000, 4_000_000, 0));
    assert_eq!(f, v(24_000, 32_000, 0));
}

/// Newton's third law on concrete values: equal and opposite.
#[test]
fn pair_forces_are_opposite() {
    let a = particle(-500_000, 0, 0, 1_000_000);
    let b = particle(500_000, 0, 0, 1_000_000);
    let fab = force_between_particles(a, b);
    let fba = force_between_particles(b, a);
    assert_eq!(fab.x, -fba.x);
    assert_eq!(fab.y, -fba.y);
    assert_eq!(fab.z, -fba.z);
    assert!(fab.x > 0);
}

/// The direct evaluator sums every source but the target itself.
#[test]
fn direct_summation_three_bodies() {
    let particles = vec![
        particle(0, 0, 0, 1_000_000),
        particle(1_000_000, 0, 0, 1_000_000),
        particle(0, 1_000_000, 0, 1_000_000),
    ];
    let f0 = forces_by_direct_summation(0, &particles).unwrap();
    assert_eq!(f0, v(1_000_000, 1_000_000, 0));
    let f1 = forces_by_direct_summation(1, &particles).unwrap();
    // Pull of the origin mass plus the diagonal mass at distance sqrt(2).
    assert!(f1.x < 0 && f1.y > 0);
}

/// A lone particle feels no force: the target itself is excluded by
/// identity even though its own separation from itself is zero.
#[test]
fn self_interaction_is_excluded() {
    let particles = vec![particle(7, 7, 7, 2_000_000)];
    let f = forces_by_direct_summation(0, &particles).unwrap();
    assert_eq!(f, v(0, 0, 0));
}

/// Two distinct particles sharing one position: the other one is not the
/// target, so its zero separation is a rejected degenerate case, never a
/// silently skipped one.
#[test]
fn coincident_pair_is_rejected() {
    let a = particle(5, 5, 5, 1_000_000);
    let b = GravityParticle { position: v(5, 5, 5), velocity: v(1, 2, 3), mass: 2_000_000 };
    let r = forces_by_direct_summation(0, &vec![a, b]);
    assert_eq!(r, Err(ForceError::DegenerateSeparation));
}

/// Even a value-identical twin is rejected, not mistaken for the target:
/// identity is the index, not structural equality.
#[test]
fn identical_twin_is_rejected() {
    let a = particle(5, 5, 5, 1_000_000);
    let r = forces_by_direct_summation(0, &vec![a, a]);
    assert_eq!(r, Err(ForceError::DegenerateSeparation));
}

/// Vector operations are exact fixed-point arithmetic.
#[test]
fn vector_operations() {
    let a = v(3_000_000, 4_000_000, 0);
    assert_eq!(a.norm_squared(), 25_000_000_000_000);
    assert_eq!(a.norm(), 5_000_000);
    // normalize: SCALE * component / norm.
    let u = a.normalize();
    assert_eq!(u, v(600_000, 800_000, 0));
    assert_eq!(a.add(v(1, 2, 3)), v(3_000_001, 4_000_002, 3));
    assert_eq!(a.sub(v(1, 2, 3)), v(2_999_999, 3_999_998, -3));
    assert_eq!(a.scale(-2), v(-6_000_000, -8_000_000, 0));
}
