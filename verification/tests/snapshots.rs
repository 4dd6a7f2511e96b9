//! Tests of snapshot serialization and the random initial conditions.

use dagon::codec::encode_snapshot;
use dagon::particle::{validate_particles, GravityParticle};
use dagon::rng::make_random_initial_conditions;
use dagon::vector::Vector;

fn v(x: i128, y: i128, z: i128) -> Vector {
    Vector { x, y, z }
}

fn particle(x: i128, y: i128, z: i128, mass: i128) -> GravityParticle {
    GravityParticle { position: v(x, y, z), velocity: v(0, 0, 0), mass }
}

/// One particle serializes as a MessagePack array of its seven fields.
#[test]
fn snapshot_encodes_seven_fields() {
    let bytes = encode_snapshot(&vec![particle(1, 2, 3, 1_000_000)]).unwrap();
    // A fixarray marker for seven elements leads the record.
    assert_eq!(bytes[0], 0x97);
    assert!(bytes.len() > 7);
}

/// The encoding is a function of the values: equal arrays give equal
/// bytes, different arrays different bytes.
#[test]
fn snapshot_depends_on_values() {
    let a = vec![particle(1, 2, 3, 1_000_000)];
    let b = vec![particle(4, 5, 6, 1_000_000)];
    let ba1 = encode_snapshot(&a).unwrap();
    let ba2 = encode_snapshot(&a).unwrap();
    let bb = encode_snapshot(&b).unwrap();
    assert_eq!(ba1, ba2);
    assert_ne!(ba1, bb);
}

/// An empty particle list still serializes (to an empty array).
#[test]
fn snapshot_of_nothing() {
    let bytes = encode_snapshot(&vec![]).unwrap();
    assert_eq!(bytes, vec![0x90]);
}

/// A coordinate beyond 64 bits cannot be carried by the record format.
#[test]
fn snapshot_rejects_oversized_fields() {
    let huge = GravityParticle {
        position: v(i64::MAX as i128 + 1, 0, 0),
        velocity: v(0, 0, 0),
        mass: 1_000_000,
    };
    assert_eq!(encode_snapshot(&vec![huge]), None);
}

/// Random initial conditions: the advertised count, domain, mass range
/// and zero velocity, whatever the drawn values.
#[test]
fn random_initial_conditions_are_in_range() {
    let particles = make_random_initial_conditions(16);
    assert_eq!(particles.len(), 16);
    assert!(validate_particles(&particles));
    for p in &particles {
        assert!(-1_000_000 <= p.position.x && p.position.x < 1_000_000);
        assert!(-1_000_000 <= p.position.y && p.position.y < 1_000_000);
        assert!(-1_000_000 <= p.position.z && p.position.z < 1_000_000);
        assert_eq!(p.velocity, v(0, 0, 0));
        assert!(100_000 <= p.mass && p.mass < 1_000_000);
    }
}
