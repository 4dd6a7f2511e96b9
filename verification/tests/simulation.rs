//! Tests of the integrator and the full simulation step.

use dagon::integrate::advance;
use dagon::particle::GravityParticle;
use dagon::sim::{step, ForceMethod, SimulationConfig, SimulationError, SimulationState};
use dagon::tree::BoundingVolume;
use dagon::vector::Vector;

fn v(x: i128, y: i128, z: i128) -> Vector {
    Vector { x, y, z }
}

fn particle(x: i128, y: i128, z: i128, mass: i128) -> GravityParticle {
    GravityParticle { position: v(x, y, z), velocity: v(0, 0, 0), mass }
}

fn config(method: ForceMethod, dt: i128) -> SimulationConfig {
    SimulationConfig {
        dt,
        finish_time: 10_000_000,
        theta: 500_000,
        volume: BoundingVolume { center: v(0, 0, 0), half_width: 2_000_000 },
        method,
    }
}

fn momentum(particles: &[GravityParticle]) -> (i128, i128, i128) {
    let mut m = (0, 0, 0);
    for p in particles {
        m.0 += p.mass * p.velocity.x;
        m.1 += p.mass * p.velocity.y;
        m.2 += p.mass * p.velocity.z;
    }
    m
}

fn total_mass(particles: &[GravityParticle]) -> i128 {
    particles.iter().map(|p| p.mass).sum()
}

/// The integrator applies exactly the kick-drift formulas.
#[test]
fn advance_is_exact() {
    let mut particles = vec![GravityParticle {
        position: v(0, 0, 0),
        velocity: v(2_000_000, 0, 0),
        mass: 1_000_000,
    }];
    let forces = vec![v(500_000, 0, 0)];
    advance(&mut particles, &forces, 100_000);
    assert_eq!(particles[0].velocity, v(2_050_000, 0, 0));
    assert_eq!(particles[0].position, v(205_000, 0, 0));
    assert_eq!(particles[0].mass, 1_000_000);
}

/// Two unit masses half a unit either side of the origin, at rest, with
/// a hundredth of a time unit per step: both accelerate toward each
/// other with equal and opposite velocity changes, and neither crosses
/// the other within the step.
#[test]
fn two_body_first_step() {
    let mut state = SimulationState {
        particles: vec![
            particle(-500_000, 0, 0, 1_000_000),
            particle(500_000, 0, 0, 1_000_000),
        ],
        current_time: 0,
        step: 0,
    };
    let cfg = config(ForceMethod::Direct, 10_000);
    let bytes = step(&mut state, &cfg).unwrap();
    assert!(!bytes.is_empty());
    // Equal and opposite kicks along the axis.
    assert_eq!(state.particles[0].velocity, v(10_000, 0, 0));
    assert_eq!(state.particles[1].velocity, v(-10_000, 0, 0));
    // Moved toward each other, not past each other.
    assert_eq!(state.particles[0].position, v(-499_900, 0, 0));
    assert_eq!(state.particles[1].position, v(499_900, 0, 0));
    assert!(state.particles[0].position.x < state.particles[1].position.x);
    assert_eq!(state.current_time, 10_000);
    assert_eq!(state.step, 1);
    // Total momentum is unchanged exactly here, by symmetry.
    assert_eq!(momentum(&state.particles), (0, 0, 0));
}

/// Momentum drift over many steps stays below one mass unit per
/// particle per step, on both force evaluation paths.
#[test]
fn momentum_is_conserved_within_rounding() {
    for method in [ForceMethod::Direct, ForceMethod::Tree] {
        let mut state = SimulationState {
            particles: vec![
                particle(0, 0, 0, 1_000_000),
                particle(1_000_000, 0, 0, 2_000_000),
                particle(0, 1_000_000, 0, 3_000_000),
                particle(-700_000, 333_333, -1_300_000, 4_000_000),
            ],
            current_time: 0,
            step: 0,
        };
        let cfg = config(method, 10_000);
        let m0 = momentum(&state.particles);
        let bound = total_mass(&state.particles);
        let steps = 20;
        for _ in 0..steps {
            step(&mut state, &cfg).unwrap();
        }
        let m1 = momentum(&state.particles);
        assert!((m1.0 - m0.0).abs() <= steps * bound);
        assert!((m1.1 - m0.1).abs() <= steps * bound);
        assert!((m1.2 - m0.2).abs() <= steps * bound);
    }
}

/// The tree path refuses to run with a particle outside the volume.
#[test]
fn step_rejects_out_of_bounds() {
    let mut state = SimulationState {
        particles: vec![particle(3_000_000, 0, 0, 1_000_000)],
        current_time: 0,
        step: 0,
    };
    let r = step(&mut state, &config(ForceMethod::Tree, 10_000));
    assert_eq!(r.err(), Some(SimulationError::OutOfBounds));
    assert_eq!(state.step, 0);
}

/// Coincident particles abort the step on either path.
#[test]
fn step_rejects_coincident_particles() {
    for method in [ForceMethod::Direct, ForceMethod::Tree] {
        let mut state = SimulationState {
            particles: vec![particle(5, 5, 5, 1_000_000), particle(5, 5, 5, 1_000_000)],
            current_time: 0,
            step: 0,
        };
        let r = step(&mut state, &config(method, 10_000));
        assert_eq!(r.err(), Some(SimulationError::DegenerateSeparation));
    }
}

/// Nearly touching heavy particles produce a force beyond what the
/// integrator accepts; the run aborts rather than overflowing.
#[test]
fn step_rejects_oversized_forces() {
    let mut state = SimulationState {
        particles: vec![particle(0, 0, 0, 10_000_000), particle(1, 0, 0, 10_000_000)],
        current_time: 0,
        step: 0,
    };
    let r = step(&mut state, &config(ForceMethod::Direct, 10_000));
    assert_eq!(r.err(), Some(SimulationError::ForceOverflow));
}

/// A force just inside the integrator's bound, integrated over a huge
/// time step, yields a velocity the snapshot format cannot carry.
#[test]
fn step_rejects_unrepresentable_snapshot() {
    let mut state = SimulationState {
        particles: vec![particle(0, 0, 0, 3_000_000), particle(1, 0, 0, 3_000_000)],
        current_time: 0,
        step: 0,
    };
    let cfg = SimulationConfig {
        dt: 1_000_000_000,
        finish_time: 1_000_000_000,
        theta: 500_000,
        volume: BoundingVolume { center: v(0, 0, 0), half_width: 2_000_000 },
        method: ForceMethod::Direct,
    };
    let r = step(&mut state, &cfg);
    assert_eq!(r.err(), Some(SimulationError::SnapshotUnrepresentable));
}

/// The loop's terminal condition.
#[test]
fn finished_terminal_condition() {
    let state = SimulationState { particles: vec![], current_time: 10_000_000, step: 3 };
    assert!(state.finished(&config(ForceMethod::Direct, 10_000)));
    let state2 = SimulationState { particles: vec![], current_time: 9_999_999, step: 3 };
    assert!(!state2.finished(&config(ForceMethod::Direct, 10_000)));
}
