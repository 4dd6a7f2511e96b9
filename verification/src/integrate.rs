//! Kick-drift integration: velocities are updated from the forces at the
//! current positions, then positions move with the new velocities.

use vstd::prelude::*;

use crate::particle::{valid_particles, GravityParticle};
use crate::scalar::{tdiv, DT_LIMIT, FORCE_LIMIT, SCALE};
use crate::vector::{in_range, Vector, V3};

verus! {

/// Largest velocity component the drift accepts: one kick from a force
/// within `FORCE_LIMIT` over a step within `DT_LIMIT` stays inside it.
pub const VELOCITY_LIMIT: i128 = 20_000_000_000_000_000_000_000_000_000;

/// New velocity after one kick: `v + dt * f / m`, componentwise,
/// rounded toward zero.
pub open spec fn kick(v: V3, f: V3, dt: int, m: int) -> V3 {
    V3 {
        x: v.x + tdiv(dt * f.x, m),
        y: v.y + tdiv(dt * f.y, m),
        z: v.z + tdiv(dt * f.z, m),
    }
}

/// New position after one drift: `p + dt * v / SCALE`, componentwise,
/// rounded toward zero (one `SCALE` factor cancels the fixed-point
/// product of two scaled quantities).
pub open spec fn drift(p: V3, v: V3, dt: int) -> V3 {
    V3 {
        x: p.x + tdiv(dt * v.x, SCALE as int),
        y: p.y + tdiv(dt * v.y, SCALE as int),
        z: p.z + tdiv(dt * v.z, SCALE as int),
    }
}

/// Advances every particle in place: for each index, velocity picks up
/// `dt * force / mass`, then position picks up `dt * velocity` using the
/// new velocity.  Exactly the per-index kick-drift formulas, with no
/// reordering.
pub fn advance(particles: &mut Vec<GravityParticle>, forces: &Vec<Vector>, dt: i128)
    requires
        valid_particles(old(particles)@),
        forces@.len() == old(particles)@.len(),
        1 <= dt <= DT_LIMIT,
        forall|i: int|
            0 <= i < forces@.len() ==> in_range((#[trigger] forces@[i]).v3(), FORCE_LIMIT as int),
    ensures
        final(particles)@.len() == old(particles)@.len(),
        forall|i: int|
            0 <= i < old(particles)@.len() ==> {
                let p = old(particles)@[i];
                let vnew = kick(p.velocity.v3(), forces@[i].v3(), dt as int, p.mass as int);
                (#[trigger] final(particles)@[i]) == (GravityParticle {
                    position: Vector {
                        x: drift(p.position.v3(), vnew, dt as int).x as i128,
                        y: drift(p.position.v3(), vnew, dt as int).y as i128,
                        z: drift(p.position.v3(), vnew, dt as int).z as i128,
                    },
                    velocity: Vector { x: vnew.x as i128, y: vnew.y as i128, z: vnew.z as i128 },
                    mass: p.mass,
                })
            },
{
    let ghost olds = particles@;
    let n = particles.len();
    let mut updated: Vec<GravityParticle> = Vec::new();
    let mut i: usize = 0;
    while i < n
        invariant
            n == olds.len(),
            olds == particles@,
            valid_particles(olds),
            forces@.len() == n,
            1 <= dt <= DT_LIMIT,
            forall|j: int|
                0 <= j < n ==> in_range((#[trigger] forces@[j]).v3(), FORCE_LIMIT as int),
            0 <= i <= n,
            updated@.len() == i,
            forall|j: int|
                0 <= j < i ==> {
                    let p = olds[j];
                    let vnew = kick(p.velocity.v3(), forces@[j].v3(), dt as int, p.mass as int);
                    (#[trigger] updated@[j]) == (GravityParticle {
                        position: Vector {
                            x: drift(p.position.v3(), vnew, dt as int).x as i128,
                            y: drift(p.position.v3(), vnew, dt as int).y as i128,
                            z: drift(p.position.v3(), vnew, dt as int).z as i128,
                        },
                        velocity: Vector {
                            x: vnew.x as i128,
                            y: vnew.y as i128,
                            z: vnew.z as i128,
                        },
                        mass: p.mass,
                    })
                },
        decreases n - i,
    {
        let p = particles[i];
        let f = forces[i];
        let vx = kick_component(p.velocity.x, f.x, dt, p.mass);
        let vy = kick_component(p.velocity.y, f.y, dt, p.mass);
        let vz = kick_component(p.velocity.z, f.z, dt, p.mass);
        let px = drift_component(p.position.x, vx, dt);
        let py = drift_component(p.position.y, vy, dt);
        let pz = drift_component(p.position.z, vz, dt);
        updated.push(
            GravityParticle {
                position: Vector { x: px, y: py, z: pz },
                velocity: Vector { x: vx, y: vy, z: vz },
                mass: p.mass,
            },
        );
        i = i + 1;
    }
    *particles = updated;
}

/// One component of the kick: `v + dt * f / m`.
fn kick_component(v: i128, f: i128, dt: i128, m: i128) -> (r: i128)
    requires
        -(crate::scalar::POS_LIMIT) <= v <= crate::scalar::POS_LIMIT,
        -FORCE_LIMIT <= f <= FORCE_LIMIT,
        1 <= dt <= DT_LIMIT,
        1 <= m,
    ensures
        r == (kick(
            V3 { x: v as int, y: 0, z: 0 },
            V3 { x: f as int, y: 0, z: 0 },
            dt as int,
            m as int,
        )).x,
        -VELOCITY_LIMIT <= r <= VELOCITY_LIMIT,
{
    proof {
        assert(-(DT_LIMIT * FORCE_LIMIT) <= dt * f <= DT_LIMIT * FORCE_LIMIT && DT_LIMIT
            * FORCE_LIMIT == 10_000_000_000_000_000_000_000_000_000i128) by (nonlinear_arith)
            requires
                -FORCE_LIMIT <= f <= FORCE_LIMIT,
                1 <= dt <= DT_LIMIT,
                DT_LIMIT == 1_000_000_000i128,
                FORCE_LIMIT == 10_000_000_000_000_000_000i128;
        crate::scalar::lemma_tdiv_magnitude((dt * f) as int, m as int);
    }
    v + crate::scalar::div_trunc(dt * f, m)
}

/// One component of the drift: `p + dt * v / SCALE`.
fn drift_component(p: i128, v: i128, dt: i128) -> (r: i128)
    requires
        -(crate::scalar::POS_LIMIT) <= p <= crate::scalar::POS_LIMIT,
        -VELOCITY_LIMIT <= v <= VELOCITY_LIMIT,
        1 <= dt <= DT_LIMIT,
    ensures
        r == (drift(
            V3 { x: p as int, y: 0, z: 0 },
            V3 { x: v as int, y: 0, z: 0 },
            dt as int,
        )).x,
{
    proof {
        assert(-(DT_LIMIT * VELOCITY_LIMIT) <= dt * v <= DT_LIMIT * VELOCITY_LIMIT && DT_LIMIT
            * VELOCITY_LIMIT < i128::MAX) by (nonlinear_arith)
            requires
                -VELOCITY_LIMIT <= v <= VELOCITY_LIMIT,
                1 <= dt <= DT_LIMIT,
                DT_LIMIT == 1_000_000_000i128,
                VELOCITY_LIMIT == 20_000_000_000_000_000_000_000_000_000i128;
        crate::scalar::lemma_tdiv_magnitude((dt * v) as int, SCALE as int);
    }
    p + crate::scalar::div_trunc(dt * v, SCALE)
}

} // verus!
