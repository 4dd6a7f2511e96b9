//! Random initial conditions: uniformly placed particles at rest, as the
//! simulation's default starting state.

use vstd::prelude::*;

use rand::RngExt;

use crate::particle::{valid_particle, valid_particles, GravityParticle};
use crate::scalar::{N_LIMIT, SCALE};
use crate::vector::Vector;

verus! {

/// Relies on rand's `RngExt::random_range` over a half-open range: the
/// sample lies in `[lo, hi)`.  It panics only on an empty range, which
/// the precondition excludes.  Nothing is assumed about which value
/// comes back.
#[verifier::external_body]
fn sample_range(lo: i128, hi: i128) -> (r: i128)
    requires
        lo < hi,
    ensures
        lo <= r < hi,
{
    rand::rng().random_range(lo..hi)
}

/// `n` particles at rest, positions uniform over one cubic simulation
/// unit around the origin, masses uniform over a tenth to one mass unit.
/// Randomness decides the values; the contract holds of every outcome.
pub fn make_random_initial_conditions(n: u64) -> (r: Vec<GravityParticle>)
    requires
        n <= N_LIMIT as u64,
    ensures
        r@.len() == n,
        valid_particles(r@),
        forall|i: int|
            0 <= i < r@.len() ==> {
                &&& -SCALE <= (#[trigger] r@[i]).position.x < SCALE
                &&& -SCALE <= r@[i].position.y < SCALE
                &&& -SCALE <= r@[i].position.z < SCALE
                &&& r@[i].velocity == (Vector { x: 0i128, y: 0i128, z: 0i128 })
                &&& 100_000 <= r@[i].mass < SCALE
            },
{
    let mut particles: Vec<GravityParticle> = Vec::new();
    let mut i: u64 = 0;
    while i < n
        invariant
            0 <= i <= n,
            n <= N_LIMIT as u64,
            particles@.len() == i,
            forall|j: int| 0 <= j < i ==> valid_particle(#[trigger] particles@[j]),
            forall|j: int|
                0 <= j < i ==> {
                    &&& -SCALE <= (#[trigger] particles@[j]).position.x < SCALE
                    &&& -SCALE <= particles@[j].position.y < SCALE
                    &&& -SCALE <= particles@[j].position.z < SCALE
                    &&& particles@[j].velocity == (Vector { x: 0i128, y: 0i128, z: 0i128 })
                    &&& 100_000 <= particles@[j].mass < SCALE
                },
        decreases n - i,
    {
        let position = Vector {
            x: sample_range(-SCALE, SCALE),
            y: sample_range(-SCALE, SCALE),
            z: sample_range(-SCALE, SCALE),
        };
        let mass = sample_range(100_000, SCALE);
        particles.push(
            GravityParticle { position, velocity: Vector { x: 0, y: 0, z: 0 }, mass },
        );
        i = i + 1;
    }
    particles
}

} // verus!
