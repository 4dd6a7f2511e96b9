//! The simulated entity: a point mass with position and velocity.

use vstd::prelude::*;

use crate::scalar::{MASS_LIMIT, N_LIMIT, POS_LIMIT};
use crate::vector::{in_range, Point, Vector};

verus! {

/// A point mass.  All fields are fixed-point scalars (see `crate::scalar`).
#[derive(Clone, Copy, PartialEq, Eq, Structural, Debug)]
pub struct GravityParticle {
    pub position: Point,
    pub velocity: Vector,
    pub mass: i128,
}

/// A particle the force evaluators and the integrator accept: coordinates
/// and velocity components within `POS_LIMIT`, mass positive and within
/// `MASS_LIMIT`.
pub open spec fn valid_particle(p: GravityParticle) -> bool {
    &&& in_range(p.position.v3(), POS_LIMIT as int)
    &&& in_range(p.velocity.v3(), POS_LIMIT as int)
    &&& 1 <= p.mass <= MASS_LIMIT
}

/// A particle set small enough for the aggregate arithmetic: at most
/// `N_LIMIT` particles, each valid.
pub open spec fn valid_particles(s: Seq<GravityParticle>) -> bool {
    &&& s.len() <= N_LIMIT
    &&& forall|i: int| 0 <= i < s.len() ==> valid_particle(s[i])
}

impl GravityParticle {
    /// The particle's position, as the spatial index reads it.
    pub fn position(&self) -> (r: Point)
        ensures
            r == self.position,
    {
        self.position
    }

    /// Runtime check for `valid_particle`.
    pub fn is_valid(&self) -> (r: bool)
        ensures
            r == valid_particle(*self),
    {
        -POS_LIMIT <= self.position.x && self.position.x <= POS_LIMIT && -POS_LIMIT
            <= self.position.y && self.position.y <= POS_LIMIT && -POS_LIMIT <= self.position.z
            && self.position.z <= POS_LIMIT && -POS_LIMIT <= self.velocity.x && self.velocity.x
            <= POS_LIMIT && -POS_LIMIT <= self.velocity.y && self.velocity.y <= POS_LIMIT
            && -POS_LIMIT <= self.velocity.z && self.velocity.z <= POS_LIMIT && 1 <= self.mass
            && self.mass <= MASS_LIMIT
    }
}

/// Runtime check for `valid_particles`; callers that obtained a particle
/// set from outside the library run this before simulating it.
pub fn validate_particles(particles: &Vec<GravityParticle>) -> (r: bool)
    ensures
        r == valid_particles(particles@),
{
    if particles.len() > N_LIMIT {
        return false;
    }
    let mut i: usize = 0;
    while i < particles.len()
        invariant
            0 <= i <= particles@.len(),
            particles@.len() <= N_LIMIT,
            forall|j: int| 0 <= j < i ==> valid_particle(particles@[j]),
        decreases particles@.len() - i,
    {
        if !particles[i].is_valid() {
            return false;
        }
        i = i + 1;
    }
    true
}

} // verus!
