//! Per-particle force evaluation, fanned out over a worker pool.
//!
//! Each worker reads only the shared immutable tree and the immutable
//! particle snapshot; results land in input order, one slot per
//! particle, so downstream integration can index them directly.

use vstd::prelude::*;

use rayon::iter::{IndexedParallelIterator, IntoParallelRefIterator, ParallelIterator};

use crate::gravity::{direct_ok, direct_sum, forces_by_direct_summation, ForceError};
use crate::particle::{valid_particles, GravityParticle};
use crate::query::{forces_from_tree, tree_force, tree_ok};
use crate::scalar::{MASS_LIMIT, SCALE};
use crate::tree::{inv, SpatialTree, TreeNode};
use crate::vector::{in_range, Vector};

verus! {

/// The root of the chosen spatial index, if one is in use.
pub open spec fn root_of(tree: Option<&SpatialTree>) -> Option<TreeNode> {
    match tree {
        Some(t) => Some(t.root),
        None => None,
    }
}

/// What one force evaluation returns: the exact direct sum when no tree
/// is used, the exact tree walk otherwise, and a degenerate-separation
/// error exactly when the chosen evaluator meets a zero separation.
pub open spec fn outcome_matches(
    r: Result<Vector, ForceError>,
    particles: Seq<GravityParticle>,
    i: int,
    root: Option<TreeNode>,
    theta: int,
) -> bool {
    match root {
        None => match r {
            Ok(v) => {
                &&& direct_ok(particles, i)
                &&& v.v3() == direct_sum(particles, i, particles.len() as int)
                &&& in_range(v.v3(), particles.len() * (MASS_LIMIT * MASS_LIMIT * SCALE))
            },
            Err(e) => {
                &&& e == ForceError::DegenerateSeparation
                &&& !direct_ok(particles, i)
            },
        },
        Some(rt) => match r {
            Ok(v) => {
                &&& tree_ok(rt, particles[i].position.v3(), i, theta)
                &&& v.v3() == tree_force(
                    rt,
                    particles[i].mass as int,
                    particles[i].position.v3(),
                    i,
                    theta,
                )
                &&& in_range(v.v3(), particles[i].mass * SCALE * rt.aggregate().total_mass)
            },
            Err(e) => {
                &&& e == ForceError::DegenerateSeparation
                &&& !tree_ok(rt, particles[i].position.v3(), i, theta)
            },
        },
    }
}

/// The force on particle `i`, through the configured evaluator.
pub fn force_on_particle(
    particles: &Vec<GravityParticle>,
    i: usize,
    tree: Option<&SpatialTree>,
    theta: i128,
) -> (r: Result<Vector, ForceError>)
    requires
        valid_particles(particles@),
        i < particles@.len(),
        theta >= 1,
        match tree {
            Some(t) => inv(t.root),
            None => true,
        },
    ensures
        outcome_matches(r, particles@, i as int, root_of(tree), theta as int),
{
    match tree {
        Some(t) => forces_from_tree(&particles[i], i, t, theta),
        None => forces_by_direct_summation(i, particles),
    }
}

/// Relies on rayon's `par_iter().enumerate().map(..).collect()`: the
/// closure, which only calls this crate's own `force_on_particle`, is
/// applied to every index, and the collected results keep input order.
#[verifier::external_body]
pub(crate) fn forces_in_parallel(
    particles: &Vec<GravityParticle>,
    tree: Option<&SpatialTree>,
    theta: i128,
) -> (r: Vec<Result<Vector, ForceError>>)
    requires
        valid_particles(particles@),
        theta >= 1,
        match tree {
            Some(t) => inv(t.root),
            None => true,
        },
    ensures
        r@.len() == particles@.len(),
        forall|i: int|
            0 <= i < r@.len() ==> outcome_matches(
                #[trigger] r@[i],
                particles@,
                i,
                root_of(tree),
                theta as int,
            ),
{
    particles.par_iter().enumerate().map(
        |pair: (usize, &GravityParticle)| force_on_particle(particles, pair.0, tree, theta),
    ).collect()
}

} // verus!
