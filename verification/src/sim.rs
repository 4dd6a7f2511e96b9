//! One step of the simulation loop: rebuild the spatial index (or skip
//! it for direct summation), evaluate one force per particle, advance
//! velocities and positions, and serialize the snapshot.  Any failure is
//! fatal for the run; the caller writes the returned snapshot bytes
//! before the next step begins.

use vstd::prelude::*;

use crate::codec::{encode_snapshot, msgpack_bytes, snapshot_fields, snapshot_representable};
use crate::gravity::{direct_ok, direct_sum, ForceError};
use crate::integrate::{advance, drift, kick};
use crate::parallel::{forces_in_parallel, outcome_matches};
use crate::particle::{valid_particles, GravityParticle};
use crate::query::{tree_force, tree_ok};
use crate::scalar::{DT_LIMIT, FORCE_LIMIT};
use crate::tree::{
    all_within, inv, particles_distinct, volume_cell, volume_valid, BoundingVolume, SpatialTree,
    TreeConstructionError,
};
use crate::vector::{in_range, Vector};

verus! {

/// Which force evaluator a run uses.
#[derive(Clone, Copy, PartialEq, Eq, Structural, Debug)]
pub enum ForceMethod {
    /// Exact O(N^2) pairwise summation.
    Direct,
    /// The octree with the multipole acceptance criterion.
    Tree,
}

/// The configuration surface the core consumes.
#[derive(Clone, Copy, PartialEq, Eq, Structural, Debug)]
pub struct SimulationConfig {
    pub dt: i128,
    pub finish_time: i128,
    pub theta: i128,
    pub volume: BoundingVolume,
    pub method: ForceMethod,
}

/// Largest simulated time the loop may reach.
pub const TIME_LIMIT: i128 = 1_000_000_000_000_000_000;

pub open spec fn config_valid(c: SimulationConfig) -> bool {
    &&& 1 <= c.dt <= DT_LIMIT
    &&& 0 <= c.finish_time <= TIME_LIMIT
    &&& c.theta >= 1
    &&& volume_valid(c.volume)
}

/// A fatal error inside one step; the run aborts rather than continuing
/// with wrong or partial data.
#[derive(Clone, Copy, PartialEq, Eq, Structural, Debug)]
pub enum SimulationError {
    /// A particle left the configured bounding volume.
    OutOfBounds,
    /// A zero separation: coincident particles, or a target exactly at
    /// an accepted aggregate's center of mass.
    DegenerateSeparation,
    /// A force component outgrew what the integrator accepts.
    ForceOverflow,
    /// An advanced coordinate outgrew the 64-bit snapshot record format.
    SnapshotUnrepresentable,
}

/// The evolving state: the particle array, owned exclusively by the
/// loop, plus the simulated clock and the step counter.
pub struct SimulationState {
    pub particles: Vec<GravityParticle>,
    pub current_time: i128,
    pub step: u64,
}

impl SimulationState {
    pub open spec fn valid(self) -> bool {
        &&& valid_particles(self.particles@)
        &&& 0 <= self.current_time <= TIME_LIMIT
        &&& self.step < 0xFFFF_FFFF_FFFF_FFFFu64
    }

    /// The loop's terminal condition.
    pub fn finished(&self, config: &SimulationConfig) -> (r: bool)
        ensures
            r == (self.current_time >= config.finish_time),
    {
        self.current_time >= config.finish_time
    }
}

/// The forces that this configuration assigns to this particle snapshot:
/// the exact direct sums, or the walks of a well-formed tree over
/// exactly these particles inside the configured volume.
pub open spec fn forces_consistent(
    forces: Seq<Vector>,
    s: Seq<GravityParticle>,
    c: SimulationConfig,
) -> bool {
    &&& forces.len() == s.len()
    &&& match c.method {
        ForceMethod::Direct => forall|i: int|
            0 <= i < s.len() ==> direct_ok(s, i) && (#[trigger] forces[i]).v3() == direct_sum(
                s,
                i,
                s.len() as int,
            ),
        ForceMethod::Tree => exists|t: SpatialTree|
            {
                &&& #[trigger] t.indexes(s)
                &&& inv(t.root)
                &&& t.root.cell() == volume_cell(c.volume)
                &&& forall|i: int|
                    0 <= i < s.len() ==> tree_ok(
                        t.root,
                        (#[trigger] s[i]).position.v3(),
                        i,
                        c.theta as int,
                    ) && forces[i].v3() == tree_force(
                        t.root,
                        s[i].mass as int,
                        s[i].position.v3(),
                        i,
                        c.theta as int,
                    )
            },
    }
}

/// Particle `i` after one kick-drift update under force `f`.
pub open spec fn stepped_particle(p: GravityParticle, f: Vector, dt: int) -> GravityParticle {
    let vnew = kick(p.velocity.v3(), f.v3(), dt, p.mass as int);
    GravityParticle {
        position: Vector {
            x: drift(p.position.v3(), vnew, dt).x as i128,
            y: drift(p.position.v3(), vnew, dt).y as i128,
            z: drift(p.position.v3(), vnew, dt).z as i128,
        },
        velocity: Vector { x: vnew.x as i128, y: vnew.y as i128, z: vnew.z as i128 },
        mass: p.mass,
    }
}

/// Some evaluation under this configuration meets a zero separation.
pub open spec fn degenerate_cause(s: Seq<GravityParticle>, c: SimulationConfig) -> bool {
    match c.method {
        ForceMethod::Direct => !particles_distinct(s),
        ForceMethod::Tree => !particles_distinct(s) || exists|t: SpatialTree, i: int|
            {
                &&& t.indexes(s)
                &&& inv(t.root)
                &&& t.root.cell() == volume_cell(c.volume)
                &&& 0 <= i < s.len()
                &&& !(#[trigger] tree_ok(t.root, s[i].position.v3(), i, c.theta as int))
            },
    }
}

/// Some force under this configuration outgrew the integrator's bound.
pub open spec fn overflow_cause(s: Seq<GravityParticle>, c: SimulationConfig) -> bool {
    match c.method {
        ForceMethod::Direct => exists|i: int|
            0 <= i < s.len() && #[trigger] direct_ok(s, i) && !in_range(
                direct_sum(s, i, s.len() as int),
                FORCE_LIMIT as int,
            ),
        ForceMethod::Tree => exists|t: SpatialTree, i: int|
            {
                &&& t.indexes(s)
                &&& inv(t.root)
                &&& t.root.cell() == volume_cell(c.volume)
                &&& 0 <= i < s.len()
                &&& #[trigger] tree_ok(t.root, s[i].position.v3(), i, c.theta as int)
                &&& !in_range(
                    tree_force(t.root, s[i].mass as int, s[i].position.v3(), i, c.theta as int),
                    FORCE_LIMIT as int,
                )
            },
    }
}

/// Advances the simulation by one step and returns the serialized
/// snapshot of the updated particle array.
///
/// On success there are forces consistent with the configured evaluator
/// (see `forces_consistent`), all within the integrator's bound, such
/// that every particle advanced by exactly one kick-drift update with
/// its force, the clock moved by `dt`, the step counter by one, and the
/// returned bytes encode the updated array.  Each error names its cause;
/// the state is unchanged except where the snapshot format, after a
/// completed update, cannot carry the new coordinates.
pub fn step(state: &mut SimulationState, config: &SimulationConfig) -> (r: Result<
    Vec<u8>,
    SimulationError,
>)
    requires
        old(state).valid(),
        config_valid(*config),
    ensures
        match r {
            Ok(bytes) => {
                &&& exists|forces: Seq<Vector>|
                    {
                        &&& #[trigger] forces_consistent(forces, old(state).particles@, *config)
                        &&& forall|i: int|
                            0 <= i < forces.len() ==> in_range(
                                (#[trigger] forces[i]).v3(),
                                FORCE_LIMIT as int,
                            )
                        &&& final(state).particles@.len() == old(state).particles@.len()
                        &&& forall|i: int|
                            0 <= i < forces.len() ==> #[trigger] final(state).particles@[i]
                                == stepped_particle(
                                old(state).particles@[i],
                                forces[i],
                                config.dt as int,
                            )
                    }
                &&& snapshot_representable(final(state).particles@)
                &&& bytes@ == msgpack_bytes(snapshot_fields(final(state).particles@))
                &&& final(state).current_time == old(state).current_time + config.dt
                &&& final(state).step == old(state).step + 1
            },
            Err(SimulationError::OutOfBounds) => {
                &&& config.method == ForceMethod::Tree
                &&& !all_within(old(state).particles@, config.volume)
                &&& *final(state) == *old(state)
            },
            Err(SimulationError::DegenerateSeparation) => {
                &&& degenerate_cause(old(state).particles@, *config)
                &&& *final(state) == *old(state)
            },
            Err(SimulationError::ForceOverflow) => {
                &&& overflow_cause(old(state).particles@, *config)
                &&& *final(state) == *old(state)
            },
            Err(SimulationError::SnapshotUnrepresentable) => {
                &&& !snapshot_representable(final(state).particles@)
                &&& exists|forces: Seq<Vector>|
                    {
                        &&& #[trigger] forces_consistent(forces, old(state).particles@, *config)
                        &&& final(state).particles@.len() == old(state).particles@.len()
                        &&& forall|i: int|
                            0 <= i < forces.len() ==> #[trigger] final(state).particles@[i]
                                == stepped_particle(
                                old(state).particles@[i],
                                forces[i],
                                config.dt as int,
                            )
                    }
            },
        },
{
    let ghost olds = state.particles@;
    let n = state.particles.len();
    // Evaluate one force per particle, in parallel over the workers.
    let results: Vec<Result<Vector, ForceError>>;
    let ghost groot: Option<crate::tree::TreeNode>;
    match config.method {
        ForceMethod::Tree => {
            match SpatialTree::build(&state.particles, config.volume) {
                Ok(tree) => {
                    results = forces_in_parallel(&state.particles, Some(&tree), config.theta);
                    proof {
                        groot = Some(tree.root);
                        assert(tree.indexes(olds));
                    }
                },
                Err(TreeConstructionError::OutOfBounds) => {
                    return Err(SimulationError::OutOfBounds);
                },
                Err(TreeConstructionError::DegenerateSeparation) => {
                    return Err(SimulationError::DegenerateSeparation);
                },
            }
        },
        ForceMethod::Direct => {
            results = forces_in_parallel(&state.particles, None, config.theta);
            proof {
                groot = None;
            }
        },
    }
    // Unpack the outcomes, holding every force to the integrator's bound.
    let mut forces: Vec<Vector> = Vec::new();
    let mut i: usize = 0;
    while i < n
        invariant
            n == olds.len(),
            olds == state.particles@,
            state == old(state),
            old(state).valid(),
            config_valid(*config),
            results@.len() == n,
            forall|j: int|
                0 <= j < n ==> outcome_matches(
                    #[trigger] results@[j],
                    olds,
                    j,
                    groot,
                    config.theta as int,
                ),
            (match config.method {
                ForceMethod::Direct => groot is None,
                ForceMethod::Tree => groot matches Some(rt) && inv(rt) && (SpatialTree {
                    root: rt,
                }).indexes(olds) && rt.cell() == volume_cell(config.volume),
            }),
            0 <= i <= n,
            forces@.len() == i,
            forall|j: int|
                0 <= j < i ==> ((#[trigger] results@[j]) matches Ok(v) && forces@[j] == v),
            forall|j: int|
                0 <= j < i ==> in_range((#[trigger] forces@[j]).v3(), FORCE_LIMIT as int),
        decreases n - i,
    {
        match results[i] {
            Ok(f) => {
                if f.x < -FORCE_LIMIT || f.x > FORCE_LIMIT || f.y < -FORCE_LIMIT || f.y
                    > FORCE_LIMIT || f.z < -FORCE_LIMIT || f.z > FORCE_LIMIT {
                    proof {
                        lemma_overflow_cause(olds, *config, groot, i as int, f);
                    }
                    return Err(SimulationError::ForceOverflow);
                }
                forces.push(f);
            },
            Err(_) => {
                proof {
                    lemma_degenerate_cause(olds, *config, groot, i as int);
                }
                return Err(SimulationError::DegenerateSeparation);
            },
        }
        i = i + 1;
    }
    proof {
        assert(forces_consistent(forces@, olds, *config)) by {
            match config.method {
                ForceMethod::Direct => {
                    assert forall|j: int| 0 <= j < olds.len() implies #[trigger] direct_ok(
                        olds,
                        j,
                    ) by {
                        assert(outcome_matches(
                            results@[j],
                            olds,
                            j,
                            groot,
                            config.theta as int,
                        ));
                    }
                    assert forall|j: int| 0 <= j < olds.len() implies (
                    #[trigger] forces@[j]).v3() == direct_sum(olds, j, olds.len() as int) by {
                        assert(outcome_matches(
                            results@[j],
                            olds,
                            j,
                            groot,
                            config.theta as int,
                        ));
                    }
                },
                ForceMethod::Tree => {
                    let rt = groot->0;
                    let t = SpatialTree { root: rt };
                    assert forall|j: int| 0 <= j < olds.len() implies tree_ok(
                        t.root,
                        (#[trigger] olds[j]).position.v3(),
                        j,
                        config.theta as int,
                    ) && forces@[j].v3() == tree_force(
                        t.root,
                        olds[j].mass as int,
                        olds[j].position.v3(),
                        j,
                        config.theta as int,
                    ) by {
                        assert(outcome_matches(
                            results@[j],
                            olds,
                            j,
                            groot,
                            config.theta as int,
                        ));
                    }
                    assert(t.indexes(olds));
                },
            }
        }
    }
    // Kick, then drift, every particle with its force.
    advance(&mut state.particles, &forces, config.dt);
    // Serialize the updated array before the caller moves on.
    let bytes = match encode_snapshot(&state.particles) {
        Some(bytes) => bytes,
        None => {
            return Err(SimulationError::SnapshotUnrepresentable);
        },
    };
    state.current_time = state.current_time + config.dt;
    state.step = state.step + 1;
    Ok(bytes)
}

/// An in-bound `Err` outcome of the evaluator names a degenerate cause.
proof fn lemma_degenerate_cause(
    s: Seq<GravityParticle>,
    c: SimulationConfig,
    groot: Option<crate::tree::TreeNode>,
    i: int,
)
    requires
        0 <= i < s.len(),
        match c.method {
            ForceMethod::Direct => groot is None && !direct_ok(s, i),
            ForceMethod::Tree => groot matches Some(rt) && inv(rt) && (SpatialTree {
                root: rt,
            }).indexes(s) && rt.cell() == volume_cell(c.volume) && !tree_ok(
                rt,
                s[i].position.v3(),
                i,
                c.theta as int,
            ),
        },
    ensures
        degenerate_cause(s, c),
{
    match c.method {
        ForceMethod::Direct => {
            let j = choose|j: int|
                0 <= j < s.len() && j != i && (#[trigger] s[j]).position.v3()
                    == s[i].position.v3();
            assert(!particles_distinct(s));
        },
        ForceMethod::Tree => {
            let rt = groot->0;
            let t = SpatialTree { root: rt };
            assert(t.indexes(s) && !tree_ok(t.root, s[i].position.v3(), i, c.theta as int));
        },
    }
}

/// An oversized in-bound `Ok` outcome names an overflow cause.
proof fn lemma_overflow_cause(
    s: Seq<GravityParticle>,
    c: SimulationConfig,
    groot: Option<crate::tree::TreeNode>,
    i: int,
    f: Vector,
)
    requires
        0 <= i < s.len(),
        !in_range(f.v3(), FORCE_LIMIT as int),
        match c.method {
            ForceMethod::Direct => groot is None && direct_ok(s, i) && f.v3() == direct_sum(
                s,
                i,
                s.len() as int,
            ),
            ForceMethod::Tree => groot matches Some(rt) && inv(rt) && (SpatialTree {
                root: rt,
            }).indexes(s) && rt.cell() == volume_cell(c.volume) && tree_ok(
                rt,
                s[i].position.v3(),
                i,
                c.theta as int,
            ) && f.v3() == tree_force(
                rt,
                s[i].mass as int,
                s[i].position.v3(),
                i,
                c.theta as int,
            ),
        },
    ensures
        overflow_cause(s, c),
{
    match c.method {
        ForceMethod::Direct => {
            assert(direct_ok(s, i) && !in_range(direct_sum(s, i, s.len() as int), FORCE_LIMIT as int));
        },
        ForceMethod::Tree => {
            let rt = groot->0;
            let t = SpatialTree { root: rt };
            assert(t.indexes(s) && tree_ok(t.root, s[i].position.v3(), i, c.theta as int)
                && !in_range(
                tree_force(t.root, s[i].mass as int, s[i].position.v3(), i, c.theta as int),
                FORCE_LIMIT as int,
            ));
        },
    }
}

} // verus!
