//! The recursive force query over the octree, governed by the multipole
//! acceptance criterion (MAC).
//!
//! At a branch node, let `d` be the distance from the target to the
//! node's center of mass, `delta` the distance from the node's geometric
//! center to its center of mass, and `width` the node's cell width.  If
//! `d < width / theta + delta` the node is too close for its aggregate to
//! stand in for its particles, and the query recurses into the children;
//! otherwise the whole subtree acts as a single point mass.  The
//! traversal is read-only, so concurrent queries may share one tree.

use vstd::prelude::*;

use crate::gravity::{force_term, lemma_norm_sq_zero_iff, ForceError};
use crate::particle::{valid_particle, GravityParticle};
use crate::scalar::{sqrt_floor, tdiv, MASS_LIMIT, N_LIMIT, POS_LIMIT, SCALE};
use crate::tree::{
    cell_mid, cell_valid, cell_width, inv, inv_from, lemma_inv_from_child, mass_sum, bodies,
    bodies_from, lemma_bodies_from_step, Cell, SpatialTree, TreeNode,
};
use crate::vector::{in_range, norm_sq, vadd, vsub, vzero, Point, Vector, V3};

verus! {

/// The multipole acceptance criterion, in fixed point: true when the
/// node is too close to the target to be approximated, so the query must
/// recurse into its children.
pub open spec fn mac_recurse(n: TreeNode, tpos: V3, theta: int) -> bool {
    let com = n.aggregate().center_of_mass.v3();
    let d = sqrt_floor(norm_sq(vsub(com, tpos)));
    let delta = sqrt_floor(norm_sq(vsub(com, cell_mid(n.cell()))));
    d < tdiv(cell_width(n.cell()) * SCALE, theta) + delta
}

/// The force that the tree walk accumulates on a target of mass `tmass`
/// at `tpos`, excluding the body with index `tidx`.  A leaf contributes
/// its single body's exact pairwise force; an accepted branch contributes
/// its whole aggregate as one point mass; a rejected branch contributes
/// the sum over its children.  Massless subtrees contribute nothing.
pub open spec fn tree_force(n: TreeNode, tmass: int, tpos: V3, tidx: int, theta: int) -> V3
    decreases n, 0int, 0int,
{
    match n {
        TreeNode::Leaf { body: None, .. } => vzero(),
        TreeNode::Leaf { body: Some(b), .. } => {
            if b.index == tidx {
                vzero()
            } else {
                force_term(tmass, b.mass as int, tpos, b.position.v3())
            }
        },
        TreeNode::Branch { children, aggregate, .. } => {
            if aggregate.total_mass <= 0 {
                vzero()
            } else if !mac_recurse(n, tpos, theta) {
                force_term(tmass, aggregate.total_mass as int, tpos, aggregate.center_of_mass.v3())
            } else {
                tree_force_from(children, 0, tmass, tpos, tidx, theta)
            }
        },
    }
}

pub open spec fn tree_force_from(
    children: Vec<TreeNode>,
    k: int,
    tmass: int,
    tpos: V3,
    tidx: int,
    theta: int,
) -> V3
    decreases children, 1int, children@.len() - k,
{
    if k < 0 || k >= children@.len() {
        vzero()
    } else {
        vadd(
            tree_force(children@[k], tmass, tpos, tidx, theta),
            tree_force_from(children, k + 1, tmass, tpos, tidx, theta),
        )
    }
}

/// Whether the walk never meets a zero separation: every contributing
/// leaf body and every accepted aggregate is at a position distinct from
/// the target's.
pub open spec fn tree_ok(n: TreeNode, tpos: V3, tidx: int, theta: int) -> bool
    decreases n, 0int, 0int,
{
    match n {
        TreeNode::Leaf { body: None, .. } => true,
        TreeNode::Leaf { body: Some(b), .. } => b.index == tidx || b.position.v3() != tpos,
        TreeNode::Branch { children, aggregate, .. } => {
            if aggregate.total_mass <= 0 {
                true
            } else if !mac_recurse(n, tpos, theta) {
                aggregate.center_of_mass.v3() != tpos
            } else {
                tree_ok_from(children, 0, tpos, tidx, theta)
            }
        },
    }
}

pub open spec fn tree_ok_from(
    children: Vec<TreeNode>,
    k: int,
    tpos: V3,
    tidx: int,
    theta: int,
) -> bool
    decreases children, 1int, children@.len() - k,
{
    k < 0 || k >= children@.len() || (tree_ok(children@[k], tpos, tidx, theta) && tree_ok_from(
        children,
        k + 1,
        tpos,
        tidx,
        theta,
    ))
}

/// If the whole suffix of children walks cleanly, so does each child.
proof fn lemma_ok_from_child(
    children: Vec<TreeNode>,
    k: int,
    i: int,
    tpos: V3,
    tidx: int,
    theta: int,
)
    requires
        tree_ok_from(children, k, tpos, tidx, theta),
        0 <= k <= i < children@.len(),
    ensures
        tree_ok(children@[i], tpos, tidx, theta),
    decreases i - k,
{
    if i > k {
        lemma_ok_from_child(children, k + 1, i, tpos, tidx, theta);
    }
}

fn cell_midpoint(cell: &Cell) -> (m: Vector)
    requires
        cell_valid(*cell),
    ensures
        m.v3() == cell_mid(*cell),
        cell.lo.x <= m.x <= cell.hi.x,
        cell.lo.y <= m.y <= cell.hi.y,
        cell.lo.z <= m.z <= cell.hi.z,
{
    let wx = cell.hi.x - cell.lo.x;
    let wy = cell.hi.y - cell.lo.y;
    let wz = cell.hi.z - cell.lo.z;
    proof {
        crate::scalar::lemma_tdiv_magnitude(wx as int, 2);
        crate::scalar::lemma_tdiv_magnitude(wy as int, 2);
        crate::scalar::lemma_tdiv_magnitude(wz as int, 2);
    }
    Vector {
        x: cell.lo.x + crate::scalar::div_trunc(wx, 2),
        y: cell.lo.y + crate::scalar::div_trunc(wy, 2),
        z: cell.lo.z + crate::scalar::div_trunc(wz, 2),
    }
}

/// One node of the recursive query.
#[verifier::rlimit(100)]
#[verifier::loop_isolation(false)]
fn query_node(n: &TreeNode, tmass: i128, tpos: Point, tidx: usize, theta: i128) -> (r: Result<
    Vector,
    ForceError,
>)
    requires
        inv(*n),
        1 <= tmass <= MASS_LIMIT,
        in_range(tpos.v3(), 2 * POS_LIMIT),
        theta >= 1,
    ensures
        match r {
            Ok(v) => {
                &&& tree_ok(*n, tpos.v3(), tidx as int, theta as int)
                &&& v.v3() == tree_force(*n, tmass as int, tpos.v3(), tidx as int, theta as int)
                &&& in_range(v.v3(), tmass * SCALE * n.aggregate().total_mass)
            },
            Err(e) => {
                &&& e == ForceError::DegenerateSeparation
                &&& !tree_ok(*n, tpos.v3(), tidx as int, theta as int)
            },
        },
    decreases *n,
{
    proof {
        crate::tree::child_sum_bounds(*n);
    }
    match n {
        TreeNode::Leaf { body, aggregate, .. } => {
            match body {
                None => {
                    proof {
                        assert(tmass * SCALE * aggregate.total_mass >= 0) by (nonlinear_arith)
                            requires
                                tmass >= 1,
                                SCALE == 1_000_000i128,
                                aggregate.total_mass >= 0;
                    }
                    Ok(Vector::zero())
                },
                Some(b) => {
                    if b.index == tidx {
                        proof {
                            assert(tmass * SCALE * aggregate.total_mass >= 0) by (nonlinear_arith)
                                requires
                                    tmass >= 1,
                                    SCALE == 1_000_000i128,
                                    aggregate.total_mass >= 0;
                        }
                        Ok(Vector::zero())
                    } else if b.position.x == tpos.x && b.position.y == tpos.y && b.position.z
                        == tpos.z {
                        Err(ForceError::DegenerateSeparation)
                    } else {
                        proof {
                            assert(bodies(*n)[0] == *b);
                            lemma_norm_sq_zero_iff(vsub(b.position.v3(), tpos.v3()));
                            assert(MASS_LIMIT <= MASS_LIMIT * (N_LIMIT as int))
                                by (nonlinear_arith)
                                requires
                                    MASS_LIMIT == 10_000_000i128,
                                    N_LIMIT == 100_000usize;
                        }
                        let f = crate::gravity::force_term_exec(tmass, b.mass, tpos, b.position);
                        proof {
                            assert(bodies(*n).drop_last() =~= Seq::<crate::tree::Body>::empty());
                            assert(mass_sum(Seq::<crate::tree::Body>::empty()) == 0);
                            assert(aggregate.total_mass == b.mass);
                            assert(tmass * b.mass * SCALE == tmass * SCALE
                                * aggregate.total_mass) by (nonlinear_arith)
                                requires
                                    aggregate.total_mass == b.mass;
                        }
                        Ok(f)
                    }
                },
            }
        },
        TreeNode::Branch { cell, children, aggregate } => {
            let ghost ch = *children;
            let total = aggregate.total_mass;
            if total <= 0 {
                proof {
                    assert(tmass * SCALE * aggregate.total_mass == 0) by (nonlinear_arith)
                        requires
                            aggregate.total_mass == 0;
                }
                return Ok(Vector::zero());
            }
            // Evaluate the acceptance criterion.
            let com = aggregate.center_of_mass;
            let dvec = com.sub(tpos);
            let dsq = dvec.norm_squared();
            let d = crate::scalar::isqrt(dsq);
            let mid = cell_midpoint(cell);
            let evec = com.sub(mid);
            let esq = evec.norm_squared();
            let delta = crate::scalar::isqrt(esq);
            let wx = cell.hi.x - cell.lo.x;
            let wy = cell.hi.y - cell.lo.y;
            let wz = cell.hi.z - cell.lo.z;
            let wdt = if wx >= wy && wx >= wz {
                wx
            } else if wy >= wz {
                wy
            } else {
                wz
            };
            proof {
                assert(wdt as int == cell_width(*cell));
                assert(0 <= wdt * SCALE <= 40_000_000_000_000_000i128) by (nonlinear_arith)
                    requires
                        0 <= wdt <= 4 * POS_LIMIT,
                        POS_LIMIT == 10_000_000_000i128,
                        SCALE == 1_000_000i128;
            }
            let threshold = crate::scalar::div_trunc(wdt * SCALE, theta);
            proof {
                crate::scalar::lemma_tdiv_magnitude((wdt * SCALE) as int, theta as int);
                assert(d >= 0 && delta >= 0);
                assert(esq <= 3 * (4 * POS_LIMIT) * (4 * POS_LIMIT)) by (nonlinear_arith)
                    requires
                        esq == norm_sq(evec.v3()),
                        in_range(evec.v3(), 4 * POS_LIMIT),
                        POS_LIMIT == 10_000_000_000i128;
                assert(delta <= 200_000_000_000i128) by (nonlinear_arith)
                    requires
                        crate::scalar::is_sqrt(esq as int, delta as int),
                        0 <= esq <= 3 * (4 * POS_LIMIT) * (4 * POS_LIMIT),
                        POS_LIMIT == 10_000_000_000i128;
            }
            if !(d < threshold + delta) {
                // Accepted: the aggregate stands in for the subtree.
                proof {
                    assert(!mac_recurse(*n, tpos.v3(), theta as int));
                }
                if com.x == tpos.x && com.y == tpos.y && com.z == tpos.z {
                    return Err(ForceError::DegenerateSeparation);
                }
                proof {
                    lemma_norm_sq_zero_iff(vsub(com.v3(), tpos.v3()));
                    assert(1 <= total <= MASS_LIMIT * (N_LIMIT as int)) by (nonlinear_arith)
                        requires
                            1 <= total <= 1_000_000_000_000i128,
                            MASS_LIMIT == 10_000_000i128,
                            N_LIMIT == 100_000usize;
                }
                let f = crate::gravity::force_term_exec(tmass, total, tpos, com);
                proof {
                    assert(tmass * total * SCALE == tmass * SCALE * total) by (nonlinear_arith);
                }
                return Ok(f);
            }
            proof {
                assert(mac_recurse(*n, tpos.v3(), theta as int));
            }
            // Rejected: recurse into the children, accumulating from the
            // last octant down so the sum matches the suffix recursion.
            let mut acc = Vector::zero();
            let mut i: usize = 8;
            proof {
                assert(tree_force_from(
                    ch,
                    8,
                    tmass as int,
                    tpos.v3(),
                    tidx as int,
                    theta as int,
                ) == vzero());
                assert(bodies_from(ch, 8) =~= Seq::<crate::tree::Body>::empty());
                assert(mass_sum(Seq::<crate::tree::Body>::empty()) == 0);
                assert(tmass * SCALE * 0 == 0) by (nonlinear_arith);
            }
            while i > 0
                invariant
                    inv(*n),
                    n is Branch,
                    ch == n->Branch_children,
                    ch@.len() == 8,
                    1 <= tmass <= MASS_LIMIT,
                    in_range(tpos.v3(), 2 * POS_LIMIT),
                    theta >= 1,
                    0 <= i <= 8,
                    tree_ok_from(ch, i as int, tpos.v3(), tidx as int, theta as int),
                    acc.v3() == tree_force_from(
                        ch,
                        i as int,
                        tmass as int,
                        tpos.v3(),
                        tidx as int,
                        theta as int,
                    ),
                    in_range(acc.v3(), tmass * SCALE * mass_sum(bodies_from(ch, i as int))),
                decreases i,
            {
                let j = i - 1;
                proof {
                    lemma_inv_from_child(ch, 0, j as int);
                    lemma_bodies_from_step(ch, j as int);
                    crate::tree::child_sum_bounds(ch@[j as int]);
                }
                let child = &children[j];
                match query_node(child, tmass, tpos, tidx, theta) {
                    Ok(f) => {
                        proof {
                            let mc = ch@[j as int].aggregate().total_mass as int;
                            let ms = mass_sum(bodies_from(ch, i as int));
                            assert(mc == mass_sum(bodies(ch@[j as int])));
                            assert(0 <= ms && ms <= 1_000_000_000_000i128) by {
                                assert forall|q: int|
                                    0 <= q < bodies_from(ch, i as int).len() implies 1 <= (
                                #[trigger] bodies_from(ch, i as int)[q]).mass <= MASS_LIMIT
                                    && in_range(
                                    bodies_from(ch, i as int)[q].position.v3(),
                                    2 * POS_LIMIT,
                                ) by {
                                    lemma_from_within_one(ch, i as int, q);
                                }
                                crate::tree::lemma_sum_bounds(
                                    bodies_from(ch, i as int),
                                    2 * POS_LIMIT,
                                );
                                lemma_suffix_len_le(ch, i as int);
                                assert(bodies_from(ch, i as int).len() * MASS_LIMIT <= 100_000
                                    * MASS_LIMIT) by (nonlinear_arith)
                                    requires
                                        bodies_from(ch, i as int).len() <= 100_000,
                                        MASS_LIMIT == 10_000_000i128;
                                assert(100_000 * MASS_LIMIT == 1_000_000_000_000i128)
                                    by (nonlinear_arith)
                                    requires
                                        MASS_LIMIT == 10_000_000i128;
                            }
                            assert(tmass * SCALE * (mc + ms) == tmass * SCALE * mc + tmass * SCALE
                                * ms && 0 <= tmass * SCALE * mc && 0 <= tmass * SCALE * ms && tmass
                                * SCALE * (mc + ms) <= 10_000_000i128 * 1_000_000i128 * (2
                                * 1_000_000_000_000i128)) by (nonlinear_arith)
                                requires
                                    1 <= tmass <= MASS_LIMIT,
                                    0 <= mc <= 1_000_000_000_000i128,
                                    0 <= ms,
                                    mc + ms <= 2_000_000_000_000i128,
                                    MASS_LIMIT == 10_000_000i128,
                                    SCALE == 1_000_000i128;
                        }
                        acc = acc.add(f);
                    },
                    Err(e) => {
                        proof {
                            assert(!tree_ok(
                                ch@[j as int],
                                tpos.v3(),
                                tidx as int,
                                theta as int,
                            ));
                            if tree_ok_from(ch, 0, tpos.v3(), tidx as int, theta as int) {
                                lemma_ok_from_child(
                                    ch,
                                    0,
                                    j as int,
                                    tpos.v3(),
                                    tidx as int,
                                    theta as int,
                                );
                            }
                        }
                        return Err(e);
                    },
                }
                i = j;
            }
            proof {
                assert(mass_sum(bodies_from(ch, 0)) == aggregate.total_mass);
            }
            Ok(acc)
        },
    }
}

/// A suffix of the children's bodies is never longer than the whole.
proof fn lemma_suffix_len_le(children: Vec<TreeNode>, k: int)
    requires
        0 <= k <= children@.len(),
    ensures
        bodies_from(children, k).len() <= bodies_from(children, 0).len(),
    decreases k,
{
    if k > 0 {
        lemma_suffix_len_le(children, k - 1);
        lemma_bodies_from_step(children, k - 1);
    }
}

/// Bounds needed for the mass sum of a suffix of children: every body of
/// the suffix is a body of some child, hence bounded.
proof fn lemma_from_within_one(children: Vec<TreeNode>, k: int, q: int)
    requires
        0 <= k <= children@.len(),
        inv_from(children, 0),
        children@.len() == 8,
        0 <= q < bodies_from(children, k).len(),
    ensures
        1 <= bodies_from(children, k)[q].mass <= MASS_LIMIT,
        in_range(bodies_from(children, k)[q].position.v3(), 2 * POS_LIMIT),
    decreases children@.len() - k,
{
    if k < children@.len() {
        lemma_bodies_from_step(children, k);
        let c = children@[k];
        lemma_inv_from_child(children, 0, k);
        if q < bodies(c).len() {
            assert(bodies_from(children, k)[q] == bodies(c)[q]);
            assert(crate::tree::cell_contains(c.cell(), bodies(c)[q].position.v3()));
        } else {
            assert(bodies_from(children, k)[q] == bodies_from(children, k + 1)[q - bodies(
                c,
            ).len()]);
            lemma_from_within_one(children, k + 1, q - bodies(c).len());
        }
    }
}

/// The total force of the tree on `target_particle`, which sits at index
/// `target_index` of the particle array the tree was built from.  `theta`
/// is the accuracy/speed trade-off of the acceptance criterion: smaller
/// values recurse more and approximate less.
pub fn forces_from_tree(
    target_particle: &GravityParticle,
    target_index: usize,
    tree: &SpatialTree,
    theta: i128,
) -> (r: Result<Vector, ForceError>)
    requires
        inv(tree.root),
        valid_particle(*target_particle),
        theta >= 1,
    ensures
        match r {
            Ok(v) => {
                &&& tree_ok(
                    tree.root,
                    target_particle.position.v3(),
                    target_index as int,
                    theta as int,
                )
                &&& v.v3() == tree_force(
                    tree.root,
                    target_particle.mass as int,
                    target_particle.position.v3(),
                    target_index as int,
                    theta as int,
                )
                &&& in_range(
                    v.v3(),
                    target_particle.mass * SCALE * tree.root.aggregate().total_mass,
                )
            },
            Err(e) => {
                &&& e == ForceError::DegenerateSeparation
                &&& !tree_ok(
                    tree.root,
                    target_particle.position.v3(),
                    target_index as int,
                    theta as int,
                )
            },
        },
{
    query_node(&tree.root, target_particle.mass, target_particle.position, target_index, theta)
}

} // verus!
