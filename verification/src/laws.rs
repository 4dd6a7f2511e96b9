//! Global laws of the library, each proved once and for all: agreement
//! of the tree walk with direct summation when the acceptance criterion
//! never fires, and conservation of momentum under direct-summation
//! steps, up to the fixed-point rounding of the integrator.

use vstd::prelude::*;

use crate::gravity::{direct_sum, force_term, lemma_force_antisymmetric};
use crate::particle::{valid_particles, GravityParticle};
use crate::query::{mac_recurse, tree_force, tree_force_from};
use crate::scalar::MASS_LIMIT;
use crate::tree::{
    bodies, bodies_from, input_bodies, inv, inv_from, lemma_bodies_from_step, lemma_sum_bounds,
    mass_sum, Body, SpatialTree, TreeNode,
};
use crate::vector::{vadd, vneg, vscale, vsub, vzero, Vector, V3};

verus! {

broadcast use vstd::seq_lib::group_to_multiset_ensures, vstd::multiset::group_multiset_axioms;

/// The walk recurses at every massive branch: no aggregate ever stands
/// in for its particles.  Smaller `theta` values only enlarge the
/// recursion threshold, so once a tree is fully refined for some
/// `theta`, it stays so for every smaller positive one.
pub open spec fn fully_refined(n: TreeNode, tpos: V3, theta: int) -> bool
    decreases n, 0int, 0int,
{
    match n {
        TreeNode::Leaf { .. } => true,
        TreeNode::Branch { children, aggregate, .. } => aggregate.total_mass <= 0 || (mac_recurse(
            n,
            tpos,
            theta,
        ) && fully_refined_from(children, 0, tpos, theta)),
    }
}

pub open spec fn fully_refined_from(children: Vec<TreeNode>, k: int, tpos: V3, theta: int) -> bool
    decreases children, 1int, children@.len() - k,
{
    k < 0 || k >= children@.len() || (fully_refined(children@[k], tpos, theta)
        && fully_refined_from(children, k + 1, tpos, theta))
}

/// The direct pairwise sum over a list of stored bodies, skipping the
/// target's own index.
pub open spec fn body_sum(bs: Seq<Body>, tmass: int, tpos: V3, tidx: int) -> V3
    decreases bs.len(),
{
    if bs.len() == 0 {
        vzero()
    } else {
        vadd(body_sum(bs.drop_last(), tmass, tpos, tidx), body_term(bs.last(), tmass, tpos, tidx))
    }
}

pub open spec fn body_term(b: Body, tmass: int, tpos: V3, tidx: int) -> V3 {
    if b.index == tidx {
        vzero()
    } else {
        force_term(tmass, b.mass as int, tpos, b.position.v3())
    }
}

proof fn lemma_body_sum_concat(a: Seq<Body>, b: Seq<Body>, tmass: int, tpos: V3, tidx: int)
    ensures
        body_sum(a + b, tmass, tpos, tidx) == vadd(
            body_sum(a, tmass, tpos, tidx),
            body_sum(b, tmass, tpos, tidx),
        ),
    decreases b.len(),
{
    if b.len() == 0 {
        assert(a + b =~= a);
    } else {
        lemma_body_sum_concat(a, b.drop_last(), tmass, tpos, tidx);
        assert((a + b).drop_last() =~= a + b.drop_last());
        assert((a + b).last() == b.last());
        assert((a + b).len() > 0);
    }
}

/// Removing one entry splits the sum.
proof fn lemma_body_sum_remove(bs: Seq<Body>, i: int, tmass: int, tpos: V3, tidx: int)
    requires
        0 <= i < bs.len(),
    ensures
        body_sum(bs, tmass, tpos, tidx) == vadd(
            body_sum(bs.remove(i), tmass, tpos, tidx),
            body_term(bs[i], tmass, tpos, tidx),
        ),
    decreases bs.len(),
{
    if i == bs.len() - 1 {
        assert(bs.remove(i) =~= bs.drop_last());
    } else {
        assert(bs.remove(i).drop_last() =~= bs.drop_last().remove(i));
        assert(bs.remove(i).last() == bs.last());
        assert(bs.remove(i).len() > 0);
        lemma_body_sum_remove(bs.drop_last(), i, tmass, tpos, tidx);
        assert(bs.drop_last()[i] == bs[i]);
    }
}

/// The body sum depends only on the multiset of bodies, not their order.
proof fn lemma_body_sum_permutation(a: Seq<Body>, b: Seq<Body>, tmass: int, tpos: V3, tidx: int)
    requires
        a.to_multiset() == b.to_multiset(),
    ensures
        body_sum(a, tmass, tpos, tidx) == body_sum(b, tmass, tpos, tidx),
    decreases a.len(),
{
    a.to_multiset_ensures();
    b.to_multiset_ensures();
    if a.len() == 0 {
        assert(b.len() == 0);
    } else {
        let x = a.last();
        let a2 = a.drop_last();
        assert(a =~= a2.push(x));
        assert(a.to_multiset().count(x) > 0);
        assert(b.contains(x));
        let i = choose|i: int| 0 <= i < b.len() && b[i] == x;
        let b2 = b.remove(i);
        assert(a2.to_multiset() =~= b2.to_multiset()) by {
            assert(a.to_multiset() == a2.to_multiset().insert(x));
            assert(b.remove(i).to_multiset() =~= b.to_multiset().remove(b[i]));
        }
        lemma_body_sum_permutation(a2, b2, tmass, tpos, tidx);
        lemma_body_sum_remove(b, i, tmass, tpos, tidx);
    }
}

/// A massless well-formed subtree stores no bodies.
proof fn lemma_massless_empty(n: TreeNode)
    requires
        inv(n),
        n.aggregate().total_mass <= 0,
    ensures
        bodies(n).len() == 0,
{
    assert forall|k: int| 0 <= k < bodies(n).len() implies 1 <= (#[trigger] bodies(n)[k]).mass
        <= MASS_LIMIT && crate::vector::in_range(bodies(n)[k].position.v3(), 2
        * crate::scalar::POS_LIMIT) by {
        assert(crate::tree::cell_contains(n.cell(), bodies(n)[k].position.v3()));
    }
    lemma_sum_bounds(bodies(n), 2 * crate::scalar::POS_LIMIT);
}

/// A fully refined walk sums exactly the per-body force terms of the
/// subtree, in the tree's own order.
proof fn lemma_refined_walk(n: TreeNode, tmass: int, tpos: V3, tidx: int, theta: int)
    requires
        inv(n),
        fully_refined(n, tpos, theta),
    ensures
        tree_force(n, tmass, tpos, tidx, theta) == body_sum(bodies(n), tmass, tpos, tidx),
    decreases n, 0int, 0int,
{
    match n {
        TreeNode::Leaf { body: None, .. } => {
            assert(bodies(n) =~= Seq::<Body>::empty());
        },
        TreeNode::Leaf { body: Some(b), .. } => {
            assert(bodies(n) =~= seq![b]);
            assert(bodies(n).drop_last() =~= Seq::<Body>::empty());
            assert(body_sum(Seq::<Body>::empty(), tmass, tpos, tidx) == vzero());
        },
        TreeNode::Branch { children, aggregate, .. } => {
            if aggregate.total_mass <= 0 {
                lemma_massless_empty(n);
                assert(bodies(n) =~= Seq::<Body>::empty());
            } else {
                lemma_refined_walk_from(children, 0, tmass, tpos, tidx, theta);
            }
        },
    }
}

proof fn lemma_refined_walk_from(
    children: Vec<TreeNode>,
    k: int,
    tmass: int,
    tpos: V3,
    tidx: int,
    theta: int,
)
    requires
        inv_from(children, k),
        fully_refined_from(children, k, tpos, theta),
        0 <= k <= children@.len(),
    ensures
        tree_force_from(children, k, tmass, tpos, tidx, theta) == body_sum(
            bodies_from(children, k),
            tmass,
            tpos,
            tidx,
        ),
    decreases children, 1int, children@.len() - k,
{
    if k >= children@.len() {
        assert(bodies_from(children, k) =~= Seq::<Body>::empty());
    } else {
        lemma_refined_walk(children@[k], tmass, tpos, tidx, theta);
        lemma_refined_walk_from(children, k + 1, tmass, tpos, tidx, theta);
        lemma_bodies_from_step(children, k);
        lemma_body_sum_concat(
            bodies(children@[k]),
            bodies_from(children, k + 1),
            tmass,
            tpos,
            tidx,
        );
    }
}

/// The direct sum over the particle array equals the body sum over the
/// bodies the tree was loaded with.
proof fn lemma_direct_is_body_sum(s: Seq<GravityParticle>, i: int, k: int)
    requires
        s.len() <= usize::MAX,
        0 <= i < s.len(),
        0 <= k <= s.len(),
    ensures
        direct_sum(s, i, k) == body_sum(
            input_bodies(s).subrange(0, k),
            s[i].mass as int,
            s[i].position.v3(),
            i,
        ),
    decreases k,
{
    let bs = input_bodies(s).subrange(0, k);
    if k == 0 {
        assert(bs =~= Seq::<Body>::empty());
    } else {
        lemma_direct_is_body_sum(s, i, k - 1);
        assert(bs.drop_last() =~= input_bodies(s).subrange(0, k - 1));
        assert(bs.last() == input_bodies(s)[k - 1]);
        assert(bs.len() > 0);
        assert(input_bodies(s)[k - 1].index == (k - 1) as usize);
    }
}

/// Tree/direct agreement: once the acceptance criterion never lets an
/// aggregate stand in — which any sufficiently small `theta` forces —
/// the tree walk equals direct summation exactly, for every target.
pub proof fn lemma_tree_matches_direct(
    t: SpatialTree,
    s: Seq<GravityParticle>,
    i: int,
    theta: int,
)
    requires
        inv(t.root),
        t.indexes(s),
        s.len() <= usize::MAX,
        0 <= i < s.len(),
        fully_refined(t.root, s[i].position.v3(), theta),
    ensures
        tree_force(t.root, s[i].mass as int, s[i].position.v3(), i, theta) == direct_sum(
            s,
            i,
            s.len() as int,
        ),
{
    let tmass = s[i].mass as int;
    let tpos = s[i].position.v3();
    lemma_refined_walk(t.root, tmass, tpos, i, theta);
    lemma_body_sum_permutation(bodies(t.root), input_bodies(s), tmass, tpos, i);
    assert(input_bodies(s).subrange(0, s.len() as int) =~= input_bodies(s));
    lemma_direct_is_body_sum(s, i, s.len() as int);
}

/// Aggregate correctness: in a well-formed tree — which is what `build`
/// returns — every node's total mass is exactly the sum of the masses in
/// its subtree, and its mass moment is exactly the sum of
/// `mass * position`, so the stored center of mass is their quotient.
pub proof fn lemma_aggregate_exact(n: TreeNode)
    requires
        inv(n),
    ensures
        n.aggregate().total_mass == mass_sum(bodies(n)),
        n.aggregate().moment.v3() == crate::tree::moment_sum(bodies(n)),
{
}

/// Total mass of the first `k` particles.
pub open spec fn total_mass_of(s: Seq<GravityParticle>, k: int) -> int
    decreases k,
{
    if k <= 0 {
        0
    } else {
        total_mass_of(s, k - 1) + s[k - 1].mass as int
    }
}

/// Total momentum of the first `k` particles: the sum of
/// `mass * velocity`.
pub open spec fn momentum(s: Seq<GravityParticle>, k: int) -> V3
    decreases k,
{
    if k <= 0 {
        vzero()
    } else {
        vadd(momentum(s, k - 1), vscale(s[k - 1].mass as int, s[k - 1].velocity.v3()))
    }
}

/// The pull of particle `b` on particle `a`.
pub open spec fn pair_force(s: Seq<GravityParticle>, a: int, b: int) -> V3 {
    force_term(s[a].mass as int, s[b].mass as int, s[a].position.v3(), s[b].position.v3())
}

/// Sum of the pulls of the first `k` particles on particle `c`.
pub open spec fn sum_on(s: Seq<GravityParticle>, c: int, k: int) -> V3
    decreases k,
{
    if k <= 0 {
        vzero()
    } else {
        vadd(sum_on(s, c, k - 1), pair_force(s, c, k - 1))
    }
}

/// Sum of the pulls of particle `c` on the first `k` particles.
pub open spec fn sum_to(s: Seq<GravityParticle>, c: int, k: int) -> V3
    decreases k,
{
    if k <= 0 {
        vzero()
    } else {
        vadd(sum_to(s, c, k - 1), pair_force(s, k - 1, c))
    }
}

/// Sum of the direct forces (sources below `m`) on the first `k`
/// particles.
pub open spec fn total_force(s: Seq<GravityParticle>, k: int, m: int) -> V3
    decreases k,
{
    if k <= 0 {
        vzero()
    } else {
        vadd(total_force(s, k - 1, m), direct_sum(s, k - 1, m))
    }
}

/// A target at or past the source bound never skips itself.
proof fn lemma_direct_sum_no_skip(s: Seq<GravityParticle>, i: int, k: int)
    requires
        i >= k,
    ensures
        direct_sum(s, i, k) == sum_on(s, i, k),
    decreases k,
{
    if k > 0 {
        lemma_direct_sum_no_skip(s, i, k - 1);
    }
}

/// Pulls on `c` are the exact negations of pulls of `c`: Newton's third
/// law, summed.
proof fn lemma_sum_antisymmetric(s: Seq<GravityParticle>, c: int, k: int)
    ensures
        sum_to(s, c, k) == vneg(sum_on(s, c, k)),
    decreases k,
{
    if k > 0 {
        lemma_sum_antisymmetric(s, c, k - 1);
        lemma_force_antisymmetric(
            s[k - 1].mass as int,
            s[c].mass as int,
            s[k - 1].position.v3(),
            s[c].position.v3(),
        );
    }
}

/// Raising the source bound by one adds one pull to every target below
/// the old bound.
proof fn lemma_total_force_extend(s: Seq<GravityParticle>, k: int, m: int)
    requires
        0 <= k < m,
    ensures
        total_force(s, k, m) == vadd(total_force(s, k, m - 1), sum_to(s, m - 1, k)),
    decreases k,
{
    if k > 0 {
        lemma_total_force_extend(s, k - 1, m);
        assert(direct_sum(s, k - 1, m) == vadd(direct_sum(s, k - 1, m - 1), pair_force(
            s,
            k - 1,
            m - 1,
        )));
    }
}

/// In a closed system the direct forces cancel exactly: the sum over
/// all particles of the direct force is the zero vector.
pub proof fn lemma_total_force_zero(s: Seq<GravityParticle>, m: int)
    requires
        0 <= m <= s.len(),
    ensures
        total_force(s, m, m) == vzero(),
    decreases m,
{
    if m > 0 {
        lemma_total_force_zero(s, m - 1);
        lemma_total_force_extend(s, m - 1, m);
        lemma_sum_antisymmetric(s, m - 1, m - 1);
        lemma_direct_sum_no_skip(s, m - 1, m - 1);
        assert(direct_sum(s, m - 1, m) == direct_sum(s, m - 1, m - 1));
        let x = sum_on(s, m - 1, m - 1);
        assert(total_force(s, m, m) == vadd(vadd(vadd(vzero(), vneg(x)), x), vzero())
            || total_force(s, m, m) == vadd(vadd(vzero(), vneg(x)), x));
    }
}

/// The error of multiplying a truncating quotient back by the divisor is
/// smaller than the divisor.
proof fn lemma_tdiv_mul_err(a: int, m: int)
    requires
        m >= 1,
    ensures
        a - (m - 1) <= m * crate::scalar::tdiv(a, m) <= a + (m - 1),
{
    if a >= 0 {
        vstd::arithmetic::div_mod::lemma_fundamental_div_mod(a, m);
        vstd::arithmetic::div_mod::lemma_mod_bound(a, m);
    } else {
        vstd::arithmetic::div_mod::lemma_fundamental_div_mod(-a, m);
        vstd::arithmetic::div_mod::lemma_mod_bound(-a, m);
        assert(m * -((-a) / m) == -(m * ((-a) / m))) by (nonlinear_arith);
    }
}

/// One kicked particle changes the total momentum by `dt` times its
/// force, up to less than one mass unit of rounding per particle.
proof fn lemma_kick_momentum(p: GravityParticle, f: Vector, dt: int, p2: GravityParticle)
    requires
        crate::particle::valid_particle(p),
        1 <= dt <= crate::scalar::DT_LIMIT,
        crate::vector::in_range(f.v3(), crate::scalar::FORCE_LIMIT as int),
        p2 == crate::sim::stepped_particle(p, f, dt),
    ensures
        p2.mass == p.mass,
        ({
            let dp = vsub(
                vscale(p2.mass as int, p2.velocity.v3()),
                vscale(p.mass as int, p.velocity.v3()),
            );
            crate::vector::in_range(vsub(dp, vscale(dt, f.v3())), p.mass - 1)
        }),
{
    let m = p.mass as int;
    let vnew = crate::integrate::kick(p.velocity.v3(), f.v3(), dt, m);
    assert(-(crate::scalar::DT_LIMIT * crate::scalar::FORCE_LIMIT) <= dt * f.x <= crate::scalar::DT_LIMIT
        * crate::scalar::FORCE_LIMIT && -(crate::scalar::DT_LIMIT * crate::scalar::FORCE_LIMIT)
        <= dt * f.y <= crate::scalar::DT_LIMIT * crate::scalar::FORCE_LIMIT && -(crate::scalar::DT_LIMIT
        * crate::scalar::FORCE_LIMIT) <= dt * f.z <= crate::scalar::DT_LIMIT
        * crate::scalar::FORCE_LIMIT) by (nonlinear_arith)
        requires
            crate::vector::in_range(f.v3(), crate::scalar::FORCE_LIMIT as int),
            1 <= dt <= crate::scalar::DT_LIMIT;
    crate::scalar::lemma_tdiv_magnitude(dt * f.x as int, m);
    crate::scalar::lemma_tdiv_magnitude(dt * f.y as int, m);
    crate::scalar::lemma_tdiv_magnitude(dt * f.z as int, m);
    assert(p2.velocity.v3() == vnew);
    lemma_tdiv_mul_err(dt * f.x as int, m);
    lemma_tdiv_mul_err(dt * f.y as int, m);
    lemma_tdiv_mul_err(dt * f.z as int, m);
    assert(m * vnew.x == m * p.velocity.x + m * crate::scalar::tdiv(dt * f.x as int, m)
        && m * vnew.y == m * p.velocity.y + m * crate::scalar::tdiv(dt * f.y as int, m)
        && m * vnew.z == m * p.velocity.z + m * crate::scalar::tdiv(dt * f.z as int, m))
        by (nonlinear_arith)
        requires
            vnew.x == p.velocity.x + crate::scalar::tdiv(dt * f.x as int, m),
            vnew.y == p.velocity.y + crate::scalar::tdiv(dt * f.y as int, m),
            vnew.z == p.velocity.z + crate::scalar::tdiv(dt * f.z as int, m);
}

/// Conservation of momentum, exactly accounted: after one direct-
/// summation kick-drift step, the total momentum moves by less than one
/// fixed-point mass unit per particle — the forces themselves cancel
/// exactly, and only the integrator's truncating division leaves a
/// remainder below each particle's own mass.
pub proof fn lemma_momentum_conservation(
    s: Seq<GravityParticle>,
    forces: Seq<Vector>,
    dt: int,
    s2: Seq<GravityParticle>,
)
    requires
        valid_particles(s),
        1 <= dt <= crate::scalar::DT_LIMIT,
        forces.len() == s.len(),
        forall|i: int|
            0 <= i < s.len() ==> (#[trigger] forces[i]).v3() == direct_sum(s, i, s.len() as int),
        forall|i: int|
            0 <= i < s.len() ==> crate::vector::in_range(
                (#[trigger] forces[i]).v3(),
                crate::scalar::FORCE_LIMIT as int,
            ),
        s2.len() == s.len(),
        forall|i: int|
            0 <= i < s.len() ==> #[trigger] s2[i] == crate::sim::stepped_particle(
                s[i],
                forces[i],
                dt,
            ),
    ensures
        crate::vector::in_range(
            vsub(momentum(s2, s.len() as int), momentum(s, s.len() as int)),
            total_mass_of(s, s.len() as int),
        ),
{
    let n = s.len() as int;
    lemma_momentum_prefix(s, forces, dt, s2, n);
    lemma_total_force_zero(s, n);
    assert(vscale(dt, vzero()) == vzero()) by {
        assert(dt * 0 == 0) by (nonlinear_arith);
    }
}

/// Invariant of the conservation argument over a prefix of particles.
proof fn lemma_momentum_prefix(
    s: Seq<GravityParticle>,
    forces: Seq<Vector>,
    dt: int,
    s2: Seq<GravityParticle>,
    k: int,
)
    requires
        valid_particles(s),
        1 <= dt <= crate::scalar::DT_LIMIT,
        forces.len() == s.len(),
        forall|i: int|
            0 <= i < s.len() ==> (#[trigger] forces[i]).v3() == direct_sum(s, i, s.len() as int),
        forall|i: int|
            0 <= i < s.len() ==> crate::vector::in_range(
                (#[trigger] forces[i]).v3(),
                crate::scalar::FORCE_LIMIT as int,
            ),
        s2.len() == s.len(),
        forall|i: int|
            0 <= i < s.len() ==> #[trigger] s2[i] == crate::sim::stepped_particle(
                s[i],
                forces[i],
                dt,
            ),
        0 <= k <= s.len(),
    ensures
        k <= total_mass_of(s, k),
        crate::vector::in_range(
            vsub(
                vsub(momentum(s2, k), momentum(s, k)),
                vscale(dt, total_force(s, k, s.len() as int)),
            ),
            total_mass_of(s, k) - k,
        ),
    decreases k,
{
    if k > 0 {
        lemma_momentum_prefix(s, forces, dt, s2, k - 1);
        let n = s.len() as int;
        let p = s[k - 1];
        let p2 = s2[k - 1];
        let f = forces[k - 1];
        lemma_kick_momentum(p, f, dt, p2);
        let tfp = total_force(s, k - 1, n);
        let d = direct_sum(s, k - 1, n);
        assert(f.v3() == d);
        assert(momentum(s2, k) == vadd(momentum(s2, k - 1), vscale(p2.mass as int, p2.velocity.v3())));
        assert(momentum(s, k) == vadd(momentum(s, k - 1), vscale(p.mass as int, p.velocity.v3())));
        assert(total_force(s, k, n) == vadd(tfp, d));
        assert(total_mass_of(s, k) == total_mass_of(s, k - 1) + p.mass);
        assert(dt * (tfp.x + d.x) == dt * tfp.x + dt * d.x && dt * (tfp.y + d.y) == dt * tfp.y + dt
            * d.y && dt * (tfp.z + d.z) == dt * tfp.z + dt * d.z) by (nonlinear_arith);
        let dp = vsub(
            vscale(p2.mass as int, p2.velocity.v3()),
            vscale(p.mass as int, p.velocity.v3()),
        );
        assert(crate::vector::in_range(vsub(dp, vscale(dt, f.v3())), p.mass - 1));
        let e_new = vsub(vsub(momentum(s2, k), momentum(s, k)), vscale(dt, total_force(s, k, n)));
        let e_old = vsub(
            vsub(momentum(s2, k - 1), momentum(s, k - 1)),
            vscale(dt, total_force(s, k - 1, n)),
        );
        assert(e_new.x == e_old.x + vsub(dp, vscale(dt, f.v3())).x);
        assert(e_new.y == e_old.y + vsub(dp, vscale(dt, f.v3())).y);
        assert(e_new.z == e_old.z + vsub(dp, vscale(dt, f.v3())).z);
        assert(crate::vector::in_range(e_old, total_mass_of(s, k - 1) - (k - 1)));
        assert(crate::vector::in_range(e_new, total_mass_of(s, k) - k));
    } else {
        assert(momentum(s2, 0) == vzero() && momentum(s, 0) == vzero() && total_force(s, 0, s.len() as int) == vzero());
        assert(vscale(dt, vzero()).x == 0 && vscale(dt, vzero()).y == 0 && vscale(dt, vzero()).z == 0) by (nonlinear_arith);
    }
}

/// Tightening `theta` only refines further: once the walk recurses
/// everywhere at some `theta`, it does so at every smaller positive
/// `theta` too — this is the sense in which the approximation tightens
/// as `theta` approaches zero.
pub proof fn lemma_refinement_monotone(n: TreeNode, tpos: V3, t1: int, t2: int)
    requires
        inv(n),
        1 <= t1 <= t2,
        fully_refined(n, tpos, t2),
    ensures
        fully_refined(n, tpos, t1),
    decreases n, 0int, 0int,
{
    match n {
        TreeNode::Leaf { .. } => {},
        TreeNode::Branch { children, aggregate, .. } => {
            if aggregate.total_mass > 0 {
                let w = crate::tree::cell_width(n.cell()) * crate::scalar::SCALE;
                assert(crate::tree::cell_valid(n.cell()));
                assert(crate::tree::cell_width(n.cell()) >= 0);
                assert(w >= 0) by (nonlinear_arith)
                    requires
                        w == crate::tree::cell_width(n.cell()) * crate::scalar::SCALE,
                        crate::tree::cell_width(n.cell()) >= 0,
                        crate::scalar::SCALE == 1_000_000i128;
                vstd::arithmetic::div_mod::lemma_div_is_ordered_by_denominator(w, t1, t2);
                assert(crate::scalar::tdiv(w, t1) >= crate::scalar::tdiv(w, t2));
                assert(mac_recurse(n, tpos, t1));
                lemma_refinement_monotone_from(children, 0, tpos, t1, t2);
            }
        },
    }
}

proof fn lemma_refinement_monotone_from(
    children: Vec<TreeNode>,
    k: int,
    tpos: V3,
    t1: int,
    t2: int,
)
    requires
        inv_from(children, k),
        1 <= t1 <= t2,
        fully_refined_from(children, k, tpos, t2),
        0 <= k <= children@.len(),
    ensures
        fully_refined_from(children, k, tpos, t1),
    decreases children, 1int, children@.len() - k,
{
    if k < children@.len() {
        lemma_refinement_monotone(children@[k], tpos, t1, t2);
        lemma_refinement_monotone_from(children, k + 1, tpos, t1, t2);
    }
}

/// Momentum conservation on the tree path: when the walk is fully
/// refined for every target, the tree forces are the direct sums, so
/// one step drifts the total momentum by less than one mass unit per
/// particle, exactly as on the direct path.
pub proof fn lemma_momentum_conservation_tree(
    t: SpatialTree,
    s: Seq<GravityParticle>,
    forces: Seq<Vector>,
    dt: int,
    s2: Seq<GravityParticle>,
    theta: int,
)
    requires
        valid_particles(s),
        inv(t.root),
        t.indexes(s),
        s.len() <= usize::MAX,
        1 <= dt <= crate::scalar::DT_LIMIT,
        forces.len() == s.len(),
        forall|i: int|
            0 <= i < s.len() ==> fully_refined(t.root, (#[trigger] s[i]).position.v3(), theta),
        forall|i: int|
            0 <= i < s.len() ==> (#[trigger] forces[i]).v3() == tree_force(
                t.root,
                s[i].mass as int,
                s[i].position.v3(),
                i,
                theta,
            ),
        forall|i: int|
            0 <= i < s.len() ==> crate::vector::in_range(
                (#[trigger] forces[i]).v3(),
                crate::scalar::FORCE_LIMIT as int,
            ),
        s2.len() == s.len(),
        forall|i: int|
            0 <= i < s.len() ==> #[trigger] s2[i] == crate::sim::stepped_particle(
                s[i],
                forces[i],
                dt,
            ),
    ensures
        crate::vector::in_range(
            vsub(momentum(s2, s.len() as int), momentum(s, s.len() as int)),
            total_mass_of(s, s.len() as int),
        ),
{
    assert forall|i: int| 0 <= i < s.len() implies (#[trigger] forces[i]).v3() == direct_sum(
        s,
        i,
        s.len() as int,
    ) by {
        lemma_tree_matches_direct(t, s, i, theta);
    }
    lemma_momentum_conservation(s, forces, dt, s2);
}

} // verus!
