//! The spatial octree: construction and bottom-up mass aggregation.
//!
//! The tree is rebuilt from scratch for every step.  Each node owns its
//! children outright; leaves hold at most one body, identified by its
//! index in the particle array, so that force queries can exclude the
//! target by identity rather than by value.  Aggregates store the exact
//! total mass and the exact mass moment (the sum of `mass * position`),
//! so a branch's center of mass is the mass-weighted average of all the
//! positions below it, up to one truncating division.

use vstd::multiset::Multiset;
use vstd::prelude::*;

use crate::particle::{valid_particles, GravityParticle};
use crate::scalar::{tdiv, MASS_LIMIT, N_LIMIT, POS_LIMIT};
use crate::vector::{in_range, vadd, vscale, vzero, Point, Vector, V3};

verus! {

broadcast use vstd::seq_lib::group_to_multiset_ensures, vstd::multiset::group_multiset_axioms;

/// Failure to construct a tree.
#[derive(Clone, Copy, PartialEq, Eq, Structural, Debug)]
pub enum TreeConstructionError {
    /// Some particle lies outside the chosen bounding volume.
    OutOfBounds,
    /// Two particles are exactly coincident, so no amount of subdivision
    /// can separate them into distinct leaves.
    DegenerateSeparation,
}

/// The root bounding volume: a cube given by its center and half width,
/// covering `[center - half_width, center + half_width)` on every axis.
#[derive(Clone, Copy, PartialEq, Eq, Structural, Debug)]
pub struct BoundingVolume {
    pub center: Point,
    pub half_width: i128,
}

pub open spec fn volume_valid(v: BoundingVolume) -> bool {
    &&& 0 <= v.half_width <= POS_LIMIT
    &&& in_range(v.center.v3(), POS_LIMIT as int)
}

pub open spec fn volume_contains(v: BoundingVolume, p: V3) -> bool {
    &&& v.center.x - v.half_width <= p.x < v.center.x + v.half_width
    &&& v.center.y - v.half_width <= p.y < v.center.y + v.half_width
    &&& v.center.z - v.half_width <= p.z < v.center.z + v.half_width
}

/// A node's cell: the half-open box `[lo, hi)` on every axis.
#[derive(Clone, Copy, PartialEq, Eq, Structural, Debug)]
pub struct Cell {
    pub lo: Point,
    pub hi: Point,
}

pub open spec fn cell_valid(c: Cell) -> bool {
    &&& c.lo.x <= c.hi.x && c.lo.y <= c.hi.y && c.lo.z <= c.hi.z
    &&& in_range(c.lo.v3(), 2 * POS_LIMIT)
    &&& in_range(c.hi.v3(), 2 * POS_LIMIT)
}

pub open spec fn cell_contains(c: Cell, p: V3) -> bool {
    &&& c.lo.x <= p.x < c.hi.x
    &&& c.lo.y <= p.y < c.hi.y
    &&& c.lo.z <= p.z < c.hi.z
}

/// The cell's width: its largest extent over the three axes.
pub open spec fn cell_width(c: Cell) -> int {
    max3(c.hi.x - c.lo.x, c.hi.y - c.lo.y, c.hi.z - c.lo.z)
}

pub open spec fn max3(a: int, b: int, c: int) -> int {
    if a >= b && a >= c {
        a
    } else if b >= c {
        b
    } else {
        c
    }
}

/// The cell's midpoint, each axis rounded down.
pub open spec fn cell_mid(c: Cell) -> V3 {
    V3 {
        x: c.lo.x + tdiv(c.hi.x - c.lo.x, 2),
        y: c.lo.y + tdiv(c.hi.y - c.lo.y, 2),
        z: c.lo.z + tdiv(c.hi.z - c.lo.z, 2),
    }
}

/// One stored body: a non-owning reference to a particle by index, with a
/// copy of the positional data the tree needs.
#[derive(Clone, Copy, PartialEq, Eq, Structural, Debug)]
pub struct Body {
    pub index: usize,
    pub position: Point,
    pub mass: i128,
}

/// Per-node aggregate: exact total mass, exact mass moment
/// (`sum of mass * position`), and the derived center of mass.
#[derive(Clone, Copy, PartialEq, Eq, Structural, Debug)]
pub struct Aggregate {
    pub total_mass: i128,
    pub moment: Vector,
    pub center_of_mass: Point,
}

/// A tree node: a leaf holds zero or one body; a branch holds exactly
/// eight children, one per octant of its cell.
pub enum TreeNode {
    Leaf { cell: Cell, body: Option<Body>, aggregate: Aggregate },
    Branch { cell: Cell, children: Vec<TreeNode>, aggregate: Aggregate },
}

/// An immutable spatial index over one snapshot of the particle array.
pub struct SpatialTree {
    pub root: TreeNode,
}

impl TreeNode {
    pub open spec fn cell(self) -> Cell {
        match self {
            TreeNode::Leaf { cell, .. } => cell,
            TreeNode::Branch { cell, .. } => cell,
        }
    }

    pub open spec fn aggregate(self) -> Aggregate {
        match self {
            TreeNode::Leaf { aggregate, .. } => aggregate,
            TreeNode::Branch { aggregate, .. } => aggregate,
        }
    }
}

/// All bodies stored in the subtree, in depth-first order.
pub open spec fn bodies(n: TreeNode) -> Seq<Body>
    decreases n, 0int, 0int,
{
    match n {
        TreeNode::Leaf { body: None, .. } => Seq::empty(),
        TreeNode::Leaf { body: Some(b), .. } => seq![b],
        TreeNode::Branch { children, .. } => bodies_from(children, 0),
    }
}

/// Bodies of the children `children[k..]`, concatenated.
pub open spec fn bodies_from(children: Vec<TreeNode>, k: int) -> Seq<Body>
    decreases children, 1int, children@.len() - k,
{
    if k < 0 || k >= children@.len() {
        Seq::empty()
    } else {
        bodies(children@[k]) + bodies_from(children, k + 1)
    }
}

/// Sum of the masses of a body list.
pub open spec fn mass_sum(bs: Seq<Body>) -> int
    decreases bs.len(),
{
    if bs.len() == 0 {
        0
    } else {
        mass_sum(bs.drop_last()) + bs.last().mass as int
    }
}

/// Sum of `mass * position` over a body list.
pub open spec fn moment_sum(bs: Seq<Body>) -> V3
    decreases bs.len(),
{
    if bs.len() == 0 {
        vzero()
    } else {
        vadd(moment_sum(bs.drop_last()), vscale(bs.last().mass as int, bs.last().position.v3()))
    }
}

pub proof fn lemma_mass_sum_concat(a: Seq<Body>, b: Seq<Body>)
    ensures
        mass_sum(a + b) == mass_sum(a) + mass_sum(b),
        moment_sum(a + b) == vadd(moment_sum(a), moment_sum(b)),
    decreases b.len(),
{
    if b.len() == 0 {
        assert(a + b =~= a);
    } else {
        lemma_mass_sum_concat(a, b.drop_last());
        assert((a + b).drop_last() =~= a + b.drop_last());
        assert((a + b).last() == b.last());
        assert((a + b).len() > 0);
    }
}

/// Every body's mass in `[1, MASS_LIMIT]` bounds the mass sum by the
/// count, and the moment by the mass sum times the position bound.
pub proof fn lemma_sum_bounds(bs: Seq<Body>, pb: int)
    requires
        pb >= 0,
        forall|k: int|
            0 <= k < bs.len() ==> 1 <= (#[trigger] bs[k]).mass <= MASS_LIMIT && in_range(
                bs[k].position.v3(),
                pb,
            ),
    ensures
        bs.len() <= mass_sum(bs) <= bs.len() * MASS_LIMIT,
        in_range(moment_sum(bs), mass_sum(bs) * pb),
    decreases bs.len(),
{
    if bs.len() == 0 {
        assert(0 * pb == 0) by (nonlinear_arith);
    } else {
        let a = bs.drop_last();
        let b = bs.last();
        assert(forall|k: int| 0 <= k < a.len() ==> a[k] == bs[k]);
        lemma_sum_bounds(a, pb);
        assert(bs.len() * MASS_LIMIT == a.len() * MASS_LIMIT + MASS_LIMIT) by (nonlinear_arith)
            requires
                bs.len() == a.len() + 1;
        assert(in_range(vscale(b.mass as int, b.position.v3()), b.mass * pb)) by (nonlinear_arith)
            requires
                in_range(b.position.v3(), pb),
                b.mass >= 1,
                pb >= 0;
        assert(mass_sum(bs) * pb == mass_sum(a) * pb + b.mass * pb) by (nonlinear_arith)
            requires
                mass_sum(bs) == mass_sum(a) + b.mass;
    }
}

/// The positions of two distinct entries always differ.
pub open spec fn distinct_positions(bs: Seq<Body>) -> bool {
    forall|k: int, l: int|
        0 <= k < bs.len() && 0 <= l < bs.len() && k != l ==> (#[trigger] bs[k]).position.v3() != (
        #[trigger] bs[l]).position.v3()
}

/// Well-formedness of a subtree: exactly eight children per branch, every
/// stored body inside its node's cell and within the scalar limits, and
/// the aggregate exactly equal to the sums over the subtree's bodies.
pub open spec fn inv(n: TreeNode) -> bool
    decreases n, 0int, 0int,
{
    &&& cell_valid(n.cell())
    &&& bodies(n).len() <= N_LIMIT
    &&& (forall|k: int|
        0 <= k < bodies(n).len() ==> {
            &&& cell_contains(n.cell(), (#[trigger] bodies(n)[k]).position.v3())
            &&& 1 <= bodies(n)[k].mass <= MASS_LIMIT
        })
    &&& aggregate_exact(n.aggregate(), bodies(n), n.cell())
    &&& match n {
        TreeNode::Leaf { .. } => true,
        TreeNode::Branch { children, .. } => {
            &&& children@.len() == 8
            &&& inv_from(children, 0)
        },
    }
}

pub open spec fn inv_from(children: Vec<TreeNode>, k: int) -> bool
    decreases children, 1int, children@.len() - k,
{
    k < 0 || k >= children@.len() || (inv(children@[k]) && inv_from(children, k + 1))
}

/// The aggregate is the exact mass sum and mass moment of the bodies; the
/// center of mass is the moment over the total (truncated), or the cell's
/// midpoint for a massless subtree.
pub open spec fn aggregate_exact(a: Aggregate, bs: Seq<Body>, cell: Cell) -> bool {
    &&& a.total_mass == mass_sum(bs)
    &&& a.moment.v3() == moment_sum(bs)
    &&& a.center_of_mass.v3() == (if mass_sum(bs) > 0 {
        V3 {
            x: tdiv(a.moment.x as int, a.total_mass as int),
            y: tdiv(a.moment.y as int, a.total_mass as int),
            z: tdiv(a.moment.z as int, a.total_mass as int),
        }
    } else {
        cell_mid(cell)
    })
    &&& in_range(a.center_of_mass.v3(), 2 * POS_LIMIT)
}

/// Children `k..` of a well-formed branch are each well-formed.
pub proof fn lemma_inv_from_child(children: Vec<TreeNode>, k: int, i: int)
    requires
        inv_from(children, k),
        0 <= k <= i < children@.len(),
    ensures
        inv(children@[i]),
    decreases i - k,
{
    if i > k {
        lemma_inv_from_child(children, k + 1, i);
    }
}

/// One step of the suffix recursion behind a branch's bodies: the body
/// list from child `k` on is child `k`'s bodies followed by the rest, and
/// the sums and the multiset distribute accordingly.
pub proof fn lemma_bodies_from_step(children: Vec<TreeNode>, k: int)
    requires
        0 <= k < children@.len(),
    ensures
        bodies_from(children, k) == bodies(children@[k]) + bodies_from(children, k + 1),
        mass_sum(bodies_from(children, k)) == mass_sum(bodies(children@[k])) + mass_sum(
            bodies_from(children, k + 1),
        ),
        moment_sum(bodies_from(children, k)) == vadd(
            moment_sum(bodies(children@[k])),
            moment_sum(bodies_from(children, k + 1)),
        ),
        bodies_from(children, k).to_multiset() == bodies(children@[k]).to_multiset().add(
            bodies_from(children, k + 1).to_multiset(),
        ),
{
    lemma_mass_sum_concat(bodies(children@[k]), bodies_from(children, k + 1));
    vstd::seq_lib::lemma_multiset_commutative(bodies(children@[k]), bodies_from(children, k + 1));
}

/// Octant of a point relative to a split midpoint: bit 0 for x, bit 1 for
/// y, bit 2 for z, set when the coordinate is at or above the midpoint.
pub open spec fn octant_of(p: V3, m: V3) -> int {
    (if p.x >= m.x {
        1int
    } else {
        0int
    }) + (if p.y >= m.y {
        2int
    } else {
        0int
    }) + (if p.z >= m.z {
        4int
    } else {
        0int
    })
}

fn octant(p: &Point, m: &Point) -> (o: usize)
    ensures
        o as int == octant_of(p.v3(), m.v3()),
        o < 8,
{
    let mut o: usize = 0;
    if p.x >= m.x {
        o = o + 1;
    }
    if p.y >= m.y {
        o = o + 2;
    }
    if p.z >= m.z {
        o = o + 4;
    }
    o
}

/// The sub-cell of `cell` for octant `o` of the split at `m`.
pub open spec fn child_cell_spec(cell: Cell, m: Vector, o: int) -> Cell {
    Cell {
        lo: Vector {
            x: if o % 2 == 1 { m.x } else { cell.lo.x },
            y: if (o / 2) % 2 == 1 { m.y } else { cell.lo.y },
            z: if o / 4 == 1 { m.z } else { cell.lo.z },
        },
        hi: Vector {
            x: if o % 2 == 1 { cell.hi.x } else { m.x },
            y: if (o / 2) % 2 == 1 { cell.hi.y } else { m.y },
            z: if o / 4 == 1 { cell.hi.z } else { m.z },
        },
    }
}

fn child_cell(cell: &Cell, m: &Point, o: usize) -> (c: Cell)
    requires
        o < 8,
    ensures
        c == child_cell_spec(*cell, *m, o as int),
{
    let lx = if o % 2 == 1 { m.x } else { cell.lo.x };
    let ly = if (o / 2) % 2 == 1 { m.y } else { cell.lo.y };
    let lz = if o / 4 == 1 { m.z } else { cell.lo.z };
    let hx = if o % 2 == 1 { cell.hi.x } else { m.x };
    let hy = if (o / 2) % 2 == 1 { cell.hi.y } else { m.y };
    let hz = if o / 4 == 1 { cell.hi.z } else { m.z };
    Cell { lo: Vector { x: lx, y: ly, z: lz }, hi: Vector { x: hx, y: hy, z: hz } }
}

/// `inner` is a sub-box of `outer`.
pub open spec fn cell_sub(inner: Cell, outer: Cell) -> bool {
    &&& outer.lo.x <= inner.lo.x && inner.hi.x <= outer.hi.x
    &&& outer.lo.y <= inner.lo.y && inner.hi.y <= outer.hi.y
    &&& outer.lo.z <= inner.lo.z && inner.hi.z <= outer.hi.z
}

/// Splitting a valid cell of width at least 2 at its midpoint yields
/// valid, strictly narrower sub-boxes that tile it.
pub proof fn lemma_child_cell_props(cell: Cell, m: Vector, o: int)
    requires
        cell_valid(cell),
        m.v3() == cell_mid(cell),
        0 <= o < 8,
    ensures
        cell_valid(child_cell_spec(cell, m, o)),
        cell_sub(child_cell_spec(cell, m, o), cell),
        cell_width(cell) >= 2 ==> cell_width(child_cell_spec(cell, m, o)) < cell_width(cell),
{
    lemma_mid_between(cell.lo.x as int, cell.hi.x as int, m.x as int, cell_width(cell));
    lemma_mid_between(cell.lo.y as int, cell.hi.y as int, m.y as int, cell_width(cell));
    lemma_mid_between(cell.lo.z as int, cell.hi.z as int, m.z as int, cell_width(cell));
}

/// The rounded-down midpoint of `[lo, hi)` splits it into two strictly
/// shorter halves once the width is at least 2.
proof fn lemma_mid_between(lo: int, hi: int, m: int, cap: int)
    requires
        lo <= hi,
        hi - lo <= cap,
        m == lo + tdiv(hi - lo, 2),
    ensures
        lo <= m <= hi,
        cap >= 2 ==> m - lo < cap && hi - m < cap,
{
    let w = hi - lo;
    vstd::arithmetic::div_mod::lemma_fundamental_div_mod(w, 2);
    vstd::arithmetic::div_mod::lemma_div_pos_is_pos(w, 2);
    assert(w == 2 * (w / 2) + w % 2);
    assert(0 <= w % 2 < 2) by {
        vstd::arithmetic::div_mod::lemma_mod_bound(w, 2);
    }
}

/// Any two points of a cell of width at most 1 coincide.
pub proof fn lemma_narrow_cell(cell: Cell, p: V3, q: V3)
    requires
        cell_width(cell) <= 1,
        cell_contains(cell, p),
        cell_contains(cell, q),
    ensures
        p == q,
{
}

/// Routing a contained point to its octant lands it inside that octant's
/// sub-cell.
pub proof fn lemma_route(cell: Cell, m: Vector, p: V3)
    requires
        cell_contains(cell, p),
        cell.lo.x <= m.x <= cell.hi.x,
        cell.lo.y <= m.y <= cell.hi.y,
        cell.lo.z <= m.z <= cell.hi.z,
    ensures
        cell_contains(child_cell_spec(cell, m, octant_of(p, m.v3())), p),
{
}

/// The multiset of the eight bucket sequences together.
pub open spec fn buckets_ms(
    s0: Seq<Body>,
    s1: Seq<Body>,
    s2: Seq<Body>,
    s3: Seq<Body>,
    s4: Seq<Body>,
    s5: Seq<Body>,
    s6: Seq<Body>,
    s7: Seq<Body>,
) -> Multiset<Body> {
    s0.to_multiset().add(s1.to_multiset()).add(s2.to_multiset()).add(s3.to_multiset()).add(
        s4.to_multiset(),
    ).add(s5.to_multiset()).add(s6.to_multiset()).add(s7.to_multiset())
}

fn node_aggregate(n: &TreeNode) -> (a: Aggregate)
    ensures
        a == n.aggregate(),
{
    match n {
        TreeNode::Leaf { aggregate, .. } => *aggregate,
        TreeNode::Branch { aggregate, .. } => *aggregate,
    }
}

/// A leaf for an empty cell.
fn empty_leaf(cell: Cell) -> (n: TreeNode)
    requires
        cell_valid(cell),
    ensures
        n == (TreeNode::Leaf { cell, body: None::<Body>, aggregate: n.aggregate() }),
        inv(n),
        bodies(n) == Seq::<Body>::empty(),
{
    let wx = cell.hi.x - cell.lo.x;
    let wy = cell.hi.y - cell.lo.y;
    let wz = cell.hi.z - cell.lo.z;
    proof {
        crate::scalar::lemma_tdiv_magnitude(wx as int, 2);
        crate::scalar::lemma_tdiv_magnitude(wy as int, 2);
        crate::scalar::lemma_tdiv_magnitude(wz as int, 2);
    }
    let mid = Vector {
        x: cell.lo.x + crate::scalar::div_trunc(wx, 2),
        y: cell.lo.y + crate::scalar::div_trunc(wy, 2),
        z: cell.lo.z + crate::scalar::div_trunc(wz, 2),
    };
    let aggregate = Aggregate { total_mass: 0, moment: Vector::zero(), center_of_mass: mid };
    let n = TreeNode::Leaf { cell, body: None, aggregate };
    proof {
        assert(bodies(n) =~= Seq::<Body>::empty());
    }
    n
}

/// A leaf holding one body.
fn single_leaf(cell: Cell, b: Body) -> (n: TreeNode)
    requires
        cell_valid(cell),
        cell_contains(cell, b.position.v3()),
        1 <= b.mass <= MASS_LIMIT,
    ensures
        inv(n),
        n.cell() == cell,
        bodies(n) == seq![b],
{
    proof {
        assert(-(MASS_LIMIT * (2 * POS_LIMIT)) <= b.mass * b.position.x <= MASS_LIMIT * (2
            * POS_LIMIT) && -(MASS_LIMIT * (2 * POS_LIMIT)) <= b.mass * b.position.y <= MASS_LIMIT
            * (2 * POS_LIMIT) && -(MASS_LIMIT * (2 * POS_LIMIT)) <= b.mass * b.position.z
            <= MASS_LIMIT * (2 * POS_LIMIT)) by (nonlinear_arith)
            requires
                1 <= b.mass <= MASS_LIMIT,
                in_range(b.position.v3(), 2 * POS_LIMIT),
                POS_LIMIT == 10_000_000_000i128,
                MASS_LIMIT == 10_000_000i128;
    }
    let moment = Vector {
        x: b.mass * b.position.x,
        y: b.mass * b.position.y,
        z: b.mass * b.position.z,
    };
    let aggregate = Aggregate { total_mass: b.mass, moment, center_of_mass: b.position };
    let n = TreeNode::Leaf { cell, body: Some(b), aggregate };
    proof {
        let bs = bodies(n);
        assert(bs == seq![b]);
        assert(bs.drop_last() =~= Seq::<Body>::empty());
        assert(bs.last() == b);
        assert(mass_sum(Seq::<Body>::empty()) == 0);
        assert(moment_sum(Seq::<Body>::empty()) == vzero());
        assert(mass_sum(bs) == b.mass as int);
        assert(moment_sum(bs) == vscale(b.mass as int, b.position.v3()));
        lemma_tdiv_cancel(b.mass as int, b.position.x as int);
        lemma_tdiv_cancel(b.mass as int, b.position.y as int);
        lemma_tdiv_cancel(b.mass as int, b.position.z as int);
        assert(b.mass * b.position.x == b.mass as int * (b.position.x as int));
        assert(aggregate_exact(aggregate, bs, cell));
    }
    n
}

/// Dividing `m * p` by `m` gives back `p` exactly.
proof fn lemma_tdiv_cancel(m: int, p: int)
    requires
        m >= 1,
    ensures
        tdiv(m * p, m) == p,
{
    if p >= 0 {
        assert(m * p >= 0) by (nonlinear_arith)
            requires
                m >= 1,
                p >= 0;
        vstd::arithmetic::div_mod::lemma_div_multiples_vanish(p, m);
    } else {
        assert(m * p < 0 && -(m * p) == m * (-p)) by (nonlinear_arith)
            requires
                m >= 1,
                p < 0;
        vstd::arithmetic::div_mod::lemma_div_multiples_vanish(-p, m);
    }
}

/// Bodies of a well-formed subtree whose cell sits inside `cell` are all
/// inside `cell` and within the mass limits.
pub proof fn lemma_bodies_from_within(children: Vec<TreeNode>, k: int, cell: Cell)
    requires
        0 <= k <= children@.len(),
        inv_from(children, k),
        forall|i: int|
            k <= i < children@.len() ==> cell_sub((#[trigger] children@[i]).cell(), cell),
    ensures
        forall|q: int|
            0 <= q < bodies_from(children, k).len() ==> cell_contains(
                cell,
                (#[trigger] bodies_from(children, k)[q]).position.v3(),
            ) && 1 <= bodies_from(children, k)[q].mass <= MASS_LIMIT,
    decreases children@.len() - k,
{
    if k < children@.len() {
        lemma_bodies_from_within(children, k + 1, cell);
        lemma_bodies_from_step(children, k);
        let c = children@[k];
        assert(inv(c));
        assert forall|q: int| 0 <= q < bodies_from(children, k).len() implies cell_contains(
            cell,
            (#[trigger] bodies_from(children, k)[q]).position.v3(),
        ) && 1 <= bodies_from(children, k)[q].mass <= MASS_LIMIT by {
            if q < bodies(c).len() {
                assert(bodies_from(children, k)[q] == bodies(c)[q]);
                assert(cell_contains(c.cell(), bodies(c)[q].position.v3()));
            } else {
                assert(bodies_from(children, k)[q] == bodies_from(children, k + 1)[q - bodies(
                    c,
                ).len()]);
            }
        }
    }
}

/// The entries of two distinct positions in the list are distinct
/// bodies: no particle index occurs twice.
pub open spec fn distinct_indices(bs: Seq<Body>) -> bool {
    forall|k: int, l: int|
        0 <= k < bs.len() && 0 <= l < bs.len() && k != l ==> (#[trigger] bs[k]).index != (
        #[trigger] bs[l]).index
}

/// The subsequence of `bods` whose octant relative to `m` is `o`.
pub open spec fn route_filter(bods: Seq<Body>, m: Vector, o: int) -> Seq<Body>
    decreases bods.len(),
{
    if bods.len() == 0 {
        Seq::empty()
    } else {
        let rest = route_filter(bods.drop_last(), m, o);
        if octant_of(bods.last().position.v3(), m.v3()) == o {
            rest.push(bods.last())
        } else {
            rest
        }
    }
}

/// Collects the bodies routed to octant `o`.
fn collect_octant(bods: &Vec<Body>, m: &Point, o: usize) -> (r: Vec<Body>)
    requires
        o < 8,
    ensures
        r@ == route_filter(bods@, *m, o as int),
{
    let mut r: Vec<Body> = Vec::new();
    let mut t: usize = 0;
    proof {
        assert(bods@.subrange(0, 0) =~= Seq::<Body>::empty());
    }
    while t < bods.len()
        invariant
            t <= bods@.len(),
            r@ == route_filter(bods@.subrange(0, t as int), *m, o as int),
        decreases bods@.len() - t,
    {
        let ghost pre = bods@.subrange(0, t as int);
        let b = bods[t];
        if octant(&b.position, m) == o {
            r.push(b);
        }
        proof {
            assert(bods@.subrange(0, t as int + 1).drop_last() =~= pre);
            assert(bods@.subrange(0, t as int + 1).last() == b);
        }
        t = t + 1;
    }
    proof {
        assert(bods@.subrange(0, bods@.len() as int) =~= bods@);
    }
    r
}

/// Every entry of a routed bucket is an entry of the input, routed to
/// this octant; and the bucket is no longer than the input.
pub proof fn lemma_filter_sub(bods: Seq<Body>, m: Vector, o: int)
    ensures
        route_filter(bods, m, o).len() <= bods.len(),
        forall|q: int|
            0 <= q < route_filter(bods, m, o).len() ==> octant_of(
                (#[trigger] route_filter(bods, m, o)[q]).position.v3(),
                m.v3(),
            ) == o && exists|k: int|
                0 <= k < bods.len() && bods[k] == route_filter(bods, m, o)[q],
    decreases bods.len(),
{
    if bods.len() > 0 {
        let a = bods.drop_last();
        lemma_filter_sub(a, m, o);
        assert forall|q: int| 0 <= q < route_filter(bods, m, o).len() implies octant_of(
            (#[trigger] route_filter(bods, m, o)[q]).position.v3(),
            m.v3(),
        ) == o && exists|k: int|
            0 <= k < bods.len() && bods[k] == route_filter(bods, m, o)[q] by {
            if q < route_filter(a, m, o).len() {
                assert(route_filter(bods, m, o)[q] == route_filter(a, m, o)[q]);
                let k = choose|k: int| 0 <= k < a.len() && a[k] == route_filter(a, m, o)[q];
                assert(bods[k] == route_filter(bods, m, o)[q]);
            } else {
                assert(route_filter(bods, m, o)[q] == bods.last());
                assert(bods[bods.len() - 1] == route_filter(bods, m, o)[q]);
            }
        }
    }
}

/// Routing preserves the distinctness of particle indices.
pub proof fn lemma_filter_distinct_indices(bods: Seq<Body>, m: Vector, o: int)
    requires
        distinct_indices(bods),
    ensures
        distinct_indices(route_filter(bods, m, o)),
    decreases bods.len(),
{
    if bods.len() > 0 {
        let a = bods.drop_last();
        assert(forall|k: int| 0 <= k < a.len() ==> a[k] == bods[k]);
        lemma_filter_distinct_indices(a, m, o);
        lemma_filter_sub(a, m, o);
        let rf = route_filter(bods, m, o);
        let ra = route_filter(a, m, o);
        assert forall|k: int, l: int|
            0 <= k < rf.len() && 0 <= l < rf.len() && k != l implies (#[trigger] rf[k]).index != (
        #[trigger] rf[l]).index by {
            if k < ra.len() && l < ra.len() {
                assert(rf[k] == ra[k] && rf[l] == ra[l]);
            } else if k < ra.len() {
                let k2 = choose|k2: int| 0 <= k2 < a.len() && a[k2] == ra[k];
                assert(rf[k] == ra[k] && rf[l] == bods.last());
                assert(a[k2].index != bods.last().index);
            } else {
                let l2 = choose|l2: int| 0 <= l2 < a.len() && a[l2] == ra[l];
                assert(rf[l] == ra[l] && rf[k] == bods.last());
                assert(a[l2].index != bods.last().index);
            }
        }
    }
}

/// The eight routed buckets together hold exactly the input bodies.
pub proof fn lemma_filter_partition(bods: Seq<Body>, m: Vector)
    ensures
        buckets_ms(
            route_filter(bods, m, 0),
            route_filter(bods, m, 1),
            route_filter(bods, m, 2),
            route_filter(bods, m, 3),
            route_filter(bods, m, 4),
            route_filter(bods, m, 5),
            route_filter(bods, m, 6),
            route_filter(bods, m, 7),
        ) == bods.to_multiset(),
        route_filter(bods, m, 0).len() + route_filter(bods, m, 1).len() + route_filter(
            bods,
            m,
            2,
        ).len() + route_filter(bods, m, 3).len() + route_filter(bods, m, 4).len() + route_filter(
            bods,
            m,
            5,
        ).len() + route_filter(bods, m, 6).len() + route_filter(bods, m, 7).len() == bods.len(),
    decreases bods.len(),
{
    if bods.len() == 0 {
        assert(buckets_ms(
            route_filter(bods, m, 0),
            route_filter(bods, m, 1),
            route_filter(bods, m, 2),
            route_filter(bods, m, 3),
            route_filter(bods, m, 4),
            route_filter(bods, m, 5),
            route_filter(bods, m, 6),
            route_filter(bods, m, 7),
        ) =~= bods.to_multiset());
    } else {
        let a = bods.drop_last();
        let b = bods.last();
        lemma_filter_partition(a, m);
        let ob = octant_of(b.position.v3(), m.v3());
        assert(0 <= ob < 8);
        assert(a.push(b) =~= bods);
        assert(bods.to_multiset() == a.to_multiset().insert(b));
        assert(buckets_ms(
            route_filter(bods, m, 0),
            route_filter(bods, m, 1),
            route_filter(bods, m, 2),
            route_filter(bods, m, 3),
            route_filter(bods, m, 4),
            route_filter(bods, m, 5),
            route_filter(bods, m, 6),
            route_filter(bods, m, 7),
        ) =~= buckets_ms(
            route_filter(a, m, 0),
            route_filter(a, m, 1),
            route_filter(a, m, 2),
            route_filter(a, m, 3),
            route_filter(a, m, 4),
            route_filter(a, m, 5),
            route_filter(a, m, 6),
            route_filter(a, m, 7),
        ).insert(b));
    }
}

/// Every input body appears in the bucket of its octant.
pub proof fn lemma_filter_member(bods: Seq<Body>, m: Vector, k: int)
    requires
        0 <= k < bods.len(),
    ensures
        exists|q: int|
            0 <= q < route_filter(bods, m, octant_of(bods[k].position.v3(), m.v3())).len()
                && #[trigger] route_filter(bods, m, octant_of(bods[k].position.v3(), m.v3()))[q]
                == bods[k],
    decreases bods.len(),
{
    let o = octant_of(bods[k].position.v3(), m.v3());
    let rf = route_filter(bods, m, o);
    if k == bods.len() - 1 {
        assert(rf[rf.len() - 1] == bods[k]);
    } else {
        let a = bods.drop_last();
        assert(a[k] == bods[k]);
        lemma_filter_member(a, m, k);
        let ra = route_filter(a, m, o);
        let q = choose|q: int| 0 <= q < ra.len() && #[trigger] ra[q] == a[k];
        assert(rf[q] == bods[k]);
    }
}

/// A coincident pair in a routed bucket comes from a coincident pair in
/// the input.
pub proof fn lemma_filter_pair(bods: Seq<Body>, m: Vector, o: int)
    requires
        distinct_indices(bods),
        !distinct_positions(route_filter(bods, m, o)),
    ensures
        !distinct_positions(bods),
{
    let rf = route_filter(bods, m, o);
    let (q1, q2) = choose|q1: int, q2: int|
        0 <= q1 < rf.len() && 0 <= q2 < rf.len() && q1 != q2 && (#[trigger] rf[q1]).position.v3()
            == (#[trigger] rf[q2]).position.v3();
    lemma_filter_sub(bods, m, o);
    lemma_filter_distinct_indices(bods, m, o);
    let k1 = choose|k: int| 0 <= k < bods.len() && bods[k] == rf[q1];
    let k2 = choose|k: int| 0 <= k < bods.len() && bods[k] == rf[q2];
    assert(rf[q1].index != rf[q2].index);
    assert(k1 != k2);
    assert(bods[k1].position.v3() == bods[k2].position.v3());
    assert(!distinct_positions(bods));
}

/// Requirements on the bodies handed to `build_node` for octant `o`.
pub proof fn lemma_bucket_requires(bods: Seq<Body>, m: Vector, o: int, cell: Cell)
    requires
        cell_valid(cell),
        cell.lo.x <= m.x <= cell.hi.x,
        cell.lo.y <= m.y <= cell.hi.y,
        cell.lo.z <= m.z <= cell.hi.z,
        forall|k: int|
            0 <= k < bods.len() ==> cell_contains(cell, (#[trigger] bods[k]).position.v3()) && 1
                <= bods[k].mass <= MASS_LIMIT,
    ensures
        forall|q: int|
            0 <= q < route_filter(bods, m, o).len() ==> cell_contains(
                child_cell_spec(cell, m, o),
                (#[trigger] route_filter(bods, m, o)[q]).position.v3(),
            ) && 1 <= route_filter(bods, m, o)[q].mass <= MASS_LIMIT,
{
    lemma_filter_sub(bods, m, o);
    let rf = route_filter(bods, m, o);
    assert forall|q: int| 0 <= q < rf.len() implies cell_contains(
        child_cell_spec(cell, m, o),
        (#[trigger] rf[q]).position.v3(),
    ) && 1 <= rf[q].mass <= MASS_LIMIT by {
        let k = choose|k: int| 0 <= k < bods.len() && bods[k] == rf[q];
        lemma_route(cell, m, rf[q].position.v3());
    }
}

/// Recursively subdivides `bods` inside `cell` until every leaf holds at
/// most one body, aggregating mass data bottom-up.  Fails exactly when
/// two of the given bodies are coincident.
#[verifier::rlimit(100)]
pub(crate) fn build_node(bods: Vec<Body>, cell: Cell) -> (r: Result<
    TreeNode,
    TreeConstructionError,
>)
    requires
        cell_valid(cell),
        bods@.len() <= N_LIMIT,
        distinct_indices(bods@),
        forall|k: int|
            0 <= k < bods@.len() ==> cell_contains(cell, (#[trigger] bods@[k]).position.v3()) && 1
                <= bods@[k].mass <= MASS_LIMIT,
    ensures
        match r {
            Ok(node) => {
                &&& node.cell() == cell
                &&& inv(node)
                &&& bodies(node).to_multiset() == bods@.to_multiset()
                &&& bodies(node).len() == bods@.len()
                &&& distinct_positions(bods@)
            },
            Err(e) => {
                &&& e == TreeConstructionError::DegenerateSeparation
                &&& !distinct_positions(bods@)
            },
        },
    decreases cell_width(cell),
{
    let n = bods.len();
    if n == 0 {
        let node = empty_leaf(cell);
        proof {
            assert(bods@ =~= Seq::<Body>::empty());
            assert(bodies(node).to_multiset() =~= bods@.to_multiset());
        }
        return Ok(node);
    }
    if n == 1 {
        let node = single_leaf(cell, bods[0]);
        proof {
            assert(bods@ =~= seq![bods@[0]]);
            assert(bodies(node).to_multiset() =~= bods@.to_multiset());
        }
        return Ok(node);
    }
    // Width of the cell: the largest extent over the axes.
    let wx = cell.hi.x - cell.lo.x;
    let wy = cell.hi.y - cell.lo.y;
    let wz = cell.hi.z - cell.lo.z;
    let w = if wx >= wy && wx >= wz {
        wx
    } else if wy >= wz {
        wy
    } else {
        wz
    };
    proof {
        assert(w as int == cell_width(cell));
    }
    if w <= 1 {
        // Every point of so narrow a cell coincides: at least two of the
        // bodies are coincident, which no subdivision can separate.
        proof {
            lemma_narrow_cell(cell, bods@[0].position.v3(), bods@[1].position.v3());
            assert(!distinct_positions(bods@));
        }
        return Err(TreeConstructionError::DegenerateSeparation);
    }
    // Split at the midpoint and route every body to its octant.
    let m = Vector {
        x: cell.lo.x + crate::scalar::div_trunc(wx, 2),
        y: cell.lo.y + crate::scalar::div_trunc(wy, 2),
        z: cell.lo.z + crate::scalar::div_trunc(wz, 2),
    };
    proof {
        crate::scalar::lemma_tdiv_magnitude(wx as int, 2);
        crate::scalar::lemma_tdiv_magnitude(wy as int, 2);
        crate::scalar::lemma_tdiv_magnitude(wz as int, 2);
        assert(m.v3() == cell_mid(cell));
        assert forall|o: int| 0 <= o < 8 implies cell_valid(child_cell_spec(cell, m, o))
            && cell_sub(child_cell_spec(cell, m, o), cell) && cell_width(
            child_cell_spec(cell, m, o),
        ) < cell_width(cell) by {
            lemma_child_cell_props(cell, m, o);
        }
        lemma_filter_partition(bods@, m);
    }
    let b0 = collect_octant(&bods, &m, 0);
    let b1 = collect_octant(&bods, &m, 1);
    let b2 = collect_octant(&bods, &m, 2);
    let b3 = collect_octant(&bods, &m, 3);
    let b4 = collect_octant(&bods, &m, 4);
    let b5 = collect_octant(&bods, &m, 5);
    let b6 = collect_octant(&bods, &m, 6);
    let b7 = collect_octant(&bods, &m, 7);
    let ghost v0 = b0@;
    let ghost v1 = b1@;
    let ghost v2 = b2@;
    let ghost v3 = b3@;
    let ghost v4 = b4@;
    let ghost v5 = b5@;
    let ghost v6 = b6@;
    let ghost v7 = b7@;
    proof {
        assert forall|o: int| 0 <= o < 8 implies distinct_indices(route_filter(bods@, m, o))
            && route_filter(bods@, m, o).len() <= N_LIMIT && (forall|q: int|
            0 <= q < route_filter(bods@, m, o).len() ==> cell_contains(
                child_cell_spec(cell, m, o),
                (#[trigger] route_filter(bods@, m, o)[q]).position.v3(),
            ) && 1 <= route_filter(bods@, m, o)[q].mass <= MASS_LIMIT) by {
            lemma_filter_distinct_indices(bods@, m, o);
            lemma_filter_sub(bods@, m, o);
            lemma_bucket_requires(bods@, m, o, cell);
        }
    }
    let c0 = child_cell(&cell, &m, 0);
    let c1 = child_cell(&cell, &m, 1);
    let c2 = child_cell(&cell, &m, 2);
    let c3 = child_cell(&cell, &m, 3);
    let c4 = child_cell(&cell, &m, 4);
    let c5 = child_cell(&cell, &m, 5);
    let c6 = child_cell(&cell, &m, 6);
    let c7 = child_cell(&cell, &m, 7);
    let n0 = match build_node(b0, c0) {
        Ok(node) => node,
        Err(_) => {
            proof {
                lemma_filter_pair(bods@, m, 0);
            }
            return Err(TreeConstructionError::DegenerateSeparation);
        },
    };
    let n1 = match build_node(b1, c1) {
        Ok(node) => node,
        Err(_) => {
            proof {
                lemma_filter_pair(bods@, m, 1);
            }
            return Err(TreeConstructionError::DegenerateSeparation);
        },
    };
    let n2 = match build_node(b2, c2) {
        Ok(node) => node,
        Err(_) => {
            proof {
                lemma_filter_pair(bods@, m, 2);
            }
            return Err(TreeConstructionError::DegenerateSeparation);
        },
    };
    let n3 = match build_node(b3, c3) {
        Ok(node) => node,
        Err(_) => {
            proof {
                lemma_filter_pair(bods@, m, 3);
            }
            return Err(TreeConstructionError::DegenerateSeparation);
        },
    };
    let n4 = match build_node(b4, c4) {
        Ok(node) => node,
        Err(_) => {
            proof {
                lemma_filter_pair(bods@, m, 4);
            }
            return Err(TreeConstructionError::DegenerateSeparation);
        },
    };
    let n5 = match build_node(b5, c5) {
        Ok(node) => node,
        Err(_) => {
            proof {
                lemma_filter_pair(bods@, m, 5);
            }
            return Err(TreeConstructionError::DegenerateSeparation);
        },
    };
    let n6 = match build_node(b6, c6) {
        Ok(node) => node,
        Err(_) => {
            proof {
                lemma_filter_pair(bods@, m, 6);
            }
            return Err(TreeConstructionError::DegenerateSeparation);
        },
    };
    let n7 = match build_node(b7, c7) {
        Ok(node) => node,
        Err(_) => {
            proof {
                lemma_filter_pair(bods@, m, 7);
            }
            return Err(TreeConstructionError::DegenerateSeparation);
        },
    };
    // No child found a coincident pair, so the input has none: two
    // coincident bodies would have been routed into the same bucket.
    proof {
        assert forall|k: int, l: int|
            0 <= k < bods@.len() && 0 <= l < bods@.len() && k != l implies (
        #[trigger] bods@[k]).position.v3() != (#[trigger] bods@[l]).position.v3() by {
            if bods@[k].position.v3() == bods@[l].position.v3() {
                let o = octant_of(bods@[k].position.v3(), m.v3());
                lemma_filter_member(bods@, m, k);
                lemma_filter_member(bods@, m, l);
                let rf = route_filter(bods@, m, o);
                let qk = choose|q: int| 0 <= q < rf.len() && #[trigger] rf[q] == bods@[k];
                let ql = choose|q: int| 0 <= q < rf.len() && #[trigger] rf[q] == bods@[l];
                assert(bods@[k].index != bods@[l].index);
                assert(qk != ql);
                assert(distinct_positions(rf));
                assert(false);
            }
        }
    }
    let a0 = node_aggregate(&n0);
    let a1 = node_aggregate(&n1);
    let a2 = node_aggregate(&n2);
    let a3 = node_aggregate(&n3);
    let a4 = node_aggregate(&n4);
    let a5 = node_aggregate(&n5);
    let a6 = node_aggregate(&n6);
    let a7 = node_aggregate(&n7);
    proof {
        child_sum_bounds(n0);
        child_sum_bounds(n1);
        child_sum_bounds(n2);
        child_sum_bounds(n3);
        child_sum_bounds(n4);
        child_sum_bounds(n5);
        child_sum_bounds(n6);
        child_sum_bounds(n7);
    }
    let total = a0.total_mass + a1.total_mass + a2.total_mass + a3.total_mass + a4.total_mass
        + a5.total_mass + a6.total_mass + a7.total_mass;
    let moment = Vector {
        x: a0.moment.x + a1.moment.x + a2.moment.x + a3.moment.x + a4.moment.x + a5.moment.x
            + a6.moment.x + a7.moment.x,
        y: a0.moment.y + a1.moment.y + a2.moment.y + a3.moment.y + a4.moment.y + a5.moment.y
            + a6.moment.y + a7.moment.y,
        z: a0.moment.z + a1.moment.z + a2.moment.z + a3.moment.z + a4.moment.z + a5.moment.z
            + a6.moment.z + a7.moment.z,
    };
    let mut children: Vec<TreeNode> = Vec::new();
    children.push(n0);
    children.push(n1);
    children.push(n2);
    children.push(n3);
    children.push(n4);
    children.push(n5);
    children.push(n6);
    children.push(n7);
    proof {
        assert(children@.len() == 8);
        assert(inv_from(children, 8));
        assert(inv_from(children, 7));
        assert(inv_from(children, 6));
        assert(inv_from(children, 5));
        assert(inv_from(children, 4));
        assert(inv_from(children, 3));
        assert(inv_from(children, 2));
        assert(inv_from(children, 1));
        assert(inv_from(children, 0));
        assert(bodies_from(children, 8) =~= Seq::<Body>::empty());
        assert(mass_sum(Seq::<Body>::empty()) == 0);
        assert(moment_sum(Seq::<Body>::empty()) == vzero());
        assert(Seq::<Body>::empty().to_multiset() =~= Multiset::<Body>::empty());
        lemma_bodies_from_step(children, 7);
        lemma_bodies_from_step(children, 6);
        lemma_bodies_from_step(children, 5);
        lemma_bodies_from_step(children, 4);
        lemma_bodies_from_step(children, 3);
        lemma_bodies_from_step(children, 2);
        lemma_bodies_from_step(children, 1);
        lemma_bodies_from_step(children, 0);
        assert(bodies_from(children, 0).to_multiset() =~= buckets_ms(
            v0,
            v1,
            v2,
            v3,
            v4,
            v5,
            v6,
            v7,
        ));
        assert(bodies_from(children, 0).to_multiset() == bods@.to_multiset());
        assert(total as int == mass_sum(bodies_from(children, 0)));
        assert(moment.v3() == moment_sum(bodies_from(children, 0)));
        assert(bodies_from(children, 0).len() == bods@.len());
        assert forall|i: int|
            0 <= i < children@.len() implies cell_sub((#[trigger] children@[i]).cell(), cell) by {
            lemma_child_cell_props(cell, m, i);
        }
        lemma_bodies_from_within(children, 0, cell);
        lemma_sum_bounds(bodies_from(children, 0), 2 * POS_LIMIT);
    }
    let center_of_mass = if total > 0 {
        proof {
            assert(-((2 * POS_LIMIT) * total) <= moment.x <= (2 * POS_LIMIT) * total && -((2
                * POS_LIMIT) * total) <= moment.y <= (2 * POS_LIMIT) * total && -((2 * POS_LIMIT)
                * total) <= moment.z <= (2 * POS_LIMIT) * total) by (nonlinear_arith)
                requires
                    in_range(moment.v3(), total * (2 * POS_LIMIT)),
                    total > 0,
                    POS_LIMIT == 10_000_000_000i128;
            crate::scalar::lemma_tdiv_bound(moment.x as int, total as int, 2 * POS_LIMIT);
            crate::scalar::lemma_tdiv_bound(moment.y as int, total as int, 2 * POS_LIMIT);
            crate::scalar::lemma_tdiv_bound(moment.z as int, total as int, 2 * POS_LIMIT);
        }
        Vector {
            x: crate::scalar::div_trunc(moment.x, total),
            y: crate::scalar::div_trunc(moment.y, total),
            z: crate::scalar::div_trunc(moment.z, total),
        }
    } else {
        m
    };
    let aggregate = Aggregate { total_mass: total, moment, center_of_mass };
    let node = TreeNode::Branch { cell, children, aggregate };
    proof {
        assert(bodies(node) == bodies_from(node->Branch_children, 0));
        assert(aggregate_exact(aggregate, bodies(node), cell));
        assert(inv(node));
    }
    Ok(node)
}

/// Bounds on a well-formed child's aggregate, for the overflow checks of
/// the parent's accumulation.
pub(crate) proof fn child_sum_bounds(n: TreeNode)
    requires
        inv(n),
    ensures
        0 <= n.aggregate().total_mass <= 1_000_000_000_000i128,
        in_range(n.aggregate().moment.v3(), 20_000_000_000_000_000_000_000int),
{
    assert forall|k: int| 0 <= k < bodies(n).len() implies 1 <= (#[trigger] bodies(n)[k]).mass
        <= MASS_LIMIT && in_range(bodies(n)[k].position.v3(), 2 * POS_LIMIT) by {
        assert(cell_contains(n.cell(), bodies(n)[k].position.v3()));
    }
    lemma_sum_bounds(bodies(n), 2 * POS_LIMIT);
    assert(bodies(n).len() * MASS_LIMIT <= 100_000 * MASS_LIMIT) by (nonlinear_arith)
        requires
            bodies(n).len() <= 100_000,
            MASS_LIMIT == 10_000_000i128;
    assert(mass_sum(bodies(n)) * (2 * POS_LIMIT) <= 1_000_000_000_000i128 * (2 * POS_LIMIT))
        by (nonlinear_arith)
        requires
            0 <= mass_sum(bodies(n)) <= 1_000_000_000_000i128,
            POS_LIMIT == 10_000_000_000i128;
}

/// The bodies the tree stores for a particle sequence: one per particle,
/// tagged with its index.
pub open spec fn input_bodies(s: Seq<GravityParticle>) -> Seq<Body> {
    Seq::new(s.len(), |i: int| Body { index: i as usize, position: s[i].position, mass: s[i].mass })
}

/// Every particle lies inside the volume.
pub open spec fn all_within(s: Seq<GravityParticle>, v: BoundingVolume) -> bool {
    forall|i: int| 0 <= i < s.len() ==> volume_contains(v, (#[trigger] s[i]).position.v3())
}

/// No two particles share a position.
pub open spec fn particles_distinct(s: Seq<GravityParticle>) -> bool {
    forall|i: int, j: int|
        0 <= i < s.len() && 0 <= j < s.len() && i != j ==> (#[trigger] s[i]).position.v3() != (
        #[trigger] s[j]).position.v3()
}

/// The cell covered by a bounding volume.
pub open spec fn volume_cell(v: BoundingVolume) -> Cell {
    Cell {
        lo: Vector {
            x: (v.center.x - v.half_width) as i128,
            y: (v.center.y - v.half_width) as i128,
            z: (v.center.z - v.half_width) as i128,
        },
        hi: Vector {
            x: (v.center.x + v.half_width) as i128,
            y: (v.center.y + v.half_width) as i128,
            z: (v.center.z + v.half_width) as i128,
        },
    }
}

impl SpatialTree {
    /// Whether this tree is a well-formed index of exactly the given
    /// particles: every node's aggregate is exact, and the leaves hold
    /// each particle index once, with that particle's position and mass.
    pub open spec fn indexes(self, s: Seq<GravityParticle>) -> bool {
        &&& inv(self.root)
        &&& bodies(self.root).to_multiset() == input_bodies(s).to_multiset()
        &&& bodies(self.root).len() == s.len()
    }

    /// Builds the octree for one snapshot of the particle array.
    ///
    /// Fails with `OutOfBounds` exactly when some particle lies outside
    /// `volume`, and with `DegenerateSeparation` exactly when all lie
    /// inside but two share a position; otherwise the tree holds every
    /// particle exactly once and every aggregate is exact.
    pub fn build(particles: &Vec<GravityParticle>, volume: BoundingVolume) -> (r: Result<
        SpatialTree,
        TreeConstructionError,
    >)
        requires
            valid_particles(particles@),
            volume_valid(volume),
        ensures
            match r {
                Ok(t) => {
                    &&& all_within(particles@, volume)
                    &&& particles_distinct(particles@)
                    &&& t.root.cell() == volume_cell(volume)
                    &&& t.indexes(particles@)
                },
                Err(TreeConstructionError::OutOfBounds) => !all_within(particles@, volume),
                Err(TreeConstructionError::DegenerateSeparation) => {
                    &&& all_within(particles@, volume)
                    &&& !particles_distinct(particles@)
                },
            },
    {
        let n = particles.len();
        let lo = Vector {
            x: volume.center.x - volume.half_width,
            y: volume.center.y - volume.half_width,
            z: volume.center.z - volume.half_width,
        };
        let hi = Vector {
            x: volume.center.x + volume.half_width,
            y: volume.center.y + volume.half_width,
            z: volume.center.z + volume.half_width,
        };
        let cell = Cell { lo, hi };
        let mut i: usize = 0;
        while i < n
            invariant
                n == particles@.len(),
                cell == volume_cell(volume),
                volume_valid(volume),
                0 <= i <= n,
                forall|j: int|
                    0 <= j < i ==> volume_contains(volume, (#[trigger] particles@[j]).position.v3()),
            decreases n - i,
        {
            let p = particles[i];
            if !(cell.lo.x <= p.position.x && p.position.x < cell.hi.x && cell.lo.y <= p.position.y
                && p.position.y < cell.hi.y && cell.lo.z <= p.position.z && p.position.z
                < cell.hi.z) {
                proof {
                    assert(!volume_contains(volume, particles@[i as int].position.v3()));
                }
                return Err(TreeConstructionError::OutOfBounds);
            }
            i = i + 1;
        }
        let mut bods: Vec<Body> = Vec::new();
        let mut k: usize = 0;
        while k < n
            invariant
                n == particles@.len(),
                0 <= k <= n,
                bods@.len() == k,
                forall|j: int| 0 <= j < k ==> bods@[j] == input_bodies(particles@)[j],
            decreases n - k,
        {
            let p = particles[k];
            bods.push(Body { index: k, position: p.position, mass: p.mass });
            k = k + 1;
        }
        proof {
            assert(bods@ =~= input_bodies(particles@));
            assert(distinct_indices(bods@));
            assert(forall|j: int|
                0 <= j < bods@.len() ==> cell_contains(cell, (#[trigger] bods@[j]).position.v3())
                    && 1 <= bods@[j].mass <= MASS_LIMIT);
        }
        match build_node(bods, cell) {
            Ok(root) => {
                proof {
                    assert forall|i2: int, j2: int|
                        0 <= i2 < particles@.len() && 0 <= j2 < particles@.len() && i2
                            != j2 implies (#[trigger] particles@[i2]).position.v3() != (
                    #[trigger] particles@[j2]).position.v3() by {
                        assert(input_bodies(particles@)[i2].position == particles@[i2].position);
                        assert(input_bodies(particles@)[j2].position == particles@[j2].position);
                    }
                }
                Ok(SpatialTree { root })
            },
            Err(_) => {
                proof {
                    let bs = input_bodies(particles@);
                    let (q1, q2) = choose|q1: int, q2: int|
                        0 <= q1 < bs.len() && 0 <= q2 < bs.len() && q1 != q2 && (
                        #[trigger] bs[q1]).position.v3() == (#[trigger] bs[q2]).position.v3();
                    assert(particles@[q1].position.v3() == particles@[q2].position.v3());
                    assert(!particles_distinct(particles@));
                }
                Err(TreeConstructionError::DegenerateSeparation)
            },
        }
    }
}

} // verus!

