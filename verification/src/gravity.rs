//! The pairwise force law and the direct O(N^2) force evaluator.

use vstd::prelude::*;

use crate::particle::{valid_particle, valid_particles, GravityParticle};
use crate::scalar::{
    is_sqrt, sqrt_floor, tdiv, MASS_LIMIT, N_LIMIT, POS_LIMIT, SCALE,
};
use crate::vector::{in_range, norm_sq, vadd, vneg, vsub, vzero, Point, Vector, V3};

verus! {

/// Failure of a force evaluation: two bodies (or a body and an aggregate)
/// are coincident, so the separation underlying the force law is zero.
/// The crate's policy for this hazard is to reject, never to fabricate a
/// value.
#[derive(Clone, Copy, PartialEq, Eq, Structural, Debug)]
pub enum ForceError {
    DegenerateSeparation,
}

/// The gravitational pull of a mass `m2` at `p2` on a mass `m1` at `p1`,
/// in fixed point: componentwise
/// `m1 * m2 * SCALE * (p2 - p1) / (|p2 - p1|^2 * |p2 - p1|)`,
/// rounded toward zero.  This is the classical
/// `(m1 * m2 / r^2) * unit(p2 - p1)` — the attraction of the mass at `p2`
/// pulling the mass at `p1` toward it — with the divisions fused so that
/// the value rounds only once.  Zero separation is mapped to zero; the
/// executable evaluators reject that case instead of using this value.
pub open spec fn force_term(m1: int, m2: int, p1: V3, p2: V3) -> V3 {
    let d = vsub(p2, p1);
    let nsq = norm_sq(d);
    if nsq == 0 {
        vzero()
    } else {
        let den = nsq * sqrt_floor(nsq);
        V3 {
            x: tdiv(m1 * m2 * SCALE * d.x, den),
            y: tdiv(m1 * m2 * SCALE * d.y, den),
            z: tdiv(m1 * m2 * SCALE * d.z, den),
        }
    }
}

/// A squared norm vanishes exactly on the zero vector.
pub proof fn lemma_norm_sq_zero_iff(a: V3)
    ensures
        norm_sq(a) == 0 <==> a == vzero(),
        norm_sq(a) >= 0,
{
    assert(norm_sq(a) == 0 ==> a.x == 0 && a.y == 0 && a.z == 0) by (nonlinear_arith);
    assert(norm_sq(a) >= 0) by (nonlinear_arith);
    if a == vzero() {
        assert(norm_sq(a) == 0) by (nonlinear_arith)
            requires
                a.x == 0 && a.y == 0 && a.z == 0;
    }
}

/// Newton's third law, exactly: the pull of `b` on `a` is the negation of
/// the pull of `a` on `b`, with no rounding slack, because truncating
/// division is symmetric around zero.
pub proof fn lemma_force_antisymmetric(m1: int, m2: int, p1: V3, p2: V3)
    ensures
        force_term(m1, m2, p1, p2) == vneg(force_term(m2, m1, p2, p1)),
{
    let d = vsub(p2, p1);
    let e = vsub(p1, p2);
    assert(e == vneg(d));
    assert(norm_sq(e) == norm_sq(d)) by (nonlinear_arith)
        requires
            e.x == -d.x && e.y == -d.y && e.z == -d.z;
    let nsq = norm_sq(d);
    if nsq == 0 {
        assert(force_term(m1, m2, p1, p2) == vzero());
        assert(force_term(m2, m1, p2, p1) == vzero());
    } else {
        let den = nsq * sqrt_floor(nsq);
        lemma_norm_sq_zero_iff(d);
        crate::scalar::lemma_sqrt_exists(nsq);
        assert(den > 0) by (nonlinear_arith)
            requires
                nsq > 0,
                is_sqrt(nsq, sqrt_floor(nsq)),
                den == nsq * sqrt_floor(nsq);
        assert(m2 * m1 * SCALE * e.x == -(m1 * m2 * SCALE * d.x) && m2 * m1 * SCALE * e.y == -(m1
            * m2 * SCALE * d.y) && m2 * m1 * SCALE * e.z == -(m1 * m2 * SCALE * d.z))
            by (nonlinear_arith)
            requires
                e.x == -d.x && e.y == -d.y && e.z == -d.z;
        lemma_tdiv_neg(m1 * m2 * SCALE * d.x, den);
        lemma_tdiv_neg(m1 * m2 * SCALE * d.y, den);
        lemma_tdiv_neg(m1 * m2 * SCALE * d.z, den);
    }
}

/// Truncating division is symmetric around zero.
pub proof fn lemma_tdiv_neg(a: int, b: int)
    requires
        b > 0,
    ensures
        tdiv(-a, b) == -tdiv(a, b),
{
}

/// Shared executable core of the force law.  `m2` may be a particle mass
/// or a subtree's total mass, hence the wider bound.
pub(crate) fn force_term_exec(m1: i128, m2: i128, p1: Point, p2: Point) -> (r: Vector)
    requires
        1 <= m1 <= MASS_LIMIT,
        1 <= m2 <= MASS_LIMIT * (N_LIMIT as int),
        in_range(p1.v3(), 2 * POS_LIMIT),
        in_range(p2.v3(), 2 * POS_LIMIT),
        norm_sq(vsub(p2.v3(), p1.v3())) != 0,
    ensures
        r.v3() == force_term(m1 as int, m2 as int, p1.v3(), p2.v3()),
        in_range(r.v3(), m1 * m2 * SCALE),
{
    let d = p2.sub(p1);
    proof {
        lemma_norm_sq_zero_iff(d.v3());
    }
    let nsq = d.norm_squared();
    proof {
        assert(nsq <= 3 * (4 * POS_LIMIT) * (4 * POS_LIMIT)) by (nonlinear_arith)
            requires
                nsq == norm_sq(d.v3()),
                in_range(d.v3(), 4 * POS_LIMIT),
                POS_LIMIT == 10_000_000_000i128;
    }
    let sq = crate::scalar::isqrt(nsq);
    proof {
        assert(1 <= sq && sq <= 70_000_000_000i128 && 1 <= nsq * sq
            <= 0x1000_0000_0000_0000_0000_0000_0000_0000 - 1) by (nonlinear_arith)
            requires
                is_sqrt(nsq as int, sq as int),
                1 <= nsq <= 3 * (4 * POS_LIMIT) * (4 * POS_LIMIT),
                POS_LIMIT == 10_000_000_000i128;
        assert(-nsq <= d.x <= nsq && -nsq <= d.y <= nsq && -nsq <= d.z <= nsq)
            by (nonlinear_arith)
            requires
                nsq == norm_sq(d.v3()),
                1 <= nsq;
    }
    let den = nsq * sq;
    proof {
        assert(1 <= m1 * m2 <= 10_000_000_000_000_000_000i128 && 1 <= (m1 * m2) * SCALE
            <= 10_000_000_000_000_000_000_000_000i128) by (nonlinear_arith)
            requires
                1 <= m1 <= MASS_LIMIT,
                1 <= m2 <= MASS_LIMIT * (N_LIMIT as int),
                MASS_LIMIT == 10_000_000i128,
                N_LIMIT == 100_000usize,
                SCALE == 1_000_000i128;
    }
    let mm = m1 * m2;
    let mms = mm * SCALE;
    let fx = force_component(mms, d.x, nsq, sq, den);
    let fy = force_component(mms, d.y, nsq, sq, den);
    let fz = force_component(mms, d.z, nsq, sq, den);
    proof {
        crate::scalar::lemma_sqrt_unique(nsq as int, sq as int);
        assert(m1 * m2 * SCALE == mms) by (nonlinear_arith)
            requires
                mm == m1 * m2,
                mms == mm * SCALE;
        assert(m1 * m2 * SCALE * d.x == mms * d.x && m1 * m2 * SCALE * d.y == mms * d.y && m1 * m2
            * SCALE * d.z == mms * d.z) by (nonlinear_arith)
            requires
                m1 * m2 * SCALE == mms;
    }
    Vector { x: fx, y: fy, z: fz }
}

/// One component of the fused force quotient, with its magnitude bound.
fn force_component(mms: i128, dk: i128, nsq: i128, sq: i128, den: i128) -> (r: i128)
    requires
        1 <= mms <= 10_000_000_000_000_000_000_000_000i128,
        -(4 * POS_LIMIT) <= dk <= 4 * POS_LIMIT,
        -nsq <= dk <= nsq,
        1 <= nsq,
        1 <= sq,
        den == nsq * sq,
        1 <= den <= 0x1000_0000_0000_0000_0000_0000_0000_0000 - 1,
    ensures
        r == tdiv(mms * dk, den as int),
        -mms <= r <= mms,
{
    proof {
        assert(-(mms * den) <= mms * dk <= mms * den && -(mms * (4 * POS_LIMIT)) <= mms * dk <= mms
            * (4 * POS_LIMIT)) by (nonlinear_arith)
            requires
                1 <= mms,
                -(4 * POS_LIMIT) <= dk <= 4 * POS_LIMIT,
                -nsq <= dk <= nsq,
                1 <= nsq,
                1 <= sq,
                den == nsq * sq,
                POS_LIMIT == 10_000_000_000i128;
        assert(mms * (4 * POS_LIMIT) <= 10_000_000_000_000_000_000_000_000i128 * (4
            * 10_000_000_000i128)) by (nonlinear_arith)
            requires
                1 <= mms <= 10_000_000_000_000_000_000_000_000i128,
                POS_LIMIT == 10_000_000_000i128;
        crate::scalar::lemma_tdiv_bound(mms * dk, den as int, mms as int);
    }
    crate::scalar::div_trunc(mms * dk, den)
}

/// The force that the mass `m2` at `p2` exerts on the mass `m1` at `p1`,
/// pulling it toward `p2`.
pub fn newtonian_gravity_force(m1: i128, m2: i128, p1: Point, p2: Point) -> (r: Vector)
    requires
        1 <= m1 <= MASS_LIMIT,
        1 <= m2 <= MASS_LIMIT,
        in_range(p1.v3(), 2 * POS_LIMIT),
        in_range(p2.v3(), 2 * POS_LIMIT),
        p1.v3() != p2.v3(),
    ensures
        r.v3() == force_term(m1 as int, m2 as int, p1.v3(), p2.v3()),
        in_range(r.v3(), m1 * m2 * SCALE),
{
    proof {
        lemma_norm_sq_zero_iff(vsub(p2.v3(), p1.v3()));
        assert(MASS_LIMIT <= MASS_LIMIT * (N_LIMIT as int)) by (nonlinear_arith)
            requires
                MASS_LIMIT == 10_000_000i128,
                N_LIMIT == 100_000usize;
    }
    force_term_exec(m1, m2, p1, p2)
}

/// Force of `source_particle` on `target_particle`.
pub fn force_between_particles(target_particle: GravityParticle, source_particle: GravityParticle)
    -> (r: Vector)
    requires
        valid_particle(target_particle),
        valid_particle(source_particle),
        target_particle.position.v3() != source_particle.position.v3(),
    ensures
        r.v3() == force_term(
            target_particle.mass as int,
            source_particle.mass as int,
            target_particle.position.v3(),
            source_particle.position.v3(),
        ),
        in_range(r.v3(), target_particle.mass * source_particle.mass * SCALE),
{
    newtonian_gravity_force(
        target_particle.mass,
        source_particle.mass,
        target_particle.position,
        source_particle.position,
    )
}

/// No source other than the target itself may share the target's position;
/// otherwise direct summation hits a zero separation.
pub open spec fn direct_ok(s: Seq<GravityParticle>, i: int) -> bool {
    forall|j: int|
        0 <= j < s.len() && j != i ==> (#[trigger] s[j]).position.v3() != s[i].position.v3()
}

/// Sum of the force terms of the first `k` sources on particle `i`,
/// skipping the target itself — self-interaction is excluded by index
/// identity, never by value equality.
pub open spec fn direct_sum(s: Seq<GravityParticle>, i: int, k: int) -> V3
    decreases k,
{
    if k <= 0 {
        vzero()
    } else if k - 1 == i {
        direct_sum(s, i, k - 1)
    } else {
        vadd(
            direct_sum(s, i, k - 1),
            force_term(
                s[i].mass as int,
                s[k - 1].mass as int,
                s[i].position.v3(),
                s[k - 1].position.v3(),
            ),
        )
    }
}

/// Direct O(N) summation of every pairwise force on the target particle,
/// identified by its index.  Fails, rather than fabricating a value, when
/// some other source is coincident with the target.
pub fn forces_by_direct_summation(target_index: usize, all_particles: &Vec<GravityParticle>) -> (r:
    Result<Vector, ForceError>)
    requires
        valid_particles(all_particles@),
        target_index < all_particles@.len(),
    ensures
        match r {
            Ok(v) => {
                &&& direct_ok(all_particles@, target_index as int)
                &&& v.v3() == direct_sum(
                    all_particles@,
                    target_index as int,
                    all_particles@.len() as int,
                )
                &&& in_range(v.v3(), all_particles@.len() * (MASS_LIMIT * MASS_LIMIT * SCALE))
            },
            Err(e) => {
                &&& e == ForceError::DegenerateSeparation
                &&& !direct_ok(all_particles@, target_index as int)
            },
        },
{
    let ghost s = all_particles@;
    let ghost i = target_index as int;
    let ghost tb: int = MASS_LIMIT * MASS_LIMIT * SCALE;
    let target = all_particles[target_index];
    let mut acc = Vector::zero();
    let mut j: usize = 0;
    while j < all_particles.len()
        invariant
            valid_particles(s),
            s == all_particles@,
            i == target_index as int,
            0 <= i < s.len(),
            target == s[i],
            0 <= j <= s.len(),
            acc.v3() == direct_sum(s, i, j as int),
            in_range(acc.v3(), j as int * tb),
            tb == MASS_LIMIT * MASS_LIMIT * SCALE,
            forall|j2: int|
                0 <= j2 < j && j2 != i ==> (#[trigger] s[j2]).position.v3()
                    != s[i].position.v3(),
        decreases s.len() - j,
    {
        if j == target_index {
            // The target itself contributes nothing; only the bound grows.
            proof {
                assert(direct_sum(s, i, j as int + 1) == direct_sum(s, i, j as int));
                assert((j as int + 1) * tb == j as int * tb + tb && tb >= 0) by (nonlinear_arith)
                    requires
                        tb == MASS_LIMIT * MASS_LIMIT * SCALE,
                        MASS_LIMIT == 10_000_000i128,
                        SCALE == 1_000_000i128;
            }
        } else {
            let source = all_particles[j];
            if source.same_position(&target) {
                proof {
                    assert(s[j as int].position.v3() == s[i].position.v3());
                    assert(!direct_ok(s, i));
                }
                return Err(ForceError::DegenerateSeparation);
            }
            proof {
                assert(s[j as int].position.v3() != s[i].position.v3());
            }
            let f = force_between_particles(target, source);
            proof {
                assert(target.mass * source.mass * SCALE <= tb) by (nonlinear_arith)
                    requires
                        1 <= target.mass <= MASS_LIMIT,
                        1 <= source.mass <= MASS_LIMIT,
                        tb == MASS_LIMIT * MASS_LIMIT * SCALE,
                        SCALE == 1_000_000i128,
                        MASS_LIMIT == 10_000_000i128;
                assert((j as int + 1) * tb == j as int * tb + tb && 0 <= (j as int + 1) * tb
                    <= 10_000_000_000_000_000_000_000_000int && s.len() as int * tb
                    <= 10_000_000_000_000_000_000_000_000int) by (nonlinear_arith)
                    requires
                        0 <= j as int + 1 <= s.len() <= 100_000,
                        tb == MASS_LIMIT * MASS_LIMIT * SCALE,
                        MASS_LIMIT == 10_000_000i128,
                        SCALE == 1_000_000i128;
            }
            acc = acc.add(f);
            proof {
                assert(acc.v3() == direct_sum(s, i, j as int + 1));
            }
        }
        j = j + 1;
    }
    Ok(acc)
}

impl GravityParticle {
    /// Whether the two particles' positions coincide componentwise.
    fn same_position(&self, other: &GravityParticle) -> (r: bool)
        ensures
            r == (self.position.v3() == other.position.v3()),
    {
        self.position.x == other.position.x && self.position.y == other.position.y
            && self.position.z == other.position.z
    }
}

} // verus!
