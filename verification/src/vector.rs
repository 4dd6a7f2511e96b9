//! Three-dimensional fixed-point vectors.
//!
//! `Vector` is the executable value type; `V3` is its mathematical model,
//! a triple of unbounded integers used in specifications.

use vstd::prelude::*;

use crate::scalar::{is_sqrt, sqrt_floor, tdiv, SCALE};

verus! {

/// Mathematical model of a vector: three unbounded integers.
pub struct V3 {
    pub x: int,
    pub y: int,
    pub z: int,
}

pub open spec fn vzero() -> V3 {
    V3 { x: 0, y: 0, z: 0 }
}

pub open spec fn vadd(a: V3, b: V3) -> V3 {
    V3 { x: a.x + b.x, y: a.y + b.y, z: a.z + b.z }
}

pub open spec fn vsub(a: V3, b: V3) -> V3 {
    V3 { x: a.x - b.x, y: a.y - b.y, z: a.z - b.z }
}

pub open spec fn vneg(a: V3) -> V3 {
    V3 { x: -a.x, y: -a.y, z: -a.z }
}

pub open spec fn vscale(k: int, a: V3) -> V3 {
    V3 { x: k * a.x, y: k * a.y, z: k * a.z }
}

/// Squared Euclidean norm.
pub open spec fn norm_sq(a: V3) -> int {
    a.x * a.x + a.y * a.y + a.z * a.z
}

/// Every component's magnitude is bounded by `m`.
pub open spec fn in_range(a: V3, m: int) -> bool {
    -m <= a.x <= m && -m <= a.y <= m && -m <= a.z <= m
}

/// Largest component magnitude the norm operations accept: the sum of
/// three squares of such components still fits an `i128`.
pub const COMPONENT_LIMIT: i128 = 0x4000_0000_0000_0000;

/// A 3-D vector of fixed-point coordinates.  Also used for points: a point
/// is its offset from the origin.
#[derive(Clone, Copy, PartialEq, Eq, Structural, Debug)]
pub struct Vector {
    pub x: i128,
    pub y: i128,
    pub z: i128,
}

/// A position in space: a point is its offset from the origin.
pub type Point = Vector;

impl Vector {
    /// The mathematical value of this vector.
    pub open spec fn v3(self) -> V3 {
        V3 { x: self.x as int, y: self.y as int, z: self.z as int }
    }

    pub fn zero() -> (r: Vector)
        ensures
            r.v3() == vzero(),
    {
        Vector { x: 0, y: 0, z: 0 }
    }

    pub fn new(x: i128, y: i128, z: i128) -> (r: Vector)
        ensures
            r.v3() == (V3 { x: x as int, y: y as int, z: z as int }),
    {
        Vector { x, y, z }
    }

    pub fn add(self, other: Vector) -> (r: Vector)
        requires
            i128::MIN <= self.x + other.x <= i128::MAX,
            i128::MIN <= self.y + other.y <= i128::MAX,
            i128::MIN <= self.z + other.z <= i128::MAX,
        ensures
            r.v3() == vadd(self.v3(), other.v3()),
    {
        Vector { x: self.x + other.x, y: self.y + other.y, z: self.z + other.z }
    }

    pub fn sub(self, other: Vector) -> (r: Vector)
        requires
            i128::MIN <= self.x - other.x <= i128::MAX,
            i128::MIN <= self.y - other.y <= i128::MAX,
            i128::MIN <= self.z - other.z <= i128::MAX,
        ensures
            r.v3() == vsub(self.v3(), other.v3()),
    {
        Vector { x: self.x - other.x, y: self.y - other.y, z: self.z - other.z }
    }

    pub fn scale(self, k: i128) -> (r: Vector)
        requires
            i128::MIN <= k * self.x <= i128::MAX,
            i128::MIN <= k * self.y <= i128::MAX,
            i128::MIN <= k * self.z <= i128::MAX,
        ensures
            r.v3() == vscale(k as int, self.v3()),
    {
        Vector { x: k * self.x, y: k * self.y, z: k * self.z }
    }

    /// Squared norm; the component bound keeps the sum inside `i128`.
    pub fn norm_squared(self) -> (r: i128)
        requires
            in_range(self.v3(), COMPONENT_LIMIT as int),
        ensures
            r == norm_sq(self.v3()),
            r >= 0,
    {
        proof {
            let m: int = COMPONENT_LIMIT as int;
            assert(0 <= self.x * self.x <= m * m && 0 <= self.y * self.y <= m * m && 0 <= self.z
                * self.z <= m * m) by (nonlinear_arith)
                requires
                    m == COMPONENT_LIMIT as int,
                    in_range(self.v3(), m);
        }
        self.x * self.x + self.y * self.y + self.z * self.z
    }

    /// Euclidean norm, rounded down to a whole number of fixed-point units.
    pub fn norm(self) -> (r: i128)
        requires
            in_range(self.v3(), COMPONENT_LIMIT as int),
        ensures
            r == sqrt_floor(norm_sq(self.v3())),
            is_sqrt(norm_sq(self.v3()), r as int),
    {
        let nsq = self.norm_squared();
        crate::scalar::isqrt(nsq)
    }

    /// Unit direction of a nonzero vector, in fixed-point: each component
    /// is `SCALE * c / |self|`, rounded toward zero.
    pub fn normalize(self) -> (r: Vector)
        requires
            in_range(self.v3(), COMPONENT_LIMIT as int),
            norm_sq(self.v3()) > 0,
        ensures
            r.v3() == vnormalize(self.v3()),
    {
        let n = self.norm();
        proof {
            crate::scalar::lemma_sqrt_exists(norm_sq(self.v3()));
            assert(n >= 1) by (nonlinear_arith)
                requires
                    is_sqrt(norm_sq(self.v3()), n as int),
                    norm_sq(self.v3()) > 0;
            let m: int = COMPONENT_LIMIT as int;
            assert(-(m * SCALE) <= SCALE * self.x <= m * SCALE && -(m * SCALE) <= SCALE * self.y
                <= m * SCALE && -(m * SCALE) <= SCALE * self.z <= m * SCALE) by (nonlinear_arith)
                requires
                    m == COMPONENT_LIMIT as int,
                    in_range(self.v3(), m),
                    SCALE == 1_000_000;
        }
        Vector {
            x: crate::scalar::div_trunc(SCALE * self.x, n),
            y: crate::scalar::div_trunc(SCALE * self.y, n),
            z: crate::scalar::div_trunc(SCALE * self.z, n),
        }
    }
}

/// Fixed-point unit direction: `SCALE * a / |a|`, componentwise, rounded
/// toward zero.
pub open spec fn vnormalize(a: V3) -> V3 {
    let n = sqrt_floor(norm_sq(a));
    V3 {
        x: tdiv(SCALE * a.x, n),
        y: tdiv(SCALE * a.y, n),
        z: tdiv(SCALE * a.z, n),
    }
}

} // verus!
