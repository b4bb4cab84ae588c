//! Planar vector primitives used to decide whether two track segments meeting
//! at a junction continue each other in a straight line.
//!
//! Coordinates are integers in the units of some planar projection, so every
//! predicate here is exact: no rounding is involved in any decision.
use vstd::prelude::*;

verus! {

/// A vertex of a polyline, in integer units of a planar projection.
#[derive(Clone, Copy, Debug, PartialEq, Eq, Structural)]
pub struct Point {
    pub x: i32,
    pub y: i32,
}

/// The difference of two points.
#[derive(Clone, Copy, Debug, PartialEq, Eq, Structural)]
pub struct Vector {
    pub dx: i64,
    pub dy: i64,
}

/// How far two tangents may deviate from being exactly opposite and still
/// count as one through route.
///
/// The bound is on the tangent of the deviation angle, as the fraction
/// `num / den`. A zero `den` stands for an unbounded tangent: every deviation
/// below a right angle is then accepted.
#[derive(Clone, Copy, Debug, PartialEq, Eq, Structural)]
pub struct Tolerance {
    pub num: u32,
    pub den: u32,
}

/// Largest magnitude of a component of the difference of two points.
pub open spec fn span() -> int {
    0x1_0000_0000
}

pub open spec fn magnitude(x: int) -> int {
    if x < 0 {
        -x
    } else {
        x
    }
}

/// The vector that leads from `from` to `to`.
pub open spec fn displacement(from: Point, to: Point) -> (int, int) {
    (to.x - from.x, to.y - from.y)
}

pub open spec fn dot(u: (int, int), v: (int, int)) -> int {
    u.0 * v.0 + u.1 * v.1
}

pub open spec fn cross(u: (int, int), v: (int, int)) -> int {
    u.0 * v.1 - u.1 * v.0
}

/// Whether `u` and `v` point in opposite directions, up to the tolerance:
/// the angle between `u` and the reverse of `v` is below a right angle and its
/// tangent is at most `tolerance.num / tolerance.den`.
pub open spec fn opposite_within(u: (int, int), v: (int, int), tolerance: Tolerance) -> bool {
    &&& dot(u, v) < 0
    &&& magnitude(cross(u, v)) * tolerance.den <= tolerance.num * (-dot(u, v))
}

proof fn lemma_product_bound(a: int, b: int, m: int, n: int)
    requires
        -m <= a <= m,
        -n <= b <= n,
    ensures
        -(m * n) <= a * b <= m * n,
{
    assert(-(m * n) <= a * b <= m * n) by (nonlinear_arith)
        requires
            -m <= a <= m,
            -n <= b <= n,
    ;
}

impl Vector {
    pub open spec fn in_span(&self) -> bool {
        &&& -span() <= self.dx <= span()
        &&& -span() <= self.dy <= span()
    }

    pub open spec fn components(&self) -> (int, int) {
        (self.dx as int, self.dy as int)
    }

    /// The vector that leads from `from` to `to`.
    pub fn between(from: Point, to: Point) -> (v: Vector)
        ensures
            v.in_span(),
            v.components() == displacement(from, to),
    {
        let fx: i64 = from.x as i64;
        let fy: i64 = from.y as i64;
        let tx: i64 = to.x as i64;
        let ty: i64 = to.y as i64;
        Vector { dx: tx - fx, dy: ty - fy }
    }

    /// The scalar product of two vectors.
    pub fn dot(&self, other: &Vector) -> (d: i128)
        requires
            self.in_span(),
            other.in_span(),
        ensures
            d == dot(self.components(), other.components()),
            -2 * span() * span() <= d <= 2 * span() * span(),
    {
        proof {
            lemma_product_bound(self.dx as int, other.dx as int, span(), span());
            lemma_product_bound(self.dy as int, other.dy as int, span(), span());
        }
        let ax: i128 = self.dx as i128;
        let ay: i128 = self.dy as i128;
        let bx: i128 = other.dx as i128;
        let by: i128 = other.dy as i128;
        ax * bx + ay * by
    }

    /// The third component of the vector product of two planar vectors.
    pub fn cross(&self, other: &Vector) -> (c: i128)
        requires
            self.in_span(),
            other.in_span(),
        ensures
            c == cross(self.components(), other.components()),
            -2 * span() * span() <= c <= 2 * span() * span(),
    {
        proof {
            lemma_product_bound(self.dx as int, other.dy as int, span(), span());
            lemma_product_bound(self.dy as int, other.dx as int, span(), span());
        }
        let ax: i128 = self.dx as i128;
        let ay: i128 = self.dy as i128;
        let bx: i128 = other.dx as i128;
        let by: i128 = other.dy as i128;
        ax * by - ay * bx
    }

    /// Whether the two vectors are opposite up to the tolerance.
    pub fn opposes(&self, other: &Vector, tolerance: Tolerance) -> (b: bool)
        requires
            self.in_span(),
            other.in_span(),
        ensures
            b == opposite_within(self.components(), other.components(), tolerance),
    {
        let d: i128 = self.dot(other);
        if d >= 0 {
            return false;
        }
        let c: i128 = self.cross(other);
        let deviation: i128 = if c < 0 {
            -c
        } else {
            c
        };
        let den: i128 = tolerance.den as i128;
        let num: i128 = tolerance.num as i128;
        proof {
            lemma_product_bound(deviation as int, den as int, 2 * span() * span(), span());
            lemma_product_bound(num as int, -d as int, span(), 2 * span() * span());
        }
        deviation * den <= num * (-d)
    }
}

} // verus!
