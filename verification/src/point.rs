//! Three-dimensional points/vectors over fixed-point coordinates, with the
//! arithmetic the caster needs: add, subtract, negate, dot, cross, distance,
//! the two normalization variants, and componentwise interpolation.

use vstd::prelude::*;
use crate::math::{
    div_floor, interp, isqrt, lemma_mul_bound, spec_interp, sqrt_floor, SCALE, VEC_BOUND,
};

verus! {

/// A point (or free vector) with fixed-point coordinates: a field of `n`
/// stands for the real coordinate `n / SCALE`.
#[derive(Clone, Copy, Debug, PartialEq, Eq, Structural)]
pub struct Point {
    pub x: i64,
    pub y: i64,
    pub z: i64,
}

/// The dot product of two coordinate triples, as a mathematical integer.
pub open spec fn dot3(ax: int, ay: int, az: int, bx: int, by: int, bz: int) -> int {
    ax * bx + ay * by + az * bz
}

/// The dot product of two points.
pub open spec fn spec_dot(a: Point, b: Point) -> int {
    dot3(a.x as int, a.y as int, a.z as int, b.x as int, b.y as int, b.z as int)
}

/// All three coordinates are bounded by `bound` in magnitude.
pub open spec fn coords_bounded(p: Point, bound: int) -> bool {
    &&& -bound <= p.x <= bound
    &&& -bound <= p.y <= bound
    &&& -bound <= p.z <= bound
}

impl Point {
    /// Builds the point with the given coordinates.
    pub fn new(x: i64, y: i64, z: i64) -> (p: Point)
        ensures
            p == (Point { x, y, z }),
    {
        Point { x, y, z }
    }

    /// The componentwise sum.
    pub fn add(self, other: Point) -> (p: Point)
        requires
            i64::MIN <= self.x + other.x <= i64::MAX,
            i64::MIN <= self.y + other.y <= i64::MAX,
            i64::MIN <= self.z + other.z <= i64::MAX,
        ensures
            p.x == self.x + other.x,
            p.y == self.y + other.y,
            p.z == self.z + other.z,
    {
        Point { x: self.x + other.x, y: self.y + other.y, z: self.z + other.z }
    }

    /// The componentwise difference.
    pub fn sub(self, other: Point) -> (p: Point)
        requires
            i64::MIN <= self.x - other.x <= i64::MAX,
            i64::MIN <= self.y - other.y <= i64::MAX,
            i64::MIN <= self.z - other.z <= i64::MAX,
        ensures
            p.x == self.x - other.x,
            p.y == self.y - other.y,
            p.z == self.z - other.z,
    {
        Point { x: self.x - other.x, y: self.y - other.y, z: self.z - other.z }
    }

    /// The componentwise negation.
    pub fn neg(self) -> (p: Point)
        requires
            i64::MIN < self.x,
            i64::MIN < self.y,
            i64::MIN < self.z,
        ensures
            p.x == -self.x,
            p.y == -self.y,
            p.z == -self.z,
    {
        Point { x: -self.x, y: -self.y, z: -self.z }
    }

    /// The dot product.
    pub fn dot(self, other: Point) -> (d: i64)
        requires
            coords_bounded(self, VEC_BOUND as int),
            coords_bounded(other, VEC_BOUND as int),
        ensures
            d == spec_dot(self, other),
    {
        proof {
            lemma_mul_bound(self.x as int, other.x as int, VEC_BOUND as int, VEC_BOUND as int);
            lemma_mul_bound(self.y as int, other.y as int, VEC_BOUND as int, VEC_BOUND as int);
            lemma_mul_bound(self.z as int, other.z as int, VEC_BOUND as int, VEC_BOUND as int);
        }
        let d: i128 = (self.x as i128) * (other.x as i128) + (self.y as i128) * (other.y as i128)
            + (self.z as i128) * (other.z as i128);
        d as i64
    }

    /// The cross product.
    pub fn cross(&self, other: &Point) -> (p: Point)
        requires
            coords_bounded(*self, VEC_BOUND as int),
            coords_bounded(*other, VEC_BOUND as int),
        ensures
            p.x == self.y * other.z - self.z * other.y,
            p.y == self.z * other.x - self.x * other.z,
            p.z == self.x * other.y - self.y * other.x,
    {
        proof {
            lemma_mul_bound(self.y as int, other.z as int, VEC_BOUND as int, VEC_BOUND as int);
            lemma_mul_bound(self.z as int, other.y as int, VEC_BOUND as int, VEC_BOUND as int);
            lemma_mul_bound(self.z as int, other.x as int, VEC_BOUND as int, VEC_BOUND as int);
            lemma_mul_bound(self.x as int, other.z as int, VEC_BOUND as int, VEC_BOUND as int);
            lemma_mul_bound(self.x as int, other.y as int, VEC_BOUND as int, VEC_BOUND as int);
            lemma_mul_bound(self.y as int, other.x as int, VEC_BOUND as int, VEC_BOUND as int);
        }
        let px: i128 = (self.y as i128) * (other.z as i128) - (self.z as i128) * (other.y as i128);
        let py: i128 = (self.z as i128) * (other.x as i128) - (self.x as i128) * (other.z as i128);
        let pz: i128 = (self.x as i128) * (other.y as i128) - (self.y as i128) * (other.x as i128);
        Point { x: px as i64, y: py as i64, z: pz as i64 }
    }

    /// The floor of the Euclidean distance to `other`, in fixed-point steps.
    pub fn distance(&self, other: Point) -> (d: i64)
        requires
            coords_bounded(*self, VEC_BOUND as int),
            coords_bounded(other, VEC_BOUND as int),
        ensures
            d == sqrt_floor(
                dot3(
                    self.x - other.x,
                    self.y - other.y,
                    self.z - other.z,
                    self.x - other.x,
                    self.y - other.y,
                    self.z - other.z,
                ),
            ),
    {
        let dx: i128 = self.x as i128 - other.x as i128;
        let dy: i128 = self.y as i128 - other.y as i128;
        let dz: i128 = self.z as i128 - other.z as i128;
        proof {
            lemma_mul_bound(dx as int, dx as int, 2 * (VEC_BOUND as int), 2 * (VEC_BOUND as int));
            lemma_mul_bound(dy as int, dy as int, 2 * (VEC_BOUND as int), 2 * (VEC_BOUND as int));
            lemma_mul_bound(dz as int, dz as int, 2 * (VEC_BOUND as int), 2 * (VEC_BOUND as int));
            assert(dx * dx >= 0) by (nonlinear_arith);
            assert(dy * dy >= 0) by (nonlinear_arith);
            assert(dz * dz >= 0) by (nonlinear_arith);
        }
        let sq: i128 = dx * dx + dy * dy + dz * dz;
        let root = isqrt(sq as u128);
        proof {
            crate::math::lemma_sqrt_floor_le(sq as int, 0x1_0000_0000int);
        }
        root as i64
    }

    /// The floor of the distance to the origin, in fixed-point steps.
    pub fn distance_to_origin(&self) -> (d: i64)
        requires
            coords_bounded(*self, VEC_BOUND as int),
        ensures
            d == sqrt_floor(spec_dot(*self, *self)),
    {
        self.distance(Point { x: 0, y: 0, z: 0 })
    }

    /// Divides by the squared length (after rescaling) — a deliberate
    /// shortcut, kept under its own name; `unit` is the true unit-length
    /// normalization.
    pub fn normalized(self) -> (p: Point)
        requires
            coords_bounded(self, VEC_BOUND as int),
            spec_dot(self, self) > 0,
        ensures
            p.x == self.x * SCALE * SCALE / spec_dot(self, self),
            p.y == self.y * SCALE * SCALE / spec_dot(self, self),
            p.z == self.z * SCALE * SCALE / spec_dot(self, self),
    {
        let len2: i128 = self.len2();
        proof {
            lemma_scaled_coord_bounds(self);
        }
        let px = div_floor((self.x as i128) * (SCALE as i128) * (SCALE as i128), len2);
        let py = div_floor((self.y as i128) * (SCALE as i128) * (SCALE as i128), len2);
        let pz = div_floor((self.z as i128) * (SCALE as i128) * (SCALE as i128), len2);
        proof {
            crate::math::lemma_div_range((self.x as int) * SCALE * SCALE, len2 as int);
            crate::math::lemma_div_range((self.y as int) * SCALE * SCALE, len2 as int);
            crate::math::lemma_div_range((self.z as int) * SCALE * SCALE, len2 as int);
        }
        Point { x: px as i64, y: py as i64, z: pz as i64 }
    }

    /// Scales the vector to unit length (in fixed-point steps), rounding each
    /// coordinate toward negative infinity.
    pub fn unit(self) -> (p: Point)
        requires
            coords_bounded(self, VEC_BOUND as int),
            spec_dot(self, self) > 0,
        ensures
            p.x == self.x * SCALE / sqrt_floor(spec_dot(self, self)),
            p.y == self.y * SCALE / sqrt_floor(spec_dot(self, self)),
            p.z == self.z * SCALE / sqrt_floor(spec_dot(self, self)),
    {
        let len2: i128 = self.len2();
        let root = isqrt(len2 as u128) as i128;
        proof {
            crate::math::lemma_sqrt_floor_bounds(len2 as int);
            if sqrt_floor(len2 as int) == 0 {
                assert((len2 as int) < (0 + 1) * (0 + 1));
            }
            lemma_scaled_coord_bounds(self);
            lemma_mul_bound(self.x as int, SCALE as int, VEC_BOUND as int, SCALE as int);
            lemma_mul_bound(self.y as int, SCALE as int, VEC_BOUND as int, SCALE as int);
            lemma_mul_bound(self.z as int, SCALE as int, VEC_BOUND as int, SCALE as int);
        }
        let px = div_floor((self.x as i128) * (SCALE as i128), root);
        let py = div_floor((self.y as i128) * (SCALE as i128), root);
        let pz = div_floor((self.z as i128) * (SCALE as i128), root);
        proof {
            crate::math::lemma_div_range((self.x as int) * SCALE, root as int);
            crate::math::lemma_div_range((self.y as int) * SCALE, root as int);
            crate::math::lemma_div_range((self.z as int) * SCALE, root as int);
        }
        Point { x: px as i64, y: py as i64, z: pz as i64 }
    }

    /// Scales by the fixed-point factor `k / SCALE`, rounding each coordinate
    /// toward negative infinity.
    pub fn mul(self, k: i64) -> (p: Point)
        requires
            coords_bounded(self, VEC_BOUND as int),
            -VEC_BOUND <= k <= VEC_BOUND,
        ensures
            p.x == self.x * k / (SCALE as int),
            p.y == self.y * k / (SCALE as int),
            p.z == self.z * k / (SCALE as int),
    {
        proof {
            lemma_mul_bound(self.x as int, k as int, VEC_BOUND as int, VEC_BOUND as int);
            lemma_mul_bound(self.y as int, k as int, VEC_BOUND as int, VEC_BOUND as int);
            lemma_mul_bound(self.z as int, k as int, VEC_BOUND as int, VEC_BOUND as int);
        }
        let px = div_floor((self.x as i128) * (k as i128), SCALE as i128);
        let py = div_floor((self.y as i128) * (k as i128), SCALE as i128);
        let pz = div_floor((self.z as i128) * (k as i128), SCALE as i128);
        proof {
            crate::math::lemma_div_range((self.x as int) * (k as int), SCALE as int);
            crate::math::lemma_div_range((self.y as int) * (k as int), SCALE as int);
            crate::math::lemma_div_range((self.z as int) * (k as int), SCALE as int);
        }
        Point { x: px as i64, y: py as i64, z: pz as i64 }
    }

    /// Divides by the fixed-point factor `k / SCALE` (`k` positive), rounding
    /// each coordinate toward negative infinity.
    pub fn div(self, k: i64) -> (p: Point)
        requires
            coords_bounded(self, VEC_BOUND as int),
            0 < k <= VEC_BOUND,
        ensures
            p.x == self.x * SCALE / (k as int),
            p.y == self.y * SCALE / (k as int),
            p.z == self.z * SCALE / (k as int),
    {
        proof {
            lemma_mul_bound(self.x as int, SCALE as int, VEC_BOUND as int, SCALE as int);
            lemma_mul_bound(self.y as int, SCALE as int, VEC_BOUND as int, SCALE as int);
            lemma_mul_bound(self.z as int, SCALE as int, VEC_BOUND as int, SCALE as int);
        }
        let px = div_floor((self.x as i128) * (SCALE as i128), k as i128);
        let py = div_floor((self.y as i128) * (SCALE as i128), k as i128);
        let pz = div_floor((self.z as i128) * (SCALE as i128), k as i128);
        proof {
            crate::math::lemma_div_range((self.x as int) * (SCALE as int), k as int);
            crate::math::lemma_div_range((self.y as int) * (SCALE as int), k as int);
            crate::math::lemma_div_range((self.z as int) * (SCALE as int), k as int);
        }
        Point { x: px as i64, y: py as i64, z: pz as i64 }
    }

    /// Reads the point as a color, one channel per coordinate, reduced
    /// modulo 255.
    pub fn to_color_u8(self) -> (c: crate::shape::Color)
        requires
            0 <= self.x,
            0 <= self.y,
            0 <= self.z,
        ensures
            c.r == self.x % 255,
            c.g == self.y % 255,
            c.b == self.z % 255,
    {
        crate::shape::Color {
            r: ((self.x as u64) % 255) as u8,
            g: ((self.y as u64) % 255) as u8,
            b: ((self.z as u64) % 255) as u8,
        }
    }

    /// Reads the point as a color after rescaling each fixed-point coordinate
    /// by 255 (so 0..=SCALE maps onto the channel range), reduced modulo 255.
    pub fn to_color_scaled(self) -> (c: crate::shape::Color)
        requires
            0 <= self.x <= VEC_BOUND,
            0 <= self.y <= VEC_BOUND,
            0 <= self.z <= VEC_BOUND,
        ensures
            c.r == (self.x * 255 / (SCALE as int)) % 255,
            c.g == (self.y * 255 / (SCALE as int)) % 255,
            c.b == (self.z * 255 / (SCALE as int)) % 255,
    {
        crate::shape::Color {
            r: ((self.x as u64) * 255 / (SCALE as u64) % 255) as u8,
            g: ((self.y as u64) * 255 / (SCALE as u64) % 255) as u8,
            b: ((self.z as u64) * 255 / (SCALE as u64) % 255) as u8,
        }
    }

    /// The squared length, exact in `i128`.
    fn len2(self) -> (d: i128)
        requires
            coords_bounded(self, VEC_BOUND as int),
        ensures
            d == spec_dot(self, self),
    {
        proof {
            lemma_mul_bound(self.x as int, self.x as int, VEC_BOUND as int, VEC_BOUND as int);
            lemma_mul_bound(self.y as int, self.y as int, VEC_BOUND as int, VEC_BOUND as int);
            lemma_mul_bound(self.z as int, self.z as int, VEC_BOUND as int, VEC_BOUND as int);
        }
        (self.x as i128) * (self.x as i128) + (self.y as i128) * (self.y as i128)
            + (self.z as i128) * (self.z as i128)
    }
}

/// Products of a coordinate with the scale stay well inside `i128`.
proof fn lemma_scaled_coord_bounds(p: Point)
    requires
        coords_bounded(p, VEC_BOUND as int),
    ensures
        -(VEC_BOUND as int) * SCALE * SCALE <= p.x * SCALE * SCALE <= (VEC_BOUND as int) * SCALE
            * SCALE,
        -(VEC_BOUND as int) * SCALE * SCALE <= p.y * SCALE * SCALE <= (VEC_BOUND as int) * SCALE
            * SCALE,
        -(VEC_BOUND as int) * SCALE * SCALE <= p.z * SCALE * SCALE <= (VEC_BOUND as int) * SCALE
            * SCALE,
        spec_dot(p, p) >= 0,
{
    lemma_mul_bound(p.x as int, (SCALE * SCALE) as int, VEC_BOUND as int, (SCALE * SCALE) as int);
    lemma_mul_bound(p.y as int, (SCALE * SCALE) as int, VEC_BOUND as int, (SCALE * SCALE) as int);
    lemma_mul_bound(p.z as int, (SCALE * SCALE) as int, VEC_BOUND as int, (SCALE * SCALE) as int);
    assert(p.x * SCALE * SCALE == p.x * (SCALE * SCALE)) by (nonlinear_arith);
    assert(p.y * SCALE * SCALE == p.y * (SCALE * SCALE)) by (nonlinear_arith);
    assert(p.z * SCALE * SCALE == p.z * (SCALE * SCALE)) by (nonlinear_arith);
    assert(p.x * p.x >= 0) by (nonlinear_arith);
    assert(p.y * p.y >= 0) by (nonlinear_arith);
    assert(p.z * p.z >= 0) by (nonlinear_arith);
}

/// The scalar interpolation `a*(1 - t) + b*t`, with `t` a fixed-point
/// fraction between 0 and `SCALE`.
pub fn lerp(a: i64, b: i64, t: i64) -> (r: i64)
    requires
        -VEC_BOUND <= a <= VEC_BOUND,
        -VEC_BOUND <= b <= VEC_BOUND,
        0 <= t <= SCALE,
    ensures
        r == spec_interp(a as int, b as int, t as int, SCALE as int),
        a <= b ==> a <= r <= b,
        b <= a ==> b <= r <= a,
{
    interp(a, b, t, SCALE)
}

/// Componentwise interpolation from `a` to `b`, with a fixed-point fraction
/// per coordinate.
pub fn lerp_points(a: Point, b: Point, t: Point) -> (r: Point)
    requires
        coords_bounded(a, VEC_BOUND as int),
        coords_bounded(b, VEC_BOUND as int),
        0 <= t.x <= SCALE,
        0 <= t.y <= SCALE,
        0 <= t.z <= SCALE,
    ensures
        r.x == spec_interp(a.x as int, b.x as int, t.x as int, SCALE as int),
        r.y == spec_interp(a.y as int, b.y as int, t.y as int, SCALE as int),
        r.z == spec_interp(a.z as int, b.z as int, t.z as int, SCALE as int),
        coords_bounded(r, VEC_BOUND as int),
{
    Point { x: lerp(a.x, b.x, t.x), y: lerp(a.y, b.y, t.y), z: lerp(a.z, b.z, t.z) }
}

} // verus!
