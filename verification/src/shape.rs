//! Primitives: colors, collision results, the analytic ray/sphere
//! intersection with its exact root-selection policy, and the closed set of
//! castable primitives.

use vstd::prelude::*;
use crate::math::{
    div_floor, isqrt, lemma_div_range, lemma_mul_bound, lemma_sqrt_floor_bounds,
    lemma_sqrt_floor_le, sqrt_floor, COORD_BOUND, DIST_BOUND, SCALE,
};
use crate::point::{coords_bounded, dot3, Point};
use crate::ray::Ray;

verus! {

/// An 8-bit-per-channel RGB color.
#[derive(Clone, Copy, Debug, PartialEq, Eq, Structural)]
pub struct Color {
    pub r: u8,
    pub g: u8,
    pub b: u8,
}

/// The outcome of casting a ray at a primitive or a scene: either nothing is
/// met, or the nearest point met, the ray parameter there (in fixed-point
/// steps, for ordering), and the surface color.
#[derive(Clone, Copy, Debug, PartialEq, Eq, Structural)]
pub enum CollisionResult {
    Miss,
    PointCollision { point: Point, distance: i64, color: Color },
}

/// A sphere with a fixed-point center and radius and a surface color.
#[derive(Clone, Copy, Debug, PartialEq, Eq, Structural)]
pub struct Sphere {
    pub center: Point,
    pub radius: i64,
    pub color: Color,
}

/// The squared length of the ray direction (`a` in the quadratic).
pub open spec fn spec_a(r: Ray) -> int {
    dot3(
        r.direction.x as int,
        r.direction.y as int,
        r.direction.z as int,
        r.direction.x as int,
        r.direction.y as int,
        r.direction.z as int,
    )
}

/// The direction/offset product (`b` in the quadratic), with the offset taken
/// from the sphere center to the ray origin.
pub open spec fn spec_b(s: Sphere, r: Ray) -> int {
    dot3(
        r.direction.x as int,
        r.direction.y as int,
        r.direction.z as int,
        r.origin.x - s.center.x,
        r.origin.y - s.center.y,
        r.origin.z - s.center.z,
    )
}

/// The squared offset minus the squared radius (`c` in the quadratic).
pub open spec fn spec_c(s: Sphere, r: Ray) -> int {
    dot3(
        r.origin.x - s.center.x,
        r.origin.y - s.center.y,
        r.origin.z - s.center.z,
        r.origin.x - s.center.x,
        r.origin.y - s.center.y,
        r.origin.z - s.center.z,
    ) - s.radius * s.radius
}

/// The discriminant `b^2 - a*c`; the ray meets the sphere's surface in real
/// points exactly when it is non-negative.
pub open spec fn spec_delta(s: Sphere, r: Ray) -> int {
    spec_b(s, r) * spec_b(s, r) - spec_a(r) * spec_c(s, r)
}

/// The collision record for the root with numerator `num`: the ray parameter
/// is `num * SCALE / a`, rounded down, and the point lies that far along the
/// ray.
pub open spec fn spec_collision(s: Sphere, r: Ray, num: int) -> CollisionResult {
    let t = num * (SCALE as int) / spec_a(r);
    CollisionResult::PointCollision {
        point: Point {
            x: (r.origin.x + r.direction.x * t / (SCALE as int)) as i64,
            y: (r.origin.y + r.direction.y * t / (SCALE as int)) as i64,
            z: (r.origin.z + r.direction.z * t / (SCALE as int)) as i64,
        },
        distance: t as i64,
        color: s.color,
    }
}

/// The intersection policy: with roots `t1 >= t2` (numerators over the
/// positive denominator `a`), prefer `t1` when `t1 > 0` and `t2` is behind
/// the origin, otherwise take `t2` when it is positive, otherwise miss.
/// This picks the smaller positive root and never reports a hit behind the
/// origin.
pub open spec fn spec_cast(s: Sphere, r: Ray) -> CollisionResult {
    let delta = spec_delta(s, r);
    if delta < 0 {
        CollisionResult::Miss
    } else {
        let sq = sqrt_floor(delta);
        let num1 = -spec_b(s, r) + sq;
        let num2 = -spec_b(s, r) - sq;
        if num1 > 0 && (num2 > num1 || num2 < 0) {
            spec_collision(s, r, num1)
        } else if num2 > 0 {
            spec_collision(s, r, num2)
        } else {
            CollisionResult::Miss
        }
    }
}

impl Sphere {
    /// A sphere the intersection math accepts: center within `COORD_BOUND`
    /// and a positive radius no larger than `COORD_BOUND`.
    pub open spec fn wf(self) -> bool {
        &&& coords_bounded(self.center, COORD_BOUND as int)
        &&& 0 < self.radius <= COORD_BOUND
    }

    /// Builds a sphere from center, radius and color.
    pub fn new(o: Point, r: i64, color: Color) -> (s: Sphere)
        ensures
            s == (Sphere { center: o, radius: r, color }),
    {
        Sphere { center: o, radius: r, color }
    }

    /// The sphere's surface color.
    pub fn get_color(&self) -> (c: Color)
        ensures
            c == self.color,
    {
        self.color
    }

    /// Casts `r` against the sphere and reports the nearest positive
    /// intersection under the selection policy of `spec_cast`.
    pub fn ray_cast(&self, r: Ray) -> (res: CollisionResult)
        requires
            self.wf(),
            r.wf(),
        ensures
            res == spec_cast(*self, r),
            res is PointCollision ==> 0 <= res->distance <= DIST_BOUND,
    {
        let dx = r.direction.x as i128;
        let dy = r.direction.y as i128;
        let dz = r.direction.z as i128;
        let fx = r.origin.x as i128 - self.center.x as i128;
        let fy = r.origin.y as i128 - self.center.y as i128;
        let fz = r.origin.z as i128 - self.center.z as i128;
        let rad = self.radius as i128;
        proof {
            let cb = COORD_BOUND as int;
            lemma_mul_bound(dx as int, dx as int, cb, cb);
            lemma_mul_bound(dy as int, dy as int, cb, cb);
            lemma_mul_bound(dz as int, dz as int, cb, cb);
            lemma_mul_bound(dx as int, fx as int, cb, 2 * cb);
            lemma_mul_bound(dy as int, fy as int, cb, 2 * cb);
            lemma_mul_bound(dz as int, fz as int, cb, 2 * cb);
            lemma_mul_bound(fx as int, fx as int, 2 * cb, 2 * cb);
            lemma_mul_bound(fy as int, fy as int, 2 * cb, 2 * cb);
            lemma_mul_bound(fz as int, fz as int, 2 * cb, 2 * cb);
            lemma_mul_bound(rad as int, rad as int, cb, cb);
        }
        let a = dx * dx + dy * dy + dz * dz;
        let b = dx * fx + dy * fy + dz * fz;
        let c = fx * fx + fy * fy + fz * fz - rad * rad;
        proof {
            lemma_a_positive(r);
            assert(COORD_BOUND == 65536);
            lemma_mul_bound(b as int, b as int, 0x6_0000_0000int, 0x6_0000_0000int);
            lemma_mul_bound(a as int, c as int, 0x3_0000_0000int, 0xD_0000_0000int);
        }
        let delta = b * b - a * c;
        if delta < 0 {
            return CollisionResult::Miss;
        }
        let sq128 = isqrt(delta as u128);
        let sq = sq128 as i128;
        proof {
            lemma_sqrt_floor_le(delta as int, 0xF_FFFF_FFFFint);
            lemma_sqrt_floor_bounds(delta as int);
        }
        let num1 = -b + sq;
        let num2 = -b - sq;
        if num1 > 0 && (num2 > num1 || num2 < 0) {
            self.collision_at(r, num1, a)
        } else if num2 > 0 {
            self.collision_at(r, num2, a)
        } else {
            CollisionResult::Miss
        }
    }

    /// Builds the collision record for the chosen root numerator.
    fn collision_at(&self, r: Ray, num: i128, a: i128) -> (res: CollisionResult)
        requires
            self.wf(),
            r.wf(),
            a == spec_a(r),
            0 < a,
            0 < num <= 0x20_0000_0000i128,
        ensures
            res == spec_collision(*self, r, num as int),
            res is PointCollision,
            0 <= res->distance <= DIST_BOUND,
    {
        proof {
            lemma_mul_bound(num as int, SCALE as int, 0x20_0000_0000int, SCALE as int);
        }
        let t128 = div_floor(num * (SCALE as i128), a);
        proof {
            lemma_div_range(num as int * (SCALE as int), a as int);
        }
        let t = t128 as i64;
        let p = r.get_point_with_coefficient(t);
        CollisionResult::PointCollision { point: p, distance: t, color: self.color }
    }
}

/// The closed set of castable primitives; a scene holds a sequence of these.
/// New kinds of primitive are added as further variants.
#[derive(Clone, Copy, Debug, PartialEq, Eq, Structural)]
pub enum Primitive {
    Sphere(Sphere),
}

/// The collision a primitive reports, by kind.
pub open spec fn spec_cast_primitive(p: Primitive, r: Ray) -> CollisionResult {
    match p {
        Primitive::Sphere(s) => spec_cast(s, r),
    }
}

impl Primitive {
    /// The primitive's parameters are acceptable to the intersection math.
    pub open spec fn wf(self) -> bool {
        match self {
            Primitive::Sphere(s) => s.wf(),
        }
    }

    /// The primitive's surface color.
    pub open spec fn spec_color(self) -> Color {
        match self {
            Primitive::Sphere(s) => s.color,
        }
    }

    /// Casts `r` against the primitive.
    pub fn ray_cast(&self, r: Ray) -> (res: CollisionResult)
        requires
            self.wf(),
            r.wf(),
        ensures
            res == spec_cast_primitive(*self, r),
            res is PointCollision ==> 0 <= res->distance <= DIST_BOUND,
    {
        match self {
            Primitive::Sphere(s) => s.ray_cast(r),
        }
    }

    /// The primitive's surface color.
    pub fn get_color(&self) -> (c: Color)
        ensures
            c == self.spec_color(),
    {
        match self {
            Primitive::Sphere(s) => s.get_color(),
        }
    }
}

/// A non-zero direction has a positive squared length.
pub proof fn lemma_a_positive(r: Ray)
    requires
        r.wf(),
    ensures
        spec_a(r) > 0,
{
    let dx = r.direction.x as int;
    let dy = r.direction.y as int;
    let dz = r.direction.z as int;
    assert(dx * dx >= 0) by (nonlinear_arith);
    assert(dy * dy >= 0) by (nonlinear_arith);
    assert(dz * dz >= 0) by (nonlinear_arith);
    if dx != 0 {
        assert(dx * dx > 0) by (nonlinear_arith)
            requires
                dx != 0,
        ;
    } else if dy != 0 {
        assert(dy * dy > 0) by (nonlinear_arith)
            requires
                dy != 0,
        ;
    } else {
        assert(dz * dz > 0) by (nonlinear_arith)
            requires
                dz != 0,
        ;
    }
}

/// A ray whose quadratic has no real root (negative discriminant) misses:
/// a ray that passes outside the sphere's extent never reports a hit.
pub proof fn lemma_no_root_misses(s: Sphere, r: Ray)
    requires
        spec_delta(s, r) < 0,
    ensures
        spec_cast(s, r) is Miss,
{
}

/// A sphere entirely behind the ray origin (both roots negative, which the
/// integer model reads off the larger numerator) yields a miss, never a hit
/// behind the origin.
pub proof fn lemma_behind_origin_misses(s: Sphere, r: Ray)
    requires
        spec_delta(s, r) >= 0,
        sqrt_floor(spec_delta(s, r)) - spec_b(s, r) < 0,
    ensures
        spec_cast(s, r) is Miss,
{
    lemma_sqrt_floor_bounds(spec_delta(s, r));
}

/// A ray aimed straight at the center of a sphere from strictly outside
/// always hits it, at the near intersection: with the offset to the center
/// as the direction, the reported parameter is exactly
/// `(a - sqrt_floor(a * radius^2)) * SCALE / a`, the fixed-point rounding of
/// `1 - radius / |offset|` — the surface one radius short of the center.
pub proof fn lemma_aimed_at_center_hits(s: Sphere, r: Ray)
    requires
        s.wf(),
        r.wf(),
        r.direction.x == s.center.x - r.origin.x,
        r.direction.y == s.center.y - r.origin.y,
        r.direction.z == s.center.z - r.origin.z,
        s.radius * s.radius < spec_a(r),
    ensures
        spec_cast(s, r) == spec_collision(
            s,
            r,
            spec_a(r) - sqrt_floor(spec_a(r) * (s.radius * s.radius)),
        ),
        spec_cast(s, r) is PointCollision,
        0 <= spec_cast(s, r)->distance < SCALE,
{
    let a = spec_a(r);
    let b = spec_b(s, r);
    let c = spec_c(s, r);
    let rr = s.radius * s.radius;
    lemma_a_positive(r);
    assert(b == -a && c == a - rr) by (nonlinear_arith)
        requires
            r.direction.x == s.center.x - r.origin.x,
            r.direction.y == s.center.y - r.origin.y,
            r.direction.z == s.center.z - r.origin.z,
            a == spec_a(r),
            b == spec_b(s, r),
            c == spec_c(s, r),
            rr == s.radius * s.radius,
    ;
    assert(spec_delta(s, r) == a * rr) by (nonlinear_arith)
        requires
            b == -a,
            c == a - rr,
            spec_delta(s, r) == b * b - a * c,
    ;
    assert(rr >= 1) by (nonlinear_arith)
        requires
            s.radius >= 1,
            rr == s.radius * s.radius,
    ;
    assert(a * rr >= 0) by (nonlinear_arith)
        requires
            a > 0,
            rr >= 1,
    ;
    let sq = sqrt_floor(a * rr);
    lemma_sqrt_floor_bounds(a * rr);
    assert(sq < a) by (nonlinear_arith)
        requires
            0 <= sq,
            sq * sq <= a * rr,
            0 < rr < a,
    ;
    if sq == 0 {
        assert(a * rr < (0 + 1) * (0 + 1));
        assert(a * rr >= a) by (nonlinear_arith)
            requires
                a > 0,
                rr >= 1,
        ;
    }
    let num2 = a - sq;
    let t = num2 * (SCALE as int) / a;
    lemma_div_range(num2 * (SCALE as int), a);
    // num2 <= a - 1, so the quotient stays strictly below SCALE
    assert(num2 * (SCALE as int) < a * (SCALE as int)) by (nonlinear_arith)
        requires
            1 <= num2 < a,
            SCALE >= 1,
    ;
    vstd::arithmetic::div_mod::lemma_multiply_divide_lt(
        num2 * (SCALE as int),
        a,
        SCALE as int,
    );
    assert(t < SCALE);
}

} // verus!
