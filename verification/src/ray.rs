//! Rays: an origin and a (not necessarily unit-length) direction, and the
//! point a given parameter along the ray.

use vstd::prelude::*;
use crate::math::{div_floor, lemma_div_range, lemma_mul_bound, COORD_BOUND, DIST_BOUND, SCALE,
    VEC_BOUND};
use crate::point::{coords_bounded, Point};

verus! {

/// A half-line from `origin` along `direction`.
#[derive(Clone, Copy, Debug, PartialEq, Eq, Structural)]
pub struct Ray {
    pub origin: Point,
    pub direction: Point,
}

impl Ray {
    /// A ray the intersection math accepts: coordinates within `COORD_BOUND`
    /// and a non-zero direction (a zero direction makes the quadratic
    /// degenerate and is rejected as a precondition).
    pub open spec fn wf(self) -> bool {
        &&& coords_bounded(self.origin, COORD_BOUND as int)
        &&& coords_bounded(self.direction, COORD_BOUND as int)
        &&& !(self.direction.x == 0 && self.direction.y == 0 && self.direction.z == 0)
    }

    /// Builds the ray with the given origin and direction.
    pub fn new(o: Point, d: Point) -> (r: Ray)
        ensures
            r == (Ray { origin: o, direction: d }),
    {
        Ray { origin: o, direction: d }
    }

    /// The point `origin + direction * (a / SCALE)`, each coordinate rounded
    /// toward negative infinity.
    pub fn get_point_with_coefficient(&self, a: i64) -> (p: Point)
        requires
            coords_bounded(self.origin, VEC_BOUND as int),
            coords_bounded(self.direction, COORD_BOUND as int),
            0 <= a <= DIST_BOUND,
        ensures
            p.x == self.origin.x + self.direction.x * a / (SCALE as int),
            p.y == self.origin.y + self.direction.y * a / (SCALE as int),
            p.z == self.origin.z + self.direction.z * a / (SCALE as int),
    {
        proof {
            lemma_mul_bound(
                self.direction.x as int,
                a as int,
                COORD_BOUND as int,
                DIST_BOUND as int,
            );
            lemma_mul_bound(
                self.direction.y as int,
                a as int,
                COORD_BOUND as int,
                DIST_BOUND as int,
            );
            lemma_mul_bound(
                self.direction.z as int,
                a as int,
                COORD_BOUND as int,
                DIST_BOUND as int,
            );
        }
        let qx = div_floor((self.direction.x as i128) * (a as i128), SCALE as i128);
        let qy = div_floor((self.direction.y as i128) * (a as i128), SCALE as i128);
        let qz = div_floor((self.direction.z as i128) * (a as i128), SCALE as i128);
        proof {
            lemma_div_range((self.direction.x as int) * (a as int), SCALE as int);
            lemma_div_range((self.direction.y as int) * (a as int), SCALE as int);
            lemma_div_range((self.direction.z as int) * (a as int), SCALE as int);
        }
        Point {
            x: self.origin.x + qx as i64,
            y: self.origin.y + qy as i64,
            z: self.origin.z + qz as i64,
        }
    }
}

} // verus!
