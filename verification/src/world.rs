//! Scenes: an ordered collection of primitives, nearest-hit resolution across
//! them, and the mapping from a collision to an output color.

use vstd::prelude::*;
use crate::math::DIST_BOUND;
use crate::ray::Ray;
use crate::shape::{spec_cast_primitive, Color, CollisionResult, Primitive};

verus! {

/// Keeps `ans` unless `cur` is a strictly nearer hit; a miss never replaces a
/// hit, and on an exact tie the earlier (left) result wins.
pub open spec fn spec_combine(ans: CollisionResult, cur: CollisionResult) -> CollisionResult {
    if cur is PointCollision {
        if ans is PointCollision {
            if cur->distance < ans->distance {
                cur
            } else {
                ans
            }
        } else {
            cur
        }
    } else {
        ans
    }
}

/// The stable left fold of `spec_combine` over the scene: the first
/// primitive with the smallest hit distance determines the result.
pub open spec fn spec_world_cast(objs: Seq<Primitive>, r: Ray) -> CollisionResult
    decreases objs.len(),
{
    if objs.len() == 0 {
        CollisionResult::Miss
    } else {
        spec_combine(
            spec_world_cast(objs.drop_last(), r),
            spec_cast_primitive(objs.last(), r),
        )
    }
}

/// The background color a ray that hits nothing produces.
pub open spec fn spec_background() -> Color {
    Color { r: 69, g: 69, b: 69 }
}

/// The color a scene gives a ray: the nearest hit's color, or the background.
pub open spec fn spec_world_color(objs: Seq<Primitive>, r: Ray) -> Color {
    let res = spec_world_cast(objs, r);
    if res is PointCollision {
        res->color
    } else {
        spec_background()
    }
}

/// The fixed mid-grey a ray that hits nothing maps to.
pub fn background() -> (c: Color)
    ensures
        c == spec_background(),
{
    Color { r: 69, g: 69, b: 69 }
}

/// Keeps `ans` unless `cur` is a strictly nearer hit.
fn combine(ans: CollisionResult, cur: CollisionResult) -> (res: CollisionResult)
    ensures
        res == spec_combine(ans, cur),
{
    match cur {
        CollisionResult::PointCollision { point: _, distance: d, color: _ } => match ans {
            CollisionResult::PointCollision { point: _, distance: d1, color: _ } => {
                if d < d1 {
                    cur
                } else {
                    ans
                }
            },
            CollisionResult::Miss => cur,
        },
        CollisionResult::Miss => ans,
    }
}

/// A scene: the primitives it holds, in insertion order.
#[derive(Clone)]
pub struct World {
    pub objects: Vec<Primitive>,
}

impl World {
    /// Every primitive in the scene is acceptable to the intersection math.
    pub open spec fn wf(self) -> bool {
        forall|i: int| 0 <= i < self.objects@.len() ==> (#[trigger] self.objects@[i]).wf()
    }

    /// Builds a scene over the given primitives.
    pub fn new(o: Vec<Primitive>) -> (w: World)
        ensures
            w.objects == o,
    {
        World { objects: o }
    }

    /// Casts `r` against every primitive and keeps the nearest hit; on an
    /// exact tie the first-inserted primitive wins.
    pub fn ray_cast(&self, r: Ray) -> (res: CollisionResult)
        requires
            self.wf(),
            r.wf(),
        ensures
            res == spec_world_cast(self.objects@, r),
    {
        let n = self.objects.len();
        let mut ans = CollisionResult::Miss;
        let mut i: usize = 0;
        proof {
            assert(self.objects@.take(0int) =~= Seq::<Primitive>::empty());
        }
        while i < n
            invariant
                i <= n,
                n == self.objects@.len(),
                self.wf(),
                r.wf(),
                ans == spec_world_cast(self.objects@.take(i as int), r),
            decreases n - i,
        {
            let cur = self.objects[i].ray_cast(r);
            proof {
                assert(self.objects@.take(i + 1).drop_last() =~= self.objects@.take(i as int));
                assert(self.objects@.take(i + 1).last() == self.objects@[i as int]);
            }
            ans = combine(ans, cur);
            i = i + 1;
        }
        proof {
            assert(self.objects@.take(n as int) =~= self.objects@);
        }
        ans
    }

    /// The color the scene gives `r`: the nearest hit's color, or the
    /// background grey.
    pub fn get_color(&self, r: Ray) -> (c: Color)
        requires
            self.wf(),
            r.wf(),
        ensures
            c == spec_world_color(self.objects@, r),
    {
        match self.ray_cast(r) {
            CollisionResult::PointCollision { point: _, distance: _, color } => color,
            CollisionResult::Miss => background(),
        }
    }
}

/// What the fold reports, in full: a miss exactly when every primitive
/// misses; otherwise the result is one of the primitives' own collisions,
/// and no primitive hits strictly nearer than it.
pub proof fn lemma_world_cast_characterization(objs: Seq<Primitive>, r: Ray)
    ensures
        (spec_world_cast(objs, r) is Miss) <==> (forall|i: int|
            0 <= i < objs.len() ==> (#[trigger] spec_cast_primitive(objs[i], r)) is Miss),
        (spec_world_cast(objs, r) is PointCollision) ==> exists|i: int|
            0 <= i < objs.len() && spec_world_cast(objs, r) == spec_cast_primitive(objs[i], r),
        forall|i: int|
            0 <= i < objs.len() && (#[trigger] spec_cast_primitive(objs[i], r))
                is PointCollision ==> (spec_world_cast(objs, r) is PointCollision
                && spec_world_cast(objs, r)->distance <= spec_cast_primitive(objs[i], r)->distance),
    decreases objs.len(),
{
    if objs.len() == 0 {
    } else {
        let prefix = objs.drop_last();
        lemma_world_cast_characterization(prefix, r);
        let prev = spec_world_cast(prefix, r);
        let cur = spec_cast_primitive(objs.last(), r);
        let res = spec_world_cast(objs, r);
        assert(objs.last() == objs[objs.len() - 1]);
        assert(forall|i: int| 0 <= i < prefix.len() ==> prefix[i] == objs[i]);
        if prev is PointCollision {
            let iw = choose|i: int|
                0 <= i < prefix.len() && prev == spec_cast_primitive(prefix[i], r);
            if res == prev {
                assert(res == spec_cast_primitive(objs[iw], r));
            } else {
                assert(res == spec_cast_primitive(objs[objs.len() - 1], r));
            }
        } else {
            if cur is PointCollision {
                assert(res == spec_cast_primitive(objs[objs.len() - 1], r));
            }
        }
    }
}

/// The tie-break is deliberate: the first primitive whose hit distance is
/// minimal — every later minimal hit ties, every earlier hit is strictly
/// farther — is the one the scene reports.
pub proof fn lemma_first_minimal_hit_wins(objs: Seq<Primitive>, r: Ray, i: int)
    requires
        0 <= i < objs.len(),
        spec_cast_primitive(objs[i], r) is PointCollision,
        forall|j: int|
            0 <= j < objs.len() && (#[trigger] spec_cast_primitive(objs[j], r))
                is PointCollision ==> spec_cast_primitive(objs[i], r)->distance
                <= spec_cast_primitive(objs[j], r)->distance,
        forall|j: int|
            0 <= j < i && (#[trigger] spec_cast_primitive(objs[j], r)) is PointCollision
                ==> spec_cast_primitive(objs[i], r)->distance < spec_cast_primitive(
                objs[j],
                r,
            )->distance,
    ensures
        spec_world_cast(objs, r) == spec_cast_primitive(objs[i], r),
    decreases objs.len(),
{
    let prefix = objs.drop_last();
    assert(forall|k: int| 0 <= k < prefix.len() ==> prefix[k] == objs[k]);
    if i == objs.len() - 1 {
        lemma_world_cast_characterization(prefix, r);
        let prev = spec_world_cast(prefix, r);
        if prev is PointCollision {
            let iw = choose|k: int|
                0 <= k < prefix.len() && prev == spec_cast_primitive(prefix[k], r);
            assert(spec_cast_primitive(objs[iw], r) is PointCollision);
        }
    } else {
        lemma_first_minimal_hit_wins(prefix, r, i);
    }
}

/// Nearest-hit resolution does not depend on the primitives' insertion
/// order: two scenes holding the same primitives report the same collision
/// whenever no two distinct primitives hit at exactly the same distance.
pub proof fn lemma_cast_order_independent(s1: Seq<Primitive>, s2: Seq<Primitive>, r: Ray)
    requires
        forall|p: Primitive| s1.contains(p) <==> s2.contains(p),
        forall|p: Primitive, q: Primitive|
            s1.contains(p) && s1.contains(q) && (#[trigger] spec_cast_primitive(p, r))
                is PointCollision && (#[trigger] spec_cast_primitive(q, r)) is PointCollision
                && spec_cast_primitive(p, r)->distance == spec_cast_primitive(q, r)->distance
                ==> p == q,
    ensures
        spec_world_cast(s1, r) == spec_world_cast(s2, r),
{
    lemma_world_cast_characterization(s1, r);
    lemma_world_cast_characterization(s2, r);
    let r1 = spec_world_cast(s1, r);
    let r2 = spec_world_cast(s2, r);
    if r1 is Miss {
        if r2 is PointCollision {
            let i = choose|i: int| 0 <= i < s2.len() && r2 == spec_cast_primitive(s2[i], r);
            assert(s2.contains(s2[i]));
            let k = choose|k: int| 0 <= k < s1.len() && s1[k] == s2[i];
            assert(spec_cast_primitive(s1[k], r) is Miss);
        }
    } else {
        let i1 = choose|i: int| 0 <= i < s1.len() && r1 == spec_cast_primitive(s1[i], r);
        assert(s1.contains(s1[i1]));
        let j1 = choose|j: int| 0 <= j < s2.len() && s2[j] == s1[i1];
        assert(spec_cast_primitive(s2[j1], r) is PointCollision);
        assert(r2 is PointCollision);
        let i2 = choose|i: int| 0 <= i < s2.len() && r2 == spec_cast_primitive(s2[i], r);
        assert(s2.contains(s2[i2]));
        let j2 = choose|j: int| 0 <= j < s1.len() && s1[j] == s2[i2];
        // each result's distance is minimal over the shared membership
        assert(r1->distance <= spec_cast_primitive(s1[j2], r)->distance);
        assert(r2->distance <= spec_cast_primitive(s2[j1], r)->distance);
        assert(r1->distance == r2->distance);
        assert(s1.contains(s1[i1]) && s1.contains(s1[j2]));
        assert(s1[i1] == s2[i2]) by {
            assert(spec_cast_primitive(s1[i1], r)->distance == spec_cast_primitive(
                s1[j2],
                r,
            )->distance);
        }
    }
}

} // verus!
