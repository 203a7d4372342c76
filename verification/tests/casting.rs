//! Ray/sphere intersection and nearest-hit resolution over a scene.

use raycaster::point::Point;
use raycaster::ray::Ray;
use raycaster::shape::{Color, CollisionResult, Primitive, Sphere};
use raycaster::world::{background, World};

fn sphere(cx: i64, cy: i64, cz: i64, radius: i64, color: Color) -> Sphere {
    Sphere::new(Point::new(cx, cy, cz), radius, color)
}

#[test]
fn axial_ray_hits_near_surface() {
    // Sphere 10 units ahead, radius 2, ray aimed straight at the center:
    // the hit is at parameter 8 (distance minus radius), exactly in fixed
    // point because every quantity is a power of two.
    let s = sphere(0, 0, 10240, 2048, Color { r: 1, g: 2, b: 3 });
    let r = Ray::new(Point::new(0, 0, 0), Point::new(0, 0, 1024));
    match s.ray_cast(r) {
        CollisionResult::PointCollision { point, distance, color } => {
            assert_eq!(distance, 8192);
            assert_eq!((point.x, point.y, point.z), (0, 0, 8192));
            assert_eq!(color, Color { r: 1, g: 2, b: 3 });
        }
        CollisionResult::Miss => panic!("expected a hit"),
    }
}

#[test]
fn axial_ray_fractional_distance_rounds_down() {
    // Radius 3 sphere 10 units ahead, with the full offset to the center as
    // the direction: the real parameter is (10 - 3) / 10 = 0.7, reported as
    // the fixed-point floor 716 = floor(0.7 * 1024).
    let s = sphere(0, 0, 10240, 3072, Color { r: 5, g: 5, b: 5 });
    let r = Ray::new(Point::new(0, 0, 0), Point::new(0, 0, 10240));
    match s.ray_cast(r) {
        CollisionResult::PointCollision { point, distance, color: _ } => {
            assert_eq!(distance, 716);
            assert_eq!((point.x, point.y, point.z), (0, 0, 7160));
        }
        CollisionResult::Miss => panic!("expected a hit"),
    }
}

#[test]
fn ray_outside_extent_misses() {
    // Same sphere, ray pointing straight up: the discriminant is negative.
    let s = sphere(0, 0, 10240, 2048, Color { r: 1, g: 2, b: 3 });
    let r = Ray::new(Point::new(0, 0, 0), Point::new(0, 1024, 0));
    assert!(matches!(s.ray_cast(r), CollisionResult::Miss));
}

#[test]
fn sphere_behind_origin_misses() {
    // Sphere 10 units behind the origin: both roots are negative, so no hit
    // "behind the camera" is reported.
    let s = sphere(0, 0, -10240, 2048, Color { r: 1, g: 2, b: 3 });
    let r = Ray::new(Point::new(0, 0, 0), Point::new(0, 0, 1024));
    assert!(matches!(s.ray_cast(r), CollisionResult::Miss));
}

#[test]
fn origin_inside_sphere_takes_far_root() {
    // From the center, the near root is behind the origin; the far root, two
    // units ahead, is reported.
    let s = sphere(0, 0, 10240, 2048, Color { r: 9, g: 9, b: 9 });
    let r = Ray::new(Point::new(0, 0, 10240), Point::new(0, 0, 1024));
    match s.ray_cast(r) {
        CollisionResult::PointCollision { point, distance, color: _ } => {
            assert_eq!(distance, 2048);
            assert_eq!((point.x, point.y, point.z), (0, 0, 12288));
        }
        CollisionResult::Miss => panic!("expected a hit"),
    }
}

#[test]
fn nearest_hit_wins_in_any_order() {
    let near = Primitive::Sphere(sphere(0, 0, 5120, 1024, Color { r: 10, g: 0, b: 0 }));
    let far = Primitive::Sphere(sphere(0, 0, 10240, 1024, Color { r: 0, g: 20, b: 0 }));
    let r = Ray::new(Point::new(0, 0, 0), Point::new(0, 0, 1024));
    let w1 = World::new(vec![near, far]);
    let w2 = World::new(vec![far, near]);
    let res1 = w1.ray_cast(r);
    let res2 = w2.ray_cast(r);
    assert_eq!(res1, res2);
    match res1 {
        CollisionResult::PointCollision { point: _, distance, color } => {
            assert_eq!(distance, 4096);
            assert_eq!(color, Color { r: 10, g: 0, b: 0 });
        }
        CollisionResult::Miss => panic!("expected a hit"),
    }
}

#[test]
fn exact_tie_first_inserted_wins() {
    let a = Primitive::Sphere(sphere(0, 0, 5120, 1024, Color { r: 1, g: 0, b: 0 }));
    let b = Primitive::Sphere(sphere(0, 0, 5120, 1024, Color { r: 2, g: 0, b: 0 }));
    let r = Ray::new(Point::new(0, 0, 0), Point::new(0, 0, 1024));
    match World::new(vec![a, b]).ray_cast(r) {
        CollisionResult::PointCollision { color, .. } => {
            assert_eq!(color, Color { r: 1, g: 0, b: 0 })
        }
        CollisionResult::Miss => panic!("expected a hit"),
    }
    match World::new(vec![b, a]).ray_cast(r) {
        CollisionResult::PointCollision { color, .. } => {
            assert_eq!(color, Color { r: 2, g: 0, b: 0 })
        }
        CollisionResult::Miss => panic!("expected a hit"),
    }
}

#[test]
fn miss_maps_to_background_grey() {
    let s = Primitive::Sphere(sphere(0, 0, 10240, 2048, Color { r: 1, g: 2, b: 3 }));
    let w = World::new(vec![s]);
    let r = Ray::new(Point::new(0, 0, 0), Point::new(0, -1024, 0));
    assert_eq!(w.get_color(r), Color { r: 69, g: 69, b: 69 });
    assert_eq!(background(), Color { r: 69, g: 69, b: 69 });
}

#[test]
fn empty_scene_always_background() {
    let w = World::new(vec![]);
    let r = Ray::new(Point::new(0, 0, 0), Point::new(0, 0, 1024));
    assert!(matches!(w.ray_cast(r), CollisionResult::Miss));
    assert_eq!(w.get_color(r), Color { r: 69, g: 69, b: 69 });
}

#[test]
fn primitive_delegates_to_sphere() {
    let s = sphere(0, 0, 10240, 2048, Color { r: 7, g: 8, b: 9 });
    let p = Primitive::Sphere(s);
    let r = Ray::new(Point::new(0, 0, 0), Point::new(0, 0, 1024));
    assert_eq!(p.ray_cast(r), s.ray_cast(r));
    assert_eq!(p.get_color(), s.get_color());
    assert_eq!(s.get_color(), Color { r: 7, g: 8, b: 9 });
}
