//! Whole-frame rendering: the worked example, determinism, and the
//! column-partitioned frame buffer.

use raycaster::point::Point;
use raycaster::renderer::{Frame, Viewport};
use raycaster::shape::{Color, Primitive, Sphere};
use raycaster::world::World;

/// The viewport of a camera at the given origin with yaw/pitch rotations and
/// field of view (radians), for a w-by-h image, computed with floating-point
/// trigonometry and then fixed to integer coordinates exactly as the
/// windowed front end does.
fn viewport(origin: Point, yaw: f64, pitch: f64, fov: f64, w: f64, h: f64) -> Viewport {
    let ratio = h / w;
    let fix = |v: f64| (v * 1024.0) as i64;
    let top_right = Point::new(
        fix((fov / 2.0 + yaw).sin()),
        fix((fov / 2.0 * ratio + pitch).sin()),
        fix((fov / 2.0 + yaw).cos()),
    );
    let bottom_left = Point::new(
        fix((-fov / 2.0 + yaw).sin()),
        fix((-fov / 2.0 * ratio + pitch).sin()),
        fix((-fov / 2.0 + yaw).cos()),
    );
    Viewport::new(origin, bottom_left, top_right)
}

fn demo_scene() -> World {
    // Sphere of radius 3 at the origin, camera 10 units down -z.
    let s = Sphere::new(Point::new(0, 0, 0), 3072, Color { r: 0, g: 0, b: 100 });
    World::new(vec![Primitive::Sphere(s)])
}

#[test]
fn central_pixel_hits_corner_pixel_misses() {
    let vp = viewport(
        Point::new(0, 0, -10240),
        0.0,
        0.0,
        std::f64::consts::FRAC_PI_2,
        100.0,
        100.0,
    );
    // At 90 degrees of field of view the corner components are
    // sin(pi/4) * 1024, truncated to 724.
    assert_eq!((vp.bottom_left.x, vp.bottom_left.y, vp.bottom_left.z), (-724, -724, 724));
    assert_eq!((vp.top_right.x, vp.top_right.y, vp.top_right.z), (724, 724, 724));

    // The central pixel's ray points straight down +z.
    let d = vp.pixel_direction(50, 50, 100, 100);
    assert_eq!((d.x, d.y, d.z), (0, 0, 724));

    let world = demo_scene();
    let frame = vp.render_frame(&world, 100, 100);
    assert_eq!(frame.get_pixel(50, 50), Color { r: 0, g: 0, b: 100 });
    // A corner ray at the edge of the field of view misses everything.
    assert_eq!(frame.get_pixel(0, 0), Color { r: 69, g: 69, b: 69 });
    assert_eq!(frame.get_pixel(99, 99), Color { r: 69, g: 69, b: 69 });
}

#[test]
fn rendering_twice_is_pixel_identical() {
    let vp = viewport(
        Point::new(0, 0, -10240),
        0.1,
        -0.05,
        std::f64::consts::FRAC_PI_2,
        64.0,
        48.0,
    );
    let world = demo_scene();
    let f1 = vp.render_frame(&world, 64, 48);
    let f2 = vp.render_frame(&world, 64, 48);
    assert_eq!(f1.pixels, f2.pixels);
}

#[test]
fn frame_assembled_from_columns_matches_whole_render() {
    let vp = viewport(
        Point::new(0, 0, -10240),
        0.0,
        0.0,
        std::f64::consts::FRAC_PI_2,
        16.0,
        12.0,
    );
    let world = demo_scene();
    let whole = vp.render_frame(&world, 16, 12);
    let mut assembled = Frame::new(16, 12);
    for x in 0..16usize {
        let col = vp.render_column(&world, x, 16, 12);
        assembled.set_column(x, &col);
    }
    assert_eq!(whole.pixels, assembled.pixels);
}

#[test]
fn set_column_leaves_other_columns_alone() {
    let mut frame = Frame::new(4, 3);
    let grey = Color { r: 69, g: 69, b: 69 };
    let red = Color { r: 200, g: 0, b: 0 };
    frame.set_column(1, &vec![red, red, red]);
    for x in 0..4usize {
        for y in 0..3usize {
            let expected = if x == 1 { red } else { grey };
            assert_eq!(frame.get_pixel(x, y), expected);
        }
    }
}

#[test]
fn degenerate_zero_direction_gives_background() {
    let zero = Point::new(0, 0, 0);
    let vp = Viewport::new(Point::new(0, 0, -10240), zero, zero);
    let world = demo_scene();
    let c = vp.pixel_color(&world, 2, 2, 8, 8);
    assert_eq!(c, Color { r: 69, g: 69, b: 69 });
}
