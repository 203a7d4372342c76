//! Vector and scalar arithmetic on fixed-point points.

use raycaster::math::SCALE;
use raycaster::point::{lerp, lerp_points, Point};

#[test]
fn add_sub_neg() {
    let a = Point::new(1024, -2048, 3072);
    let b = Point::new(512, 512, -512);
    let s = a.add(b);
    assert_eq!((s.x, s.y, s.z), (1536, -1536, 2560));
    let d = a.sub(b);
    assert_eq!((d.x, d.y, d.z), (512, -2560, 3584));
    let n = a.neg();
    assert_eq!((n.x, n.y, n.z), (-1024, 2048, -3072));
}

#[test]
fn dot_product() {
    let a = Point::new(1, 2, 3);
    let b = Point::new(4, 5, 6);
    assert_eq!(a.dot(b), 4 + 10 + 18);
    let z = Point::new(0, 0, 0);
    assert_eq!(a.dot(z), 0);
}

#[test]
fn cross_product() {
    let x = Point::new(1, 0, 0);
    let y = Point::new(0, 1, 0);
    let c = x.cross(&y);
    assert_eq!((c.x, c.y, c.z), (0, 0, 1));
    let c2 = y.cross(&x);
    assert_eq!((c2.x, c2.y, c2.z), (0, 0, -1));
}

#[test]
fn distance_exact_and_floor() {
    let o = Point::new(0, 0, 0);
    assert_eq!(Point::new(3, 4, 0).distance(o), 5);
    // sqrt(2) rounds down to 1
    assert_eq!(Point::new(1, 1, 0).distance(o), 1);
    assert_eq!(Point::new(3, 4, 0).distance_to_origin(), 5);
}

#[test]
fn lerp_endpoints_and_midpoint() {
    assert_eq!(lerp(0, 1024, 0), 0);
    assert_eq!(lerp(0, 1024, SCALE), 1024);
    assert_eq!(lerp(0, 1024, 512), 512);
    assert_eq!(lerp(-1024, 1024, 256), -512);
}

#[test]
fn lerp_points_componentwise() {
    let a = Point::new(0, 0, 0);
    let b = Point::new(1024, 2048, -1024);
    let t = Point::new(512, 256, 1024);
    let r = lerp_points(a, b, t);
    assert_eq!((r.x, r.y, r.z), (512, 512, -1024));
}

#[test]
fn normalized_divides_by_squared_length() {
    // v stands for (2.0, 0, 0); the shortcut divides by |v|^2 = 4, giving
    // 0.5, where true normalization gives 1.0.
    let v = Point::new(2048, 0, 0);
    let quirk = v.normalized();
    assert_eq!((quirk.x, quirk.y, quirk.z), (512, 0, 0));
    let u = v.unit();
    assert_eq!((u.x, u.y, u.z), (1024, 0, 0));
}

#[test]
fn scalar_mul_div() {
    let v = Point::new(1024, 2048, -1024);
    let half = v.mul(512);
    assert_eq!((half.x, half.y, half.z), (512, 1024, -512));
    let twice = v.div(512);
    assert_eq!((twice.x, twice.y, twice.z), (2048, 4096, -2048));
}

#[test]
fn mul_rounds_toward_negative_infinity() {
    let v = Point::new(-1, 0, 0);
    let r = v.mul(1);
    assert_eq!(r.x, -1);
    let w = Point::new(1, 0, 0);
    assert_eq!(w.mul(1).x, 0);
}

#[test]
fn point_to_color_channels() {
    let c = Point::new(300, 100, 255).to_color_u8();
    assert_eq!((c.r, c.g, c.b), (45, 100, 0));
    // 1.0 in fixed point maps to 255 % 255 == 0; 0.5 maps to 127
    let s = Point::new(1024, 512, 0).to_color_scaled();
    assert_eq!((s.r, s.g, s.b), (0, 127, 0));
}
