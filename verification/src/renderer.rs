//! Per-frame rendering: the viewport snapshot (camera origin and the two
//! corner directions), per-pixel ray interpolation, and the frame buffer the
//! column tasks fill.
//!
//! The frame is partitioned by column: `set_column` touches exactly one
//! column, so concurrent column tasks own disjoint pixel ranges.  A whole
//! frame is a pure function of viewport, scene and dimensions, which makes
//! rendering deterministic.

use vstd::prelude::*;
use vstd::arithmetic::div_mod::lemma_fundamental_div_mod;
use vstd::arithmetic::mul::lemma_mul_inequality;
use crate::math::{interp, spec_interp, COORD_BOUND};
use crate::point::{coords_bounded, Point};
use crate::ray::Ray;
use crate::shape::{Color, Primitive};
use crate::world::{background, spec_background, spec_world_color, World};

verus! {

/// The per-frame camera snapshot: the ray origin and the viewport corner
/// directions the pixel rays interpolate between.
#[derive(Clone, Copy, Debug, PartialEq, Eq, Structural)]
pub struct Viewport {
    pub origin: Point,
    pub bottom_left: Point,
    pub top_right: Point,
}

/// The direction of the ray through pixel `(x, y)` of a `w` by `h` image:
/// interpolation from `bottom_left` to `top_right` with fraction `x / w` on
/// the first and third coordinates and `y / h` on the second (the third
/// coordinate deliberately reuses the horizontal fraction, as this simplified
/// projection prescribes).
pub open spec fn spec_pixel_dir(vp: Viewport, x: int, y: int, w: int, h: int) -> Point {
    Point {
        x: spec_interp(vp.bottom_left.x as int, vp.top_right.x as int, x, w) as i64,
        y: spec_interp(vp.bottom_left.y as int, vp.top_right.y as int, y, h) as i64,
        z: spec_interp(vp.bottom_left.z as int, vp.top_right.z as int, x, w) as i64,
    }
}

/// The color of pixel `(x, y)`: what the scene gives the pixel's ray, or the
/// background when the interpolated direction degenerates to zero.
pub open spec fn spec_pixel_color(
    vp: Viewport,
    objs: Seq<Primitive>,
    x: int,
    y: int,
    w: int,
    h: int,
) -> Color {
    let d = spec_pixel_dir(vp, x, y, w, h);
    if d.x == 0 && d.y == 0 && d.z == 0 {
        spec_background()
    } else {
        spec_world_color(objs, Ray { origin: vp.origin, direction: d })
    }
}

/// `px` is the pixel grid of a rendered frame, stored column-major: column
/// `x` occupies indices `x*h .. x*h + h`.
pub open spec fn spec_is_render(
    px: Seq<Color>,
    vp: Viewport,
    objs: Seq<Primitive>,
    w: int,
    h: int,
) -> bool {
    &&& px.len() == w * h
    &&& forall|x: int, y: int|
        0 <= x < w && 0 <= y < h ==> px[x * h + y] == spec_pixel_color(vp, objs, x, y, w, h)
}

impl Viewport {
    /// All three snapshot points lie within the coordinate bound.
    pub open spec fn wf(self) -> bool {
        &&& coords_bounded(self.origin, COORD_BOUND as int)
        &&& coords_bounded(self.bottom_left, COORD_BOUND as int)
        &&& coords_bounded(self.top_right, COORD_BOUND as int)
    }

    /// Builds a snapshot from origin and corner directions.
    pub fn new(origin: Point, bottom_left: Point, top_right: Point) -> (vp: Viewport)
        ensures
            vp == (Viewport { origin, bottom_left, top_right }),
    {
        Viewport { origin, bottom_left, top_right }
    }

    /// The interpolated direction of the ray through pixel `(x, y)`.
    pub fn pixel_direction(&self, x: usize, y: usize, w: usize, h: usize) -> (d: Point)
        requires
            self.wf(),
            x < w,
            y < h,
            w <= 0x4000_0000,
            h <= 0x4000_0000,
        ensures
            d == spec_pixel_dir(*self, x as int, y as int, w as int, h as int),
            coords_bounded(d, COORD_BOUND as int),
    {
        let dx = interp(self.bottom_left.x, self.top_right.x, x as i64, w as i64);
        let dy = interp(self.bottom_left.y, self.top_right.y, y as i64, h as i64);
        let dz = interp(self.bottom_left.z, self.top_right.z, x as i64, w as i64);
        Point { x: dx, y: dy, z: dz }
    }

    /// The color of pixel `(x, y)`: the scene's answer for the pixel ray, or
    /// the background for a degenerate (zero) direction.
    pub fn pixel_color(&self, world: &World, x: usize, y: usize, w: usize, h: usize) -> (c: Color)
        requires
            self.wf(),
            world.wf(),
            x < w,
            y < h,
            w <= 0x4000_0000,
            h <= 0x4000_0000,
        ensures
            c == spec_pixel_color(
                *self,
                world.objects@,
                x as int,
                y as int,
                w as int,
                h as int,
            ),
    {
        let d = self.pixel_direction(x, y, w, h);
        if d.x == 0 && d.y == 0 && d.z == 0 {
            background()
        } else {
            world.get_color(Ray { origin: self.origin, direction: d })
        }
    }

    /// Computes all `h` pixel colors of column `x`, top to bottom.  One call
    /// per column is the unit of work a render task performs; columns touch
    /// no shared state, so they can run in any order or in parallel.
    pub fn render_column(&self, world: &World, x: usize, w: usize, h: usize) -> (col: Vec<Color>)
        requires
            self.wf(),
            world.wf(),
            x < w,
            w <= 0x4000_0000,
            h <= 0x4000_0000,
        ensures
            col@.len() == h,
            forall|y: int|
                0 <= y < h ==> col@[y] == spec_pixel_color(
                    *self,
                    world.objects@,
                    x as int,
                    y,
                    w as int,
                    h as int,
                ),
    {
        let mut col: Vec<Color> = Vec::new();
        let mut y: usize = 0;
        while y < h
            invariant
                y <= h,
                self.wf(),
                world.wf(),
                x < w,
                w <= 0x4000_0000,
                h <= 0x4000_0000,
                col@.len() == y,
                forall|k: int|
                    0 <= k < y ==> col@[k] == spec_pixel_color(
                        *self,
                        world.objects@,
                        x as int,
                        k,
                        w as int,
                        h as int,
                    ),
            decreases h - y,
        {
            let c = self.pixel_color(world, x, y, w, h);
            col.push(c);
            y = y + 1;
        }
        col
    }

    /// Renders the whole frame column by column; the result's pixel grid is
    /// exactly the per-pixel specification, so rendering the same snapshot
    /// and scene at the same dimensions always reproduces the same frame.
    pub fn render_frame(&self, world: &World, width: usize, height: usize) -> (f: Frame)
        requires
            self.wf(),
            world.wf(),
            width <= 0x4000_0000,
            height <= 0x4000_0000,
            width * height <= usize::MAX,
        ensures
            f.wf(),
            f.width == width,
            f.height == height,
            spec_is_render(f.pixels@, *self, world.objects@, width as int, height as int),
    {
        let mut f = Frame::new(width, height);
        let mut x: usize = 0;
        while x < width
            invariant
                x <= width,
                self.wf(),
                world.wf(),
                width <= 0x4000_0000,
                height <= 0x4000_0000,
                width * height <= usize::MAX,
                f.wf(),
                f.width == width,
                f.height == height,
                forall|xx: int, y: int|
                    0 <= xx < x && 0 <= y < height ==> f.pixels@[xx * height + y]
                        == spec_pixel_color(
                        *self,
                        world.objects@,
                        xx,
                        y,
                        width as int,
                        height as int,
                    ),
            decreases width - x,
        {
            let col = self.render_column(world, x, width, height);
            let ghost prev = f.pixels@;
            f.set_column(x, &col);
            proof {
                assert forall|xx: int, y: int|
                    0 <= xx < x + 1 && 0 <= y < height implies f.pixels@[xx * height + y]
                    == spec_pixel_color(
                    *self,
                    world.objects@,
                    xx,
                    y,
                    width as int,
                    height as int,
                ) by {
                    lemma_column_range(width as int, height as int, xx);
                    lemma_column_range(width as int, height as int, x as int);
                    if xx < x {
                        lemma_mul_inequality(xx + 1, x as int, height as int);
                        assert((xx + 1) * (height as int) == xx * (height as int) + height)
                            by (nonlinear_arith);
                        assert(!(x * height <= xx * height + y < x * height + height));
                        assert(prev[xx * height + y] == f.pixels@[xx * height + y]);
                    } else {
                        assert(xx == x as int);
                        assert(f.pixels@[(x as int) * (height as int) + y] == col@[y]);
                    }
                }
            }
            x = x + 1;
        }
        f
    }
}

/// A frame buffer: a `width` by `height` grid of colors, stored column-major.
pub struct Frame {
    pub width: usize,
    pub height: usize,
    pub pixels: Vec<Color>,
}

impl Frame {
    /// The backing vector holds exactly one color per pixel.
    pub open spec fn wf(self) -> bool {
        self.pixels@.len() == self.width * self.height
    }

    /// A fresh frame of the given dimensions, filled with the background.
    pub fn new(width: usize, height: usize) -> (f: Frame)
        requires
            width * height <= usize::MAX,
        ensures
            f.wf(),
            f.width == width,
            f.height == height,
            forall|i: int| 0 <= i < f.pixels@.len() ==> f.pixels@[i] == spec_background(),
    {
        let n = width * height;
        let mut pixels: Vec<Color> = Vec::new();
        let mut i: usize = 0;
        while i < n
            invariant
                i <= n,
                pixels@.len() == i,
                forall|k: int| 0 <= k < i ==> pixels@[k] == spec_background(),
            decreases n - i,
        {
            pixels.push(background());
            i = i + 1;
        }
        Frame { width, height, pixels }
    }

    /// The color stored for pixel `(x, y)`.
    pub fn get_pixel(&self, x: usize, y: usize) -> (c: Color)
        requires
            self.wf(),
            x < self.width,
            y < self.height,
        ensures
            c == self.pixels@[x * self.height + y],
    {
        // reading the length binds it to a machine word, which bounds the
        // column index arithmetic below
        let _n = self.pixels.len();
        proof {
            lemma_column_range(self.width as int, self.height as int, x as int);
        }
        self.pixels[x * self.height + y]
    }

    /// Writes one whole column and nothing else: pixels outside column `x`
    /// keep their previous colors.  This disjointness is what lets one task
    /// per column write concurrently without interfering.
    pub fn set_column(&mut self, x: usize, col: &Vec<Color>)
        requires
            old(self).wf(),
            x < old(self).width,
            col@.len() == old(self).height,
        ensures
            final(self).wf(),
            final(self).width == old(self).width,
            final(self).height == old(self).height,
            forall|y: int|
                0 <= y < old(self).height ==> final(self).pixels@[x * old(self).height + y]
                    == col@[y],
            forall|i: int|
                0 <= i < old(self).pixels@.len() && !(x * old(self).height <= i < x * old(
                    self,
                ).height + old(self).height) ==> final(self).pixels@[i] == old(self).pixels@[i],
    {
        let n = self.pixels.len();
        proof {
            lemma_column_range(self.width as int, self.height as int, x as int);
        }
        let h = self.height;
        let base = x * h;
        let mut y: usize = 0;
        while y < h
            invariant
                y <= h,
                base == x * h,
                h == self.height,
                n == self.pixels@.len(),
                base + h <= self.pixels@.len(),
                col@.len() == h,
                self.wf(),
                self.width == old(self).width,
                self.height == old(self).height,
                self.pixels@.len() == old(self).pixels@.len(),
                forall|k: int| 0 <= k < y ==> self.pixels@[base + k] == col@[k],
                forall|i: int|
                    0 <= i < old(self).pixels@.len() && !(base <= i < base + y)
                        ==> self.pixels@[i] == old(self).pixels@[i],
            decreases h - y,
        {
            let c = col[y];
            self.pixels[base + y] = c;
            y = y + 1;
        }
    }
}

/// Column `x` of a `w` by `h` grid occupies indices `x*h .. x*h + h`, all in
/// range.
proof fn lemma_column_range(w: int, h: int, x: int)
    requires
        0 <= x < w,
        0 <= h,
    ensures
        0 <= x * h,
        x * h + h <= w * h,
{
    lemma_mul_inequality(x + 1, w, h);
    assert((x + 1) * h == x * h + h) by (nonlinear_arith);
    assert(0 <= x * h) by (nonlinear_arith)
        requires
            0 <= x,
            0 <= h,
    ;
}

/// A flat pixel index splits uniquely into a column and a row.
proof fn lemma_index_decompose(w: int, h: int, i: int)
    requires
        0 <= i < w * h,
        0 < h,
    ensures
        0 <= i / h < w,
        0 <= i % h < h,
        i == (i / h) * h + i % h,
{
    lemma_fundamental_div_mod(i, h);
    let q = i / h;
    let r = i % h;
    assert(0 <= q < w && q * h + r == i) by (nonlinear_arith)
        requires
            h * q + r == i,
            0 <= r < h,
            0 <= i < w * h,
            0 < h,
    ;
}

/// Rendering is deterministic: any two pixel grids rendered from the same
/// viewport, scene and dimensions are identical, pixel for pixel.
pub proof fn lemma_render_deterministic(
    px1: Seq<Color>,
    px2: Seq<Color>,
    vp: Viewport,
    objs: Seq<Primitive>,
    w: int,
    h: int,
)
    requires
        spec_is_render(px1, vp, objs, w, h),
        spec_is_render(px2, vp, objs, w, h),
        0 <= w,
        0 <= h,
    ensures
        px1 == px2,
{
    assert forall|i: int| 0 <= i < w * h implies px1[i] == px2[i] by {
        assert(0 < h) by (nonlinear_arith)
            requires
                0 <= i < w * h,
                0 <= h,
        ;
        lemma_index_decompose(w, h, i);
        let x = i / h;
        let y = i % h;
        assert(px1[x * h + y] == spec_pixel_color(vp, objs, x, y, w, h));
        assert(px2[x * h + y] == spec_pixel_color(vp, objs, x, y, w, h));
    }
    assert(px1 =~= px2);
}

} // verus!
