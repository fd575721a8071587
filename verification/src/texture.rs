//! Textures: spatially varying color, as a closed set of variants
//! dispatched by pattern matching.

use vstd::prelude::*;
use std::sync::Arc;
use crate::fx::{abs1, clip, tdiv, FX_ONE};
use crate::vec3::{bounded_s, Color, Point3, Vec3, V3, COORD_LIM, P_LIM};

verus! {

/// The fixed-point rendering of pi, used by the checker sign pattern.
pub const FX_PI: i64 = 205887;

pub struct SolidColor {
    pub color_value: Color,
}

pub struct CheckerTexture {
    pub even: Arc<Texture>,
    pub odd: Arc<Texture>,
}

pub struct NoiseTexture {
    pub noise: crate::perlin::Perlin,
    pub scale: i64,
}

pub struct ImageTexture {
    pub data: Vec<u8>,
    pub width: usize,
    pub height: usize,
    pub bytes_per_scanline: usize,
}

pub enum Texture {
    Solid(SolidColor),
    Checker(CheckerTexture),
    Noise(NoiseTexture),
    Image(ImageTexture),
}

pub open spec fn image_wf(t: ImageTexture) -> bool {
    &&& t.width <= 4096
    &&& t.height <= 4096
    &&& t.bytes_per_scanline == 3 * t.width
    &&& t.data@.len() == 3 * t.width * t.height
}

pub open spec fn tex_wf(t: Texture) -> bool
    decreases t,
{
    match t {
        Texture::Solid(s) => bounded_s(s.color_value.s(), COORD_LIM as int),
        Texture::Checker(c) => tex_wf(*c.even) && tex_wf(*c.odd),
        Texture::Noise(n) => crate::perlin::perlin_wf(n.noise) && abs1(n.scale as int) <= 1048576,
        Texture::Image(i) => image_wf(i),
    }
}

/// The marble-like noise color: a half-intensity sine of turbulence plus a
/// scaled depth coordinate, the same in all three channels.
pub open spec fn noise_value_s(t: NoiseTexture, p: V3) -> V3 {
    let arg = 10 * crate::perlin::turb_s(t.noise, p, 7, FX_ONE as int) + crate::fx::fmul(
        p.z,
        t.scale as int,
    );
    let v = crate::fx::fmul(32768, FX_ONE + crate::fx::fx_sin_s(arg));
    V3 { x: v, y: v, z: v }
}

/// Whether the product of the three axis sines is negative at `p`, rendered
/// in fixed point: `sin(v)` is negative exactly when `floor(v / pi)` is
/// odd, so the product's sign is the parity of the sum of the floors.
pub open spec fn checker_odd_s(p: V3) -> bool {
    let n = (10 * p.x) / (FX_PI as int) + (10 * p.y) / (FX_PI as int) + (10 * p.z) / (
    FX_PI as int);
    n % 2 != 0
}

/// Nearest-pixel image lookup with `u` clamped to `[0, 1]` and `|v|`
/// clamped to `[0, 1]`; a cyan fallback stands in for a missing image.
pub open spec fn image_value_s(t: ImageTexture, u: int, v: int) -> V3 {
    if t.width == 0 || t.height == 0 {
        V3 { x: 0, y: FX_ONE as int, z: FX_ONE as int }
    } else {
        let uu = clip_unit(u);
        let vv = clip_unit(abs1(v));
        let i = cap(tdiv(uu * t.width, FX_ONE as int), t.width as int - 1);
        let j = cap(tdiv(vv * t.height, FX_ONE as int), t.height as int - 1);
        let base = j * t.bytes_per_scanline + 3 * i;
        V3 {
            x: tdiv(t.data@[base] * (FX_ONE as int), 255),
            y: tdiv(t.data@[base + 1] * (FX_ONE as int), 255),
            z: tdiv(t.data@[base + 2] * (FX_ONE as int), 255),
        }
    }
}

pub open spec fn clip_unit(x: int) -> int {
    if x < 0 {
        0
    } else if x > FX_ONE {
        FX_ONE as int
    } else {
        x
    }
}

pub open spec fn cap(x: int, hi: int) -> int {
    if x > hi {
        hi
    } else {
        x
    }
}

/// The color of a texture at surface coordinates `(u, v)` and point `p`.
pub open spec fn tex_value_s(t: Texture, u: int, v: int, p: V3) -> V3
    decreases t,
{
    match t {
        Texture::Solid(s) => s.color_value.s(),
        Texture::Checker(c) => if checker_odd_s(p) {
            tex_value_s(*c.odd, u, v, p)
        } else {
            tex_value_s(*c.even, u, v, p)
        },
        Texture::Noise(n) => noise_value_s(n, p),
        Texture::Image(i) => image_value_s(i, u, v),
    }
}

/// Every texture value is within the color bound.
pub proof fn lemma_tex_value_bounded(t: Texture, u: int, v: int, p: V3)
    requires
        tex_wf(t),
    ensures
        bounded_s(tex_value_s(t, u, v, p), COORD_LIM as int),
    decreases t,
{
    match t {
        Texture::Solid(_) => {}
        Texture::Checker(c) => {
            let ghost sub_odd = *c.odd;
            let ghost sub_even = *c.even;
            lemma_tex_value_bounded(sub_odd, u, v, p);
            lemma_tex_value_bounded(sub_even, u, v, p);
        }
        Texture::Noise(n) => {
            crate::fx::lemma_fx_sin_range(
                10 * crate::perlin::turb_s(n.noise, p, 7, FX_ONE as int) + crate::fx::fmul(
                    p.z,
                    n.scale as int,
                ),
            );
            crate::fx::lemma_fmul_bound(
                32768,
                FX_ONE as int + crate::fx::fx_sin_s(
                    10 * crate::perlin::turb_s(n.noise, p, 7, FX_ONE as int) + crate::fx::fmul(
                        p.z,
                        n.scale as int,
                    ),
                ),
                32768,
                131073,
            );
            assert(32768int * 131073 / 65536 == 65536);
        }
        Texture::Image(i) => {
            if !(i.width == 0 || i.height == 0) {
                let uu = clip_unit(u);
                let vv = clip_unit(abs1(v));
                let ii = cap(tdiv(uu * i.width, FX_ONE as int), i.width as int - 1);
                let jj = cap(tdiv(vv * i.height, FX_ONE as int), i.height as int - 1);
                let base = jj * i.bytes_per_scanline + 3 * ii;
                lemma_byte_scale_bounded(i.data@, base);
            }
        }
    }
}

proof fn lemma_byte_scale_bounded(d: Seq<u8>, b: int)
    ensures
        0 <= tdiv(d[b] * (FX_ONE as int), 255) <= FX_ONE,
        0 <= tdiv(d[b + 1] * (FX_ONE as int), 255) <= FX_ONE,
        0 <= tdiv(d[b + 2] * (FX_ONE as int), 255) <= FX_ONE,
{
    lemma_one_byte(d[b]);
    lemma_one_byte(d[b + 1]);
    lemma_one_byte(d[b + 2]);
}

proof fn lemma_one_byte(x: u8)
    ensures
        0 <= tdiv(x * (FX_ONE as int), 255) <= FX_ONE,
{
    crate::fx::lemma_tdiv_bound(x * (FX_ONE as int), 255);
    assert(x * 65536 <= 16711680) by (nonlinear_arith)
        requires
            x <= 255,
    ;
    assert(x * 65536 >= 0) by (nonlinear_arith)
        requires
            x >= 0,
    ;
    assert(abs1(x * (FX_ONE as int)) / 255 <= 65536) by (nonlinear_arith)
        requires
            0 <= x * (FX_ONE as int) <= 16711680 && abs1(x * (FX_ONE as int)) == x * (
            FX_ONE as int),
    ;
}

impl SolidColor {
    pub fn new(color_value: Color) -> (r: Self)
        ensures
            r.color_value == color_value,
    {
        SolidColor { color_value }
    }
}

impl CheckerTexture {
    pub fn new_from_color(c1: Color, c2: Color) -> (r: Self)
        ensures
            *r.even == Texture::Solid(SolidColor { color_value: c1 }),
            *r.odd == Texture::Solid(SolidColor { color_value: c2 }),
    {
        Self {
            even: Arc::new(Texture::Solid(SolidColor::new(c1))),
            odd: Arc::new(Texture::Solid(SolidColor::new(c2))),
        }
    }
}

impl ImageTexture {
    /// Build from an already decoded 8-bit RGB buffer (decoding an image
    /// file is the caller's concern).
    pub fn new(data: Vec<u8>, width: usize, height: usize) -> (r: Self)
        requires
            width <= 4096,
            height <= 4096,
            data@.len() == 3 * width * height,
        ensures
            image_wf(r),
            r.data == data && r.width == width && r.height == height,
    {
        let bytes_per_scanline = 3 * width;
        Self { data, width, height, bytes_per_scanline }
    }
}

impl Texture {
    pub fn value(&self, u: i64, v: i64, p: &Point3) -> (r: Color)
        requires
            tex_wf(*self),
            bounded_s(p.s(), P_LIM as int),
            u > i64::MIN,
            v > i64::MIN,
        ensures
            r.s() == tex_value_s(*self, u as int, v as int, p.s()),
            bounded_s(r.s(), COORD_LIM as int),
        decreases *self,
    {
        proof {
            lemma_tex_value_bounded(*self, u as int, v as int, p.s());
        }
        match self {
            Texture::Solid(s) => s.color_value,
            Texture::Checker(c) => {
                if checker_odd(p) {
                    let sub = crate::arc_as_ref(&c.odd);
                    sub.value(u, v, p)
                } else {
                    let sub = crate::arc_as_ref(&c.even);
                    sub.value(u, v, p)
                }
            }
            Texture::Noise(n) => n.value(p),
            Texture::Image(img) => img.value(u, v),
        }
    }
}

impl NoiseTexture {
    pub fn new_sc(sc: i64) -> (r: Self)
        requires
            abs1(sc as int) <= 1048576,
        ensures
            r.scale == sc,
            tex_wf(Texture::Noise(r)),
    {
        Self { noise: crate::perlin::Perlin::new(), scale: sc }
    }

    pub fn value(&self, p: &Point3) -> (r: Color)
        requires
            tex_wf(Texture::Noise(*self)),
            bounded_s(p.s(), P_LIM as int),
        ensures
            r.s() == noise_value_s(*self, p.s()),
            bounded_s(r.s(), COORD_LIM as int),
    {
        let t = self.noise.turb(p, 7);
        proof {
            crate::fx::lemma_fmul_bound(p.z as int, self.scale as int, P_LIM as int, 1048576);
            assert(17592186044416int * 1048576 / 65536 == 281474976710656);
        }
        let shift = crate::fx::fx_mul(p.z, self.scale);
        let s = crate::fx::fx_sin(10 * t + shift);
        proof {
            crate::fx::lemma_fx_sin_range(10 * t as int + shift as int);
            crate::fx::lemma_fmul_bound(32768, FX_ONE as int + s as int, 32768, 131073);
            assert(32768int * 131073 / 65536 == 65536);
        }
        let v = crate::fx::fx_mul(32768, FX_ONE + s);
        Vec3 { x: v, y: v, z: v }
    }
}

/// The executable checker parity test.
fn checker_odd(p: &Point3) -> (r: bool)
    requires
        bounded_s(p.s(), P_LIM as int),
    ensures
        r == checker_odd_s(p.s()),
{
    let fx = crate::fx::ediv(10 * p.x, FX_PI);
    let fy = crate::fx::ediv(10 * p.y, FX_PI);
    let fz = crate::fx::ediv(10 * p.z, FX_PI);
    let n = fx + fy + fz;
    let h = crate::fx::ediv(n, 2);
    proof {
        vstd::arithmetic::div_mod::lemma_fundamental_div_mod(n as int, 2);
    }
    n - 2 * h != 0
}

impl ImageTexture {
    pub fn value(&self, u: i64, v: i64) -> (r: Color)
        requires
            image_wf(*self),
            u > i64::MIN,
            v > i64::MIN,
        ensures
            r.s() == image_value_s(*self, u as int, v as int),
    {
        if self.width == 0 || self.height == 0 {
            return Vec3 { x: 0, y: FX_ONE, z: FX_ONE };
        }
        let uu = clamp_unit(u);
        let vv = clamp_unit(if v < 0 {
            -v
        } else {
            v
        });
        proof {
            crate::fx::lemma_tdiv_bound(uu * self.width as int, FX_ONE as int);
            crate::fx::lemma_tdiv_bound(vv * self.height as int, FX_ONE as int);
            assert(uu * self.width <= 268435456 && uu * self.width >= 0) by (nonlinear_arith)
                requires
                    0 <= uu <= 65536 && 0 <= self.width <= 4096,
            ;
            assert(vv * self.height <= 268435456 && vv * self.height >= 0) by (nonlinear_arith)
                requires
                    0 <= vv <= 65536 && 0 <= self.height <= 4096,
            ;
        }
        let i0 = ((uu as u64 * self.width as u64) / 65536) as i64;
        let j0 = ((vv as u64 * self.height as u64) / 65536) as i64;
        let i = if i0 > self.width as i64 - 1 {
            self.width as i64 - 1
        } else {
            i0
        };
        let j = if j0 > self.height as i64 - 1 {
            self.height as i64 - 1
        } else {
            j0
        };
        proof {
            lemma_pixel_index(self.width as int, self.height as int, i as int, j as int);
            assert((j as int) * (self.bytes_per_scanline as int) <= 50319360) by (nonlinear_arith)
                requires
                    0 <= j <= 4095 && 0 <= self.bytes_per_scanline <= 12288,
            ;
        }
        let base = (j as usize) * self.bytes_per_scanline + 3 * (i as usize);
        let pr = self.data[base];
        let pg = self.data[base + 1];
        let pb = self.data[base + 2];
        proof {
            lemma_byte_scale_bounded(self.data@, base as int);
        }
        let x = ((pr as u64 * 65536) / 255) as i64;
        let y = ((pg as u64 * 65536) / 255) as i64;
        let z = ((pb as u64 * 65536) / 255) as i64;
        Vec3 { x, y, z }
    }
}

/// A pixel index chosen inside the image addresses three bytes inside the
/// buffer.
proof fn lemma_pixel_index(w: int, h: int, i: int, j: int)
    by (nonlinear_arith)
    requires
        0 < w <= 4096,
        0 < h <= 4096,
        0 <= i < w,
        0 <= j < h,
    ensures
        0 <= j * (3 * w) + 3 * i,
        j * (3 * w) + 3 * i + 2 < 3 * w * h,
{
}

fn clamp_unit(x: i64) -> (r: i64)
    ensures
        r == clip_unit(x as int),
        0 <= r <= FX_ONE,
{
    if x < 0 {
        0
    } else if x > FX_ONE {
        FX_ONE
    } else {
        x
    }
}

} // verus!
