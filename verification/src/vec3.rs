//! Three-component fixed-point vectors, used for points, directions and
//! colors.  Spec-level arithmetic is over `V3`, the mathematical (unbounded)
//! image of a `Vec3`; executable operations compute in 128-bit intermediates
//! and are proved equal to the spec operations.

use vstd::prelude::*;
use crate::fx::{abs1, fdiv, fmul, fx_sqrt_s, is_sqrt, prod64, tdiv, tdiv128, FX_ONE};

verus! {

/// Hit points and ray origins are kept within this bound (2^44).
pub const P_LIM: i64 = 17592186044416;

/// Ray direction components are kept within this bound (2^33).
pub const DIR_LIM: i64 = 8589934592;

/// Scene geometry (centers, radii, rectangle extents, offsets) lies within
/// this bound (2^40).
pub const COORD_LIM: i64 = 1099511627776;

/// Ray times lie within this bound (2^31).
pub const TIME_LIM: i64 = 2147483648;

/// Operands of the quadratic-form operations stay below this bound (2^61),
/// which keeps their 128-bit sums of products from overflowing.
pub const QUAD_LIM: i64 = 2305843009213693952;

#[derive(Clone, Copy, PartialEq, Eq, Structural, Debug)]
pub struct Vec3 {
    pub x: i64,
    pub y: i64,
    pub z: i64,
}

pub type Point3 = Vec3;

pub type Color = Vec3;

/// The mathematical image of a vector: three unbounded integers.
pub struct V3 {
    pub x: int,
    pub y: int,
    pub z: int,
}

impl Vec3 {
    pub open spec fn s(self) -> V3 {
        V3 { x: self.x as int, y: self.y as int, z: self.z as int }
    }
}

pub open spec fn bounded_s(a: V3, lim: int) -> bool {
    abs1(a.x) <= lim && abs1(a.y) <= lim && abs1(a.z) <= lim
}

pub open spec fn vadd_s(a: V3, b: V3) -> V3 {
    V3 { x: a.x + b.x, y: a.y + b.y, z: a.z + b.z }
}

pub open spec fn vsub_s(a: V3, b: V3) -> V3 {
    V3 { x: a.x - b.x, y: a.y - b.y, z: a.z - b.z }
}

pub open spec fn vneg_s(a: V3) -> V3 {
    V3 { x: -a.x, y: -a.y, z: -a.z }
}

pub open spec fn vscale_s(a: V3, t: int) -> V3 {
    V3 { x: fmul(a.x, t), y: fmul(a.y, t), z: fmul(a.z, t) }
}

/// Componentwise product (used for color attenuation).
pub open spec fn vmul_s(a: V3, b: V3) -> V3 {
    V3 { x: fmul(a.x, b.x), y: fmul(a.y, b.y), z: fmul(a.z, b.z) }
}

/// Dot product, with a single final scale-down.
pub open spec fn vdot_s(a: V3, b: V3) -> int {
    tdiv(a.x * b.x + a.y * b.y + a.z * b.z, FX_ONE as int)
}

pub open spec fn vcross_s(a: V3, b: V3) -> V3 {
    V3 {
        x: tdiv(a.y * b.z - a.z * b.y, FX_ONE as int),
        y: tdiv(a.z * b.x - a.x * b.z, FX_ONE as int),
        z: tdiv(a.x * b.y - a.y * b.x, FX_ONE as int),
    }
}

pub open spec fn vlensq_s(a: V3) -> int {
    vdot_s(a, a)
}

pub open spec fn vlen_s(a: V3) -> int {
    fx_sqrt_s(vlensq_s(a))
}

pub open spec fn vdiv_s(a: V3, t: int) -> V3 {
    V3 { x: fdiv(a.x, t), y: fdiv(a.y, t), z: fdiv(a.z, t) }
}

pub open spec fn vunit_s(a: V3) -> V3 {
    vdiv_s(a, vlen_s(a))
}

/// Clamp each component to `[-lim, lim]`.
pub open spec fn vclip_s(a: V3, lim: int) -> V3 {
    V3 {
        x: crate::fx::clip(a.x, lim),
        y: crate::fx::clip(a.y, lim),
        z: crate::fx::clip(a.z, lim),
    }
}

impl Vec3 {
    pub fn new(x: i64, y: i64, z: i64) -> (r: Vec3)
        ensures
            r.x == x && r.y == y && r.z == z,
    {
        Vec3 { x, y, z }
    }

    pub fn zero() -> (r: Vec3)
        ensures
            r.s() == (V3 { x: 0, y: 0, z: 0 }),
    {
        Vec3 { x: 0, y: 0, z: 0 }
    }

    pub fn add(self, o: Vec3) -> (r: Vec3)
        requires
            bounded_s(vadd_s(self.s(), o.s()), i64::MAX as int),
        ensures
            r.s() == vadd_s(self.s(), o.s()),
    {
        Vec3 { x: self.x + o.x, y: self.y + o.y, z: self.z + o.z }
    }

    pub fn sub(self, o: Vec3) -> (r: Vec3)
        requires
            bounded_s(vsub_s(self.s(), o.s()), i64::MAX as int),
        ensures
            r.s() == vsub_s(self.s(), o.s()),
    {
        Vec3 { x: self.x - o.x, y: self.y - o.y, z: self.z - o.z }
    }

    pub fn neg(self) -> (r: Vec3)
        requires
            self.x > i64::MIN,
            self.y > i64::MIN,
            self.z > i64::MIN,
        ensures
            r.s() == vneg_s(self.s()),
    {
        Vec3 { x: -self.x, y: -self.y, z: -self.z }
    }

    pub fn scale(self, t: i64) -> (r: Vec3)
        requires
            bounded_s(vscale_s(self.s(), t as int), i64::MAX as int),
        ensures
            r.s() == vscale_s(self.s(), t as int),
    {
        let x = tdiv128(prod64(self.x, t), FX_ONE as i128);
        let y = tdiv128(prod64(self.y, t), FX_ONE as i128);
        let z = tdiv128(prod64(self.z, t), FX_ONE as i128);
        Vec3 { x: x as i64, y: y as i64, z: z as i64 }
    }

    /// Componentwise product, for composing color attenuations.
    pub fn mul(self, o: Vec3) -> (r: Vec3)
        requires
            bounded_s(vmul_s(self.s(), o.s()), i64::MAX as int),
        ensures
            r.s() == vmul_s(self.s(), o.s()),
    {
        let x = tdiv128(prod64(self.x, o.x), FX_ONE as i128);
        let y = tdiv128(prod64(self.y, o.y), FX_ONE as i128);
        let z = tdiv128(prod64(self.z, o.z), FX_ONE as i128);
        Vec3 { x: x as i64, y: y as i64, z: z as i64 }
    }

    pub fn dot(self, o: Vec3) -> (r: i64)
        requires
            bounded_s(self.s(), QUAD_LIM as int),
            bounded_s(o.s(), QUAD_LIM as int),
            abs1(vdot_s(self.s(), o.s())) <= i64::MAX,
        ensures
            r == vdot_s(self.s(), o.s()),
    {
        proof {
            lemma_quad_products(self.s(), o.s());
        }
        let p = prod64(self.x, o.x) + prod64(self.y, o.y) + prod64(self.z, o.z);
        let q = tdiv128(p, FX_ONE as i128);
        q as i64
    }

    pub fn cross(self, o: Vec3) -> (r: Vec3)
        requires
            bounded_s(self.s(), QUAD_LIM as int),
            bounded_s(o.s(), QUAD_LIM as int),
            bounded_s(vcross_s(self.s(), o.s()), i64::MAX as int),
        ensures
            r.s() == vcross_s(self.s(), o.s()),
    {
        proof {
            lemma_quad_products(self.s(), o.s());
            lemma_quad_products(o.s(), self.s());
        }
        let x = tdiv128(prod64(self.y, o.z) - prod64(self.z, o.y), FX_ONE as i128);
        let y = tdiv128(prod64(self.z, o.x) - prod64(self.x, o.z), FX_ONE as i128);
        let z = tdiv128(prod64(self.x, o.y) - prod64(self.y, o.x), FX_ONE as i128);
        Vec3 { x: x as i64, y: y as i64, z: z as i64 }
    }

    pub fn squared_length(self) -> (r: i64)
        requires
            bounded_s(self.s(), QUAD_LIM as int),
            abs1(vlensq_s(self.s())) <= i64::MAX,
        ensures
            r == vlensq_s(self.s()),
            r >= 0,
    {
        proof {
            lemma_lensq_nonneg(self.s());
        }
        self.dot(self)
    }

    pub fn length(self) -> (r: i64)
        requires
            bounded_s(self.s(), QUAD_LIM as int),
            abs1(vlensq_s(self.s())) <= i64::MAX,
        ensures
            r == vlen_s(self.s()),
            0 <= r < 0x10000000000,
    {
        let sq = self.squared_length();
        crate::fx::fx_sqrt(sq)
    }

    /// Whether every component is exactly zero (the fixed-point rendering of
    /// the degenerate-direction test).
    pub fn near_zero(&self) -> (r: bool)
        ensures
            r == (self.x == 0 && self.y == 0 && self.z == 0),
    {
        self.x == 0 && self.y == 0 && self.z == 0
    }

    /// Scale to unit length; requires real length at least 1/2 so that the
    /// result components stay within `2 * FX_ONE`.
    pub fn unit_vector(self) -> (r: Vec3)
        requires
            bounded_s(self.s(), QUAD_LIM as int),
            abs1(vlensq_s(self.s())) <= i64::MAX,
            vlensq_s(self.s()) >= 16384,
        ensures
            r.s() == vunit_s(self.s()),
            bounded_s(r.s(), 2 * FX_ONE as int),
    {
        let len = self.length();
        proof {
            lemma_unit_bounded(self.s());
        }
        let x = tdiv128(prod64(self.x, FX_ONE), len as i128);
        let y = tdiv128(prod64(self.y, FX_ONE), len as i128);
        let z = tdiv128(prod64(self.z, FX_ONE), len as i128);
        Vec3 { x: x as i64, y: y as i64, z: z as i64 }
    }
}

/// All pairwise component products of two `QUAD_LIM`-bounded vectors stay
/// within 2^122.
pub proof fn lemma_quad_products(a: V3, b: V3)
    requires
        bounded_s(a, QUAD_LIM as int),
        bounded_s(b, QUAD_LIM as int),
    ensures
        abs1(a.x * b.x) <= 0x4000000000000000000000000000000,
        abs1(a.y * b.y) <= 0x4000000000000000000000000000000,
        abs1(a.z * b.z) <= 0x4000000000000000000000000000000,
        abs1(a.x * b.y) <= 0x4000000000000000000000000000000,
        abs1(a.x * b.z) <= 0x4000000000000000000000000000000,
        abs1(a.y * b.z) <= 0x4000000000000000000000000000000,
{
    let q = QUAD_LIM as int;
    crate::fx::lemma_prod_bound(a.x, b.x, q, q);
    crate::fx::lemma_prod_bound(a.y, b.y, q, q);
    crate::fx::lemma_prod_bound(a.z, b.z, q, q);
    crate::fx::lemma_prod_bound(a.x, b.y, q, q);
    crate::fx::lemma_prod_bound(a.x, b.z, q, q);
    crate::fx::lemma_prod_bound(a.y, b.z, q, q);
    assert((2305843009213693952int) * 2305843009213693952 == 0x4000000000000000000000000000000);
}

/// A componentwise bound gives a bound on the squared length.
pub proof fn lemma_vlensq_bound(a: V3, lim: int)
    requires
        bounded_s(a, lim),
        lim >= 0,
    ensures
        0 <= vlensq_s(a) <= 3 * (lim * lim),
        vlensq_s(a) <= 3 * (lim * lim) / (FX_ONE as int),
{
    lemma_lensq_nonneg(a);
    lemma_vdot_bound(a, a, lim, lim);
    crate::fx::lemma_prod_bound(a.x, a.x, lim, lim);
    crate::fx::lemma_prod_bound(a.y, a.y, lim, lim);
    crate::fx::lemma_prod_bound(a.z, a.z, lim, lim);
    crate::fx::lemma_tdiv_bound(a.x * a.x + a.y * a.y + a.z * a.z, FX_ONE as int);
}

/// The magnitude of a dot product, from componentwise bounds.
pub proof fn lemma_vdot_bound(a: V3, b: V3, la: int, lb: int)
    requires
        bounded_s(a, la),
        bounded_s(b, lb),
        la >= 0,
        lb >= 0,
    ensures
        abs1(vdot_s(a, b)) <= 3 * (la * lb) / (FX_ONE as int),
        abs1(vdot_s(a, b)) <= 3 * (la * lb),
{
    crate::fx::lemma_prod_bound(a.x, b.x, la, lb);
    crate::fx::lemma_prod_bound(a.y, b.y, la, lb);
    crate::fx::lemma_prod_bound(a.z, b.z, la, lb);
    let n = a.x * b.x + a.y * b.y + a.z * b.z;
    crate::fx::lemma_tdiv_bound(n, FX_ONE as int);
    vstd::arithmetic::div_mod::lemma_div_is_ordered(abs1(n), 3 * (la * lb), FX_ONE as int);
    assert(3 * (la * lb) / (FX_ONE as int) <= 3 * (la * lb)) by (nonlinear_arith)
        requires
            la * lb >= 0,
    ;
}

pub proof fn lemma_lensq_nonneg(a: V3)
    ensures
        vlensq_s(a) >= 0,
        a.x * a.x + a.y * a.y + a.z * a.z >= 0,
{
    assert(a.x * a.x >= 0 && a.y * a.y >= 0 && a.z * a.z >= 0) by (nonlinear_arith);
    crate::fx::lemma_tdiv_bound(a.x * a.x + a.y * a.y + a.z * a.z, FX_ONE as int);
}

/// A vector of real length at least 1/2 divides by its length to
/// components within twice the unit.
pub proof fn lemma_unit_bounded(a: V3)
    requires
        vlensq_s(a) >= 16384,
    ensures
        vlen_s(a) >= 32768,
        bounded_s(vunit_s(a), 2 * FX_ONE as int),
{
    let s = FX_ONE as int;
    let q = vlensq_s(a);
    let n = a.x * a.x + a.y * a.y + a.z * a.z;
    lemma_lensq_nonneg(a);
    crate::fx::lemma_sqrt_exists(q * s);
    let l = vlen_s(a);
    assert(l >= 32768) by (nonlinear_arith)
        requires
            is_sqrt(q * s, l) && q >= 16384 && s == 65536,
    ;
    // n = s*q + (n % s), so each component squared is at most s*q + s
    assert(n < s * q + s) by {
        vstd::arithmetic::div_mod::lemma_fundamental_div_mod(n, s);
        vstd::arithmetic::div_mod::lemma_mod_bound(n, s);
    }
    assert(a.x * a.x <= n && a.y * a.y <= n && a.z * a.z <= n) by (nonlinear_arith)
        requires
            n == a.x * a.x + a.y * a.y + a.z * a.z,
    ;
    lemma_unit_comp(a.x, n, q, l);
    lemma_unit_comp(a.y, n, q, l);
    lemma_unit_comp(a.z, n, q, l);
}

proof fn lemma_unit_comp(c: int, n: int, q: int, l: int)
    requires
        c * c <= n,
        n < FX_ONE as int * q + FX_ONE,
        q >= 16384,
        is_sqrt(q * (FX_ONE as int), l),
        l >= 32768,
    ensures
        abs1(fdiv(c, l)) <= 2 * FX_ONE as int,
{
    let s = FX_ONE as int;
    // sq < (l+1)^2 <= l^2 + 2l + 1, so c^2 <= sq + s <= l^2 + 2l + s <= 4l^2
    assert(abs1(c) <= 2 * l) by (nonlinear_arith)
        requires
            c * c <= n && n < s * q + s && q >= 16384 && s == 65536 && is_sqrt(q * s, l) && l
                >= 32768,
    ;
    crate::fx::lemma_tdiv_bound(c * s, l);
    assert(abs1(fdiv(c, l)) <= 2 * s) by (nonlinear_arith)
        requires
            abs1(c) <= 2 * l && l >= 1 && s == 65536 && fdiv(c, l) == tdiv(c * s, l) && (tdiv(
                c * s,
                l,
            ) == if (c * s < 0) == (l < 0) {
                abs1(c * s) / abs1(l)
            } else {
                -(abs1(c * s) / abs1(l))
            }),
    ;
}

} // verus!
