//! Invariance laws of the intersection mirrors: translation invariance and
//! the zero-rotation identity.

use vstd::prelude::*;
use crate::fx::{abs1, FX_ONE};
use crate::hittable::{
    ent_wf, rotate_hit_s, hit_s, translate_hit_s, HRec, Hittable, RotateY, Translate,
};
use crate::ray::{ray_wf, Ray};
use crate::sphere::quadratic_hit_s;
use crate::aarect::plane_hit_s;
use crate::vec3::{bounded_s, vadd_s, vsub_s, Vec3, V3, P_LIM};

verus! {

/// Translating a sphere and a ray's origin by the same vector leaves the
/// accepted quadratic root — the reported `t` of a hit, and whether there
/// is one — exactly unchanged.
pub proof fn lemma_sphere_translation_invariance(
    center: V3,
    radius: int,
    v: V3,
    r: Ray,
    r2: Ray,
    t_min: int,
    t_max: int,
)
    requires
        r2.orig.s() == vadd_s(r.orig.s(), v),
        r2.dir == r.dir,
        r2.tm == r.tm,
    ensures
        quadratic_hit_s(vadd_s(center, v), radius, r2, t_min, t_max) == quadratic_hit_s(
            center,
            radius,
            r,
            t_min,
            t_max,
        ),
{
    assert(vsub_s(r2.orig.s(), vadd_s(center, v)) == vsub_s(r.orig.s(), center));
}

/// A ray aimed exactly at a sphere's center from outside hits it, at the
/// entry point.  Aiming exactly at the center makes every intermediate of
/// the quadratic cancel exactly: the half-coefficient is the negated
/// direction norm, the discriminant is exactly `a * r^2` before scaling,
/// and the accepted root is the nearer one, between 0 and 1 —
/// the entry at center distance minus radius, in units of the aim vector
/// (whose parameter 1 is the center itself).
pub proof fn lemma_aimed_ray_enters(center: V3, radius: int, r: Ray, t_max: int)
    requires
        r.dir.s() == vsub_s(center, r.orig.s()),
        crate::vec3::vlensq_s(r.dir.s()) > crate::fx::fmul(radius, radius),
        crate::fx::fmul(radius, radius) >= 1,
        t_max >= crate::fx::FX_ONE,
    ensures
        ({
            let a = crate::vec3::vlensq_s(r.dir.s());
            let r2 = crate::fx::fmul(radius, radius);
            let disc = crate::fx::tdiv(a * r2, crate::fx::FX_ONE as int);
            let root = crate::fx::tdiv(
                (a - crate::fx::fx_sqrt_s(disc)) * (crate::fx::FX_ONE as int),
                a,
            );
            quadratic_hit_s(center, radius, r, 0, t_max) == Some(root) && 0 <= root
                <= crate::fx::FX_ONE
        }),
{
    let s = crate::fx::FX_ONE as int;
    let d = r.dir.s();
    let oc = vsub_s(r.orig.s(), center);
    assert(oc == crate::vec3::vneg_s(d));
    let a = crate::vec3::vlensq_s(d);
    let r2 = crate::fx::fmul(radius, radius);
    crate::vec3::lemma_lensq_nonneg(d);
    let n = d.x * d.x + d.y * d.y + d.z * d.z;
    assert(oc.x * d.x + oc.y * d.y + oc.z * d.z == -n) by (nonlinear_arith)
        requires
            oc.x == -d.x && oc.y == -d.y && oc.z == -d.z && n == d.x * d.x + d.y * d.y + d.z * d.z,
    ;
    assert(oc.x * oc.x + oc.y * oc.y + oc.z * oc.z == n) by (nonlinear_arith)
        requires
            oc.x == -d.x && oc.y == -d.y && oc.z == -d.z && n == d.x * d.x + d.y * d.y + d.z * d.z,
    ;
    let hb = crate::vec3::vdot_s(oc, d);
    crate::fx::lemma_tdiv_neg(n, s);
    assert(hb == -a);
    let c = crate::vec3::vlensq_s(oc) - r2;
    assert(c == a - r2);
    assert(hb * hb - a * c == a * r2) by (nonlinear_arith)
        requires
            hb == -a && c == a - r2,
    ;
    let disc = crate::fx::tdiv(a * r2, s);
    assert(a * r2 >= a) by (nonlinear_arith)
        requires
            a >= 1 && r2 >= 1,
    ;
    assert(a * r2 >= 0) by (nonlinear_arith)
        requires
            a >= 0 && r2 >= 0,
    ;
    crate::fx::lemma_tdiv_bound(a * r2, s);
    assert(disc >= 0);
    assert(a > r2 >= 1);
    let sq = crate::fx::fx_sqrt_s(disc);
    crate::fx::lemma_sqrt_exists(disc * s);
    // disc * s <= a * r2 < a * a, so the root of the discriminant stays
    // below a and the near root is strictly positive
    assert(disc * s <= a * r2) by (nonlinear_arith)
        requires
            disc == crate::fx::tdiv(a * r2, s) && a * r2 >= 0 && s == 65536 && crate::fx::abs1(
                crate::fx::tdiv(a * r2, s),
            ) == crate::fx::abs1(a * r2) / s,
    ;
    assert(a * r2 < a * a) by (nonlinear_arith)
        requires
            1 <= r2 < a,
    ;
    crate::fx::lemma_sqrt_le(disc * s, a);
    assert(0 <= sq < a);
    assert(0 < (a - sq) * s <= a * s) by (nonlinear_arith)
        requires
            0 <= sq < a && s == 65536,
    ;
    let root = crate::fx::tdiv((a - sq) * s, a);
    crate::fx::lemma_tdiv_bound((a - sq) * s, a);
    assert(root <= crate::fx::tdiv(a * s, a)) by {
        crate::fx::lemma_tdiv_mono((a - sq) * s, a * s, a);
    }
    assert(crate::fx::tdiv(a * s, a) == s) by (nonlinear_arith)
        requires
            a >= 1 && s == 65536,
    ;
    assert(root >= 0);
}

/// Translating a rectangle's plane and extents and the ray's origin by the
/// same vector leaves the crossing — its `t` and both surface coordinates —
/// exactly unchanged.
pub proof fn lemma_plane_translation_invariance(
    k: int,
    ok: int,
    dk: int,
    o1: int,
    d1: int,
    o2: int,
    d2: int,
    a0: int,
    a1: int,
    b0: int,
    b1: int,
    t_min: int,
    t_max: int,
    vk: int,
    v1: int,
    v2: int,
)
    ensures
        plane_hit_s(
            k + vk,
            ok + vk,
            dk,
            o1 + v1,
            d1,
            o2 + v2,
            d2,
            a0 + v1,
            a1 + v1,
            b0 + v2,
            b1 + v2,
            t_min,
            t_max,
        ) == plane_hit_s(k, ok, dk, o1, d1, o2, d2, a0, a1, b0, b1, t_min, t_max),
{
}

/// The translation wrapper realizes translation invariance for every
/// entity: hitting a translated entity with a ray whose origin was shifted
/// by the same vector reports the same presence, parameter, surface
/// coordinates, normal and material as hitting the bare entity with the
/// bare ray (only the hit point moves, shifted back by the offset).
pub proof fn lemma_translate_wrapper_invariance(
    t: Translate,
    r: Ray,
    r2: Ray,
    t_min: int,
    t_max: int,
)
    requires
        bounded_s(r.orig.s(), P_LIM as int),
        r2.orig.s() == vadd_s(r.orig.s(), t.offset.s()),
        r2.dir == r.dir,
        r2.tm == r.tm,
    ensures
        match (translate_hit_s(t, r2, t_min, t_max), hit_s(*t.ptr, r, t_min, t_max)) {
            (None, None) => true,
            (Some(a), Some(b)) => a.t == b.t && a.u == b.u && a.v == b.v && a.mat == b.mat && a.p
                == crate::vec3::vclip_s(vadd_s(b.p, t.offset.s()), P_LIM as int),
            _ => false,
        },
{
    let mo = vsub_s(r2.orig.s(), t.offset.s());
    assert(mo == r.orig.s());
    assert(bounded_s(mo, P_LIM as int));
    let moved = Ray {
        orig: Vec3 { x: mo.x as i64, y: mo.y as i64, z: mo.z as i64 },
        dir: r2.dir,
        tm: r2.tm,
    };
    assert(moved == r);
}

/// Rotating by zero degrees reproduces the unrotated entity's hit result
/// exactly: with `sin = 0` and `cos = 1` the rotation wrapper's mirror
/// returns precisely the child's record.
pub proof fn lemma_rotate_zero_identity(t: RotateY, r: Ray, t_min: int, t_max: int)
    requires
        t.sin_theta == 0,
        t.cos_theta == FX_ONE,
        ray_wf(r),
        ent_wf(*t.ptr),
    ensures
        match (rotate_hit_s(t, r, t_min, t_max), hit_s(*t.ptr, r, t_min, t_max)) {
            (None, None) => true,
            (Some(a), Some(b)) => a.t == b.t && a.u == b.u && a.v == b.v && a.mat == b.mat && a.p
                == b.p && (crate::vec3::vdot_s(r.dir.s(), b.normal) < 0 ==> a.normal == b.normal),
            _ => false,
        },
{
    let cos = t.cos_theta as int;
    let sin = t.sin_theta as int;
    crate::fx::lemma_fmul_unit(r.orig.x as int);
    crate::fx::lemma_fmul_unit(r.orig.z as int);
    crate::fx::lemma_fmul_unit(r.dir.x as int);
    crate::fx::lemma_fmul_unit(r.dir.z as int);
    assert(cos * r.orig.x as int == 65536 * r.orig.x as int);
    lemma_zero_rot_inv(r.orig.x as int, r.orig.z as int);
    lemma_zero_rot_inv(r.dir.x as int, r.dir.z as int);
    let o = crate::hittable::rot_inv_s(cos, sin, r.orig.x as int, r.orig.z as int);
    let d = crate::hittable::rot_inv_s(cos, sin, r.dir.x as int, r.dir.z as int);
    assert(o == (r.orig.x as int, r.orig.z as int));
    assert(d == (r.dir.x as int, r.dir.z as int));
    let moved = Ray {
        orig: Vec3 {
            x: crate::fx::clip(o.0, P_LIM as int) as i64,
            y: r.orig.y,
            z: crate::fx::clip(o.1, P_LIM as int) as i64,
        },
        dir: Vec3 { x: d.0 as i64, y: r.dir.y, z: d.1 as i64 },
        tm: r.tm,
    };
    assert(moved == r);
    let ghost child = *t.ptr;
    match hit_s(child, r, t_min, t_max) {
        None => {}
        Some(rec) => {
            crate::hittable::lemma_hit_s_bounded(child, r, t_min, t_max);
            lemma_zero_rot_fwd(rec.p.x, rec.p.z, P_LIM as int);
            lemma_zero_rot_fwd(rec.normal.x, rec.normal.z, 2 * FX_ONE as int);
        }
    }
}

/// The inverse rotation with `sin = 0`, `cos = 1` is the identity.
proof fn lemma_zero_rot_inv(x: int, z: int)
    ensures
        crate::hittable::rot_inv_s(FX_ONE as int, 0, x, z) == (x, z),
{
    crate::fx::lemma_fmul_unit(x);
    crate::fx::lemma_fmul_unit(z);
    assert(65536 * x - 0 * z == 65536 * x) by (nonlinear_arith);
    assert(0 * x + 65536 * z == 65536 * z) by (nonlinear_arith);
    assert(crate::fx::tdiv(65536 * x, 65536) == crate::fx::fmul(65536, x));
    assert(crate::fx::tdiv(65536 * z, 65536) == crate::fx::fmul(65536, z));
}

/// The forward rotation with `sin = 0`, `cos = 1` is the identity on
/// values within the clip bound.
proof fn lemma_zero_rot_fwd(x: int, z: int, lim: int)
    requires
        abs1(x) <= lim,
        abs1(z) <= lim,
    ensures
        crate::hittable::rot_fwd_s(FX_ONE as int, 0, x, z, lim) == (x, z),
{
    crate::fx::lemma_fmul_unit(x);
    crate::fx::lemma_fmul_unit(z);
    assert(65536 * x + 0 * z == 65536 * x) by (nonlinear_arith);
    assert(65536 * z - 0 * x == 65536 * z) by (nonlinear_arith);
    assert(crate::fx::tdiv(65536 * x, 65536) == crate::fx::fmul(65536, x));
    assert(crate::fx::tdiv(65536 * z, 65536) == crate::fx::fmul(65536, z));
}

} // verus!
