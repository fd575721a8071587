//! Materials: the per-hit scattering rules, as a closed set of variants.
//! Scattering consumes randomness, so each contract states what holds of
//! every possible outcome, naming the random draw existentially.

use vstd::prelude::*;
use std::sync::Arc;
use crate::fx::{abs1, clip, fdiv, fmul, fx_sqrt_s, FX_ONE};
use crate::hittable::{rec_wf, HitRecord};
use crate::ray::{ray_wf, Ray};
use crate::rng::{random_in_unit_sphere, random_unit_scalar, random_unit_vector};
use crate::texture::{tex_value_s, tex_wf, SolidColor, Texture};
use crate::vec3::{
    bounded_s, vadd_s, vdot_s, vlensq_s, vneg_s, vscale_s, vsub_s, vunit_s, Color, Point3, Vec3,
    V3, COORD_LIM, DIR_LIM,
};

verus! {

pub struct Lambertian {
    pub albedo: Arc<Texture>,
}

pub struct Metal {
    pub albedo: Color,
    pub fuzz: i64,
}

pub struct Dielectric {
    pub ir: i64,
}

pub struct DiffuseLight {
    pub emit: Arc<Texture>,
}

pub struct Iostropic {
    pub albedo: Arc<Texture>,
}

pub enum Material {
    Lambertian(Lambertian),
    Metal(Metal),
    Dielectric(Dielectric),
    DiffuseLight(DiffuseLight),
    Iostropic(Iostropic),
}

pub open spec fn mat_wf(m: Material) -> bool {
    match m {
        Material::Lambertian(l) => tex_wf(*l.albedo),
        Material::Metal(mt) => bounded_s(mt.albedo.s(), COORD_LIM as int) && 0 <= mt.fuzz
            <= FX_ONE,
        Material::Dielectric(d) => 16384 <= d.ir <= 262144,
        Material::DiffuseLight(d) => tex_wf(*d.emit),
        Material::Iostropic(i) => tex_wf(*i.albedo),
    }
}

/// Whether a material contributes no light of its own.
pub open spec fn non_emissive(m: Material) -> bool {
    !(m is DiffuseLight)
}

/// Emitted radiance: the light texture's value for a diffuse light, black
/// for every other material.
pub open spec fn emitted_s(m: Material, u: int, v: int, p: V3) -> V3 {
    match m {
        Material::DiffuseLight(d) => tex_value_s(*d.emit, u, v, p),
        _ => V3 { x: 0, y: 0, z: 0 },
    }
}

/// The attenuation a scattering material applies: its texture's value for
/// the diffuse and isotropic rules, the surface color for metal, full
/// transparency for a dielectric (black for a light, which never
/// scatters).
pub open spec fn att_of(m: Material, u: int, v: int, p: V3) -> V3 {
    match m {
        Material::Lambertian(l) => tex_value_s(*l.albedo, u, v, p),
        Material::Metal(mt) => mt.albedo.s(),
        Material::Dielectric(_) => V3 { x: FX_ONE as int, y: FX_ONE as int, z: FX_ONE as int },
        Material::DiffuseLight(_) => V3 { x: 0, y: 0, z: 0 },
        Material::Iostropic(i) => tex_value_s(*i.albedo, u, v, p),
    }
}

/// Mirror reflection about a normal.
pub open spec fn reflect_s(v: V3, n: V3) -> V3 {
    vsub_s(v, vscale_s(n, 2 * vdot_s(v, n)))
}

/// Snell refraction of a unit direction, with the cosine clamped to the
/// unit range as a numerical guard.
pub open spec fn refract_s(uv: V3, n: V3, ratio: int) -> V3 {
    let cos = clip(vdot_s(vneg_s(uv), n), FX_ONE as int);
    let perp = vscale_s(vadd_s(uv, vscale_s(n, cos)), ratio);
    let k = FX_ONE - vlensq_s(perp);
    let par = vscale_s(n, -fx_sqrt_s(abs1(k)));
    vadd_s(perp, par)
}

/// Schlick's reflectance approximation.
pub open spec fn reflectance_s(cos: int, ref_idx: int) -> int {
    let r0 = fdiv(FX_ONE - ref_idx, FX_ONE + ref_idx);
    let r02 = fmul(r0, r0);
    r02 + fmul(FX_ONE - r02, pow5_s(FX_ONE - cos))
}

pub open spec fn pow5_s(x: int) -> int {
    fmul(fmul(fmul(fmul(x, x), x), x), x)
}

/// The refraction ratio for a hit: inverted when entering the surface.
pub open spec fn ratio_s(front_face: bool, ir: int) -> int {
    if front_face {
        fdiv(FX_ONE as int, ir)
    } else {
        ir
    }
}

/// The direction a dielectric scatters into, given the uniform draw `q`:
/// reflection under total internal reflection or when Schlick's term
/// exceeds the draw, refraction otherwise.
pub open spec fn dielectric_dir_s(ud: V3, n: V3, front_face: bool, ir: int, q: int) -> V3 {
    let ratio = ratio_s(front_face, ir);
    let cos = clip(vdot_s(vneg_s(ud), n), FX_ONE as int);
    let sin = fx_sqrt_s(FX_ONE - fmul(cos, cos));
    if fmul(ratio, sin) > FX_ONE || reflectance_s(cos, ratio) > q {
        reflect_s(ud, n)
    } else {
        refract_s(ud, n, ratio)
    }
}

/// The diffuse scatter direction: normal plus a unit sample, with the
/// degenerate-direction guard.
pub open spec fn lambertian_dir_s(n: V3, g: V3) -> V3 {
    if vadd_s(n, g) == (V3 { x: 0, y: 0, z: 0 }) {
        n
    } else {
        vadd_s(n, g)
    }
}

impl Lambertian {
    pub fn new(a: Color) -> (r: Self)
        ensures
            *r.albedo == Texture::Solid(SolidColor { color_value: a }),
            bounded_s(a.s(), COORD_LIM as int) ==> mat_wf(Material::Lambertian(r)),
    {
        Self { albedo: Arc::new(Texture::Solid(SolidColor::new(a))) }
    }

    pub fn new_arc(a: Arc<Texture>) -> (r: Self)
        ensures
            r.albedo == a,
    {
        Self { albedo: a }
    }
}

impl Metal {
    /// The fuzz radius is clamped into the unit interval.
    pub fn new(a: Color, fuzz: i64) -> (r: Self)
        ensures
            r.albedo == a,
            r.fuzz == clip01(fuzz as int),
            0 <= r.fuzz <= FX_ONE,
            bounded_s(a.s(), COORD_LIM as int) ==> mat_wf(Material::Metal(r)),
    {
        Self {
            albedo: a,
            fuzz: if fuzz < 0 {
                0
            } else if fuzz < FX_ONE {
                fuzz
            } else {
                FX_ONE
            },
        }
    }
}

/// Clamp a scalar into `[0, 1]`.
pub open spec fn clip01(v: int) -> int {
    if v < 0 {
        0
    } else if v < FX_ONE {
        v
    } else {
        FX_ONE as int
    }
}

impl Dielectric {
    pub fn new(ir: i64) -> (r: Self)
        ensures
            r.ir == ir,
    {
        Self { ir }
    }

    pub fn reflectance(cosine: i64, ref_idx: i64) -> (r: i64)
        requires
            -FX_ONE <= cosine <= FX_ONE,
            16384 <= ref_idx <= 262144,
        ensures
            r == reflectance_s(cosine as int, ref_idx as int),
    {
        let s = FX_ONE;
        proof {
            lemma_reflectance_bounds(ref_idx as int);
        }
        let r0 = crate::fx::fx_div(s - ref_idx, s + ref_idx);
        let r02 = crate::fx::fx_mul(r0, r0);
        let x = s - cosine;
        proof {
            lemma_pow5_bounds(x as int);
            crate::fx::lemma_fmul_bound(
                (s - r02) as int,
                pow5_s(x as int),
                200000,
                2097152,
            );
            assert(200000int * 2097152 / 65536 == 6400000) by (nonlinear_arith);
        }
        let p5 = pow5(x);
        r02 + crate::fx::fx_mul(s - r02, p5)
    }
}

/// Magnitude bounds along the Schlick chain: the base reflectance term is
/// small once the refraction index is within `[1/4, 4]`.
proof fn lemma_reflectance_bounds(ri: int)
    requires
        16384 <= ri <= 262144,
    ensures
        abs1(fdiv(FX_ONE - ri, FX_ONE + ri)) <= 157287,
        abs1(fmul(fdiv(FX_ONE - ri, FX_ONE + ri), fdiv(FX_ONE - ri, FX_ONE + ri))) <= 65536,
{
    let s = FX_ONE as int;
    let a = (s - ri) * s;
    let b = s + ri;
    crate::fx::lemma_tdiv_bound(a, b);
    let r0 = fdiv(s - ri, b);
    assert(abs1(a) / abs1(b) <= 157287) by (nonlinear_arith)
        requires
            16384 <= ri <= 262144 && s == 65536 && a == (s - ri) * s && b == s + ri,
    ;
    // |r0| is in truth at most 0.6: (s - ri) and (s + ri) satisfy
    // 5 * |s - ri| <= 3 * (s + ri) over the allowed range
    assert(5 * abs1(s - ri) <= 3 * (s + ri)) by (nonlinear_arith)
        requires
            16384 <= ri <= 262144 && s == 65536,
    ;
    assert(abs1(a) / abs1(b) <= 39322) by (nonlinear_arith)
        requires
            16384 <= ri <= 262144 && s == 65536 && a == (s - ri) * s && b == s + ri && 5 * abs1(
                s - ri,
            ) <= 3 * (s + ri),
    ;
    crate::fx::lemma_fmul_bound(r0, r0, 39322, 39322);
    assert(39322int * 39322 / 65536 <= 23594) by (nonlinear_arith);
}

/// `x^5` in fixed point, for `0 <= x <= 2`.
fn pow5(x: i64) -> (r: i64)
    requires
        0 <= x <= 2 * FX_ONE,
    ensures
        r == pow5_s(x as int),
        0 <= r <= 32 * FX_ONE as int,
{
    proof {
        lemma_pow5_bounds(x as int);
    }
    let x2 = crate::fx::fx_mul(x, x);
    let x3 = crate::fx::fx_mul(x2, x);
    let x4 = crate::fx::fx_mul(x3, x);
    crate::fx::fx_mul(x4, x)
}

/// Bounds for the Schlick power chain.
proof fn lemma_pow5_bounds(x: int)
    requires
        0 <= x <= 2 * FX_ONE,
    ensures
        0 <= fmul(x, x) <= 4 * FX_ONE as int,
        0 <= fmul(fmul(x, x), x) <= 8 * FX_ONE as int,
        0 <= fmul(fmul(fmul(x, x), x), x) <= 16 * FX_ONE as int,
        0 <= pow5_s(x) <= 32 * FX_ONE as int,
{
    let s = FX_ONE as int;
    lemma_fmul_nonneg_chain(x);
    crate::fx::lemma_fmul_bound(x, x, 2 * s, 2 * s);
    assert(2 * s * (2 * s) / s == 4 * s) by (nonlinear_arith)
        requires
            s == 65536,
    ;
    crate::fx::lemma_fmul_bound(fmul(x, x), x, 4 * s, 2 * s);
    assert(4 * s * (2 * s) / s == 8 * s) by (nonlinear_arith)
        requires
            s == 65536,
    ;
    crate::fx::lemma_fmul_bound(fmul(fmul(x, x), x), x, 8 * s, 2 * s);
    assert(8 * s * (2 * s) / s == 16 * s) by (nonlinear_arith)
        requires
            s == 65536,
    ;
    crate::fx::lemma_fmul_bound(fmul(fmul(fmul(x, x), x), x), x, 16 * s, 2 * s);
    assert(16 * s * (2 * s) / s == 32 * s) by (nonlinear_arith)
        requires
            s == 65536,
    ;
}

/// Fixed-point products of nonnegative scalars are nonnegative.
proof fn lemma_fmul_nonneg_chain(x: int)
    requires
        x >= 0,
    ensures
        fmul(x, x) >= 0,
        fmul(fmul(x, x), x) >= 0,
        fmul(fmul(fmul(x, x), x), x) >= 0,
        pow5_s(x) >= 0,
{
    crate::fx::lemma_fmul_nonneg(x, x);
    crate::fx::lemma_fmul_nonneg(fmul(x, x), x);
    crate::fx::lemma_fmul_nonneg(fmul(fmul(x, x), x), x);
    crate::fx::lemma_fmul_nonneg(fmul(fmul(fmul(x, x), x), x), x);
}

impl DiffuseLight {
    pub fn new_col(c: Color) -> (r: Self)
        ensures
            *r.emit == Texture::Solid(SolidColor { color_value: c }),
            bounded_s(c.s(), COORD_LIM as int) ==> mat_wf(Material::DiffuseLight(r)),
    {
        Self { emit: Arc::new(Texture::Solid(SolidColor::new(c))) }
    }
}

impl Iostropic {
    pub fn new_col(c: Color) -> (r: Self)
        ensures
            *r.albedo == Texture::Solid(SolidColor { color_value: c }),
            bounded_s(c.s(), COORD_LIM as int) ==> mat_wf(Material::Iostropic(r)),
    {
        Self { albedo: Arc::new(Texture::Solid(SolidColor::new(c))) }
    }
}

/// Mirror reflection, executable.
fn reflect(v: Vec3, n: Vec3) -> (r: Vec3)
    requires
        bounded_s(v.s(), 4 * FX_ONE as int),
        bounded_s(n.s(), 2 * FX_ONE as int),
    ensures
        r.s() == reflect_s(v.s(), n.s()),
        bounded_s(r.s(), 200 * FX_ONE as int),
{
    proof {
        crate::vec3::lemma_vdot_bound(v.s(), n.s(), 4 * FX_ONE as int, 2 * FX_ONE as int);
        assert(3 * ((4 * 65536int) * (2 * 65536)) / 65536 == 1572864) by (nonlinear_arith);
        lemma_scale_bound(n.s(), 2 * vdot_s(v.s(), n.s()), 2 * FX_ONE as int, 3145728);
        assert((2 * 65536int) * 3145728 / 65536 == 6291456) by (nonlinear_arith);
    }
    let d = v.dot(n);
    let step = n.scale(2 * d);
    v.sub(step)
}

/// Componentwise bound of a scaled vector.
pub proof fn lemma_scale_bound(a: V3, t: int, la: int, lt: int)
    requires
        bounded_s(a, la),
        abs1(t) <= lt,
        0 <= la,
        0 <= lt,
    ensures
        bounded_s(vscale_s(a, t), la * lt / (FX_ONE as int)),
{
    crate::fx::lemma_fmul_bound(a.x, t, la, lt);
    crate::fx::lemma_fmul_bound(a.y, t, la, lt);
    crate::fx::lemma_fmul_bound(a.z, t, la, lt);
}

/// Snell refraction, executable.
fn refract(uv: Vec3, n: Vec3, ratio: i64) -> (r: Vec3)
    requires
        bounded_s(uv.s(), 2 * FX_ONE as int),
        bounded_s(n.s(), 2 * FX_ONE as int),
        0 < ratio <= 4 * FX_ONE,
    ensures
        r.s() == refract_s(uv.s(), n.s(), ratio as int),
        bounded_s(r.s(), 1000 * FX_ONE as int),
{
    let s = FX_ONE;
    proof {
        crate::vec3::lemma_vdot_bound(
            vneg_s(uv.s()),
            n.s(),
            2 * FX_ONE as int,
            2 * FX_ONE as int,
        );
        assert(3 * ((2 * 65536int) * (2 * 65536)) / 65536 == 786432) by (nonlinear_arith);
    }
    let d = uv.neg().dot(n);
    let cos = if d > s {
        s
    } else if d < -s {
        -s
    } else {
        d
    };
    proof {
        lemma_scale_bound(n.s(), cos as int, 2 * FX_ONE as int, FX_ONE as int);
        assert((2 * 65536int) * 65536 / 65536 == 131072) by (nonlinear_arith);
        lemma_scale_bound(
            vadd_s(uv.s(), vscale_s(n.s(), cos as int)),
            ratio as int,
            4 * FX_ONE as int,
            4 * FX_ONE as int,
        );
        assert((4 * 65536int) * (4 * 65536) / 65536 == 1048576) by (nonlinear_arith);
    }
    let inner = uv.add(n.scale(cos));
    let perp = inner.scale(ratio);
    proof {
        crate::vec3::lemma_vlensq_bound(perp.s(), 16 * FX_ONE as int);
        assert(3 * ((16 * 65536int) * (16 * 65536)) / 65536 == 50331648) by (nonlinear_arith);
    }
    let psq = perp.squared_length();
    let k = if s - psq >= 0 {
        s - psq
    } else {
        -(s - psq)
    };
    let sq = crate::fx::fx_sqrt(k);
    proof {
        crate::fx::lemma_sqrt_exists(k as int * (FX_ONE as int));
        crate::fx::lemma_sqrt_le(k as int * (FX_ONE as int), 1816658);
        assert(50331648int * 65536 < 1816658int * 1816658) by (nonlinear_arith);
        assert(k as int * 65536 <= 50331648int * 65536) by (nonlinear_arith)
            requires
                0 <= k <= 50331648,
        ;
        lemma_scale_bound(n.s(), -(sq as int), 2 * FX_ONE as int, 1816658);
        assert((2 * 65536int) * 1816658 / 65536 == 3633316) by (nonlinear_arith);
    }
    let par = n.scale(-sq);
    perp.add(par)
}

impl Material {
    /// Emitted radiance at a hit point.
    pub fn emitted(&self, u: i64, v: i64, p: &Point3) -> (r: Color)
        requires
            mat_wf(*self),
            bounded_s(p.s(), crate::vec3::P_LIM as int),
            u > i64::MIN,
            v > i64::MIN,
        ensures
            r.s() == emitted_s(*self, u as int, v as int, p.s()),
            bounded_s(r.s(), COORD_LIM as int),
    {
        match self {
            Material::DiffuseLight(d) => {
                let t = crate::arc_as_ref(&d.emit);
                t.value(u, v, p)
            }
            _ => Vec3 { x: 0, y: 0, z: 0 },
        }
    }

    /// Scatter an incoming ray at a hit.  The contract pins everything but
    /// the random draws, which it names existentially.
    pub fn scatter(&self, r_in: &Ray, rec: &HitRecord) -> (res: Option<(Ray, Color)>)
        requires
            mat_wf(*self),
            ray_wf(*r_in),
            rec_wf(*rec),
        ensures
            res matches Some(sc) ==> sc.0.orig == rec.p && sc.0.tm == r_in.tm && ray_wf(sc.0)
                && bounded_s(sc.1.s(), COORD_LIM as int),
            match *self {
                Material::Lambertian(l) => res matches Some(sc) && sc.1.s() == tex_value_s(
                    *l.albedo,
                    rec.u as int,
                    rec.v as int,
                    rec.p.s(),
                ) && (exists|g: V3|
                    #[trigger] bounded_s(g, 2 * FX_ONE as int) && sc.0.dir.s() == lambertian_dir_s(
                        rec.normal.s(),
                        g,
                    )),
                Material::Metal(mt) => (res matches Some(sc) ==> sc.1 == mt.albedo && vdot_s(
                    sc.0.dir.s(),
                    rec.normal.s(),
                ) > 0 && (exists|g: V3|
                    #[trigger] bounded_s(g, FX_ONE as int) && 0 <= vlensq_s(g) < FX_ONE
                        && sc.0.dir.s() == vadd_s(
                        reflect_s(vunit_s(r_in.dir.s()), rec.normal.s()),
                        vscale_s(g, mt.fuzz as int),
                    ))) && (mt.fuzz == 0 && vlensq_s(r_in.dir.s()) >= 16384 ==> (res is Some
                    <==> vdot_s(
                    reflect_s(vunit_s(r_in.dir.s()), rec.normal.s()),
                    rec.normal.s(),
                ) > 0)),
                Material::Dielectric(d) => (res matches Some(sc) ==> sc.1 == (Vec3 {
                    x: FX_ONE,
                    y: FX_ONE,
                    z: FX_ONE,
                })) && (vlensq_s(r_in.dir.s()) >= 16384 ==> (res matches Some(sc)
                    && sc.1 == (Vec3 { x: FX_ONE, y: FX_ONE, z: FX_ONE }) && (exists|q: int|
                    0 <= q < FX_ONE && sc.0.dir.s() == dielectric_dir_s(
                        vunit_s(r_in.dir.s()),
                        rec.normal.s(),
                        rec.front_face,
                        d.ir as int,
                        q,
                    )))),
                Material::DiffuseLight(_) => res is None,
                Material::Iostropic(i) => res matches Some(sc) && sc.1.s() == tex_value_s(
                    *i.albedo,
                    rec.u as int,
                    rec.v as int,
                    rec.p.s(),
                ) && (exists|g: V3|
                    #[trigger] bounded_s(g, FX_ONE as int) && 0 <= vlensq_s(g) < FX_ONE
                        && sc.0.dir.s() == g),
            },
    {
        match self {
            Material::Lambertian(l) => {
                let su = random_unit_vector();
                let dir0 = rec.normal.add(su);
                let dir = if dir0.near_zero() {
                    rec.normal
                } else {
                    dir0
                };
                let t = crate::arc_as_ref(&l.albedo);
                let att = t.value(rec.u, rec.v, &rec.p);
                let scattered = Ray::new(rec.p, dir, r_in.tm);
                proof {
                    assert(bounded_s(su.s(), 2 * FX_ONE as int) && scattered.dir.s()
                        == lambertian_dir_s(rec.normal.s(), su.s()));
                }
                Some((scattered, att))
            }
            Material::Metal(mt) => {
                let lsq_ok = dir_usable(&r_in.dir);
                if !lsq_ok {
                    return None;
                }
                proof {
                    crate::vec3::lemma_vlensq_bound(r_in.dir.s(), DIR_LIM as int);
                }
                let ud = r_in.dir.unit_vector();
                let reflected = reflect(ud, rec.normal);
                let g = random_in_unit_sphere();
                proof {
                    lemma_scale_bound(g.s(), mt.fuzz as int, FX_ONE as int, FX_ONE as int);
                }
                let step = g.scale(mt.fuzz);
                proof {
                    if mt.fuzz == 0 {
                        crate::fx::lemma_fmul_unit(g.x as int);
                        crate::fx::lemma_fmul_unit(g.y as int);
                        crate::fx::lemma_fmul_unit(g.z as int);
                        assert(step.s() == (V3 { x: 0, y: 0, z: 0 }));
                    }
                }
                let dir = reflected.add(step);
                let scattered = Ray::new(rec.p, dir, r_in.tm);
                proof {
                    crate::vec3::lemma_vdot_bound(
                        dir.s(),
                        rec.normal.s(),
                        201 * FX_ONE as int,
                        2 * FX_ONE as int,
                    );
                }
                let d = dir.dot(rec.normal);
                if d > 0 {
                    proof {
                        assert(bounded_s(g.s(), FX_ONE as int) && 0 <= vlensq_s(g.s()) < FX_ONE
                            && scattered.dir.s() == vadd_s(
                            reflect_s(vunit_s(r_in.dir.s()), rec.normal.s()),
                            vscale_s(g.s(), mt.fuzz as int),
                        ));
                    }
                    Some((scattered, mt.albedo))
                } else {
                    None
                }
            }
            Material::Dielectric(d) => {
                let lsq_ok = dir_usable(&r_in.dir);
                if !lsq_ok {
                    return None;
                }
                let s = FX_ONE;
                let ratio = if rec.front_face {
                    proof {
                        crate::fx::lemma_tdiv_bound(65536int * 65536, d.ir as int);
                    }
                    crate::fx::fx_div(s, d.ir)
                } else {
                    d.ir
                };
                proof {
                    lemma_ratio_range(rec.front_face, d.ir as int);
                    crate::vec3::lemma_vlensq_bound(r_in.dir.s(), DIR_LIM as int);
                }
                let ud = r_in.dir.unit_vector();
                proof {
                    crate::vec3::lemma_vdot_bound(
                        vneg_s(ud.s()),
                        rec.normal.s(),
                        2 * FX_ONE as int,
                        2 * FX_ONE as int,
                    );
                }
                let dt = ud.neg().dot(rec.normal);
                let cos = if dt > s {
                    s
                } else if dt < -s {
                    -s
                } else {
                    dt
                };
                proof {
                    crate::fx::lemma_fmul_bound(cos as int, cos as int, FX_ONE as int, FX_ONE as int);
                    crate::fx::lemma_fmul_nonneg(cos as int, cos as int);
                    assert(65536int * 65536 / 65536 == 65536) by (nonlinear_arith);
                }
                let c2 = crate::fx::fx_mul(cos, cos);
                let sin = crate::fx::fx_sqrt(s - c2);
                proof {
                    crate::fx::lemma_fmul_bound(
                        ratio as int,
                        sin as int,
                        4 * FX_ONE as int,
                        sin as int,
                    );
                    crate::fx::lemma_prod_bound(
                        4 * FX_ONE as int,
                        sin as int,
                        4 * FX_ONE as int,
                        0x10000000000,
                    );
                }
                let cannot_refract = crate::fx::fx_mul(ratio, sin) > s;
                let q = random_unit_scalar();
                let refl = Dielectric::reflectance(cos, ratio);
                let dir = if cannot_refract || refl > q {
                    reflect(ud, rec.normal)
                } else {
                    refract(ud, rec.normal, ratio)
                };
                let scattered = Ray::new(rec.p, dir, r_in.tm);
                proof {
                    assert(0 <= q < FX_ONE && scattered.dir.s() == dielectric_dir_s(
                        vunit_s(r_in.dir.s()),
                        rec.normal.s(),
                        rec.front_face,
                        d.ir as int,
                        q as int,
                    ));
                }
                Some((scattered, Vec3 { x: s, y: s, z: s }))
            }
            Material::DiffuseLight(_) => None,
            Material::Iostropic(i) => {
                let g = random_in_unit_sphere();
                let t = crate::arc_as_ref(&i.albedo);
                let att = t.value(rec.u, rec.v, &rec.p);
                let scattered = Ray::new(rec.p, g, r_in.tm);
                Some((scattered, att))
            }
        }
    }
}

/// A dielectric struck head-on refracts straight through: when the unit
/// incoming direction is exactly the negated unit surface normal,
/// refraction returns the incoming direction unchanged, with no lateral
/// deviation, whatever the refraction ratio.
pub proof fn lemma_refract_head_on(ud: V3, n: V3, ratio: int)
    requires
        ud == vneg_s(n),
        vdot_s(n, n) == FX_ONE,
    ensures
        refract_s(ud, n, ratio) == ud,
{
    let s = FX_ONE as int;
    let z = V3 { x: 0, y: 0, z: 0 };
    assert(vneg_s(ud) == n);
    crate::fx::lemma_fmul_unit(n.x);
    crate::fx::lemma_fmul_unit(n.y);
    crate::fx::lemma_fmul_unit(n.z);
    crate::fx::lemma_fmul_unit(ratio);
    assert(vscale_s(n, s) == n);
    assert(vadd_s(ud, vscale_s(n, s)) == z);
    assert(vscale_s(z, ratio) == z);
    assert(vlensq_s(z) == 0) by {
        assert(0int * 0 == 0) by (nonlinear_arith);
        assert(crate::fx::tdiv(0, s) == 0) by (nonlinear_arith)
            requires
                s == 65536,
        ;
    }
    assert(fx_sqrt_s(s) == s) by {
        crate::fx::lemma_sqrt_exists(s * s);
        assert(crate::fx::is_sqrt(s * s, s)) by (nonlinear_arith)
            requires
                s == 65536,
        ;
        crate::fx::lemma_sqrt_unique(s * s, s, crate::fx::sqrt_floor(s * s));
    }
    crate::fx::lemma_fmul_neg(n.x, s);
    crate::fx::lemma_fmul_neg(n.y, s);
    crate::fx::lemma_fmul_neg(n.z, s);
    assert(vscale_s(n, -s) == vneg_s(n));
    assert(refract_s(ud, n, ratio) == vadd_s(z, vneg_s(n)));
}

/// Whether a direction is long enough to normalize.
fn dir_usable(d: &Vec3) -> (r: bool)
    requires
        bounded_s(d.s(), DIR_LIM as int),
    ensures
        r == (vlensq_s(d.s()) >= 16384),
{
    proof {
        crate::vec3::lemma_vlensq_bound(d.s(), DIR_LIM as int);
    }
    let sq = d.squared_length();
    sq >= 16384
}

/// The refraction ratio stays within `[1/4, 4]`.
proof fn lemma_ratio_range(front_face: bool, ir: int)
    requires
        16384 <= ir <= 262144,
    ensures
        16384 <= ratio_s(front_face, ir) <= 262144,
{
    if front_face {
        crate::fx::lemma_tdiv_bound(65536int * 65536, ir);
        assert(4294967296int / ir <= 262144 && 4294967296int / ir >= 16384) by (nonlinear_arith)
            requires
                16384 <= ir <= 262144,
        ;
    }
}

} // verus!
