//! Spheres, static and moving: the closed-form quadratic intersection.

use vstd::prelude::*;
use std::sync::Arc;
use crate::fx::{abs1, clip, fdiv, fmul, fx_sqrt_s, tdiv, tdiv128, FX_INF, FX_ONE};
use crate::hittable::{mk_rec_s, HRec, HitRecord};
use crate::material::{mat_wf, Material};
use crate::ray::{at_s, ray_wf, Ray};
use crate::vec3::{
    bounded_s, vclip_s, vdiv_s, vdot_s, vlensq_s, vscale_s, vsub_s, vadd_s, Point3, Vec3, V3,
    COORD_LIM, P_LIM, TIME_LIM,
};

verus! {

pub struct Sphere {
    pub center: Point3,
    pub radius: i64,
    pub material: Arc<Material>,
}

pub struct MovingSphere {
    pub center0: Point3,
    pub center1: Point3,
    pub time0: i64,
    pub time1: i64,
    pub radius: i64,
    pub mat_ptr: Arc<Material>,
}

pub open spec fn sphere_wf(s: Sphere) -> bool {
    &&& bounded_s(s.center.s(), COORD_LIM as int)
    &&& 1 <= s.radius <= COORD_LIM
    &&& mat_wf(*s.material)
}

pub open spec fn moving_sphere_wf(s: MovingSphere) -> bool {
    &&& bounded_s(s.center0.s(), COORD_LIM as int)
    &&& bounded_s(s.center1.s(), COORD_LIM as int)
    &&& 1 <= s.radius <= COORD_LIM
    &&& -TIME_LIM <= s.time0 < s.time1 <= TIME_LIM
    &&& mat_wf(*s.mat_ptr)
}

/// The accepted root of the sphere quadratic over `[t_min, t_max]`: the
/// nearer root if it lies in the interval, else the farther, else none.  A
/// ray with a zero-length direction hits nothing.
pub open spec fn quadratic_hit_s(center: V3, radius: int, r: Ray, t_min: int, t_max: int) -> Option<
    int,
> {
    let s = FX_ONE as int;
    let oc = vsub_s(r.orig.s(), center);
    let a = vlensq_s(r.dir.s());
    let hb = vdot_s(oc, r.dir.s());
    let c = vlensq_s(oc) - fmul(radius, radius);
    let disc = tdiv(hb * hb - a * c, s);
    if a == 0 || disc < 0 {
        None
    } else {
        let sq = fx_sqrt_s(disc);
        let r1 = tdiv((-hb - sq) * s, a);
        if t_min <= r1 <= t_max {
            Some(r1)
        } else {
            let r2 = tdiv((-hb + sq) * s, a);
            if t_min <= r2 <= t_max {
                Some(r2)
            } else {
                None
            }
        }
    }
}

/// Surface coordinates from the outward normal: the diamond angle around
/// the y axis for `u`, a linear map of the y component for `v`.
pub open spec fn sphere_uv_s(n: V3) -> (int, int) {
    (diamond_u_s(n.x, n.z), (FX_ONE + clip(n.y, FX_ONE as int)) / 2)
}

/// A piecewise-rational angle coordinate in `[0, 1]`, monotone in the true
/// angle `atan2(-z, x) + pi`.
pub open spec fn diamond_u_s(x: int, z: int) -> int {
    let s = FX_ONE as int;
    let b = -z;
    let den = abs1(x) + abs1(b);
    if den == 0 {
        0
    } else {
        let qf = if x < 0 && b < 0 {
            tdiv(abs1(b) * s, den)
        } else if x >= 0 && b < 0 {
            s + tdiv(x * s, den)
        } else if x >= 0 && b >= 0 {
            2 * s + tdiv(b * s, den)
        } else {
            3 * s + tdiv(abs1(x) * s, den)
        };
        qf / 4
    }
}

/// The record for an accepted root: point along the ray, clipped outward
/// normal, diamond surface coordinates.
pub open spec fn sphere_rec_s(
    center: V3,
    radius: int,
    mat: Arc<Material>,
    r: Ray,
    root: int,
) -> HRec {
    let p = at_s(r.orig.s(), r.dir.s(), root);
    let outward = vclip_s(vdiv_s(vsub_s(p, center), radius), 2 * FX_ONE as int);
    let uv = sphere_uv_s(outward);
    mk_rec_s(p, root, uv.0, uv.1, mat, outward, r)
}

pub open spec fn sphere_hit_s(s: Sphere, r: Ray, t_min: int, t_max: int) -> Option<HRec> {
    match quadratic_hit_s(s.center.s(), s.radius as int, r, t_min, t_max) {
        None => None,
        Some(root) => Some(sphere_rec_s(s.center.s(), s.radius as int, s.material, r, root)),
    }
}

/// The interpolated center of a moving sphere at a ray time, clipped to
/// the geometry bound.
pub open spec fn center_at_s(s: MovingSphere, tm: int) -> V3 {
    let ratio = fdiv(tm - s.time0, s.time1 - s.time0);
    vclip_s(
        vadd_s(s.center0.s(), vscale_s(vsub_s(s.center1.s(), s.center0.s()), ratio)),
        COORD_LIM as int,
    )
}

pub open spec fn moving_sphere_hit_s(s: MovingSphere, r: Ray, t_min: int, t_max: int) -> Option<
    HRec,
> {
    let center = center_at_s(s, r.tm as int);
    match quadratic_hit_s(center, s.radius as int, r, t_min, t_max) {
        None => None,
        Some(root) => Some(sphere_rec_s(center, s.radius as int, s.mat_ptr, r, root)),
    }
}

impl Sphere {
    pub fn new(center: Point3, radius: i64, material: Arc<Material>) -> (r: Self)
        ensures
            r.center == center && r.radius == radius && r.material == material,
    {
        Sphere { center, radius, material }
    }

    pub fn hit(&self, r: &Ray, t_min: i64, t_max: i64) -> (res: Option<HitRecord>)
        requires
            sphere_wf(*self),
            ray_wf(*r),
            abs1(t_min as int) <= FX_INF,
            abs1(t_max as int) <= FX_INF,
        ensures
            match res {
                Some(rec) => sphere_hit_s(*self, *r, t_min as int, t_max as int) == Some(rec.s())
                    && crate::hittable::rec_wf(rec) && t_min <= rec.t <= t_max && rec.mat_ptr
                    == self.material,
                None => sphere_hit_s(*self, *r, t_min as int, t_max as int) is None,
            },
    {
        match quadratic_hit(self.center, self.radius, r, t_min, t_max) {
            None => None,
            Some(root) => Some(sphere_rec(self.center, self.radius, &self.material, r, root)),
        }
    }

    pub fn bounding_box(&self, _time0: i64, _time1: i64) -> (res: Option<crate::aabb::Aabb>)
        requires
            sphere_wf(*self),
        ensures
            res matches Some(b) && b.minimum.s() == vsub_s(
                self.center.s(),
                V3 { x: self.radius as int, y: self.radius as int, z: self.radius as int },
            ) && b.maximum.s() == vadd_s(
                self.center.s(),
                V3 { x: self.radius as int, y: self.radius as int, z: self.radius as int },
            ) && crate::aabb::aabb_wf(b),
    {
        let rv = Vec3 { x: self.radius, y: self.radius, z: self.radius };
        Some(crate::aabb::Aabb::new(self.center.sub(rv), self.center.add(rv)))
    }
}

impl MovingSphere {
    pub fn new(
        cen0: Point3,
        cen1: Point3,
        _time0: i64,
        _time1: i64,
        r: i64,
        m: Arc<Material>,
    ) -> (res: Self)
        ensures
            res.center0 == cen0 && res.center1 == cen1 && res.time0 == _time0 && res.time1
                == _time1 && res.radius == r && res.mat_ptr == m,
    {
        MovingSphere { center0: cen0, center1: cen1, time0: _time0, time1: _time1, radius: r, mat_ptr: m }
    }

    pub fn center(&self, time: i64) -> (res: Point3)
        requires
            moving_sphere_wf(*self),
            abs1(time as int) <= TIME_LIM,
        ensures
            res.s() == center_at_s(*self, time as int),
            bounded_s(res.s(), COORD_LIM as int),
    {
        let dt: i64 = time - self.time0;
        let window: i64 = self.time1 - self.time0;
        proof {
            crate::fx::lemma_tdiv_bound(dt as int * (FX_ONE as int), window as int);
            crate::fx::lemma_prod_bound(dt as int, FX_ONE as int, 4294967296, 65536);
        }
        let ratio = tdiv128(crate::fx::prod64(dt, FX_ONE), window as i128);
        let x = interp_comp(self.center0.x, self.center1.x, ratio as i64);
        let y = interp_comp(self.center0.y, self.center1.y, ratio as i64);
        let z = interp_comp(self.center0.z, self.center1.z, ratio as i64);
        Vec3 { x, y, z }
    }

    pub fn hit(&self, r: &Ray, t_min: i64, t_max: i64) -> (res: Option<HitRecord>)
        requires
            moving_sphere_wf(*self),
            ray_wf(*r),
            abs1(t_min as int) <= FX_INF,
            abs1(t_max as int) <= FX_INF,
        ensures
            match res {
                Some(rec) => moving_sphere_hit_s(*self, *r, t_min as int, t_max as int) == Some(
                    rec.s(),
                ) && crate::hittable::rec_wf(rec) && t_min <= rec.t <= t_max && rec.mat_ptr
                    == self.mat_ptr,
                None => moving_sphere_hit_s(*self, *r, t_min as int, t_max as int) is None,
            },
    {
        let c = self.center(r.tm);
        match quadratic_hit(c, self.radius, r, t_min, t_max) {
            None => None,
            Some(root) => Some(sphere_rec(c, self.radius, &self.mat_ptr, r, root)),
        }
    }

    pub fn bounding_box(&self, _time0: i64, _time1: i64) -> (res: Option<crate::aabb::Aabb>)
        requires
            moving_sphere_wf(*self),
            abs1(_time0 as int) <= TIME_LIM,
            abs1(_time1 as int) <= TIME_LIM,
        ensures
            res matches Some(b) && crate::aabb::aabb_wf(b) && b == crate::aabb::surrounding_s(
                moving_box_s(*self, _time0 as int),
                moving_box_s(*self, _time1 as int),
            ),
    {
        let b0 = self.box_at(_time0);
        let b1 = self.box_at(_time1);
        Some(crate::aabb::Aabb::surrounding_box(b0, b1))
    }

    fn box_at(&self, time: i64) -> (res: crate::aabb::Aabb)
        requires
            moving_sphere_wf(*self),
            abs1(time as int) <= TIME_LIM,
        ensures
            res == moving_box_s(*self, time as int),
            crate::aabb::aabb_wf(res),
    {
        let c = self.center(time);
        let rv = Vec3 { x: self.radius, y: self.radius, z: self.radius };
        crate::aabb::Aabb::new(c.sub(rv), c.add(rv))
    }
}

/// The box of a moving sphere at one instant.
pub open spec fn moving_box_s(s: MovingSphere, time: int) -> crate::aabb::Aabb {
    let c = center_at_s(s, time);
    let rr = s.radius as int;
    crate::aabb::Aabb {
        minimum: Vec3 {
            x: (c.x - rr) as i64,
            y: (c.y - rr) as i64,
            z: (c.z - rr) as i64,
        },
        maximum: Vec3 {
            x: (c.x + rr) as i64,
            y: (c.y + rr) as i64,
            z: (c.z + rr) as i64,
        },
    }
}

/// One interpolated coordinate, clipped to the geometry bound.
fn interp_comp(c0: i64, c1: i64, ratio: i64) -> (r: i64)
    requires
        abs1(c0 as int) <= COORD_LIM,
        abs1(c1 as int) <= COORD_LIM,
        abs1(ratio as int) <= 281474976710656,
    ensures
        r == clip(c0 + fmul((c1 - c0) as int, ratio as int), COORD_LIM as int),
{
    proof {
        crate::fx::lemma_prod_bound(
            (c1 - c0) as int,
            ratio as int,
            2199023255552,
            281474976710656,
        );
    }
    let step = tdiv128(crate::fx::prod64(c1 - c0, ratio), FX_ONE as i128);
    crate::fx::clip128(c0 as i128 + step, COORD_LIM)
}

/// The shared quadratic intersection, over 128-bit intermediates.
fn quadratic_hit(center: Vec3, radius: i64, r: &Ray, t_min: i64, t_max: i64) -> (res: Option<i64>)
    requires
        bounded_s(center.s(), COORD_LIM as int),
        1 <= radius <= COORD_LIM,
        ray_wf(*r),
        abs1(t_min as int) <= FX_INF,
        abs1(t_max as int) <= FX_INF,
    ensures
        match res {
            Some(t) => quadratic_hit_s(center.s(), radius as int, *r, t_min as int, t_max as int)
                == Some(t as int) && t_min <= t <= t_max,
            None => quadratic_hit_s(center.s(), radius as int, *r, t_min as int, t_max as int)
                is None,
        },
{
    let s128 = FX_ONE as i128;
    let ox = r.orig.x as i128 - center.x as i128;
    let oy = r.orig.y as i128 - center.y as i128;
    let oz = r.orig.z as i128 - center.z as i128;
    let dx = r.dir.x as i128;
    let dy = r.dir.y as i128;
    let dz = r.dir.z as i128;
    proof {
        lemma_quadratic_bounds(
            ox as int,
            oy as int,
            oz as int,
            dx as int,
            dy as int,
            dz as int,
            radius as int,
        );
    }
    let a = tdiv128(dx * dx + dy * dy + dz * dz, s128);
    let hb = tdiv128(ox * dx + oy * dy + oz * dz, s128);
    let oc2 = tdiv128(ox * ox + oy * oy + oz * oz, s128);
    let rr = tdiv128(crate::fx::prod64(radius, radius), s128);
    let c = oc2 - rr;
    proof {
        crate::fx::lemma_tdiv_bound((dx * dx + dy * dy + dz * dz) as int, 65536);
        crate::fx::lemma_tdiv_bound((ox * dx + oy * dy + oz * dz) as int, 65536);
        crate::fx::lemma_tdiv_bound((ox * ox + oy * oy + oz * oz) as int, 65536);
        crate::fx::lemma_tdiv_bound((radius as int) * (radius as int), 65536);
        assert(abs1(a as int) <= 3377699720527872 && abs1(hb as int) <= 7349874591868649472
            && abs1(oc2 as int) <= 15993327111906181251072 && abs1(rr as int)
            <= 18446744073709551616) by (nonlinear_arith)
            requires
                abs1(a as int) == abs1((dx * dx + dy * dy + dz * dz) as int) / 65536 && abs1(
                    (dx * dx + dy * dy + dz * dz) as int,
                ) <= 221360928884514619392 && abs1(hb as int) == abs1(
                    (ox * dx + oy * dy + oz * dz) as int,
                ) / 65536 && abs1((ox * dx + oy * dy + oz * dz) as int)
                    <= 481681381252703811796992 && abs1(oc2 as int) == abs1(
                    (ox * ox + oy * oy + oz * oz) as int,
                ) / 65536 && abs1((ox * ox + oy * oy + oz * oz) as int)
                    <= 1048138685605883494470254592 && abs1(rr as int) == abs1(
                    (radius as int) * (radius as int),
                ) / 65536 && abs1((radius as int) * (radius as int)) <= 1208925819614629174706176,
        ;
        lemma_disc_bounds(a as int, hb as int, c as int);
    }
    let disc = tdiv128(hb * hb - a * c, s128);
    if a == 0 || disc < 0 {
        return None;
    }
    proof {
        crate::fx::lemma_tdiv_bound((hb * hb - a * c) as int, 65536);
        assert(abs1(disc as int) <= 1649530343546983508697585045995520) by {
            assert(108103620594695111226004933574362398720int / 65536
                == 1649530343546983508697585045995520);
        }
        assert((disc * s128) as int <= 108103620594695111226004933574362398720);
    }
    let sq = crate::fx::isqrt_u128((disc * s128) as u128) as i128;
    proof {
        crate::fx::lemma_sqrt_le((disc * s128) as int, 0x10000000000000000);
        assert((0x10000000000000000int) * 0x10000000000000000 > (disc * s128) as int)
            by (nonlinear_arith)
            requires
                0 <= disc * s128 < 0x80000000000000000000000000000000,
        ;
    }
    let r1 = tdiv128((-hb - sq) * s128, a);
    if t_min as i128 <= r1 && r1 <= t_max as i128 {
        return Some(r1 as i64);
    }
    let r2 = tdiv128((-hb + sq) * s128, a);
    if t_min as i128 <= r2 && r2 <= t_max as i128 {
        return Some(r2 as i64);
    }
    None
}

/// Magnitude bounds for the quadratic's intermediate sums of products.
proof fn lemma_quadratic_bounds(ox: int, oy: int, oz: int, dx: int, dy: int, dz: int, rad: int)
    requires
        abs1(ox) <= 18691697672192,
        abs1(oy) <= 18691697672192,
        abs1(oz) <= 18691697672192,
        abs1(dx) <= 8589934592,
        abs1(dy) <= 8589934592,
        abs1(dz) <= 8589934592,
        1 <= rad <= 1099511627776,
    ensures
        abs1(dx * dx) <= 73786976294838206464,
        abs1(dy * dy) <= 73786976294838206464,
        abs1(dz * dz) <= 73786976294838206464,
        abs1(ox * dx) <= 160560460417567937265664,
        abs1(oy * dy) <= 160560460417567937265664,
        abs1(oz * dz) <= 160560460417567937265664,
        abs1(ox * ox) <= 349379561868627831490084864,
        abs1(oy * oy) <= 349379561868627831490084864,
        abs1(oz * oz) <= 349379561868627831490084864,
        abs1(dx * dx + dy * dy + dz * dz) <= 221360928884514619392,
        abs1(ox * dx + oy * dy + oz * dz) <= 481681381252703811796992,
        abs1(ox * ox + oy * oy + oz * oz) <= 1048138685605883494470254592,
        abs1(rad * rad) <= 1208925819614629174706176,
{
    crate::fx::lemma_prod_bound(dx, dx, 8589934592, 8589934592);
    crate::fx::lemma_prod_bound(dy, dy, 8589934592, 8589934592);
    crate::fx::lemma_prod_bound(dz, dz, 8589934592, 8589934592);
    crate::fx::lemma_prod_bound(ox, dx, 18691697672192, 8589934592);
    crate::fx::lemma_prod_bound(oy, dy, 18691697672192, 8589934592);
    crate::fx::lemma_prod_bound(oz, dz, 18691697672192, 8589934592);
    crate::fx::lemma_prod_bound(ox, ox, 18691697672192, 18691697672192);
    crate::fx::lemma_prod_bound(oy, oy, 18691697672192, 18691697672192);
    crate::fx::lemma_prod_bound(oz, oz, 18691697672192, 18691697672192);
    crate::fx::lemma_prod_bound(rad, rad, 1099511627776, 1099511627776);
    assert((8589934592int) * 8589934592 == 73786976294838206464);
    assert((18691697672192int) * 8589934592 == 160560460417567937265664);
    assert((18691697672192int) * 18691697672192 == 349379561868627831490084864);
    assert((1099511627776int) * 1099511627776 == 1208925819614629174706176);
}

/// The discriminant's numerator fits well inside 128 bits.
proof fn lemma_disc_bounds(a: int, hb: int, c: int)
    requires
        abs1(a) <= 3377699720527872,
        abs1(hb) <= 7349874591868649472,
        abs1(c) <= 16011773855979890802688,
    ensures
        abs1(hb * hb) <= 54020656516196346647231283809205878784,
        abs1(a * c) <= 54082964078498764578773649765156519936,
        abs1(hb * hb - a * c) <= 108103620594695111226004933574362398720,
{
    crate::fx::lemma_prod_bound(hb, hb, 7349874591868649472, 7349874591868649472);
    crate::fx::lemma_prod_bound(a, c, 3377699720527872, 16011773855979890802688);
    assert((7349874591868649472int) * 7349874591868649472
        == 54020656516196346647231283809205878784);
    assert((3377699720527872int) * 16011773855979890802688
        == 54082964078498764578773649765156519936);
}

/// Build the hit record for an accepted root./// Build the hit record for an accepted root.
fn sphere_rec(center: Vec3, radius: i64, mat: &Arc<Material>, r: &Ray, root: i64) -> (rec:
    HitRecord)
    requires
        bounded_s(center.s(), COORD_LIM as int),
        1 <= radius <= COORD_LIM,
        mat_wf(**mat),
        ray_wf(*r),
        abs1(root as int) <= FX_INF,
    ensures
        rec.s() == sphere_rec_s(center.s(), radius as int, *mat, *r, root as int),
        crate::hittable::rec_wf(rec),
        rec.t == root,
        rec.mat_ptr == *mat,
    {
    let p = r.at(root);
    let nx = outward_comp(p.x, center.x, radius);
    let ny = outward_comp(p.y, center.y, radius);
    let nz = outward_comp(p.z, center.z, radius);
    let outward = Vec3 { x: nx, y: ny, z: nz };
    let u = diamond_u(outward.x, outward.z);
    let v = linear_v(outward.y);
    let m = crate::arc_clone(mat);
    HitRecord::new(p, root, u, v, m, outward, *r)
}

/// One clipped component of the outward normal.
fn outward_comp(pc: i64, cc: i64, radius: i64) -> (r: i64)
    requires
        abs1(pc as int) <= P_LIM,
        abs1(cc as int) <= COORD_LIM,
        1 <= radius,
    ensures
        r == clip(fdiv((pc - cc) as int, radius as int), 2 * FX_ONE as int),
        abs1(r as int) <= 2 * FX_ONE,
{
    proof {
        crate::fx::lemma_prod_bound((pc - cc) as int, FX_ONE as int, 0x110000000000, 65536);
    }
    let w = tdiv128(crate::fx::prod64(pc - cc, FX_ONE), radius as i128);
    crate::fx::clip128(w, 2 * FX_ONE)
}

/// The executable diamond angle coordinate.
fn diamond_u(x: i64, z: i64) -> (u: i64)
    requires
        abs1(x as int) <= 2 * FX_ONE,
        abs1(z as int) <= 2 * FX_ONE,
    ensures
        u == diamond_u_s(x as int, z as int),
        0 <= u <= FX_ONE,
{
    let s = FX_ONE;
    let b = -z;
    let ax = if x >= 0 {
        x
    } else {
        -x
    };
    let ab = if b >= 0 {
        b
    } else {
        -b
    };
    let den = ax + ab;
    if den == 0 {
        0
    } else {
        let qf: i64 = if x < 0 && b < 0 {
            frac_part(ab, den)
        } else if x >= 0 && b < 0 {
            s + frac_part(x, den)
        } else if x >= 0 && b >= 0 {
            2 * s + frac_part(b, den)
        } else {
            3 * s + frac_part(ax, den)
        };
        let u = ((qf as u64) / 4) as i64;
        proof {
            assert(qf as int / 4 <= 65536 && qf as int / 4 >= 0) by (nonlinear_arith)
                requires
                    0 <= qf <= 4 * 65536,
            ;
        }
        u
    }
}

/// `part / den` in fixed point, for `0 <= part <= den`.
fn frac_part(part: i64, den: i64) -> (r: i64)
    requires
        0 <= part <= den,
        1 <= den <= 4 * FX_ONE,
    ensures
        r == tdiv(part as int * (FX_ONE as int), den as int),
        0 <= r <= FX_ONE,
{
    proof {
        crate::fx::lemma_tdiv_bound(part as int * (FX_ONE as int), den as int);
        assert(part * 65536 >= 0 && part * 65536 <= den * 65536) by (nonlinear_arith)
            requires
                0 <= part <= den,
        ;
        assert((part * 65536) / (den as int) <= 65536) by (nonlinear_arith)
            requires
                0 <= part * 65536 <= den * 65536 && den >= 1,
        ;
    }
    ((part as u64 * 65536) / (den as u64)) as i64
}

/// The linear `v` coordinate from the normal's y component.
fn linear_v(y: i64) -> (v: i64)
    requires
        abs1(y as int) <= 2 * FX_ONE,
    ensures
        v == (FX_ONE + clip(y as int, FX_ONE as int)) / 2,
        0 <= v <= FX_ONE,
{
    let yy = if y > FX_ONE {
        FX_ONE
    } else if y < -FX_ONE {
        -FX_ONE
    } else {
        y
    };
    (((FX_ONE + yy) as u64) / 2) as i64
}

} // verus!
