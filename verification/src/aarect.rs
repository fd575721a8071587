//! Axis-aligned rectangles, one type per missing axis.

use vstd::prelude::*;
use std::sync::Arc;
use crate::fx::{abs1, fdiv, fmul, tdiv, tdiv128, FX_INF, FX_ONE};
use crate::hittable::{mk_rec_s, HRec, HitRecord};
use crate::material::{mat_wf, Material};
use crate::ray::{at_s, ray_wf, Ray};
use crate::vec3::{bounded_s, Vec3, V3, COORD_LIM, DIR_LIM, P_LIM};

verus! {

/// The thickness (about 1e-4) added to a rectangle's box along its
/// degenerate axis.
pub const PAD: i64 = 7;

pub struct XyRect {
    pub mp: Arc<Material>,
    pub x0: i64,
    pub x1: i64,
    pub y0: i64,
    pub y1: i64,
    pub k: i64,
}

pub struct YzRect {
    pub mp: Arc<Material>,
    pub y0: i64,
    pub y1: i64,
    pub z0: i64,
    pub z1: i64,
    pub k: i64,
}

pub struct XzRect {
    pub mp: Arc<Material>,
    pub x0: i64,
    pub x1: i64,
    pub z0: i64,
    pub z1: i64,
    pub k: i64,
}

pub open spec fn rect_scalars_wf(a0: int, a1: int, b0: int, b1: int, k: int) -> bool {
    &&& abs1(a0) <= COORD_LIM && abs1(a1) <= COORD_LIM
    &&& abs1(b0) <= COORD_LIM && abs1(b1) <= COORD_LIM
    &&& abs1(k) <= COORD_LIM
    &&& a0 < a1 && b0 < b1
}

pub open spec fn xy_rect_wf(rc: XyRect) -> bool {
    rect_scalars_wf(rc.x0 as int, rc.x1 as int, rc.y0 as int, rc.y1 as int, rc.k as int) && mat_wf(
        *rc.mp,
    )
}

pub open spec fn yz_rect_wf(rc: YzRect) -> bool {
    rect_scalars_wf(rc.y0 as int, rc.y1 as int, rc.z0 as int, rc.z1 as int, rc.k as int) && mat_wf(
        *rc.mp,
    )
}

pub open spec fn xz_rect_wf(rc: XzRect) -> bool {
    rect_scalars_wf(rc.x0 as int, rc.x1 as int, rc.z0 as int, rc.z1 as int, rc.k as int) && mat_wf(
        *rc.mp,
    )
}

/// Crossing a fixed-coordinate plane: the parameter where the ray meets it,
/// and the two in-plane surface coordinates, or nothing when the crossing
/// misses the interval or the rectangle's extents.
pub open spec fn plane_hit_s(
    k: int,
    ok: int,
    dk: int,
    o1: int,
    d1: int,
    o2: int,
    d2: int,
    a0: int,
    a1: int,
    b0: int,
    b1: int,
    t_min: int,
    t_max: int,
) -> Option<(int, int, int)> {
    if dk == 0 {
        None
    } else {
        let t = fdiv(k - ok, dk);
        if t < t_min || t > t_max {
            None
        } else {
            let x = o1 + fmul(d1, t);
            let y = o2 + fmul(d2, t);
            if a0 > x || a1 < x || b0 > y || b1 < y {
                None
            } else {
                Some((t, fdiv(x - a0, a1 - a0), fdiv(y - b0, b1 - b0)))
            }
        }
    }
}

pub open spec fn xy_rect_hit_s(rc: XyRect, r: Ray, t_min: int, t_max: int) -> Option<HRec> {
    match plane_hit_s(
        rc.k as int,
        r.orig.z as int,
        r.dir.z as int,
        r.orig.x as int,
        r.dir.x as int,
        r.orig.y as int,
        r.dir.y as int,
        rc.x0 as int,
        rc.x1 as int,
        rc.y0 as int,
        rc.y1 as int,
        t_min,
        t_max,
    ) {
        None => None,
        Some((t, u, v)) => Some(
            mk_rec_s(
                at_s(r.orig.s(), r.dir.s(), t),
                t,
                u,
                v,
                rc.mp,
                V3 { x: 0, y: 0, z: FX_ONE as int },
                r,
            ),
        ),
    }
}

pub open spec fn yz_rect_hit_s(rc: YzRect, r: Ray, t_min: int, t_max: int) -> Option<HRec> {
    match plane_hit_s(
        rc.k as int,
        r.orig.x as int,
        r.dir.x as int,
        r.orig.z as int,
        r.dir.z as int,
        r.orig.y as int,
        r.dir.y as int,
        rc.z0 as int,
        rc.z1 as int,
        rc.y0 as int,
        rc.y1 as int,
        t_min,
        t_max,
    ) {
        None => None,
        Some((t, u, v)) => Some(
            mk_rec_s(
                at_s(r.orig.s(), r.dir.s(), t),
                t,
                u,
                v,
                rc.mp,
                V3 { x: FX_ONE as int, y: 0, z: 0 },
                r,
            ),
        ),
    }
}

pub open spec fn xz_rect_hit_s(rc: XzRect, r: Ray, t_min: int, t_max: int) -> Option<HRec> {
    match plane_hit_s(
        rc.k as int,
        r.orig.y as int,
        r.dir.y as int,
        r.orig.x as int,
        r.dir.x as int,
        r.orig.z as int,
        r.dir.z as int,
        rc.x0 as int,
        rc.x1 as int,
        rc.z0 as int,
        rc.z1 as int,
        t_min,
        t_max,
    ) {
        None => None,
        Some((t, u, v)) => Some(
            mk_rec_s(
                at_s(r.orig.s(), r.dir.s(), t),
                t,
                u,
                v,
                rc.mp,
                V3 { x: 0, y: FX_ONE as int, z: 0 },
                r,
            ),
        ),
    }
}

/// The executable plane crossing, shared by the three orientations.
fn plane_hit(
    k: i64,
    ok: i64,
    dk: i64,
    o1: i64,
    d1: i64,
    o2: i64,
    d2: i64,
    a0: i64,
    a1: i64,
    b0: i64,
    b1: i64,
    t_min: i64,
    t_max: i64,
) -> (res: Option<(i64, i64, i64)>)
    requires
        rect_scalars_wf(a0 as int, a1 as int, b0 as int, b1 as int, k as int),
        abs1(ok as int) <= P_LIM,
        abs1(o1 as int) <= P_LIM,
        abs1(o2 as int) <= P_LIM,
        abs1(dk as int) <= DIR_LIM,
        abs1(d1 as int) <= DIR_LIM,
        abs1(d2 as int) <= DIR_LIM,
        abs1(t_min as int) <= FX_INF,
        abs1(t_max as int) <= FX_INF,
    ensures
        match res {
            Some(w) => plane_hit_s(
                k as int,
                ok as int,
                dk as int,
                o1 as int,
                d1 as int,
                o2 as int,
                d2 as int,
                a0 as int,
                a1 as int,
                b0 as int,
                b1 as int,
                t_min as int,
                t_max as int,
            ) == Some((w.0 as int, w.1 as int, w.2 as int)) && t_min <= w.0 <= t_max && 0 <= w.1
                <= FX_ONE && 0 <= w.2 <= FX_ONE,
            None => plane_hit_s(
                k as int,
                ok as int,
                dk as int,
                o1 as int,
                d1 as int,
                o2 as int,
                d2 as int,
                a0 as int,
                a1 as int,
                b0 as int,
                b1 as int,
                t_min as int,
                t_max as int,
            ) is None,
        },
{
    if dk == 0 {
        return None;
    }
    proof {
        crate::fx::lemma_prod_bound((k - ok) as int, FX_ONE as int, 18691697672192, 65536);
        crate::fx::lemma_tdiv_bound((k - ok) as int * (FX_ONE as int), dk as int);
    }
    let t128 = tdiv128(crate::fx::prod64(k - ok, FX_ONE), dk as i128);
    if t128 < t_min as i128 || t128 > t_max as i128 {
        return None;
    }
    let t = t128 as i64;
    proof {
        crate::fx::lemma_prod_bound(d1 as int, t as int, DIR_LIM as int, FX_INF as int);
        crate::fx::lemma_prod_bound(d2 as int, t as int, DIR_LIM as int, FX_INF as int);
        crate::fx::lemma_tdiv_bound(d1 as int * t as int, 65536);
        crate::fx::lemma_tdiv_bound(d2 as int * t as int, 65536);
        assert((8589934592int) * 1099511627776 == 9444732965739290427392);
        assert((9444732965739290427392int) / 65536 == 144115188075855872);
        vstd::arithmetic::div_mod::lemma_div_is_ordered(
            abs1(d1 as int * t as int),
            9444732965739290427392,
            65536,
        );
        vstd::arithmetic::div_mod::lemma_div_is_ordered(
            abs1(d2 as int * t as int),
            9444732965739290427392,
            65536,
        );
    }
    let x128 = o1 as i128 + tdiv128(crate::fx::prod64(d1, t), FX_ONE as i128);
    let y128 = o2 as i128 + tdiv128(crate::fx::prod64(d2, t), FX_ONE as i128);
    let x = x128 as i64;
    let y = y128 as i64;
    if a0 > x || a1 < x || b0 > y || b1 < y {
        return None;
    }
    let u = frac_div(x - a0, a1 - a0);
    let v = frac_div(y - b0, b1 - b0);
    Some((t, u, v))
}

/// `num / den` in fixed point for `0 <= num <= den`, landing in `[0, 1]`.
fn frac_div(num: i64, den: i64) -> (r: i64)
    requires
        0 <= num <= den,
        1 <= den <= 2 * COORD_LIM,
    ensures
        r == fdiv(num as int, den as int),
        0 <= r <= FX_ONE,
{
    proof {
        crate::fx::lemma_prod_bound(num as int, FX_ONE as int, den as int, 65536);
        crate::fx::lemma_tdiv_bound(num as int * (FX_ONE as int), den as int);
        assert(num as int * 65536 >= 0 && num as int * 65536 <= den as int * 65536)
            by (nonlinear_arith)
            requires
                0 <= num <= den,
        ;
        assert((num as int * 65536) / (den as int) <= 65536) by (nonlinear_arith)
            requires
                0 <= num as int * 65536 <= den as int * 65536 && den >= 1,
        ;
    }
    let w = tdiv128(crate::fx::prod64(num, FX_ONE), den as i128);
    w as i64
}

impl XyRect {
    pub fn new(x0: i64, x1: i64, y0: i64, y1: i64, k: i64, mat: Arc<Material>) -> (r: Self)
        ensures
            r.x0 == x0 && r.x1 == x1 && r.y0 == y0 && r.y1 == y1 && r.k == k && r.mp == mat,
    {
        Self { x0, x1, y0, y1, k, mp: mat }
    }

    pub fn hit(&self, r: &Ray, t_min: i64, t_max: i64) -> (res: Option<HitRecord>)
        requires
            xy_rect_wf(*self),
            ray_wf(*r),
            abs1(t_min as int) <= FX_INF,
            abs1(t_max as int) <= FX_INF,
        ensures
            match res {
                Some(rec) => xy_rect_hit_s(*self, *r, t_min as int, t_max as int) == Some(rec.s())
                    && crate::hittable::rec_wf(rec) && t_min <= rec.t <= t_max && rec.mat_ptr
                    == self.mp,
                None => xy_rect_hit_s(*self, *r, t_min as int, t_max as int) is None,
            },
    {
        match plane_hit(
            self.k,
            r.orig.z,
            r.dir.z,
            r.orig.x,
            r.dir.x,
            r.orig.y,
            r.dir.y,
            self.x0,
            self.x1,
            self.y0,
            self.y1,
            t_min,
            t_max,
        ) {
            None => None,
            Some((t, u, v)) => {
                let outward = Vec3 { x: 0, y: 0, z: FX_ONE };
                Some(HitRecord::new(r.at(t), t, u, v, crate::arc_clone(&self.mp), outward, *r))
            }
        }
    }

    pub fn bounding_box(&self, _t0: i64, _t1: i64) -> (res: Option<crate::aabb::Aabb>)
        requires
            xy_rect_wf(*self),
        ensures
            res matches Some(b) && crate::aabb::aabb_wf(b) && b.minimum == (Vec3 {
                x: self.x0,
                y: self.y0,
                z: (self.k - PAD) as i64,
            }) && b.maximum == (Vec3 { x: self.x1, y: self.y1, z: (self.k + PAD) as i64 }),
    {
        Some(
            crate::aabb::Aabb::new(
                Vec3 { x: self.x0, y: self.y0, z: self.k - PAD },
                Vec3 { x: self.x1, y: self.y1, z: self.k + PAD },
            ),
        )
    }
}

impl YzRect {
    pub fn new(y0: i64, y1: i64, z0: i64, z1: i64, k: i64, mat: Arc<Material>) -> (r: Self)
        ensures
            r.y0 == y0 && r.y1 == y1 && r.z0 == z0 && r.z1 == z1 && r.k == k && r.mp == mat,
    {
        Self { y0, y1, z0, z1, k, mp: mat }
    }

    pub fn hit(&self, r: &Ray, t_min: i64, t_max: i64) -> (res: Option<HitRecord>)
        requires
            yz_rect_wf(*self),
            ray_wf(*r),
            abs1(t_min as int) <= FX_INF,
            abs1(t_max as int) <= FX_INF,
        ensures
            match res {
                Some(rec) => yz_rect_hit_s(*self, *r, t_min as int, t_max as int) == Some(rec.s())
                    && crate::hittable::rec_wf(rec) && t_min <= rec.t <= t_max && rec.mat_ptr
                    == self.mp,
                None => yz_rect_hit_s(*self, *r, t_min as int, t_max as int) is None,
            },
    {
        match plane_hit(
            self.k,
            r.orig.x,
            r.dir.x,
            r.orig.z,
            r.dir.z,
            r.orig.y,
            r.dir.y,
            self.z0,
            self.z1,
            self.y0,
            self.y1,
            t_min,
            t_max,
        ) {
            None => None,
            Some((t, u, v)) => {
                let outward = Vec3 { x: FX_ONE, y: 0, z: 0 };
                Some(HitRecord::new(r.at(t), t, u, v, crate::arc_clone(&self.mp), outward, *r))
            }
        }
    }

    pub fn bounding_box(&self, _t0: i64, _t1: i64) -> (res: Option<crate::aabb::Aabb>)
        requires
            yz_rect_wf(*self),
        ensures
            res matches Some(b) && crate::aabb::aabb_wf(b) && b.minimum == (Vec3 {
                x: (self.k - PAD) as i64,
                y: self.y0,
                z: self.z0,
            }) && b.maximum == (Vec3 { x: (self.k + PAD) as i64, y: self.y1, z: self.z1 }),
    {
        Some(
            crate::aabb::Aabb::new(
                Vec3 { x: self.k - PAD, y: self.y0, z: self.z0 },
                Vec3 { x: self.k + PAD, y: self.y1, z: self.z1 },
            ),
        )
    }
}

impl XzRect {
    pub fn new(x0: i64, x1: i64, z0: i64, z1: i64, k: i64, mat: Arc<Material>) -> (r: Self)
        ensures
            r.x0 == x0 && r.x1 == x1 && r.z0 == z0 && r.z1 == z1 && r.k == k && r.mp == mat,
    {
        Self { x0, x1, z0, z1, k, mp: mat }
    }

    pub fn hit(&self, r: &Ray, t_min: i64, t_max: i64) -> (res: Option<HitRecord>)
        requires
            xz_rect_wf(*self),
            ray_wf(*r),
            abs1(t_min as int) <= FX_INF,
            abs1(t_max as int) <= FX_INF,
        ensures
            match res {
                Some(rec) => xz_rect_hit_s(*self, *r, t_min as int, t_max as int) == Some(rec.s())
                    && crate::hittable::rec_wf(rec) && t_min <= rec.t <= t_max && rec.mat_ptr
                    == self.mp,
                None => xz_rect_hit_s(*self, *r, t_min as int, t_max as int) is None,
            },
    {
        match plane_hit(
            self.k,
            r.orig.y,
            r.dir.y,
            r.orig.x,
            r.dir.x,
            r.orig.z,
            r.dir.z,
            self.x0,
            self.x1,
            self.z0,
            self.z1,
            t_min,
            t_max,
        ) {
            None => None,
            Some((t, u, v)) => {
                let outward = Vec3 { x: 0, y: FX_ONE, z: 0 };
                Some(HitRecord::new(r.at(t), t, u, v, crate::arc_clone(&self.mp), outward, *r))
            }
        }
    }

    pub fn bounding_box(&self, _t0: i64, _t1: i64) -> (res: Option<crate::aabb::Aabb>)
        requires
            xz_rect_wf(*self),
        ensures
            res matches Some(b) && crate::aabb::aabb_wf(b) && b.minimum == (Vec3 {
                x: self.x0,
                y: (self.k - PAD) as i64,
                z: self.z0,
            }) && b.maximum == (Vec3 { x: self.x1, y: (self.k + PAD) as i64, z: self.z1 }),
    {
        Some(
            crate::aabb::Aabb::new(
                Vec3 { x: self.x0, y: self.k - PAD, z: self.z0 },
                Vec3 { x: self.x1, y: self.k + PAD, z: self.z1 },
            ),
        )
    }
}

} // verus!
