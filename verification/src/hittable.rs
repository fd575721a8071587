//! Hit records and the polymorphic set of intersectable entities.

use vstd::prelude::*;
use std::sync::Arc;
use crate::aabb::{aabb_wf, slab_hit, Aabb};
use crate::fx::{abs1, clip, tdiv, FX_INF, FX_ONE};
use crate::material::{mat_wf, Material};
use crate::ray::{ray_wf, Ray};
use crate::vec3::{bounded_s, vadd_s, vclip_s, vdot_s, vneg_s, vsub_s, Point3, Vec3, V3, COORD_LIM,
    DIR_LIM, P_LIM, TIME_LIM};

verus! {

pub struct HitRecord {
    pub p: Point3,
    pub normal: Vec3,
    pub mat_ptr: Arc<Material>,
    pub t: i64,
    pub u: i64,
    pub v: i64,
    pub front_face: bool,
}

/// The mathematical image of a hit record.
pub struct HRec {
    pub p: V3,
    pub normal: V3,
    pub mat: Arc<Material>,
    pub t: int,
    pub u: int,
    pub v: int,
    pub front_face: bool,
}

impl HitRecord {
    pub open spec fn s(self) -> HRec {
        HRec {
            p: self.p.s(),
            normal: self.normal.s(),
            mat: self.mat_ptr,
            t: self.t as int,
            u: self.u as int,
            v: self.v as int,
            front_face: self.front_face,
        }
    }
}

/// A well-formed record: point, normal, parameter, and surface coordinates
/// within their bounds, and a well-formed material.
pub open spec fn rec_wf(r: HitRecord) -> bool {
    &&& bounded_s(r.p.s(), P_LIM as int)
    &&& bounded_s(r.normal.s(), 2 * FX_ONE as int)
    &&& abs1(r.t as int) <= FX_INF
    &&& 0 <= r.u <= FX_ONE
    &&& 0 <= r.v <= FX_ONE
    &&& mat_wf(*r.mat_ptr)
}

/// Building a record orients the stored normal against the ray
/// (the front-face convention).
pub open spec fn mk_rec_s(
    p: V3,
    t: int,
    u: int,
    v: int,
    mat: Arc<Material>,
    outward: V3,
    r: Ray,
) -> HRec {
    let front = vdot_s(r.dir.s(), outward) < 0;
    HRec {
        p,
        normal: if front {
            outward
        } else {
            vneg_s(outward)
        },
        mat,
        t,
        u,
        v,
        front_face: front,
    }
}

impl HitRecord {
    pub fn new(
        p: Point3,
        t: i64,
        u: i64,
        v: i64,
        mat_ptr: Arc<Material>,
        outward_normal: Vec3,
        r: Ray,
    ) -> (rec: Self)
        requires
            bounded_s(outward_normal.s(), 2 * FX_ONE as int),
            bounded_s(r.dir.s(), crate::vec3::DIR_LIM as int),
        ensures
            rec.s() == mk_rec_s(p.s(), t as int, u as int, v as int, mat_ptr, outward_normal.s(), r),
            rec.p == p && rec.t == t && rec.u == u && rec.v == v && rec.mat_ptr == mat_ptr,
            bounded_s(rec.normal.s(), 2 * FX_ONE as int),
    {
        proof {
            crate::vec3::lemma_vdot_bound(
                r.dir.s(),
                outward_normal.s(),
                crate::vec3::DIR_LIM as int,
                2 * FX_ONE as int,
            );
        }
        let d = r.dir.dot(outward_normal);
        let front_face: bool = d < 0;
        let normal: Vec3 = if front_face {
            outward_normal
        } else {
            outward_normal.neg()
        };
        Self { p, normal, mat_ptr, t, u, v, front_face }
    }
}

/// The closed set of intersectable entities, dispatched by matching.
pub enum Hittable {
    Sphere(crate::sphere::Sphere),
    MovingSphere(crate::sphere::MovingSphere),
    XyRect(crate::aarect::XyRect),
    YzRect(crate::aarect::YzRect),
    XzRect(crate::aarect::XzRect),
    Box_(crate::bbox::Box_),
    Translate(Translate),
    RotateY(RotateY),
    ConstantMediun(crate::constant_medium::ConstantMediun),
    List(crate::hittable_list::HittableList),
    BVHNode(crate::bvh::BVHNode),
}

pub struct Translate {
    pub ptr: Arc<Hittable>,
    pub offset: Vec3,
}

pub struct RotateY {
    pub ptr: Arc<Hittable>,
    pub sin_theta: i64,
    pub cos_theta: i64,
    pub hasbox: bool,
    pub box_: Aabb,
}

impl Translate {
    pub fn new(p: Arc<Hittable>, displacement: Vec3) -> (r: Self)
        ensures
            r.ptr == p && r.offset == displacement,
    {
        Self { ptr: p, offset: displacement }
    }
}

pub open spec fn min2i(a: int, b: int) -> int {
    if a <= b {
        a
    } else {
        b
    }
}

pub open spec fn max2i(a: int, b: int) -> int {
    if a >= b {
        a
    } else {
        b
    }
}

/// The conservative enclosing box of a rotated box: the componentwise
/// extremes of the four rotated xz corners, with the y extent unchanged.
pub open spec fn rot_box_s(cos: int, sin: int, mn: V3, mx: V3) -> (V3, V3) {
    let c00 = rot_fwd_s(cos, sin, mn.x, mn.z, P_LIM as int);
    let c01 = rot_fwd_s(cos, sin, mn.x, mx.z, P_LIM as int);
    let c10 = rot_fwd_s(cos, sin, mx.x, mn.z, P_LIM as int);
    let c11 = rot_fwd_s(cos, sin, mx.x, mx.z, P_LIM as int);
    let xlo = min2i(min2i(c00.0, c01.0), min2i(c10.0, c11.0));
    let xhi = max2i(max2i(c00.0, c01.0), max2i(c10.0, c11.0));
    let zlo = min2i(min2i(c00.1, c01.1), min2i(c10.1, c11.1));
    let zhi = max2i(max2i(c00.1, c01.1), max2i(c10.1, c11.1));
    (V3 { x: xlo, y: mn.y, z: zlo }, V3 { x: xhi, y: mx.y, z: zhi })
}

impl RotateY {
    /// Wrap an entity in a y-axis rotation given the sine and cosine of
    /// the angle; the stored box encloses the rotation of the child's box,
    /// or is absent where the child has none.
    pub fn new(p: Arc<Hittable>, sin_theta: i64, cos_theta: i64) -> (r: Self)
        requires
            abs1(sin_theta as int) <= FX_ONE,
            abs1(cos_theta as int) <= FX_ONE,
            ent_wf(*p),
        ensures
            r.ptr == p && r.sin_theta == sin_theta && r.cos_theta == cos_theta,
            match bbox_s(*p, 0, FX_ONE as int) {
                None => !r.hasbox,
                Some(bb) => r.hasbox && (r.box_.minimum.s(), r.box_.maximum.s()) == rot_box_s(
                    cos_theta as int,
                    sin_theta as int,
                    bb.0,
                    bb.1,
                ),
            },
            ent_wf(Hittable::RotateY(r)),
    {
        let child = crate::arc_as_ref(&p);
        match child.bounding_box(0, FX_ONE) {
            None => Self {
                ptr: p,
                sin_theta,
                cos_theta,
                hasbox: false,
                box_: Aabb::new(Vec3 { x: 0, y: 0, z: 0 }, Vec3 { x: 0, y: 0, z: 0 }),
            },
            Some(bb) => {
                let c00 = rot_fwd(cos_theta, sin_theta, bb.minimum.x, bb.minimum.z, P_LIM);
                let c01 = rot_fwd(cos_theta, sin_theta, bb.minimum.x, bb.maximum.z, P_LIM);
                let c10 = rot_fwd(cos_theta, sin_theta, bb.maximum.x, bb.minimum.z, P_LIM);
                let c11 = rot_fwd(cos_theta, sin_theta, bb.maximum.x, bb.maximum.z, P_LIM);
                let xlo = min2(min2(c00.0, c01.0), min2(c10.0, c11.0));
                let xhi = max2(max2(c00.0, c01.0), max2(c10.0, c11.0));
                let zlo = min2(min2(c00.1, c01.1), min2(c10.1, c11.1));
                let zhi = max2(max2(c00.1, c01.1), max2(c10.1, c11.1));
                Self {
                    ptr: p,
                    sin_theta,
                    cos_theta,
                    hasbox: true,
                    box_: Aabb::new(
                        Vec3 { x: xlo, y: bb.minimum.y, z: zlo },
                        Vec3 { x: xhi, y: bb.maximum.y, z: zhi },
                    ),
                }
            }
        }
    }
}

fn min2(a: i64, b: i64) -> (r: i64)
    ensures
        r as int == min2i(a as int, b as int),
{
    if a <= b {
        a
    } else {
        b
    }
}

fn max2(a: i64, b: i64) -> (r: i64)
    ensures
        r as int == max2i(a as int, b as int),
{
    if a >= b {
        a
    } else {
        b
    }
}

/// Well-formedness of an entity tree: every scalar within its bound, every
/// material well-formed.
pub open spec fn ent_wf(h: Hittable) -> bool
    decreases h, 0int,
{
    match h {
        Hittable::Sphere(s) => crate::sphere::sphere_wf(s),
        Hittable::MovingSphere(s) => crate::sphere::moving_sphere_wf(s),
        Hittable::XyRect(rc) => crate::aarect::xy_rect_wf(rc),
        Hittable::YzRect(rc) => crate::aarect::yz_rect_wf(rc),
        Hittable::XzRect(rc) => crate::aarect::xz_rect_wf(rc),
        Hittable::Box_(b) => bounded_s(b.box_min.s(), COORD_LIM as int) && bounded_s(
            b.box_max.s(),
            COORD_LIM as int,
        ) && list_wf_from(b.sides.hittable_list@, 0),
        Hittable::Translate(t) => bounded_s(t.offset.s(), COORD_LIM as int) && ent_wf(*t.ptr),
        Hittable::RotateY(t) => abs1(t.sin_theta as int) <= FX_ONE && abs1(t.cos_theta as int)
            <= FX_ONE && aabb_wf(t.box_) && ent_wf(*t.ptr),
        Hittable::ConstantMediun(c) => 1 <= c.inv_density <= 4294967296 && mat_wf(
            *c.phase_function,
        ) && ent_wf(*c.boundary),
        Hittable::List(l) => list_wf_from(l.hittable_list@, 0),
        Hittable::BVHNode(n) => aabb_wf(n.box_) && ent_wf(*n.left) && ent_wf(*n.right),
    }
}

pub open spec fn list_wf_from(s: Seq<Arc<Hittable>>, i: int) -> bool
    decreases s, s.len() - i + 1,
{
    if i < 0 || i >= s.len() {
        true
    } else {
        ent_wf(*s[i]) && list_wf_from(s, i + 1)
    }
}

/// Whether an entity's intersection result is a function of the ray alone
/// (no participating medium anywhere inside).
pub open spec fn deterministic(h: Hittable) -> bool
    decreases h, 0int,
{
    match h {
        Hittable::Sphere(_) => true,
        Hittable::MovingSphere(_) => true,
        Hittable::XyRect(_) => true,
        Hittable::YzRect(_) => true,
        Hittable::XzRect(_) => true,
        Hittable::Box_(b) => det_list_from(b.sides.hittable_list@, 0),
        Hittable::Translate(t) => deterministic(*t.ptr),
        Hittable::RotateY(t) => deterministic(*t.ptr),
        Hittable::ConstantMediun(_) => false,
        Hittable::List(l) => det_list_from(l.hittable_list@, 0),
        Hittable::BVHNode(n) => deterministic(*n.left) && deterministic(*n.right),
    }
}

pub open spec fn det_list_from(s: Seq<Arc<Hittable>>, i: int) -> bool
    decreases s, s.len() - i + 1,
{
    if i < 0 || i >= s.len() {
        true
    } else {
        deterministic(*s[i]) && det_list_from(s, i + 1)
    }
}

/// No entity in the tree carries an emissive material.
pub open spec fn lights_off(h: Hittable) -> bool
    decreases h, 0int,
{
    match h {
        Hittable::Sphere(s) => crate::material::non_emissive(*s.material),
        Hittable::MovingSphere(s) => crate::material::non_emissive(*s.mat_ptr),
        Hittable::XyRect(rc) => crate::material::non_emissive(*rc.mp),
        Hittable::YzRect(rc) => crate::material::non_emissive(*rc.mp),
        Hittable::XzRect(rc) => crate::material::non_emissive(*rc.mp),
        Hittable::Box_(b) => lights_off_from(b.sides.hittable_list@, 0),
        Hittable::Translate(t) => lights_off(*t.ptr),
        Hittable::RotateY(t) => lights_off(*t.ptr),
        Hittable::ConstantMediun(c) => crate::material::non_emissive(*c.phase_function),
        Hittable::List(l) => lights_off_from(l.hittable_list@, 0),
        Hittable::BVHNode(n) => lights_off(*n.left) && lights_off(*n.right),
    }
}

pub open spec fn lights_off_from(s: Seq<Arc<Hittable>>, i: int) -> bool
    decreases s, s.len() - i + 1,
{
    if i < 0 || i >= s.len() {
        true
    } else {
        lights_off(*s[i]) && lights_off_from(s, i + 1)
    }
}

/// Forward rotation of an (x, z) pair about the y axis, clipped.
pub open spec fn rot_fwd_s(cos: int, sin: int, x: int, z: int, lim: int) -> (int, int) {
    (
        clip(tdiv(cos * x + sin * z, FX_ONE as int), lim),
        clip(tdiv(cos * z - sin * x, FX_ONE as int), lim),
    )
}

/// Inverse rotation of an (x, z) pair about the y axis.
pub open spec fn rot_inv_s(cos: int, sin: int, x: int, z: int) -> (int, int) {
    (tdiv(cos * x - sin * z, FX_ONE as int), tdiv(sin * x + cos * z, FX_ONE as int))
}

/// The mathematical mirror of intersection for deterministic entities.
/// (A participating medium consumes randomness; its arm here is unused and
/// stands only to make the function total.)
pub open spec fn hit_s(h: Hittable, r: Ray, t_min: int, t_max: int) -> Option<HRec>
    decreases h, 0int,
{
    match h {
        Hittable::Sphere(s) => crate::sphere::sphere_hit_s(s, r, t_min, t_max),
        Hittable::MovingSphere(s) => crate::sphere::moving_sphere_hit_s(s, r, t_min, t_max),
        Hittable::XyRect(rc) => crate::aarect::xy_rect_hit_s(rc, r, t_min, t_max),
        Hittable::YzRect(rc) => crate::aarect::yz_rect_hit_s(rc, r, t_min, t_max),
        Hittable::XzRect(rc) => crate::aarect::xz_rect_hit_s(rc, r, t_min, t_max),
        Hittable::Box_(b) => list_hit_from(b.sides.hittable_list@, 0, r, t_min, t_max, None),
        Hittable::Translate(t) => translate_hit_s(t, r, t_min, t_max),
        Hittable::RotateY(t) => rotate_hit_s(t, r, t_min, t_max),
        Hittable::ConstantMediun(_) => None,
        Hittable::List(l) => list_hit_from(l.hittable_list@, 0, r, t_min, t_max, None),
        Hittable::BVHNode(n) => if !slab_hit(n.box_, r, t_min, t_max) {
            None
        } else {
            closer_of(hit_s(*n.left, r, t_min, t_max), hit_s(*n.right, r, t_min, t_max))
        },
    }
}

/// Whichever of two hits is nearer; ties go to the second.
pub open spec fn closer_of(a: Option<HRec>, b: Option<HRec>) -> Option<HRec> {
    match (a, b) {
        (Some(x), Some(y)) => if x.t < y.t {
            Some(x)
        } else {
            Some(y)
        },
        (Some(x), None) => Some(x),
        (None, y) => y,
    }
}

/// The linear scan from index `i`, carrying the narrowing upper bound and
/// the best hit so far.
pub open spec fn list_hit_from(
    s: Seq<Arc<Hittable>>,
    i: int,
    r: Ray,
    t_min: int,
    closest: int,
    best: Option<HRec>,
) -> Option<HRec>
    decreases s, s.len() - i + 1,
{
    if i < 0 || i >= s.len() {
        best
    } else {
        match hit_s(*s[i], r, t_min, closest) {
            Some(rec) => list_hit_from(s, i + 1, r, t_min, rec.t, Some(rec)),
            None => list_hit_from(s, i + 1, r, t_min, closest, best),
        }
    }
}

pub open spec fn translate_hit_s(t: Translate, r: Ray, t_min: int, t_max: int) -> Option<HRec>
    decreases t, 2int,
{
    let mo = vsub_s(r.orig.s(), t.offset.s());
    if !bounded_s(mo, P_LIM as int) {
        None
    } else {
        let moved = Ray {
            orig: Vec3 { x: mo.x as i64, y: mo.y as i64, z: mo.z as i64 },
            dir: r.dir,
            tm: r.tm,
        };
        match hit_s(*t.ptr, moved, t_min, t_max) {
            None => None,
            Some(rec) => {
                let p2 = vclip_s(vadd_s(rec.p, t.offset.s()), P_LIM as int);
                Some(mk_rec_s(p2, rec.t, rec.u, rec.v, rec.mat, rec.normal, moved))
            }
        }
    }
}

pub open spec fn rotate_hit_s(t: RotateY, r: Ray, t_min: int, t_max: int) -> Option<HRec>
    decreases t, 2int,
{
    let cos = t.cos_theta as int;
    let sin = t.sin_theta as int;
    let o = rot_inv_s(cos, sin, r.orig.x as int, r.orig.z as int);
    let d = rot_inv_s(cos, sin, r.dir.x as int, r.dir.z as int);
    if !(abs1(d.0) <= DIR_LIM && abs1(d.1) <= DIR_LIM) {
        None
    } else {
        let moved = Ray {
            orig: Vec3 {
                x: clip(o.0, P_LIM as int) as i64,
                y: r.orig.y,
                z: clip(o.1, P_LIM as int) as i64,
            },
            dir: Vec3 { x: d.0 as i64, y: r.dir.y, z: d.1 as i64 },
            tm: r.tm,
        };
        match hit_s(*t.ptr, moved, t_min, t_max) {
            None => None,
            Some(rec) => {
                let p2 = rot_fwd_s(cos, sin, rec.p.x, rec.p.z, P_LIM as int);
                let n2 = rot_fwd_s(cos, sin, rec.normal.x, rec.normal.z, 2 * FX_ONE as int);
                Some(
                    mk_rec_s(
                        V3 { x: p2.0, y: rec.p.y, z: p2.1 },
                        rec.t,
                        rec.u,
                        rec.v,
                        rec.mat,
                        V3 { x: n2.0, y: rec.normal.y, z: n2.1 },
                        moved,
                    ),
                )
            }
        }
    }
}

/// The bounding box of an entity over a time window, as mathematical
/// corners, or nothing where a box cannot be had.
pub open spec fn bbox_s(h: Hittable, time0: int, time1: int) -> Option<(V3, V3)>
    decreases h, 0int,
{
    match h {
        Hittable::Sphere(s) => {
            let rr = V3 { x: s.radius as int, y: s.radius as int, z: s.radius as int };
            Some((vsub_s(s.center.s(), rr), vadd_s(s.center.s(), rr)))
        }
        Hittable::MovingSphere(s) => {
            let b0 = crate::sphere::moving_box_s(s, time0);
            let b1 = crate::sphere::moving_box_s(s, time1);
            let b = crate::aabb::surrounding_s(b0, b1);
            Some((b.minimum.s(), b.maximum.s()))
        }
        Hittable::XyRect(rc) => Some(
            (
                V3 { x: rc.x0 as int, y: rc.y0 as int, z: rc.k - crate::aarect::PAD },
                V3 { x: rc.x1 as int, y: rc.y1 as int, z: rc.k + crate::aarect::PAD },
            ),
        ),
        Hittable::YzRect(rc) => Some(
            (
                V3 { x: rc.k - crate::aarect::PAD, y: rc.y0 as int, z: rc.z0 as int },
                V3 { x: rc.k + crate::aarect::PAD, y: rc.y1 as int, z: rc.z1 as int },
            ),
        ),
        Hittable::XzRect(rc) => Some(
            (
                V3 { x: rc.x0 as int, y: rc.k - crate::aarect::PAD, z: rc.z0 as int },
                V3 { x: rc.x1 as int, y: rc.k + crate::aarect::PAD, z: rc.z1 as int },
            ),
        ),
        Hittable::Box_(b) => Some((b.box_min.s(), b.box_max.s())),
        Hittable::Translate(t) => match bbox_s(*t.ptr, time0, time1) {
            None => None,
            Some(bb) => Some(
                (
                    vclip_s(vadd_s(bb.0, t.offset.s()), P_LIM as int),
                    vclip_s(vadd_s(bb.1, t.offset.s()), P_LIM as int),
                ),
            ),
        },
        Hittable::RotateY(t) => if t.hasbox {
            Some((t.box_.minimum.s(), t.box_.maximum.s()))
        } else {
            None
        },
        Hittable::ConstantMediun(c) => bbox_s(*c.boundary, time0, time1),
        Hittable::List(l) => list_bbox_s(l.hittable_list@, time0, time1),
        Hittable::BVHNode(n) => Some((n.box_.minimum.s(), n.box_.maximum.s())),
    }
}

pub open spec fn vminv_s(a: V3, b: V3) -> V3 {
    V3 {
        x: if a.x <= b.x {
            a.x
        } else {
            b.x
        },
        y: if a.y <= b.y {
            a.y
        } else {
            b.y
        },
        z: if a.z <= b.z {
            a.z
        } else {
            b.z
        },
    }
}

pub open spec fn vmaxv_s(a: V3, b: V3) -> V3 {
    V3 {
        x: if a.x >= b.x {
            a.x
        } else {
            b.x
        },
        y: if a.y >= b.y {
            a.y
        } else {
            b.y
        },
        z: if a.z >= b.z {
            a.z
        } else {
            b.z
        },
    }
}

pub open spec fn list_bbox_s(s: Seq<Arc<Hittable>>, time0: int, time1: int) -> Option<(V3, V3)>
    decreases s, s.len() + 1,
{
    if s.len() == 0 {
        None
    } else {
        match bbox_s(*s[0], time0, time1) {
            None => None,
            Some(b) => list_bbox_from(s, 1, time0, time1, b),
        }
    }
}

pub open spec fn list_bbox_from(
    s: Seq<Arc<Hittable>>,
    i: int,
    time0: int,
    time1: int,
    acc: (V3, V3),
) -> Option<(V3, V3)>
    decreases s, s.len() - i + 1,
{
    if i < 0 || i >= s.len() {
        Some(acc)
    } else {
        match bbox_s(*s[i], time0, time1) {
            None => None,
            Some(b) => list_bbox_from(
                s,
                i + 1,
                time0,
                time1,
                (vminv_s(acc.0, b.0), vmaxv_s(acc.1, b.1)),
            ),
        }
    }
}

/// The spec image of an optional hit record.
pub open spec fn opt_s(res: Option<HitRecord>) -> Option<HRec> {
    match res {
        None => None,
        Some(rec) => Some(rec.s()),
    }
}

impl Hittable {
    /// Intersect a ray against this entity over `[t_min, t_max]`.  For a
    /// deterministic entity the result is exactly the mathematical mirror;
    /// a participating medium draws randomness, and then only the record's
    /// shape is promised.
    pub fn hit(&self, r: &Ray, t_min: i64, t_max: i64) -> (res: Option<HitRecord>)
        requires
            ent_wf(*self),
            ray_wf(*r),
            abs1(t_min as int) <= FX_INF,
            abs1(t_max as int) <= FX_INF,
        ensures
            res matches Some(rec) ==> rec_wf(rec) && t_min <= rec.t <= t_max,
            deterministic(*self) ==> opt_s(res) == hit_s(*self, *r, t_min as int, t_max as int),
            res matches Some(rec) ==> (lights_off(*self) ==> crate::material::non_emissive(
                *rec.mat_ptr,
            )),
        decreases *self, 1int,
    {
        match self {
            Hittable::Sphere(s) => s.hit(r, t_min, t_max),
            Hittable::MovingSphere(s) => s.hit(r, t_min, t_max),
            Hittable::XyRect(rc) => rc.hit(r, t_min, t_max),
            Hittable::YzRect(rc) => rc.hit(r, t_min, t_max),
            Hittable::XzRect(rc) => rc.hit(r, t_min, t_max),
            Hittable::Box_(b) => b.hit(r, t_min, t_max),
            Hittable::Translate(t) => translate_hit(t, r, t_min, t_max),
            Hittable::RotateY(t) => rotate_hit(t, r, t_min, t_max),
            Hittable::ConstantMediun(c) => c.hit(r, t_min, t_max),
            Hittable::List(l) => l.hit(r, t_min, t_max),
            Hittable::BVHNode(n) => n.hit(r, t_min, t_max),
        }
    }

    /// The bounding box over a time window, exactly the mathematical
    /// mirror.
    pub fn bounding_box(&self, time0: i64, time1: i64) -> (res: Option<Aabb>)
        requires
            ent_wf(*self),
            abs1(time0 as int) <= TIME_LIM,
            abs1(time1 as int) <= TIME_LIM,
        ensures
            match res {
                Some(b) => bbox_s(*self, time0 as int, time1 as int) == Some(
                    (b.minimum.s(), b.maximum.s()),
                ) && aabb_wf(b),
                None => bbox_s(*self, time0 as int, time1 as int) is None,
            },
        decreases *self, 1int,
    {
        match self {
            Hittable::Sphere(s) => s.bounding_box(time0, time1),
            Hittable::MovingSphere(s) => s.bounding_box(time0, time1),
            Hittable::XyRect(rc) => rc.bounding_box(time0, time1),
            Hittable::YzRect(rc) => rc.bounding_box(time0, time1),
            Hittable::XzRect(rc) => rc.bounding_box(time0, time1),
            Hittable::Box_(b) => b.bounding_box(time0, time1),
            Hittable::Translate(t) => {
                let child = crate::arc_as_ref(&t.ptr);
                match child.bounding_box(time0, time1) {
                    None => None,
                    Some(bb) => {
                        let mn = clip_add(&bb.minimum, &t.offset);
                        let mx = clip_add(&bb.maximum, &t.offset);
                        Some(Aabb::new(mn, mx))
                    }
                }
            }
            Hittable::RotateY(t) => {
                if t.hasbox {
                    Some(t.box_)
                } else {
                    None
                }
            }
            Hittable::ConstantMediun(c) => {
                let child = crate::arc_as_ref(&c.boundary);
                child.bounding_box(time0, time1)
            }
            Hittable::List(l) => l.bounding_box(time0, time1),
            Hittable::BVHNode(n) => Some(n.box_),
        }
    }
}

/// Whether an optional mirror record lies within the record bounds.
pub open spec fn hrec_bounded(o: Option<HRec>) -> bool {
    match o {
        None => true,
        Some(rec) => bounded_s(rec.p, P_LIM as int) && bounded_s(rec.normal, 2 * FX_ONE as int),
    }
}

/// Every record the intersection mirror produces has its point within the
/// point bound and its normal within twice the unit.
#[verifier::rlimit(100)]
pub proof fn lemma_hit_s_bounded(h: Hittable, r: Ray, t_min: int, t_max: int)
    ensures
        hrec_bounded(hit_s(h, r, t_min, t_max)),
    decreases h, 1int,
{
    match h {
        Hittable::Sphere(s) => {
            lemma_sphere_rec_bounded(s.center.s(), s.radius as int, s.material, r, t_min, t_max);
            let q = crate::sphere::quadratic_hit_s(s.center.s(), s.radius as int, r, t_min, t_max);
            if q is Some {
                let root = q->0;
                assert(hrec_bounded(
                    Some(
                        crate::sphere::sphere_rec_s(
                            s.center.s(),
                            s.radius as int,
                            s.material,
                            r,
                            root,
                        ),
                    ),
                ));
                assert(hit_s(h, r, t_min, t_max) == Some(
                    crate::sphere::sphere_rec_s(
                        s.center.s(),
                        s.radius as int,
                        s.material,
                        r,
                        root,
                    ),
                ));
            } else {
                assert(hit_s(h, r, t_min, t_max) is None);
            }
            assert(hrec_bounded(hit_s(h, r, t_min, t_max)));
        }
        Hittable::MovingSphere(s) => {
            let c = crate::sphere::center_at_s(s, r.tm as int);
            lemma_sphere_rec_bounded(c, s.radius as int, s.mat_ptr, r, t_min, t_max);
            let q = crate::sphere::quadratic_hit_s(c, s.radius as int, r, t_min, t_max);
            if q is Some {
                let root = q->0;
                assert(hrec_bounded(
                    Some(crate::sphere::sphere_rec_s(c, s.radius as int, s.mat_ptr, r, root)),
                ));
                assert(hit_s(h, r, t_min, t_max) == Some(
                    crate::sphere::sphere_rec_s(c, s.radius as int, s.mat_ptr, r, root),
                ));
            } else {
                assert(hit_s(h, r, t_min, t_max) is None);
            }
            assert(hrec_bounded(hit_s(h, r, t_min, t_max)));
        }
        Hittable::XyRect(_) => {
            assert(hrec_bounded(hit_s(h, r, t_min, t_max)));
        }
        Hittable::YzRect(_) => {
            assert(hrec_bounded(hit_s(h, r, t_min, t_max)));
        }
        Hittable::XzRect(_) => {
            assert(hrec_bounded(hit_s(h, r, t_min, t_max)));
        }
        Hittable::Box_(b) => {
            lemma_scan_bounded(b.sides.hittable_list@, 0, r, t_min, t_max, None);
            assert(hrec_bounded(hit_s(h, r, t_min, t_max)));
        }
        Hittable::Translate(t) => {
            assert(hit_s(h, r, t_min, t_max) == translate_hit_s(t, r, t_min, t_max));
            let mo = vsub_s(r.orig.s(), t.offset.s());
            if bounded_s(mo, P_LIM as int) {
                let moved = Ray {
                    orig: Vec3 { x: mo.x as i64, y: mo.y as i64, z: mo.z as i64 },
                    dir: r.dir,
                    tm: r.tm,
                };
                let ghost child = *t.ptr;
                lemma_hit_s_bounded(child, moved, t_min, t_max);
                match hit_s(child, moved, t_min, t_max) {
                    None => {}
                    Some(rec) => {
                        let p2 = vclip_s(vadd_s(rec.p, t.offset.s()), P_LIM as int);
                        lemma_mk_rec_bounded(p2, rec.t, rec.u, rec.v, rec.mat, rec.normal, moved);
                    }
                }
            }
            assert(hrec_bounded(hit_s(h, r, t_min, t_max)));
        }
        Hittable::RotateY(t) => {
            assert(hit_s(h, r, t_min, t_max) == rotate_hit_s(t, r, t_min, t_max));
            let cos = t.cos_theta as int;
            let sin = t.sin_theta as int;
            let o = rot_inv_s(cos, sin, r.orig.x as int, r.orig.z as int);
            let d = rot_inv_s(cos, sin, r.dir.x as int, r.dir.z as int);
            if abs1(d.0) <= DIR_LIM && abs1(d.1) <= DIR_LIM {
                let moved = Ray {
                    orig: Vec3 {
                        x: crate::fx::clip(o.0, P_LIM as int) as i64,
                        y: r.orig.y,
                        z: crate::fx::clip(o.1, P_LIM as int) as i64,
                    },
                    dir: Vec3 { x: d.0 as i64, y: r.dir.y, z: d.1 as i64 },
                    tm: r.tm,
                };
                let ghost child = *t.ptr;
                lemma_hit_s_bounded(child, moved, t_min, t_max);
                match hit_s(child, moved, t_min, t_max) {
                    None => {}
                    Some(rec) => {
                        let p2 = rot_fwd_s(cos, sin, rec.p.x, rec.p.z, P_LIM as int);
                        let n2 = rot_fwd_s(cos, sin, rec.normal.x, rec.normal.z, 2 * FX_ONE as int);
                        lemma_mk_rec_bounded(
                            V3 { x: p2.0, y: rec.p.y, z: p2.1 },
                            rec.t,
                            rec.u,
                            rec.v,
                            rec.mat,
                            V3 { x: n2.0, y: rec.normal.y, z: n2.1 },
                            moved,
                        );
                    }
                }
            }
            assert(hrec_bounded(hit_s(h, r, t_min, t_max)));
        }
        Hittable::ConstantMediun(_) => {
            assert(hrec_bounded(hit_s(h, r, t_min, t_max)));
        }
        Hittable::List(l) => {
            lemma_scan_bounded(l.hittable_list@, 0, r, t_min, t_max, None);
            assert(hrec_bounded(hit_s(h, r, t_min, t_max)));
        }
        Hittable::BVHNode(n) => {
            let ghost lchild = *n.left;
            let ghost rchild = *n.right;
            lemma_hit_s_bounded(lchild, r, t_min, t_max);
            lemma_hit_s_bounded(rchild, r, t_min, t_max);
            assert(hit_s(h, r, t_min, t_max) == if !slab_hit(n.box_, r, t_min, t_max) {
                Option::<HRec>::None
            } else {
                closer_of(hit_s(lchild, r, t_min, t_max), hit_s(rchild, r, t_min, t_max))
            });
        }
    }
}

/// A record built from a bounded point and outward normal is bounded.
proof fn lemma_mk_rec_bounded(
    p: V3,
    t: int,
    u: int,
    v: int,
    mat: Arc<Material>,
    outward: V3,
    r: Ray,
)
    requires
        bounded_s(p, P_LIM as int),
        bounded_s(outward, 2 * FX_ONE as int),
    ensures
        hrec_bounded(Some(mk_rec_s(p, t, u, v, mat, outward, r))),
{
}

/// The record a sphere mirror builds is bounded, whatever the root.
proof fn lemma_sphere_rec_bounded(
    center: V3,
    radius: int,
    mat: Arc<Material>,
    r: Ray,
    t_min: int,
    t_max: int,
)
    ensures
        match crate::sphere::quadratic_hit_s(center, radius, r, t_min, t_max) {
            None => true,
            Some(root) => hrec_bounded(
                Some(crate::sphere::sphere_rec_s(center, radius, mat, r, root)),
            ),
        },
{
    match crate::sphere::quadratic_hit_s(center, radius, r, t_min, t_max) {
        None => {}
        Some(root) => {
            let p = crate::ray::at_s(r.orig.s(), r.dir.s(), root);
            let outward = vclip_s(
                crate::vec3::vdiv_s(vsub_s(p, center), radius),
                2 * FX_ONE as int,
            );
            assert(bounded_s(p, P_LIM as int));
            assert(bounded_s(outward, 2 * FX_ONE as int));
            assert(bounded_s(vneg_s(outward), 2 * FX_ONE as int));
            let rec = crate::sphere::sphere_rec_s(center, radius, mat, r, root);
            assert(rec.p == p);
            assert(rec.normal == outward || rec.normal == vneg_s(outward));
        }
    }
}

/// The scan preserves record boundedness.
pub proof fn lemma_scan_bounded(
    s: Seq<Arc<Hittable>>,
    i: int,
    r: Ray,
    t_min: int,
    closest: int,
    best: Option<HRec>,
)
    requires
        hrec_bounded(best),
    ensures
        hrec_bounded(list_hit_from(s, i, r, t_min, closest, best)),
    decreases s, s.len() - i + 2,
{
    if 0 <= i < s.len() {
        let ghost el = *s[i];
        lemma_hit_s_bounded(el, r, t_min, closest);
        match hit_s(el, r, t_min, closest) {
            Some(rec) => {
                lemma_scan_bounded(s, i + 1, r, t_min, rec.t, Some(rec));
            }
            None => {
                lemma_scan_bounded(s, i + 1, r, t_min, closest, best);
            }
        }
    }
}

/// Componentwise sum clipped to the point bound.
fn clip_add(a: &Vec3, b: &Vec3) -> (r: Vec3)
    requires
        bounded_s(a.s(), P_LIM as int),
        bounded_s(b.s(), COORD_LIM as int),
    ensures
        r.s() == vclip_s(vadd_s(a.s(), b.s()), P_LIM as int),
        bounded_s(r.s(), P_LIM as int),
{
    let x = crate::fx::clip128(a.x as i128 + b.x as i128, P_LIM);
    let y = crate::fx::clip128(a.y as i128 + b.y as i128, P_LIM);
    let z = crate::fx::clip128(a.z as i128 + b.z as i128, P_LIM);
    Vec3 { x, y, z }
}

fn bounded3(v: &Vec3, lim: i64) -> (r: bool)
    requires
        lim > 0,
    ensures
        r == bounded_s(v.s(), lim as int),
{
    -lim <= v.x && v.x <= lim && -lim <= v.y && v.y <= lim && -lim <= v.z && v.z <= lim
}

/// Translation: intersect in object space, shift the hit point back.
fn translate_hit(t: &Translate, r: &Ray, t_min: i64, t_max: i64) -> (res: Option<HitRecord>)
    requires
        ent_wf(Hittable::Translate(*t)),
        ray_wf(*r),
        abs1(t_min as int) <= FX_INF,
        abs1(t_max as int) <= FX_INF,
    ensures
        res matches Some(rec) ==> rec_wf(rec) && t_min <= rec.t <= t_max,
        res matches Some(rec) ==> (lights_off(Hittable::Translate(*t))
            ==> crate::material::non_emissive(*rec.mat_ptr)),
        deterministic(Hittable::Translate(*t)) ==> opt_s(res) == translate_hit_s(
            *t,
            *r,
            t_min as int,
            t_max as int,
        ),
    decreases *t, 3int,
{
    let mo = r.orig.sub(t.offset);
    if !bounded3(&mo, P_LIM) {
        return None;
    }
    let moved = Ray::new(mo, r.dir, r.tm);
    let child = crate::arc_as_ref(&t.ptr);
    match child.hit(&moved, t_min, t_max) {
        None => None,
        Some(rec) => {
            let p2 = clip_add(&rec.p, &t.offset);
            Some(HitRecord::new(p2, rec.t, rec.u, rec.v, rec.mat_ptr, rec.normal, moved))
        }
    }
}

/// One rotated pair, clipped.
fn rot_fwd(cos: i64, sin: i64, x: i64, z: i64, lim: i64) -> (r: (i64, i64))
    requires
        abs1(cos as int) <= FX_ONE,
        abs1(sin as int) <= FX_ONE,
        abs1(x as int) <= P_LIM,
        abs1(z as int) <= P_LIM,
        lim > 0,
    ensures
        (r.0 as int, r.1 as int) == rot_fwd_s(cos as int, sin as int, x as int, z as int, lim as int),
        abs1(r.0 as int) <= lim,
        abs1(r.1 as int) <= lim,
{
    proof {
        crate::fx::lemma_prod_bound(cos as int, x as int, 65536, P_LIM as int);
        crate::fx::lemma_prod_bound(sin as int, z as int, 65536, P_LIM as int);
        crate::fx::lemma_prod_bound(sin as int, x as int, 65536, P_LIM as int);
        crate::fx::lemma_prod_bound(cos as int, z as int, 65536, P_LIM as int);
        crate::fx::lemma_tdiv_bound(
            cos as int * x as int + sin as int * z as int,
            65536,
        );
        crate::fx::lemma_tdiv_bound(
            cos as int * z as int - sin as int * x as int,
            65536,
        );
    }
    let nx = crate::fx::tdiv128(
        crate::fx::prod64(cos, x) + crate::fx::prod64(sin, z),
        FX_ONE as i128,
    );
    let nz = crate::fx::tdiv128(
        crate::fx::prod64(cos, z) - crate::fx::prod64(sin, x),
        FX_ONE as i128,
    );
    (crate::fx::clip128(nx, lim), crate::fx::clip128(nz, lim))
}

/// One inversely rotated pair, unclipped (the caller bounds it).
fn rot_inv(cos: i64, sin: i64, x: i64, z: i64) -> (r: (i64, i64))
    requires
        abs1(cos as int) <= FX_ONE,
        abs1(sin as int) <= FX_ONE,
        abs1(x as int) <= P_LIM,
        abs1(z as int) <= P_LIM,
    ensures
        (r.0 as int, r.1 as int) == rot_inv_s(cos as int, sin as int, x as int, z as int),
        abs1(r.0 as int) <= 2 * P_LIM,
        abs1(r.1 as int) <= 2 * P_LIM,
{
    proof {
        crate::fx::lemma_prod_bound(cos as int, x as int, 65536, P_LIM as int);
        crate::fx::lemma_prod_bound(sin as int, z as int, 65536, P_LIM as int);
        crate::fx::lemma_prod_bound(sin as int, x as int, 65536, P_LIM as int);
        crate::fx::lemma_prod_bound(cos as int, z as int, 65536, P_LIM as int);
        crate::fx::lemma_tdiv_bound(cos as int * x as int - sin as int * z as int, 65536);
        crate::fx::lemma_tdiv_bound(sin as int * x as int + cos as int * z as int, 65536);
        assert((65536int * 17592186044416) / 65536 == 17592186044416);
        vstd::arithmetic::div_mod::lemma_div_is_ordered(
            abs1(cos as int * x as int - sin as int * z as int),
            2 * (65536int * 17592186044416),
            65536,
        );
        vstd::arithmetic::div_mod::lemma_div_is_ordered(
            abs1(sin as int * x as int + cos as int * z as int),
            2 * (65536int * 17592186044416),
            65536,
        );
        assert((2 * (65536int * 17592186044416)) / 65536 == 2 * 17592186044416);
    }
    let nx = crate::fx::tdiv128(
        crate::fx::prod64(cos, x) - crate::fx::prod64(sin, z),
        FX_ONE as i128,
    );
    let nz = crate::fx::tdiv128(
        crate::fx::prod64(sin, x) + crate::fx::prod64(cos, z),
        FX_ONE as i128,
    );
    (nx as i64, nz as i64)
}

/// Rotation about the y axis: rotate the ray into object space, intersect,
/// rotate point and normal back.
fn rotate_hit(t: &RotateY, r: &Ray, t_min: i64, t_max: i64) -> (res: Option<HitRecord>)
    requires
        ent_wf(Hittable::RotateY(*t)),
        ray_wf(*r),
        abs1(t_min as int) <= FX_INF,
        abs1(t_max as int) <= FX_INF,
    ensures
        res matches Some(rec) ==> rec_wf(rec) && t_min <= rec.t <= t_max,
        res matches Some(rec) ==> (lights_off(Hittable::RotateY(*t))
            ==> crate::material::non_emissive(*rec.mat_ptr)),
        deterministic(Hittable::RotateY(*t)) ==> opt_s(res) == rotate_hit_s(
            *t,
            *r,
            t_min as int,
            t_max as int,
        ),
    decreases *t, 3int,
{
    let o = rot_inv(t.cos_theta, t.sin_theta, r.orig.x, r.orig.z);
    let d = rot_inv(t.cos_theta, t.sin_theta, r.dir.x, r.dir.z);
    if !(-DIR_LIM <= d.0 && d.0 <= DIR_LIM && -DIR_LIM <= d.1 && d.1 <= DIR_LIM) {
        return None;
    }
    let moved = Ray::new(
        Vec3 {
            x: crate::fx::clip128(o.0 as i128, P_LIM),
            y: r.orig.y,
            z: crate::fx::clip128(o.1 as i128, P_LIM),
        },
        Vec3 { x: d.0, y: r.dir.y, z: d.1 },
        r.tm,
    );
    let child = crate::arc_as_ref(&t.ptr);
    match child.hit(&moved, t_min, t_max) {
        None => None,
        Some(rec) => {
            let p2 = rot_fwd(t.cos_theta, t.sin_theta, rec.p.x, rec.p.z, P_LIM);
            let n2 = rot_fwd(t.cos_theta, t.sin_theta, rec.normal.x, rec.normal.z, 2 * FX_ONE);
            Some(
                HitRecord::new(
                    Vec3 { x: p2.0, y: rec.p.y, z: p2.1 },
                    rec.t,
                    rec.u,
                    rec.v,
                    rec.mat_ptr,
                    Vec3 { x: n2.0, y: rec.normal.y, z: n2.1 },
                    moved,
                ),
            )
        }
    }
}

} // verus!
