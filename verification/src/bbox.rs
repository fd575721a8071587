//! An axis-aligned box: six rectangles in a list.

use vstd::prelude::*;
use std::sync::Arc;
use crate::aabb::{aabb_wf, Aabb};
use crate::aarect::{XyRect, XzRect, YzRect};
use crate::fx::{abs1, FX_INF};
use crate::hittable::{
    det_list_from, list_hit_from, list_wf_from, opt_s, rec_wf, HitRecord, Hittable,
};
use crate::hittable_list::HittableList;
use crate::material::{mat_wf, Material};
use crate::ray::{ray_wf, Ray};
use crate::vec3::{bounded_s, Point3, COORD_LIM};

verus! {

pub struct Box_ {
    pub box_min: Point3,
    pub box_max: Point3,
    pub sides: HittableList,
}

impl Box_ {
    /// The six faces of the box `[p0, p1]`, sharing one material.
    pub fn new(p0: Point3, p1: Point3, ptr: Arc<Material>) -> (r: Self)
        requires
            bounded_s(p0.s(), COORD_LIM as int),
            bounded_s(p1.s(), COORD_LIM as int),
            p0.x < p1.x,
            p0.y < p1.y,
            p0.z < p1.z,
            mat_wf(*ptr),
        ensures
            r.box_min == p0 && r.box_max == p1,
            r.sides.hittable_list@.len() == 6,
            *r.sides.hittable_list@[0] == Hittable::XyRect(
                XyRect { mp: ptr, x0: p0.x, x1: p1.x, y0: p0.y, y1: p1.y, k: p1.z },
            ),
            *r.sides.hittable_list@[1] == Hittable::XyRect(
                XyRect { mp: ptr, x0: p0.x, x1: p1.x, y0: p0.y, y1: p1.y, k: p0.z },
            ),
            *r.sides.hittable_list@[2] == Hittable::XzRect(
                XzRect { mp: ptr, x0: p0.x, x1: p1.x, z0: p0.z, z1: p1.z, k: p1.y },
            ),
            *r.sides.hittable_list@[3] == Hittable::XzRect(
                XzRect { mp: ptr, x0: p0.x, x1: p1.x, z0: p0.z, z1: p1.z, k: p0.y },
            ),
            *r.sides.hittable_list@[4] == Hittable::YzRect(
                YzRect { mp: ptr, y0: p0.y, y1: p1.y, z0: p0.z, z1: p1.z, k: p1.x },
            ),
            *r.sides.hittable_list@[5] == Hittable::YzRect(
                YzRect { mp: ptr, y0: p0.y, y1: p1.y, z0: p0.z, z1: p1.z, k: p0.x },
            ),
            list_wf_from(r.sides.hittable_list@, 0),
            det_list_from(r.sides.hittable_list@, 0),
            crate::hittable::ent_wf(Hittable::Box_(r)),
            crate::hittable::deterministic(Hittable::Box_(r)),
    {
        let mut sides = HittableList::new();
        sides.add(
            Arc::new(
                Hittable::XyRect(XyRect::new(p0.x, p1.x, p0.y, p1.y, p1.z, crate::arc_clone(&ptr))),
            ),
        );
        sides.add(
            Arc::new(
                Hittable::XyRect(XyRect::new(p0.x, p1.x, p0.y, p1.y, p0.z, crate::arc_clone(&ptr))),
            ),
        );
        sides.add(
            Arc::new(
                Hittable::XzRect(XzRect::new(p0.x, p1.x, p0.z, p1.z, p1.y, crate::arc_clone(&ptr))),
            ),
        );
        sides.add(
            Arc::new(
                Hittable::XzRect(XzRect::new(p0.x, p1.x, p0.z, p1.z, p0.y, crate::arc_clone(&ptr))),
            ),
        );
        sides.add(
            Arc::new(
                Hittable::YzRect(YzRect::new(p0.y, p1.y, p0.z, p1.z, p1.x, crate::arc_clone(&ptr))),
            ),
        );
        sides.add(
            Arc::new(Hittable::YzRect(YzRect::new(p0.y, p1.y, p0.z, p1.z, p0.x, ptr))),
        );
        let r = Self { box_min: p0, box_max: p1, sides };
        proof {
            lemma_box_sides_wf(r.sides.hittable_list@);
        }
        r
    }

    pub fn hit(&self, r: &Ray, t_min: i64, t_max: i64) -> (res: Option<HitRecord>)
        requires
            crate::hittable::ent_wf(Hittable::Box_(*self)),
            ray_wf(*r),
            abs1(t_min as int) <= FX_INF,
            abs1(t_max as int) <= FX_INF,
        ensures
            res matches Some(rec) ==> rec_wf(rec) && t_min <= rec.t <= t_max,
            res matches Some(rec) ==> (crate::hittable::lights_off(Hittable::Box_(*self))
                ==> crate::material::non_emissive(*rec.mat_ptr)),
            crate::hittable::deterministic(Hittable::Box_(*self)) ==> opt_s(res) == list_hit_from(
                self.sides.hittable_list@,
                0,
                *r,
                t_min as int,
                t_max as int,
                None,
            ),
        decreases *self, 3int,
    {
        self.sides.hit(r, t_min, t_max)
    }

    pub fn bounding_box(&self, _t0: i64, _t1: i64) -> (res: Option<Aabb>)
        requires
            crate::hittable::ent_wf(Hittable::Box_(*self)),
        ensures
            res matches Some(b) && b.minimum == self.box_min && b.maximum == self.box_max
                && aabb_wf(b),
    {
        Some(Aabb::new(self.box_min, self.box_max))
    }
}

/// A list whose members are all well-formed rectangles is a well-formed,
/// deterministic list.
proof fn lemma_box_sides_wf(s: Seq<Arc<Hittable>>)
    requires
        forall|i: int|
            0 <= i < s.len() ==> #[trigger] crate::hittable::ent_wf(*s[i])
                && crate::hittable::deterministic(*s[i]),
    ensures
        list_wf_from(s, 0),
        det_list_from(s, 0),
{
    lemma_box_sides_wf_from(s, 0);
}

proof fn lemma_box_sides_wf_from(s: Seq<Arc<Hittable>>, i: int)
    requires
        0 <= i,
        forall|j: int|
            0 <= j < s.len() ==> #[trigger] crate::hittable::ent_wf(*s[j])
                && crate::hittable::deterministic(*s[j]),
    ensures
        list_wf_from(s, i),
        det_list_from(s, i),
    decreases s.len() - i + 1,
{
    if i < s.len() {
        assert(crate::hittable::ent_wf(*s[i]) && crate::hittable::deterministic(*s[i]));
        lemma_box_sides_wf_from(s, i + 1);
    }
}

} // verus!
