//! The unordered aggregate: a linear scan over members, narrowing the
//! parameter interval as closer hits are found.

use vstd::prelude::*;
use std::sync::Arc;
use crate::aabb::{aabb_wf, Aabb};
use crate::fx::{abs1, FX_INF};
use crate::hittable::{
    bbox_s, det_list_from, deterministic, ent_wf, lights_off, lights_off_from, list_bbox_from,
    list_bbox_s, list_hit_from, list_wf_from, opt_s, rec_wf, hit_s, HitRecord, Hittable,
};
use crate::ray::{ray_wf, Ray};
use crate::vec3::TIME_LIM;

verus! {

pub struct HittableList {
    pub hittable_list: Vec<Arc<Hittable>>,
}

impl HittableList {
    pub fn new() -> (r: Self)
        ensures
            r.hittable_list@.len() == 0,
    {
        Self { hittable_list: Vec::new() }
    }

    pub fn add(&mut self, object: Arc<Hittable>)
        ensures
            final(self).hittable_list@ == old(self).hittable_list@.push(object),
    {
        self.hittable_list.push(object);
    }

    /// The closest hit among the members: each member is queried over
    /// `[t_min, closest-so-far]`.
    pub fn hit(&self, r: &Ray, t_min: i64, t_max: i64) -> (res: Option<HitRecord>)
        requires
            list_wf_from(self.hittable_list@, 0),
            ray_wf(*r),
            abs1(t_min as int) <= FX_INF,
            abs1(t_max as int) <= FX_INF,
        ensures
            res matches Some(rec) ==> rec_wf(rec) && t_min <= rec.t <= t_max,
            res matches Some(rec) ==> (lights_off_from(self.hittable_list@, 0)
                ==> crate::material::non_emissive(*rec.mat_ptr)),
            det_list_from(self.hittable_list@, 0) ==> opt_s(res) == list_hit_from(
                self.hittable_list@,
                0,
                *r,
                t_min as int,
                t_max as int,
                None,
            ),
        decreases *self, 3int,
    {
        let ghost s = self.hittable_list@;
        let mut best: Option<HitRecord> = None;
        let mut closest: i64 = t_max;
        let n = self.hittable_list.len();
        let mut i: usize = 0;
        while i < n
            invariant
                n == s.len(),
                s == self.hittable_list@,
                0 <= i <= n,
                list_wf_from(s, 0),
                ray_wf(*r),
                abs1(t_min as int) <= FX_INF,
                abs1(t_max as int) <= FX_INF,
                abs1(closest as int) <= FX_INF,
                best matches Some(rec) ==> rec_wf(rec) && t_min <= rec.t <= t_max && rec.t
                    == closest,
                best matches Some(rec) ==> (lights_off_from(s, 0)
                    ==> crate::material::non_emissive(*rec.mat_ptr)),
                best is None ==> closest == t_max,
                det_list_from(s, 0) ==> list_hit_from(s, 0, *r, t_min as int, t_max as int, None)
                    == list_hit_from(s, i as int, *r, t_min as int, closest as int, opt_s(best)),
            decreases n - i,
        {
            proof {
                lemma_list_wf_index(s, 0, i as int);
                if det_list_from(s, 0) {
                    lemma_det_index(s, 0, i as int);
                }
                if lights_off_from(s, 0) {
                    lemma_lights_off_index(s, 0, i as int);
                }
            }
            let obj = crate::arc_as_ref(&self.hittable_list[i]);
            match obj.hit(r, t_min, closest) {
                Some(rec) => {
                    closest = rec.t;
                    best = Some(rec);
                }
                None => {}
            }
            i = i + 1;
        }
        best
    }

    /// The union of the members' boxes, or nothing when the list is empty
    /// or some member has no box.
    pub fn bounding_box(&self, time0: i64, time1: i64) -> (res: Option<Aabb>)
        requires
            list_wf_from(self.hittable_list@, 0),
            abs1(time0 as int) <= TIME_LIM,
            abs1(time1 as int) <= TIME_LIM,
        ensures
            match res {
                Some(b) => list_bbox_s(self.hittable_list@, time0 as int, time1 as int) == Some(
                    (b.minimum.s(), b.maximum.s()),
                ) && aabb_wf(b),
                None => list_bbox_s(self.hittable_list@, time0 as int, time1 as int) is None,
            },
        decreases *self, 3int,
    {
        let ghost s = self.hittable_list@;
        let n = self.hittable_list.len();
        if n == 0 {
            return None;
        }
        proof {
            lemma_list_wf_index(s, 0, 0);
        }
        let first = crate::arc_as_ref(&self.hittable_list[0]);
        let mut acc: Aabb = match first.bounding_box(time0, time1) {
            None => {
                return None;
            }
            Some(b) => b,
        };
        let mut i: usize = 1;
        while i < n
            invariant
                n == s.len(),
                s == self.hittable_list@,
                1 <= i <= n,
                list_wf_from(s, 0),
                abs1(time0 as int) <= TIME_LIM,
                abs1(time1 as int) <= TIME_LIM,
                aabb_wf(acc),
                list_bbox_s(s, time0 as int, time1 as int) == list_bbox_from(
                    s,
                    i as int,
                    time0 as int,
                    time1 as int,
                    (acc.minimum.s(), acc.maximum.s()),
                ),
            decreases n - i,
        {
            proof {
                lemma_list_wf_index(s, 0, i as int);
            }
            let obj = crate::arc_as_ref(&self.hittable_list[i]);
            match obj.bounding_box(time0, time1) {
                None => {
                    return None;
                }
                Some(b) => {
                    acc = Aabb::surrounding_box(acc, b);
                }
            }
            i = i + 1;
        }
        Some(acc)
    }
}

/// Prefix well-formedness reaches every later index.
pub proof fn lemma_list_wf_index(s: Seq<Arc<Hittable>>, i: int, j: int)
    requires
        list_wf_from(s, i),
        i <= j,
        0 <= i,
    ensures
        j < s.len() ==> ent_wf(*s[j]),
        list_wf_from(s, j),
    decreases j - i,
{
    if i < j && i < s.len() {
        lemma_list_wf_index(s, i + 1, j);
    }
}

/// Prefix determinism reaches every later index.
pub proof fn lemma_det_index(s: Seq<Arc<Hittable>>, i: int, j: int)
    requires
        det_list_from(s, i),
        i <= j,
        0 <= i,
    ensures
        j < s.len() ==> deterministic(*s[j]),
        det_list_from(s, j),
    decreases j - i,
{
    if i < j && i < s.len() {
        lemma_det_index(s, i + 1, j);
    }
}

/// Prefix darkness reaches every later index.
pub proof fn lemma_lights_off_index(s: Seq<Arc<Hittable>>, i: int, j: int)
    requires
        lights_off_from(s, i),
        i <= j,
        0 <= i,
    ensures
        j < s.len() ==> lights_off(*s[j]),
        lights_off_from(s, j),
    decreases j - i,
{
    if i < j && i < s.len() {
        lemma_lights_off_index(s, i + 1, j);
    }
}

} // verus!
