//! Rays: an origin, a direction and a time value (for motion blur).

use vstd::prelude::*;
use crate::fx::{clip, fmul, FX_INF, FX_ONE};
use crate::vec3::{bounded_s, Point3, Vec3, V3, DIR_LIM, P_LIM, TIME_LIM};

verus! {

#[derive(Clone, Copy, PartialEq, Eq, Structural, Debug)]
pub struct Ray {
    pub orig: Point3,
    pub dir: Vec3,
    pub tm: i64,
}

/// A well-formed ray: origin within the point bound, direction within the
/// direction bound, time within the time bound.
pub open spec fn ray_wf(r: Ray) -> bool {
    &&& bounded_s(r.orig.s(), P_LIM as int)
    &&& bounded_s(r.dir.s(), DIR_LIM as int)
    &&& crate::fx::abs1(r.tm as int) <= TIME_LIM
}

/// The point reached after parameter `t`, each component clipped to the
/// point bound.
pub open spec fn at_s(orig: V3, dir: V3, t: int) -> V3 {
    V3 {
        x: clip(orig.x + fmul(dir.x, t), P_LIM as int),
        y: clip(orig.y + fmul(dir.y, t), P_LIM as int),
        z: clip(orig.z + fmul(dir.z, t), P_LIM as int),
    }
}

impl Ray {
    pub fn new(orig: Point3, dir: Vec3, tm: i64) -> (r: Ray)
        ensures
            r.orig == orig && r.dir == dir && r.tm == tm,
    {
        Ray { orig, dir, tm }
    }

    pub fn at(&self, t: i64) -> (p: Vec3)
        requires
            ray_wf(*self),
            crate::fx::abs1(t as int) <= FX_INF,
        ensures
            p.s() == at_s(self.orig.s(), self.dir.s(), t as int),
            bounded_s(p.s(), P_LIM as int),
    {
        let x = at_comp(self.orig.x, self.dir.x, t);
        let y = at_comp(self.orig.y, self.dir.y, t);
        let z = at_comp(self.orig.z, self.dir.z, t);
        Vec3 { x, y, z }
    }
}

fn at_comp(oc: i64, dc: i64, t: i64) -> (r: i64)
    requires
        crate::fx::abs1(oc as int) <= P_LIM,
        crate::fx::abs1(dc as int) <= DIR_LIM,
        crate::fx::abs1(t as int) <= FX_INF,
    ensures
        r == clip(oc + fmul(dc as int, t as int), P_LIM as int),
        crate::fx::abs1(r as int) <= P_LIM,
{
    let step = crate::fx::tdiv128(crate::fx::prod64(dc, t), FX_ONE as i128);
    let v: i128 = (oc as i128) + step;
    if v > P_LIM as i128 {
        P_LIM
    } else if v < -(P_LIM as i128) {
        -P_LIM
    } else {
        v as i64
    }
}

} // verus!
