//! Axis-aligned bounding boxes and the slab intersection test.

use vstd::prelude::*;
use crate::fx::{abs1, fdiv, tdiv, FX_INF, FX_ONE};
use crate::ray::{ray_wf, Ray};
use crate::vec3::{bounded_s, Point3, Vec3, P_LIM};

verus! {

#[derive(Clone, Copy, PartialEq, Eq, Structural, Debug)]
pub struct Aabb {
    pub minimum: Vec3,
    pub maximum: Vec3,
}

pub open spec fn aabb_wf(b: Aabb) -> bool {
    bounded_s(b.minimum.s(), P_LIM as int) && bounded_s(b.maximum.s(), P_LIM as int)
}

/// A box from mathematical corners.
pub open spec fn aabb_of(bb: (crate::vec3::V3, crate::vec3::V3)) -> Aabb {
    Aabb {
        minimum: Vec3 { x: bb.0.x as i64, y: bb.0.y as i64, z: bb.0.z as i64 },
        maximum: Vec3 { x: bb.1.x as i64, y: bb.1.y as i64, z: bb.1.z as i64 },
    }
}

/// `outer` encloses `inner`, corner by corner.
pub open spec fn contains_box(outer: Aabb, inner: Aabb) -> bool {
    &&& outer.minimum.x <= inner.minimum.x && inner.maximum.x <= outer.maximum.x
    &&& outer.minimum.y <= inner.minimum.y && inner.maximum.y <= outer.maximum.y
    &&& outer.minimum.z <= inner.minimum.z && inner.maximum.z <= outer.maximum.z
}

pub open spec fn vmin_s(a: Vec3, b: Vec3) -> Vec3 {
    Vec3 {
        x: if a.x <= b.x {
            a.x
        } else {
            b.x
        },
        y: if a.y <= b.y {
            a.y
        } else {
            b.y
        },
        z: if a.z <= b.z {
            a.z
        } else {
            b.z
        },
    }
}

pub open spec fn vmax_s(a: Vec3, b: Vec3) -> Vec3 {
    Vec3 {
        x: if a.x >= b.x {
            a.x
        } else {
            b.x
        },
        y: if a.y >= b.y {
            a.y
        } else {
            b.y
        },
        z: if a.z >= b.z {
            a.z
        } else {
            b.z
        },
    }
}

/// The smallest box enclosing two boxes.
pub open spec fn surrounding_s(box0: Aabb, box1: Aabb) -> Aabb {
    Aabb {
        minimum: vmin_s(box0.minimum, box1.minimum),
        maximum: vmax_s(box0.maximum, box1.maximum),
    }
}

/// One axis of the slab test: narrow the parameter interval `[lo, hi]` by
/// the slab `[minc, maxc]` along a direction component `dc`.  A ray parallel
/// to the slab keeps the interval if its origin lies inside, and empties it
/// otherwise.
pub open spec fn narrow_s(minc: int, maxc: int, oc: int, dc: int, lo: int, hi: int) -> (int, int) {
    if dc == 0 {
        if minc <= oc && oc <= maxc {
            (lo, hi)
        } else {
            (1, 0)
        }
    } else {
        let ta = fdiv(minc - oc, dc);
        let tb = fdiv(maxc - oc, dc);
        let near = if dc > 0 {
            ta
        } else {
            tb
        };
        let far = if dc > 0 {
            tb
        } else {
            ta
        };
        let lo2 = if lo >= near {
            lo
        } else {
            near
        };
        let hi2 = if hi <= far {
            hi
        } else {
            far
        };
        (lo2, hi2)
    }
}

/// The slab test: the ray's parameter interval, narrowed by all three
/// slabs, must stay nonempty.
pub open spec fn slab_hit(b: Aabb, r: Ray, t_min: int, t_max: int) -> bool {
    let (lx, hx) = narrow_s(
        b.minimum.x as int,
        b.maximum.x as int,
        r.orig.x as int,
        r.dir.x as int,
        t_min,
        t_max,
    );
    let (ly, hy) = narrow_s(
        b.minimum.y as int,
        b.maximum.y as int,
        r.orig.y as int,
        r.dir.y as int,
        lx,
        hx,
    );
    let (lz, hz) = narrow_s(
        b.minimum.z as int,
        b.maximum.z as int,
        r.orig.z as int,
        r.dir.z as int,
        ly,
        hy,
    );
    lz < hz
}

impl Aabb {
    pub fn new(a: Vec3, b: Vec3) -> (r: Self)
        ensures
            r.minimum == a && r.maximum == b,
    {
        Self { minimum: a, maximum: b }
    }

    pub fn min(&self) -> (r: Vec3)
        ensures
            r == self.minimum,
    {
        self.minimum
    }

    pub fn max(&self) -> (r: Vec3)
        ensures
            r == self.maximum,
    {
        self.maximum
    }

    /// Whether the ray crosses this box anywhere in `[t_min, t_max]`.
    pub fn hit(&self, r: &Ray, t_min: i64, t_max: i64) -> (res: bool)
        requires
            aabb_wf(*self),
            ray_wf(*r),
            abs1(t_min as int) <= FX_INF,
            abs1(t_max as int) <= FX_INF,
        ensures
            res == slab_hit(*self, *r, t_min as int, t_max as int),
    {
        let (lx, hx) = narrow_axis(
            self.minimum.x,
            self.maximum.x,
            r.orig.x,
            r.dir.x,
            t_min,
            t_max,
        );
        let (ly, hy) = narrow_axis(self.minimum.y, self.maximum.y, r.orig.y, r.dir.y, lx, hx);
        let (lz, hz) = narrow_axis(self.minimum.z, self.maximum.z, r.orig.z, r.dir.z, ly, hy);
        lz < hz
    }

    pub fn surrounding_box(box0: Aabb, box1: Aabb) -> (r: Self)
        ensures
            r == surrounding_s(box0, box1),
    {
        let small: Point3 = Point3::new(
            if box0.minimum.x <= box1.minimum.x {
                box0.minimum.x
            } else {
                box1.minimum.x
            },
            if box0.minimum.y <= box1.minimum.y {
                box0.minimum.y
            } else {
                box1.minimum.y
            },
            if box0.minimum.z <= box1.minimum.z {
                box0.minimum.z
            } else {
                box1.minimum.z
            },
        );
        let big: Point3 = Point3::new(
            if box0.maximum.x >= box1.maximum.x {
                box0.maximum.x
            } else {
                box1.maximum.x
            },
            if box0.maximum.y >= box1.maximum.y {
                box0.maximum.y
            } else {
                box1.maximum.y
            },
            if box0.maximum.z >= box1.maximum.z {
                box0.maximum.z
            } else {
                box1.maximum.z
            },
        );
        Aabb::new(small, big)
    }
}

/// One executable axis of the slab test.
fn narrow_axis(minc: i64, maxc: i64, oc: i64, dc: i64, lo: i64, hi: i64) -> (r: (i64, i64))
    requires
        abs1(minc as int) <= P_LIM,
        abs1(maxc as int) <= P_LIM,
        abs1(oc as int) <= P_LIM,
        abs1(dc as int) <= crate::vec3::DIR_LIM,
        abs1(lo as int) <= 0x4000000000000000,
        abs1(hi as int) <= 0x4000000000000000,
    ensures
        (r.0 as int, r.1 as int) == narrow_s(
            minc as int,
            maxc as int,
            oc as int,
            dc as int,
            lo as int,
            hi as int,
        ),
        abs1(r.0 as int) <= 0x4000000000000000,
        abs1(r.1 as int) <= 0x4000000000000000,
{
    if dc == 0 {
        if minc <= oc && oc <= maxc {
            (lo, hi)
        } else {
            (1, 0)
        }
    } else {
        proof {
            crate::fx::lemma_tdiv_bound((minc - oc) * (FX_ONE as int), dc as int);
            crate::fx::lemma_tdiv_bound((maxc - oc) * (FX_ONE as int), dc as int);
            crate::fx::lemma_prod_bound(minc - oc, FX_ONE as int, 2 * P_LIM as int, FX_ONE as int);
            crate::fx::lemma_prod_bound(maxc - oc, FX_ONE as int, 2 * P_LIM as int, FX_ONE as int);
        }
        let ta = crate::fx::tdiv128((minc as i128 - oc as i128) * (FX_ONE as i128), dc as i128)
            as i64;
        let tb = crate::fx::tdiv128((maxc as i128 - oc as i128) * (FX_ONE as i128), dc as i128)
            as i64;
        let near = if dc > 0 {
            ta
        } else {
            tb
        };
        let far = if dc > 0 {
            tb
        } else {
            ta
        };
        let lo2 = if lo >= near {
            lo
        } else {
            near
        };
        let hi2 = if hi <= far {
            hi
        } else {
            far
        };
        (lo2, hi2)
    }
}

/// The surrounding box contains both of its arguments.
pub proof fn lemma_surrounding_contains(a: Aabb, b: Aabb)
    ensures
        contains_box(surrounding_s(a, b), a),
        contains_box(surrounding_s(a, b), b),
{
}

/// The surrounding box is the tightest: any box containing both arguments
/// contains it.
pub proof fn lemma_surrounding_tightest(a: Aabb, b: Aabb, c: Aabb)
    requires
        contains_box(c, a),
        contains_box(c, b),
    ensures
        contains_box(c, surrounding_s(a, b)),
{
}

/// The surrounding-box operation is commutative.
pub proof fn lemma_surrounding_comm(a: Aabb, b: Aabb)
    ensures
        surrounding_s(a, b) == surrounding_s(b, a),
{
}

/// The surrounding-box operation is associative.
pub proof fn lemma_surrounding_assoc(a: Aabb, b: Aabb, c: Aabb)
    ensures
        surrounding_s(a, surrounding_s(b, c)) == surrounding_s(surrounding_s(a, b), c),
{
}

/// Containment is transitive through the slab test: a ray that crosses a
/// box crosses every box enclosing it.
pub proof fn lemma_slab_monotone(inner: Aabb, outer: Aabb, r: Ray, t_min: int, t_max: int)
    requires
        contains_box(outer, inner),
        slab_hit(inner, r, t_min, t_max),
    ensures
        slab_hit(outer, r, t_min, t_max),
{
    let (lx1, hx1) = narrow_s(
        inner.minimum.x as int,
        inner.maximum.x as int,
        r.orig.x as int,
        r.dir.x as int,
        t_min,
        t_max,
    );
    let (ly1, hy1) = narrow_s(
        inner.minimum.y as int,
        inner.maximum.y as int,
        r.orig.y as int,
        r.dir.y as int,
        lx1,
        hx1,
    );
    let (lx2, hx2) = narrow_s(
        outer.minimum.x as int,
        outer.maximum.x as int,
        r.orig.x as int,
        r.dir.x as int,
        t_min,
        t_max,
    );
    let (ly2, hy2) = narrow_s(
        outer.minimum.y as int,
        outer.maximum.y as int,
        r.orig.y as int,
        r.dir.y as int,
        lx2,
        hx2,
    );
    lemma_narrow_monotone(
        inner.minimum.x as int,
        inner.maximum.x as int,
        outer.minimum.x as int,
        outer.maximum.x as int,
        r.orig.x as int,
        r.dir.x as int,
        t_min,
        t_max,
        t_min,
        t_max,
    );
    lemma_narrow_monotone(
        inner.minimum.y as int,
        inner.maximum.y as int,
        outer.minimum.y as int,
        outer.maximum.y as int,
        r.orig.y as int,
        r.dir.y as int,
        lx1,
        hx1,
        lx2,
        hx2,
    );
    lemma_narrow_monotone(
        inner.minimum.z as int,
        inner.maximum.z as int,
        outer.minimum.z as int,
        outer.maximum.z as int,
        r.orig.z as int,
        r.dir.z as int,
        ly1,
        hy1,
        ly2,
        hy2,
    );
}

/// A ray that crosses a box over an interval crosses it over any wider
/// interval.
pub proof fn lemma_slab_interval_mono(b: Aabb, r: Ray, t_min: int, tb: int, ta: int)
    requires
        tb <= ta,
        slab_hit(b, r, t_min, tb),
    ensures
        slab_hit(b, r, t_min, ta),
{
    let (lx1, hx1) = narrow_s(
        b.minimum.x as int,
        b.maximum.x as int,
        r.orig.x as int,
        r.dir.x as int,
        t_min,
        tb,
    );
    let (ly1, hy1) = narrow_s(
        b.minimum.y as int,
        b.maximum.y as int,
        r.orig.y as int,
        r.dir.y as int,
        lx1,
        hx1,
    );
    let (lx2, hx2) = narrow_s(
        b.minimum.x as int,
        b.maximum.x as int,
        r.orig.x as int,
        r.dir.x as int,
        t_min,
        ta,
    );
    let (ly2, hy2) = narrow_s(
        b.minimum.y as int,
        b.maximum.y as int,
        r.orig.y as int,
        r.dir.y as int,
        lx2,
        hx2,
    );
    lemma_narrow_monotone(
        b.minimum.x as int,
        b.maximum.x as int,
        b.minimum.x as int,
        b.maximum.x as int,
        r.orig.x as int,
        r.dir.x as int,
        t_min,
        tb,
        t_min,
        ta,
    );
    lemma_narrow_monotone(
        b.minimum.y as int,
        b.maximum.y as int,
        b.minimum.y as int,
        b.maximum.y as int,
        r.orig.y as int,
        r.dir.y as int,
        lx1,
        hx1,
        lx2,
        hx2,
    );
    lemma_narrow_monotone(
        b.minimum.z as int,
        b.maximum.z as int,
        b.minimum.z as int,
        b.maximum.z as int,
        r.orig.z as int,
        r.dir.z as int,
        ly1,
        hy1,
        ly2,
        hy2,
    );
}

/// Widening the slab and the incoming interval widens the narrowed
/// interval, unless the incoming interval was already empty.
proof fn lemma_narrow_monotone(
    min1: int,
    max1: int,
    min2: int,
    max2: int,
    oc: int,
    dc: int,
    lo1: int,
    hi1: int,
    lo2: int,
    hi2: int,
)
    requires
        min2 <= min1,
        max1 <= max2,
        lo1 < hi1 ==> lo2 <= lo1 && hi1 <= hi2,
    ensures
        ({
            let (l1, h1) = narrow_s(min1, max1, oc, dc, lo1, hi1);
            let (l2, h2) = narrow_s(min2, max2, oc, dc, lo2, hi2);
            l1 < h1 ==> l2 <= l1 && h1 <= h2
        }),
{
    if dc != 0 {
        let s = FX_ONE as int;
        crate::fx::lemma_prod_mono(min2 - oc, min1 - oc, s);
        crate::fx::lemma_prod_mono(max1 - oc, max2 - oc, s);
        if dc > 0 {
            crate::fx::lemma_tdiv_mono((min2 - oc) * s, (min1 - oc) * s, dc);
            crate::fx::lemma_tdiv_mono((max1 - oc) * s, (max2 - oc) * s, dc);
        } else {
            crate::fx::lemma_tdiv_anti((min2 - oc) * s, (min1 - oc) * s, dc);
            crate::fx::lemma_tdiv_anti((max1 - oc) * s, (max2 - oc) * s, dc);
        }
    }
}

} // verus!
