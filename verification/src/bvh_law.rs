//! The acceleration-structure correctness law: traversing a
//! bounding-volume hierarchy reports exactly the hit that the unaccelerated
//! linear scan over its member entities reports.
//!
//! The traversal prunes a subtree when the ray misses its box, so the law
//! rests on one irreducible hypothesis: each member's own box is
//! conservative for the ray — a member never reports a hit when the ray
//! misses its box over the queried interval.  With rounded arithmetic that
//! can genuinely fail for a ray crossing a box exactly at its corner, so
//! it stays a premise rather than a theorem.  Everything else is proved
//! outright: members answer narrowed intervals consistently (for any
//! member without a nested hierarchy), the nodes inherit that consistency
//! from the conservativity premise, boxes contain their members' boxes,
//! pruning never skips a reportable hit, and the nearer-of-two-children
//! combination equals the narrowing linear scan, ties and all.

use vstd::prelude::*;
use crate::aabb::{aabb_of, contains_box, lemma_slab_monotone, lemma_surrounding_contains, slab_hit};
use crate::bvh::{bvh_sound, members_of};
use crate::hittable::{bbox_s, closer_of, hit_s, HRec, Hittable};
use crate::ray::Ray;
use crate::sphere::{quadratic_hit_s, Sphere};
use crate::vec3::{Vec3, V3};

verus! {

/// Drop a hit that lies beyond a tighter upper bound.
pub open spec fn restrict(o: Option<HRec>, t_hi: int) -> Option<HRec> {
    match o {
        None => None,
        Some(rec) => if rec.t <= t_hi {
            Some(rec)
        } else {
            None
        },
    }
}

/// An entity answers narrowed intervals consistently: the hit over a
/// tighter interval is the restriction of the hit over the wider one.
pub open spec fn restrictable(m: Hittable, r: Ray, t_min: int) -> bool {
    forall|ta: int, tb: int|
        #![trigger hit_s(m, r, t_min, tb), hit_s(m, r, t_min, ta)]
        tb <= ta ==> hit_s(m, r, t_min, tb) == restrict(hit_s(m, r, t_min, ta), tb)
}

/// An entity's box is conservative for a ray: whenever the ray misses the
/// box over an interval, the entity reports no hit over that interval.
pub open spec fn box_conservative(m: Hittable, r: Ray, t0b: int, t1b: int, t_min: int) -> bool {
    forall|tm: int|
        (bbox_s(m, t0b, t1b) matches Some(bb) && !slab_hit(aabb_of(bb), r, t_min, tm))
            ==> #[trigger] hit_s(m, r, t_min, tm) is None
}

/// Every subtree of a hierarchy is restrictable.
pub open spec fn tree_restrictable(h: Hittable, r: Ray, t_min: int) -> bool
    decreases h,
{
    restrictable(h, r, t_min) && match h {
        Hittable::BVHNode(n) => tree_restrictable(*n.left, r, t_min) && tree_restrictable(
            *n.right,
            r,
            t_min,
        ),
        _ => true,
    }
}

/// Every member of a hierarchy has a conservative box.
pub open spec fn tree_conservative(h: Hittable, r: Ray, t0b: int, t1b: int, t_min: int) -> bool
    decreases h,
{
    match h {
        Hittable::BVHNode(n) => tree_conservative(*n.left, r, t0b, t1b, t_min)
            && tree_conservative(*n.right, r, t0b, t1b, t_min),
        _ => box_conservative(h, r, t0b, t1b, t_min),
    }
}

/// Reported hit parameters lie inside the queried interval.
pub open spec fn t_in_range(o: Option<HRec>, t_min: int, t_max: int) -> bool {
    o matches Some(rec) ==> t_min <= rec.t <= t_max
}

/// Reported hits of any entity lie inside the queried interval, at every
/// node of a hierarchy (proved for every entity below).
pub open spec fn tree_ranged(h: Hittable, r: Ray, t_min: int) -> bool
    decreases h,
{
    (forall|tm: int| #[trigger] t_in_range(hit_s(h, r, t_min, tm), t_min, tm)) && match h {
        Hittable::BVHNode(n) => tree_ranged(*n.left, r, t_min) && tree_ranged(*n.right, r, t_min),
        _ => true,
    }
}

/// Every mirror's reported hit parameter lies inside the queried interval.
#[verifier::rlimit(100)]
pub proof fn lemma_hit_s_t_range(h: Hittable, r: Ray, t_min: int, t_max: int)
    ensures
        t_in_range(hit_s(h, r, t_min, t_max), t_min, t_max),
    decreases h, 1int,
{
    match h {
        Hittable::Sphere(s) => {
            let q = quadratic_hit_s(s.center.s(), s.radius as int, r, t_min, t_max);
            if q is Some {
                assert(hit_s(h, r, t_min, t_max) == Some(
                    crate::sphere::sphere_rec_s(
                        s.center.s(),
                        s.radius as int,
                        s.material,
                        r,
                        q->0,
                    ),
                ));
            } else {
                assert(hit_s(h, r, t_min, t_max) is None);
            }
        }
        Hittable::MovingSphere(s) => {
            let c = crate::sphere::center_at_s(s, r.tm as int);
            let q = quadratic_hit_s(c, s.radius as int, r, t_min, t_max);
            if q is Some {
                assert(hit_s(h, r, t_min, t_max) == Some(
                    crate::sphere::sphere_rec_s(c, s.radius as int, s.mat_ptr, r, q->0),
                ));
            } else {
                assert(hit_s(h, r, t_min, t_max) is None);
            }
        }
        Hittable::XyRect(_) => {}
        Hittable::YzRect(_) => {}
        Hittable::XzRect(_) => {}
        Hittable::Box_(b) => {
            lemma_scan_t_range(b.sides.hittable_list@, 0, r, t_min, t_max, t_max, None);
        }
        Hittable::Translate(t) => {
            let mo = crate::vec3::vsub_s(r.orig.s(), t.offset.s());
            if crate::vec3::bounded_s(mo, crate::vec3::P_LIM as int) {
                let moved = Ray {
                    orig: Vec3 { x: mo.x as i64, y: mo.y as i64, z: mo.z as i64 },
                    dir: r.dir,
                    tm: r.tm,
                };
                let ghost child = *t.ptr;
                lemma_hit_s_t_range(child, moved, t_min, t_max);
                assert(hit_s(h, r, t_min, t_max) == crate::hittable::translate_hit_s(
                    t,
                    r,
                    t_min,
                    t_max,
                ));
            }
        }
        Hittable::RotateY(t) => {
            let cos = t.cos_theta as int;
            let sin = t.sin_theta as int;
            let o = crate::hittable::rot_inv_s(cos, sin, r.orig.x as int, r.orig.z as int);
            let d = crate::hittable::rot_inv_s(cos, sin, r.dir.x as int, r.dir.z as int);
            if crate::fx::abs1(d.0) <= crate::vec3::DIR_LIM && crate::fx::abs1(d.1)
                <= crate::vec3::DIR_LIM {
                let moved = Ray {
                    orig: Vec3 {
                        x: crate::fx::clip(o.0, crate::vec3::P_LIM as int) as i64,
                        y: r.orig.y,
                        z: crate::fx::clip(o.1, crate::vec3::P_LIM as int) as i64,
                    },
                    dir: Vec3 { x: d.0 as i64, y: r.dir.y, z: d.1 as i64 },
                    tm: r.tm,
                };
                let ghost child = *t.ptr;
                lemma_hit_s_t_range(child, moved, t_min, t_max);
                assert(hit_s(h, r, t_min, t_max) == crate::hittable::rotate_hit_s(
                    t,
                    r,
                    t_min,
                    t_max,
                ));
            }
        }
        Hittable::ConstantMediun(_) => {}
        Hittable::List(l) => {
            lemma_scan_t_range(l.hittable_list@, 0, r, t_min, t_max, t_max, None);
        }
        Hittable::BVHNode(n) => {
            let ghost lc = *n.left;
            let ghost rc = *n.right;
            lemma_hit_s_t_range(lc, r, t_min, t_max);
            lemma_hit_s_t_range(rc, r, t_min, t_max);
        }
    }
}

/// The aggregate scan keeps every reported parameter inside the original
/// interval as it narrows.
proof fn lemma_scan_t_range(
    s: Seq<std::sync::Arc<Hittable>>,
    i: int,
    r: Ray,
    t_min: int,
    t_orig: int,
    closest: int,
    best: Option<crate::hittable::HRec>,
)
    requires
        closest <= t_orig,
        best matches Some(rec) ==> t_min <= rec.t <= t_orig,
    ensures
        t_in_range(
            crate::hittable::list_hit_from(s, i, r, t_min, closest, best),
            t_min,
            t_orig,
        ),
    decreases s, s.len() - i + 2,
{
    if 0 <= i < s.len() {
        let ghost el = *s[i];
        lemma_hit_s_t_range(el, r, t_min, closest);
        match hit_s(el, r, t_min, closest) {
            Some(rec) => {
                lemma_scan_t_range(s, i + 1, r, t_min, t_orig, rec.t, Some(rec));
            }
            None => {
                lemma_scan_t_range(s, i + 1, r, t_min, t_orig, closest, best);
            }
        }
    }
}

/// Every subtree satisfies the range discipline; the hypothesis of the
/// law below is dischargeable for every entity.
pub proof fn lemma_tree_ranged(h: Hittable, r: Ray, t_min: int)
    ensures
        tree_ranged(h, r, t_min),
    decreases h,
{
    assert forall|tm: int| #[trigger] t_in_range(hit_s(h, r, t_min, tm), t_min, tm) by {
        lemma_hit_s_t_range(h, r, t_min, tm);
    }
    match h {
        Hittable::BVHNode(n) => {
            let ghost lc = *n.left;
            let ghost rc = *n.right;
            lemma_tree_ranged(lc, r, t_min);
            lemma_tree_ranged(rc, r, t_min);
        }
        _ => {}
    }
}

/// The linear scan over bare entities, carrying the narrowing bound and
/// the best hit so far (ties go to the later entity, exactly as the
/// aggregate's scan replaces on equal parameters).
pub open spec fn scan_h(
    s: Seq<Hittable>,
    i: int,
    r: Ray,
    t_min: int,
    closest: int,
    best: Option<HRec>,
) -> Option<HRec>
    decreases s.len() - i + 1,
{
    if i < 0 || i >= s.len() {
        best
    } else {
        match hit_s(s[i], r, t_min, closest) {
            Some(rec) => scan_h(s, i + 1, r, t_min, rec.t, Some(rec)),
            None => scan_h(s, i + 1, r, t_min, closest, best),
        }
    }
}

/// Scanning the tail of a concatenation past the first part is scanning
/// the second part.
proof fn lemma_scan_shift(
    s1: Seq<Hittable>,
    s2: Seq<Hittable>,
    j: int,
    r: Ray,
    t_min: int,
    closest: int,
    best: Option<HRec>,
)
    requires
        0 <= j <= s2.len(),
    ensures
        scan_h(s1 + s2, s1.len() + j, r, t_min, closest, best) == scan_h(
            s2,
            j,
            r,
            t_min,
            closest,
            best,
        ),
    decreases s2.len() - j,
{
    if j < s2.len() {
        assert((s1 + s2)[s1.len() + j] == s2[j]);
        match hit_s(s2[j], r, t_min, closest) {
            Some(rec) => {
                lemma_scan_shift(s1, s2, j + 1, r, t_min, rec.t, Some(rec));
            }
            None => {
                lemma_scan_shift(s1, s2, j + 1, r, t_min, closest, best);
            }
        }
    }
}

/// Scanning a concatenation is scanning the first part, then the second
/// from the state the first part left behind.
#[verifier::rlimit(100)]
proof fn lemma_scan_append(
    s1: Seq<Hittable>,
    s2: Seq<Hittable>,
    i: int,
    r: Ray,
    t_min: int,
    closest: int,
    best: Option<HRec>,
)
    requires
        0 <= i <= s1.len(),
        best matches Some(rec) ==> rec.t == closest,
    ensures
        scan_h(s1 + s2, i, r, t_min, closest, best) == match scan_h(
            s1,
            i,
            r,
            t_min,
            closest,
            best,
        ) {
            Some(rec) => scan_h(s2, 0, r, t_min, rec.t, Some(rec)),
            None => scan_h(s2, 0, r, t_min, closest, None),
        },
    decreases s1.len() - i,
{
    if i == s1.len() {
        assert(scan_h(s1, i, r, t_min, closest, best) == best);
        lemma_scan_shift(s1, s2, 0, r, t_min, closest, best);
        match best {
            Some(rec) => {
                assert(rec.t == closest);
                assert(scan_h(s1 + s2, i, r, t_min, closest, best) == scan_h(
                    s2,
                    0,
                    r,
                    t_min,
                    rec.t,
                    Some(rec),
                ));
            }
            None => {
                assert(scan_h(s1 + s2, i, r, t_min, closest, best) == scan_h(
                    s2,
                    0,
                    r,
                    t_min,
                    closest,
                    None,
                ));
            }
        }
    } else {
        assert((s1 + s2)[i] == s1[i]);
        match hit_s(s1[i], r, t_min, closest) {
            Some(rec) => {
                lemma_scan_append(s1, s2, i + 1, r, t_min, rec.t, Some(rec));
                lemma_scan_keeps_some(s1, i + 1, r, t_min, rec.t, rec);
                assert(scan_h(s1 + s2, i, r, t_min, closest, best) == scan_h(
                    s1 + s2,
                    i + 1,
                    r,
                    t_min,
                    rec.t,
                    Some(rec),
                ));
                assert(scan_h(s1, i, r, t_min, closest, best) == scan_h(
                    s1,
                    i + 1,
                    r,
                    t_min,
                    rec.t,
                    Some(rec),
                ));
            }
            None => {
                lemma_scan_append(s1, s2, i + 1, r, t_min, closest, best);
                assert(scan_h(s1 + s2, i, r, t_min, closest, best) == scan_h(
                    s1 + s2,
                    i + 1,
                    r,
                    t_min,
                    closest,
                    best,
                ));
                assert(scan_h(s1, i, r, t_min, closest, best) == scan_h(
                    s1,
                    i + 1,
                    r,
                    t_min,
                    closest,
                    best,
                ));
            }
        }
    }
}

/// A scan that starts with a hit in hand always ends with one.
proof fn lemma_scan_keeps_some(
    s: Seq<Hittable>,
    i: int,
    r: Ray,
    t_min: int,
    closest: int,
    rec: HRec,
)
    ensures
        scan_h(s, i, r, t_min, closest, Some(rec)) is Some,
    decreases s.len() - i,
{
    if 0 <= i < s.len() {
        match hit_s(s[i], r, t_min, closest) {
            Some(rec2) => {
                lemma_scan_keeps_some(s, i + 1, r, t_min, rec2.t, rec2);
            }
            None => {
                lemma_scan_keeps_some(s, i + 1, r, t_min, closest, rec);
            }
        }
    }
}

/// A scan over entities that all miss leaves the best hit untouched.
proof fn lemma_scan_all_none(
    s: Seq<Hittable>,
    i: int,
    r: Ray,
    t_min: int,
    closest: int,
    best: Option<HRec>,
)
    requires
        forall|k: int| 0 <= k < s.len() ==> #[trigger] hit_s(s[k], r, t_min, closest) is None,
    ensures
        scan_h(s, i, r, t_min, closest, best) == best,
    decreases s.len() - i,
{
    if 0 <= i < s.len() {
        lemma_scan_all_none(s, i + 1, r, t_min, closest, best);
    }
}

/// Every member's box sits inside its hierarchy's root box.
proof fn lemma_members_boxes(h: Hittable, t0b: int, t1b: int)
    requires
        bvh_sound(h, t0b, t1b),
        bbox_s(h, t0b, t1b) is Some,
    ensures
        forall|k: int|
            0 <= k < members_of(h).len() ==> (#[trigger] bbox_s(members_of(h)[k], t0b, t1b))
                is Some && contains_box(
                aabb_of(bbox_s(h, t0b, t1b)->0),
                aabb_of(bbox_s(members_of(h)[k], t0b, t1b)->0),
            ),
    decreases h,
{
    match h {
        Hittable::BVHNode(n) => {
            let ghost l = *n.left;
            let ghost rr = *n.right;
            lemma_members_boxes(l, t0b, t1b);
            lemma_members_boxes(rr, t0b, t1b);
            let lm = members_of(l);
            let rm = members_of(rr);
            assert(members_of(h) == lm + rm);
            let hb = aabb_of(bbox_s(h, t0b, t1b)->0);
            assert(hb == n.box_);
            let lb = aabb_of(bbox_s(l, t0b, t1b)->0);
            let rb = aabb_of(bbox_s(rr, t0b, t1b)->0);
            lemma_surrounding_contains(lb, rb);
            assert(contains_box(hb, lb) && contains_box(hb, rb));
            assert forall|k: int|
                0 <= k < members_of(h).len() implies (#[trigger] bbox_s(
                members_of(h)[k],
                t0b,
                t1b,
            )) is Some && contains_box(hb, aabb_of(bbox_s(members_of(h)[k], t0b, t1b)->0)) by {
                if k < lm.len() {
                    assert(members_of(h)[k] == lm[k]);
                    assert(contains_box(lb, aabb_of(bbox_s(lm[k], t0b, t1b)->0)));
                } else {
                    assert(members_of(h)[k] == rm[k - lm.len()]);
                    assert(contains_box(rb, aabb_of(bbox_s(rm[k - lm.len()], t0b, t1b)->0)));
                }
            }
        }
        _ => {
            assert(members_of(h) == seq![h]);
            assert(members_of(h)[0] == h);
        }
    }
}

/// The heart of the law: scanning a hierarchy's members from any scan
/// state gives the subtree hit when there is one, and leaves the state's
/// best hit otherwise.
#[verifier::rlimit(100)]
proof fn lemma_tree_scan(
    h: Hittable,
    r: Ray,
    t0b: int,
    t1b: int,
    t_min: int,
    closest: int,
    best: Option<HRec>,
)
    requires
        bvh_sound(h, t0b, t1b),
        bbox_s(h, t0b, t1b) is Some,
        tree_restrictable(h, r, t_min),
        tree_conservative(h, r, t0b, t1b, t_min),
        tree_ranged(h, r, t_min),
        best matches Some(rec) ==> rec.t == closest,
    ensures
        scan_h(members_of(h), 0, r, t_min, closest, best) == match hit_s(h, r, t_min, closest) {
            Some(rec) => Some(rec),
            None => best,
        },
    decreases h,
{
    match h {
        Hittable::BVHNode(n) => {
            let ghost l = *n.left;
            let ghost rr = *n.right;
            let lm = members_of(l);
            let rm = members_of(rr);
            assert(members_of(h) == lm + rm);
            if !slab_hit(n.box_, r, t_min, closest) {
                assert(hit_s(h, r, t_min, closest) is None);
                lemma_members_boxes(h, t0b, t1b);
                lemma_tree_conservative_members(h, r, t0b, t1b, t_min);
                assert forall|k: int|
                    0 <= k < members_of(h).len() implies #[trigger] hit_s(
                    members_of(h)[k],
                    r,
                    t_min,
                    closest,
                ) is None by {
                    let m = members_of(h)[k];
                    let mb = aabb_of(bbox_s(m, t0b, t1b)->0);
                    assert(aabb_of(bbox_s(h, t0b, t1b)->0) == n.box_);
                    if slab_hit(mb, r, t_min, closest) {
                        lemma_slab_monotone(mb, n.box_, r, t_min, closest);
                    }
                }
                lemma_scan_all_none(members_of(h), 0, r, t_min, closest, best);
            } else {
                lemma_scan_append(lm, rm, 0, r, t_min, closest, best);
                lemma_tree_scan(l, r, t0b, t1b, t_min, closest, best);
                assert(tree_ranged(l, r, t_min) && tree_restrictable(rr, r, t_min));
                match hit_s(l, r, t_min, closest) {
                    Some(la) => {
                        assert(t_in_range(hit_s(l, r, t_min, closest), t_min, closest));
                        lemma_tree_scan(rr, r, t0b, t1b, t_min, la.t, Some(la));
                        assert(hit_s(rr, r, t_min, la.t) == restrict(
                            hit_s(rr, r, t_min, closest),
                            la.t,
                        ));
                    }
                    None => {
                        lemma_tree_scan(rr, r, t0b, t1b, t_min, closest, best);
                    }
                }
                assert(hit_s(h, r, t_min, closest) == closer_of(
                    hit_s(l, r, t_min, closest),
                    hit_s(rr, r, t_min, closest),
                ));
            }
        }
        _ => {
            assert(members_of(h) == seq![h]);
            assert(members_of(h)[0] == h);
            assert(members_of(h).len() == 1);
            match hit_s(h, r, t_min, closest) {
                Some(rec) => {
                    assert(scan_h(members_of(h), 0, r, t_min, closest, best) == scan_h(
                        members_of(h),
                        1,
                        r,
                        t_min,
                        rec.t,
                        Some(rec),
                    ));
                    assert(scan_h(members_of(h), 1, r, t_min, rec.t, Some(rec)) == Some(rec));
                }
                None => {
                    assert(scan_h(members_of(h), 0, r, t_min, closest, best) == scan_h(
                        members_of(h),
                        1,
                        r,
                        t_min,
                        closest,
                        best,
                    ));
                    assert(scan_h(members_of(h), 1, r, t_min, closest, best) == best);
                }
            }
        }
    }
}

/// Member conservativity, read back out of the tree predicate.
proof fn lemma_tree_conservative_members(h: Hittable, r: Ray, t0b: int, t1b: int, t_min: int)
    requires
        tree_conservative(h, r, t0b, t1b, t_min),
    ensures
        forall|k: int|
            0 <= k < members_of(h).len() ==> box_conservative(
                #[trigger] members_of(h)[k],
                r,
                t0b,
                t1b,
                t_min,
            ),
    decreases h,
{
    match h {
        Hittable::BVHNode(n) => {
            let ghost l = *n.left;
            let ghost rr = *n.right;
            lemma_tree_conservative_members(l, r, t0b, t1b, t_min);
            lemma_tree_conservative_members(rr, r, t0b, t1b, t_min);
            let lm = members_of(l);
            let rm = members_of(rr);
            assert(members_of(h) == lm + rm);
            assert forall|k: int|
                0 <= k < members_of(h).len() implies box_conservative(
                #[trigger] members_of(h)[k],
                r,
                t0b,
                t1b,
                t_min,
            ) by {
                if k < lm.len() {
                    assert(members_of(h)[k] == lm[k]);
                } else {
                    assert(members_of(h)[k] == rm[k - lm.len()]);
                }
            }
        }
        _ => {
            assert(members_of(h)[0] == h);
        }
    }
}

/// Every member of the hierarchy answers narrowed intervals consistently.
pub open spec fn members_restrictable(h: Hittable, r: Ray, t_min: int) -> bool
    decreases h,
{
    match h {
        Hittable::BVHNode(n) => members_restrictable(*n.left, r, t_min) && members_restrictable(
            *n.right,
            r,
            t_min,
        ),
        _ => restrictable(h, r, t_min),
    }
}

/// A hit a hierarchy reports comes from one of its members, queried over
/// the same interval (the traversal narrows nothing on the way down).
proof fn lemma_hit_from_member(h: Hittable, r: Ray, t_min: int, t_max: int)
    requires
        hit_s(h, r, t_min, t_max) is Some,
    ensures
        exists|k: int|
            0 <= k < members_of(h).len() && #[trigger] hit_s(members_of(h)[k], r, t_min, t_max)
                == hit_s(h, r, t_min, t_max),
    decreases h,
{
    match h {
        Hittable::BVHNode(n) => {
            let ghost l = *n.left;
            let ghost rr = *n.right;
            let lm = members_of(l);
            let rm = members_of(rr);
            assert(members_of(h) == lm + rm);
            let la = hit_s(l, r, t_min, t_max);
            let rb = hit_s(rr, r, t_min, t_max);
            assert(hit_s(h, r, t_min, t_max) == closer_of(la, rb));
            if hit_s(h, r, t_min, t_max) == la && la is Some {
                lemma_hit_from_member(l, r, t_min, t_max);
                let k = choose|k: int|
                    0 <= k < lm.len() && #[trigger] hit_s(lm[k], r, t_min, t_max) == la;
                assert(members_of(h)[k] == lm[k]);
                assert(hit_s(members_of(h)[k], r, t_min, t_max) == hit_s(h, r, t_min, t_max));
            } else {
                assert(hit_s(h, r, t_min, t_max) == rb);
                lemma_hit_from_member(rr, r, t_min, t_max);
                let k = choose|k: int|
                    0 <= k < rm.len() && #[trigger] hit_s(rm[k], r, t_min, t_max) == rb;
                assert(members_of(h)[lm.len() + k] == rm[k]);
                assert(hit_s(members_of(h)[lm.len() + k], r, t_min, t_max) == hit_s(
                    h,
                    r,
                    t_min,
                    t_max,
                ));
            }
        }
        _ => {
            assert(members_of(h) == seq![h]);
            assert(members_of(h)[0] == h);
        }
    }
}

/// Conservative member boxes make the whole hierarchy answer narrowed
/// intervals consistently: node restrictability is not a further
/// assumption.
pub proof fn lemma_tree_restrictable_from_members(
    h: Hittable,
    r: Ray,
    t0b: int,
    t1b: int,
    t_min: int,
)
    requires
        bvh_sound(h, t0b, t1b),
        bbox_s(h, t0b, t1b) is Some,
        tree_conservative(h, r, t0b, t1b, t_min),
        members_restrictable(h, r, t_min),
    ensures
        tree_restrictable(h, r, t_min),
    decreases h, 1int,
{
    match h {
        Hittable::BVHNode(n) => {
            let ghost l = *n.left;
            let ghost rr = *n.right;
            lemma_tree_restrictable_from_members(l, r, t0b, t1b, t_min);
            lemma_tree_restrictable_from_members(rr, r, t0b, t1b, t_min);
            assert forall|ta: int, tb: int|
                #![trigger hit_s(h, r, t_min, tb), hit_s(h, r, t_min, ta)]
                tb <= ta implies hit_s(h, r, t_min, tb) == restrict(hit_s(h, r, t_min, ta), tb) by {
                lemma_node_restrict_once(h, r, t0b, t1b, t_min, ta, tb);
            }
        }
        _ => {}
    }
}

/// One restriction instance at a hierarchy node.
#[verifier::rlimit(100)]
proof fn lemma_node_restrict_once(
    h: Hittable,
    r: Ray,
    t0b: int,
    t1b: int,
    t_min: int,
    ta: int,
    tb: int,
)
    requires
        h is BVHNode,
        tb <= ta,
        bvh_sound(h, t0b, t1b),
        bbox_s(h, t0b, t1b) is Some,
        tree_conservative(h, r, t0b, t1b, t_min),
        members_restrictable(h, r, t_min),
        tree_restrictable(*h->BVHNode_0.left, r, t_min),
        tree_restrictable(*h->BVHNode_0.right, r, t_min),
    ensures
        hit_s(h, r, t_min, tb) == restrict(hit_s(h, r, t_min, ta), tb),
{
    let n = h->BVHNode_0;
    let ghost l = *n.left;
    let ghost rr = *n.right;
    if !slab_hit(n.box_, r, t_min, ta) {
        assert(hit_s(h, r, t_min, ta) is None);
        if slab_hit(n.box_, r, t_min, tb) {
            crate::aabb::lemma_slab_interval_mono(n.box_, r, t_min, tb, ta);
        }
        assert(hit_s(h, r, t_min, tb) is None);
    } else if !slab_hit(n.box_, r, t_min, tb) {
        assert(hit_s(h, r, t_min, tb) is None);
        // a surviving hit below tb would make its member's box, and so
        // this node's box, visible over [t_min, tb]
        let wide = hit_s(h, r, t_min, ta);
        if wide is Some && wide->0.t <= tb {
            lemma_hit_from_member(h, r, t_min, ta);
            let k = choose|k: int|
                0 <= k < members_of(h).len() && #[trigger] hit_s(members_of(h)[k], r, t_min, ta)
                    == wide;
            let m = members_of(h)[k];
            lemma_members_restrictable_each(h, r, t_min);
            assert(restrictable(m, r, t_min));
            assert(hit_s(m, r, t_min, tb) == restrict(hit_s(m, r, t_min, ta), tb));
            assert(hit_s(m, r, t_min, tb) == wide);
            lemma_tree_conservative_members(h, r, t0b, t1b, t_min);
            lemma_members_boxes(h, t0b, t1b);
            let mb = aabb_of(bbox_s(m, t0b, t1b)->0);
            assert(box_conservative(m, r, t0b, t1b, t_min));
            assert(hit_s(m, r, t_min, tb) is Some);
            assert(slab_hit(mb, r, t_min, tb));
            assert(aabb_of(bbox_s(h, t0b, t1b)->0) == n.box_);
            lemma_slab_monotone(mb, n.box_, r, t_min, tb);
            assert(false);
        }
    } else {
        let la_a = hit_s(l, r, t_min, ta);
        let rb_a = hit_s(rr, r, t_min, ta);
        assert(hit_s(l, r, t_min, tb) == restrict(la_a, tb));
        assert(hit_s(rr, r, t_min, tb) == restrict(rb_a, tb));
        assert(hit_s(h, r, t_min, ta) == closer_of(la_a, rb_a));
        assert(hit_s(h, r, t_min, tb) == closer_of(restrict(la_a, tb), restrict(rb_a, tb)));
    }
}

/// Member restrictability, read back out of the tree predicate.
proof fn lemma_members_restrictable_each(h: Hittable, r: Ray, t_min: int)
    requires
        members_restrictable(h, r, t_min),
    ensures
        forall|k: int|
            0 <= k < members_of(h).len() ==> restrictable(#[trigger] members_of(h)[k], r, t_min),
    decreases h,
{
    match h {
        Hittable::BVHNode(n) => {
            let ghost l = *n.left;
            let ghost rr = *n.right;
            lemma_members_restrictable_each(l, r, t_min);
            lemma_members_restrictable_each(rr, r, t_min);
            let lm = members_of(l);
            let rm = members_of(rr);
            assert(members_of(h) == lm + rm);
            assert forall|k: int|
                0 <= k < members_of(h).len() implies restrictable(
                #[trigger] members_of(h)[k],
                r,
                t_min,
            ) by {
                if k < lm.len() {
                    assert(members_of(h)[k] == lm[k]);
                } else {
                    assert(members_of(h)[k] == rm[k - lm.len()]);
                }
            }
        }
        _ => {
            assert(members_of(h)[0] == h);
        }
    }
}

/// THE LAW: over any interval, traversing a sound hierarchy whose members
/// have conservative boxes and answer narrowed intervals consistently
/// returns exactly what the linear scan over its member entities returns —
/// the same presence, parameter, point, normal, surface coordinates and
/// material.
pub proof fn lemma_bvh_matches_linear_scan(
    h: Hittable,
    r: Ray,
    t0b: int,
    t1b: int,
    t_min: int,
    t_max: int,
)
    requires
        bvh_sound(h, t0b, t1b),
        bbox_s(h, t0b, t1b) is Some,
        tree_conservative(h, r, t0b, t1b, t_min),
        members_restrictable(h, r, t_min),
    ensures
        scan_h(members_of(h), 0, r, t_min, t_max, None) == hit_s(h, r, t_min, t_max),
{
    lemma_tree_restrictable_from_members(h, r, t0b, t1b, t_min);
    lemma_tree_ranged(h, r, t_min);
    lemma_tree_scan(h, r, t0b, t1b, t_min, t_max, None);
}

/// The aggregate's narrowing scan reports the closest hit: a returned
/// record is no farther than any member's hit over the full interval, and
/// the scan comes back empty only when every member misses the full
/// interval outright.
pub proof fn lemma_scan_closest(
    s: Seq<std::sync::Arc<Hittable>>,
    r: Ray,
    t_min: int,
    t_max: int,
)
    requires
        forall|k: int| 0 <= k < s.len() ==> restrictable(*(#[trigger] s[k]), r, t_min),
    ensures
        match crate::hittable::list_hit_from(s, 0, r, t_min, t_max, None) {
            None => forall|k: int|
                0 <= k < s.len() ==> (#[trigger] hit_s(*s[k], r, t_min, t_max)) is None,
            Some(rec) => forall|k: int|
                0 <= k < s.len() ==> match #[trigger] hit_s(*s[k], r, t_min, t_max) {
                    Some(h) => rec.t <= h.t,
                    None => true,
                },
        },
{
    lemma_scan_minimal(s, 0, r, t_min, t_max, t_max, None);
}

/// The inductive heart of the closest-hit property, generalized over the
/// scan state.
proof fn lemma_scan_minimal(
    s: Seq<std::sync::Arc<Hittable>>,
    i: int,
    r: Ray,
    t_min: int,
    t_max: int,
    closest: int,
    best: Option<crate::hittable::HRec>,
)
    requires
        0 <= i,
        forall|k: int| 0 <= k < s.len() ==> restrictable(*(#[trigger] s[k]), r, t_min),
        closest <= t_max,
        best matches Some(b) ==> b.t == closest,
        best is None ==> closest == t_max,
    ensures
        ({
            let res = crate::hittable::list_hit_from(s, i, r, t_min, closest, best);
            &&& (res matches Some(rr) ==> rr.t <= closest)
            &&& (res is None ==> best is None)
            &&& forall|k: int|
                i <= k < s.len() ==> match (
                    #[trigger] hit_s(*s[k], r, t_min, t_max),
                    res,
                ) {
                    (Some(h), Some(rr)) => rr.t <= h.t,
                    (Some(h), None) => false,
                    _ => true,
                }
        }),
    decreases s.len() - i,
{
    if 0 <= i < s.len() {
        let ghost el = *s[i];
        lemma_hit_s_t_range(el, r, t_min, t_max);
        lemma_hit_s_t_range(el, r, t_min, closest);
        assert(hit_s(el, r, t_min, closest) == restrict(hit_s(el, r, t_min, t_max), closest));
        match hit_s(el, r, t_min, closest) {
            Some(rec) => {
                assert(rec.t <= closest);
                assert(hit_s(el, r, t_min, t_max) == Some(rec));
                lemma_scan_minimal(s, i + 1, r, t_min, t_max, rec.t, Some(rec));
                lemma_scan_keeps_hit(s, i + 1, r, t_min, rec.t, rec);
                assert(crate::hittable::list_hit_from(s, i, r, t_min, closest, best)
                    == crate::hittable::list_hit_from(s, i + 1, r, t_min, rec.t, Some(rec)));
            }
            None => {
                lemma_scan_minimal(s, i + 1, r, t_min, t_max, closest, best);
                assert(crate::hittable::list_hit_from(s, i, r, t_min, closest, best)
                    == crate::hittable::list_hit_from(s, i + 1, r, t_min, closest, best));
                if hit_s(el, r, t_min, t_max) is Some {
                    let h = hit_s(el, r, t_min, t_max)->0;
                    assert(h.t > closest);
                    if crate::hittable::list_hit_from(s, i + 1, r, t_min, closest, best)
                        is None {
                        assert(best is None);
                        assert(closest == t_max);
                        assert(h.t <= t_max);
                        assert(false);
                    }
                }
            }
        }
        let ghost res = crate::hittable::list_hit_from(s, i, r, t_min, closest, best);
        assert(res matches Some(rr) ==> rr.t <= closest);
        assert(res is None ==> best is None);
        assert forall|k: int|
            i <= k < s.len() implies match (#[trigger] hit_s(*s[k], r, t_min, t_max), res) {
            (Some(h), Some(rr)) => rr.t <= h.t,
            (Some(h), None) => false,
            _ => true,
        } by {
            if k == i {
                assert(hit_s(*s[k], r, t_min, t_max) == hit_s(el, r, t_min, t_max));
            }
        }
    }
}

/// A scan that starts with a hit in hand never comes back empty.
proof fn lemma_scan_keeps_hit(
    s: Seq<std::sync::Arc<Hittable>>,
    i: int,
    r: Ray,
    t_min: int,
    closest: int,
    rec: crate::hittable::HRec,
)
    ensures
        crate::hittable::list_hit_from(s, i, r, t_min, closest, Some(rec)) is Some,
    decreases s.len() - i,
{
    if 0 <= i < s.len() {
        let ghost el = *s[i];
        match hit_s(el, r, t_min, closest) {
            Some(rec2) => {
                lemma_scan_keeps_hit(s, i + 1, r, t_min, rec2.t, rec2);
            }
            None => {
                lemma_scan_keeps_hit(s, i + 1, r, t_min, closest, rec);
            }
        }
    }
}

/// No hierarchy node occurs inside the entity.
pub open spec fn bvh_free(h: Hittable) -> bool
    decreases h, 0int,
{
    match h {
        Hittable::BVHNode(_) => false,
        Hittable::Box_(b) => bvh_free_from(b.sides.hittable_list@, 0),
        Hittable::Translate(t) => bvh_free(*t.ptr),
        Hittable::RotateY(t) => bvh_free(*t.ptr),
        Hittable::ConstantMediun(c) => bvh_free(*c.boundary),
        Hittable::List(l) => bvh_free_from(l.hittable_list@, 0),
        _ => true,
    }
}

pub open spec fn bvh_free_from(s: Seq<std::sync::Arc<Hittable>>, i: int) -> bool
    decreases s, s.len() - i + 1,
{
    if i < 0 || i >= s.len() {
        true
    } else {
        bvh_free(*s[i]) && bvh_free_from(s, i + 1)
    }
}

/// Every entity without a hierarchy inside answers narrowed intervals
/// consistently.  (For hierarchy nodes themselves this is a hypothesis of
/// the law above: it rests on the conservativity of the member boxes.)
pub proof fn lemma_ent_restrictable(h: Hittable, r: Ray, t_min: int)
    requires
        bvh_free(h),
    ensures
        restrictable(h, r, t_min),
    decreases h, 2int,
{
    assert forall|ta: int, tb: int|
        #![trigger hit_s(h, r, t_min, tb), hit_s(h, r, t_min, ta)]
        tb <= ta implies hit_s(h, r, t_min, tb) == restrict(hit_s(h, r, t_min, ta), tb) by {
        lemma_ent_restrict_once(h, r, t_min, ta, tb);
    }
}

/// One instance of the restriction property, by structural cases.
proof fn lemma_ent_restrict_once(h: Hittable, r: Ray, t_min: int, ta: int, tb: int)
    requires
        bvh_free(h),
        tb <= ta,
    ensures
        hit_s(h, r, t_min, tb) == restrict(hit_s(h, r, t_min, ta), tb),
    decreases h, 1int,
{
    match h {
        Hittable::Sphere(s) => {
            lemma_quadratic_restrict(s.center.s(), s.radius as int, r, t_min, ta, tb);
            assert(hit_s(h, r, t_min, tb) == restrict(hit_s(h, r, t_min, ta), tb));
        }
        Hittable::MovingSphere(s) => {
            lemma_quadratic_restrict(
                crate::sphere::center_at_s(s, r.tm as int),
                s.radius as int,
                r,
                t_min,
                ta,
                tb,
            );
            assert(hit_s(h, r, t_min, tb) == restrict(hit_s(h, r, t_min, ta), tb));
        }
        Hittable::XyRect(_) => {
            assert(hit_s(h, r, t_min, tb) == restrict(hit_s(h, r, t_min, ta), tb));
        }
        Hittable::YzRect(_) => {
            assert(hit_s(h, r, t_min, tb) == restrict(hit_s(h, r, t_min, ta), tb));
        }
        Hittable::XzRect(_) => {
            assert(hit_s(h, r, t_min, tb) == restrict(hit_s(h, r, t_min, ta), tb));
        }
        Hittable::Box_(b) => {
            lemma_scan_restrict(b.sides.hittable_list@, 0, r, t_min, ta, tb, None, None);
            assert(min2a(ta, tb) == tb);
            assert(hit_s(h, r, t_min, tb) == restrict(hit_s(h, r, t_min, ta), tb));
        }
        Hittable::Translate(t) => {
            let mo = crate::vec3::vsub_s(r.orig.s(), t.offset.s());
            if crate::vec3::bounded_s(mo, crate::vec3::P_LIM as int) {
                let moved = Ray {
                    orig: Vec3 { x: mo.x as i64, y: mo.y as i64, z: mo.z as i64 },
                    dir: r.dir,
                    tm: r.tm,
                };
                let ghost child = *t.ptr;
                lemma_ent_restrict_once(child, moved, t_min, ta, tb);
                assert(hit_s(h, r, t_min, ta) == crate::hittable::translate_hit_s(t, r, t_min, ta));
                assert(hit_s(h, r, t_min, tb) == crate::hittable::translate_hit_s(t, r, t_min, tb));
                match hit_s(child, moved, t_min, ta) {
                    Some(rec) => {
                        let p2 = crate::vec3::vclip_s(
                            crate::vec3::vadd_s(rec.p, t.offset.s()),
                            crate::vec3::P_LIM as int,
                        );
                        assert(hit_s(h, r, t_min, ta) == Some(
                            crate::hittable::mk_rec_s(
                                p2,
                                rec.t,
                                rec.u,
                                rec.v,
                                rec.mat,
                                rec.normal,
                                moved,
                            ),
                        ));
                        if rec.t <= tb {
                            assert(hit_s(child, moved, t_min, tb) == Some(rec));
                        } else {
                            assert(hit_s(child, moved, t_min, tb) is None);
                        }
                    }
                    None => {
                        assert(hit_s(child, moved, t_min, tb) is None);
                    }
                }
            }
            assert(hit_s(h, r, t_min, tb) == restrict(hit_s(h, r, t_min, ta), tb));
        }
        Hittable::RotateY(t) => {
            let cos = t.cos_theta as int;
            let sin = t.sin_theta as int;
            let o = crate::hittable::rot_inv_s(cos, sin, r.orig.x as int, r.orig.z as int);
            let d = crate::hittable::rot_inv_s(cos, sin, r.dir.x as int, r.dir.z as int);
            if crate::fx::abs1(d.0) <= crate::vec3::DIR_LIM && crate::fx::abs1(d.1)
                <= crate::vec3::DIR_LIM {
                let moved = Ray {
                    orig: Vec3 {
                        x: crate::fx::clip(o.0, crate::vec3::P_LIM as int) as i64,
                        y: r.orig.y,
                        z: crate::fx::clip(o.1, crate::vec3::P_LIM as int) as i64,
                    },
                    dir: Vec3 { x: d.0 as i64, y: r.dir.y, z: d.1 as i64 },
                    tm: r.tm,
                };
                let ghost child = *t.ptr;
                lemma_ent_restrict_once(child, moved, t_min, ta, tb);
                assert(hit_s(h, r, t_min, ta) == crate::hittable::rotate_hit_s(t, r, t_min, ta));
                assert(hit_s(h, r, t_min, tb) == crate::hittable::rotate_hit_s(t, r, t_min, tb));
                match hit_s(child, moved, t_min, ta) {
                    Some(rec) => {
                        let p2 = crate::hittable::rot_fwd_s(
                            cos,
                            sin,
                            rec.p.x,
                            rec.p.z,
                            crate::vec3::P_LIM as int,
                        );
                        let n2 = crate::hittable::rot_fwd_s(
                            cos,
                            sin,
                            rec.normal.x,
                            rec.normal.z,
                            2 * crate::fx::FX_ONE as int,
                        );
                        assert(hit_s(h, r, t_min, ta) == Some(
                            crate::hittable::mk_rec_s(
                                V3 { x: p2.0, y: rec.p.y, z: p2.1 },
                                rec.t,
                                rec.u,
                                rec.v,
                                rec.mat,
                                V3 { x: n2.0, y: rec.normal.y, z: n2.1 },
                                moved,
                            ),
                        ));
                        if rec.t <= tb {
                            assert(hit_s(child, moved, t_min, tb) == Some(rec));
                        } else {
                            assert(hit_s(child, moved, t_min, tb) is None);
                        }
                    }
                    None => {
                        assert(hit_s(child, moved, t_min, tb) is None);
                    }
                }
            }
            assert(hit_s(h, r, t_min, tb) == restrict(hit_s(h, r, t_min, ta), tb));
        }
        Hittable::ConstantMediun(_) => {
            assert(hit_s(h, r, t_min, tb) == restrict(hit_s(h, r, t_min, ta), tb));
        }
        Hittable::List(l) => {
            lemma_scan_restrict(l.hittable_list@, 0, r, t_min, ta, tb, None, None);
            assert(min2a(ta, tb) == tb);
            assert(hit_s(h, r, t_min, tb) == restrict(hit_s(h, r, t_min, ta), tb));
        }
        Hittable::BVHNode(_) => {}
    }
}

/// The scan restricts: narrowing the incoming bound restricts the result,
/// member by member.  The two scans run in lockstep; the narrow side's
/// state is always the restriction of the wide side's.
proof fn lemma_scan_restrict(
    s: Seq<std::sync::Arc<Hittable>>,
    i: int,
    r: Ray,
    t_min: int,
    cl_a: int,
    tb: int,
    best_a: Option<crate::hittable::HRec>,
    best_b: Option<crate::hittable::HRec>,
)
    requires
        bvh_free_from(s, i),
        best_a matches Some(rec) ==> rec.t == cl_a,
        best_b == restrict(best_a, tb),
    ensures
        crate::hittable::list_hit_from(s, i, r, t_min, min2a(cl_a, tb), best_b) == restrict(
            crate::hittable::list_hit_from(s, i, r, t_min, cl_a, best_a),
            tb,
        ),
    decreases s, s.len() - i + 1,
{
    if 0 <= i < s.len() {
        let ghost el = *s[i];
        lemma_ent_restrict_once(el, r, t_min, cl_a, min2a(cl_a, tb));
        match hit_s(el, r, t_min, cl_a) {
            Some(rec) => {
                if rec.t <= tb {
                    lemma_scan_restrict(s, i + 1, r, t_min, rec.t, tb, Some(rec), Some(rec));
                } else {
                    lemma_scan_restrict(s, i + 1, r, t_min, rec.t, tb, Some(rec), best_b);
                    assert(min2a(rec.t, tb) == min2a(cl_a, tb));
                }
            }
            None => {
                lemma_scan_restrict(s, i + 1, r, t_min, cl_a, tb, best_a, best_b);
            }
        }
    }
}

pub open spec fn min2a(a: int, b: int) -> int {
    if a <= b {
        a
    } else {
        b
    }
}

/// The quadratic's accepted root restricts: the two candidate roots are
/// ordered, so a root accepted under the tighter bound is the root
/// accepted under the looser one.
proof fn lemma_quadratic_restrict(center: V3, radius: int, r: Ray, t_min: int, ta: int, tb: int)
    requires
        tb <= ta,
    ensures
        quadratic_hit_s(center, radius, r, t_min, tb) == match quadratic_hit_s(
            center,
            radius,
            r,
            t_min,
            ta,
        ) {
            None => None::<int>,
            Some(root) => if root <= tb {
                Some(root)
            } else {
                None
            },
        },
{
    let s = crate::fx::FX_ONE as int;
    let oc = crate::vec3::vsub_s(r.orig.s(), center);
    let a = crate::vec3::vlensq_s(r.dir.s());
    let hb = crate::vec3::vdot_s(oc, r.dir.s());
    let c = crate::vec3::vlensq_s(oc) - crate::fx::fmul(radius, radius);
    let disc = crate::fx::tdiv(hb * hb - a * c, s);
    if a != 0 && disc >= 0 {
        crate::vec3::lemma_lensq_nonneg(r.dir.s());
        let sq = crate::fx::fx_sqrt_s(disc);
        crate::fx::lemma_sqrt_exists(disc * s);
        assert(sq >= 0);
        crate::fx::lemma_prod_mono(-hb - sq, -hb + sq, s);
        crate::fx::lemma_tdiv_mono((-hb - sq) * s, (-hb + sq) * s, a);
    }
}

} // verus!
