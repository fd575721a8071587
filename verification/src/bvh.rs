//! The bounding-volume hierarchy: a binary tree of boxes over entities,
//! built top-down by sorting on a randomly chosen axis and splitting at the
//! median.

use vstd::prelude::*;
use std::sync::Arc;
use vstd::seq_lib::group_to_multiset_ensures;
use crate::aabb::{aabb_of, aabb_wf, surrounding_s, Aabb};
use crate::fx::{abs1, FX_INF};
use crate::hittable::{
    bbox_s, closer_of, det_list_from, deterministic, ent_wf, list_wf_from, opt_s, rec_wf, hit_s,
    HitRecord, Hittable,
};
use crate::hittable_list::{lemma_det_index, lemma_list_wf_index, HittableList};
use crate::ray::{ray_wf, Ray};
use crate::vec3::{Vec3, TIME_LIM};

verus! {

pub struct BVHNode {
    pub left: Arc<Hittable>,
    pub right: Arc<Hittable>,
    pub box_: Aabb,
}

/// Every member of the sequence has a bounding box over the window.
pub open spec fn boxed_from(s: Seq<Arc<Hittable>>, i: int, t0: int, t1: int) -> bool
    decreases s.len() - i + 1,
{
    if i < 0 || i >= s.len() {
        true
    } else {
        bbox_s(*s[i], t0, t1) is Some && boxed_from(s, i + 1, t0, t1)
    }
}

/// Every member of the sequence is itself a sound hierarchy (trivially so
/// for anything that is not one).
pub open spec fn sound_from(s: Seq<Arc<Hittable>>, i: int, t0: int, t1: int) -> bool
    decreases s.len() - i + 1,
{
    if i < 0 || i >= s.len() {
        true
    } else {
        bvh_sound(*s[i], t0, t1) && sound_from(s, i + 1, t0, t1)
    }
}

/// The box stored at every node of a hierarchy is exactly the smallest
/// enclosing box of its two children's boxes (so, by induction and by the
/// surrounding box's algebra, the root box is the fold of every member's
/// box, whatever split axes were drawn).
pub open spec fn bvh_sound(h: Hittable, t0: int, t1: int) -> bool
    decreases h, 0int,
{
    match h {
        Hittable::BVHNode(n) => {
            &&& bbox_s(*n.left, t0, t1) is Some
            &&& bbox_s(*n.right, t0, t1) is Some
            &&& n.box_ == surrounding_s(
                aabb_of(bbox_s(*n.left, t0, t1)->0),
                aabb_of(bbox_s(*n.right, t0, t1)->0),
            )
            &&& bvh_sound(*n.left, t0, t1)
            &&& bvh_sound(*n.right, t0, t1)
        }
        _ => true,
    }
}

/// The entities a hierarchy stands for: the leaves under every node.
pub open spec fn members_of(h: Hittable) -> Seq<Hittable>
    decreases h, 0int,
{
    match h {
        Hittable::BVHNode(n) => members_of(*n.left) + members_of(*n.right),
        _ => seq![h],
    }
}

/// Whether an entity value occurs among the members of some entity of a
/// sequence.
pub open spec fn in_list_members(s: Seq<Arc<Hittable>>, x: Hittable) -> bool {
    exists|j: int| 0 <= j < s.len() && #[trigger] members_of(*s[j]).contains(x)
}

impl BVHNode {
    /// Traversal: reject the subtree when the ray misses its box,
    /// otherwise query both children and keep the nearer hit.
    pub fn hit(&self, r: &Ray, t_min: i64, t_max: i64) -> (res: Option<HitRecord>)
        requires
            ent_wf(Hittable::BVHNode(*self)),
            ray_wf(*r),
            abs1(t_min as int) <= FX_INF,
            abs1(t_max as int) <= FX_INF,
        ensures
            res matches Some(rec) ==> rec_wf(rec) && t_min <= rec.t <= t_max,
            res matches Some(rec) ==> (crate::hittable::lights_off(Hittable::BVHNode(*self))
                ==> crate::material::non_emissive(*rec.mat_ptr)),
            deterministic(Hittable::BVHNode(*self)) ==> opt_s(res) == hit_s(
                Hittable::BVHNode(*self),
                *r,
                t_min as int,
                t_max as int,
            ),
        decreases *self, 3int,
    {
        if !self.box_.hit(r, t_min, t_max) {
            return None;
        }
        let left = crate::arc_as_ref(&self.left);
        let right = crate::arc_as_ref(&self.right);
        let hit_left = left.hit(r, t_min, t_max);
        let hit_right = right.hit(r, t_min, t_max);
        match (hit_left, hit_right) {
            (Some(l), Some(rr)) => if l.t < rr.t {
                Some(l)
            } else {
                Some(rr)
            },
            (Some(l), None) => Some(l),
            (None, rr) => rr,
        }
    }

    pub fn new_boxed(list: HittableList, time0: i64, time1: i64) -> (res: Arc<Hittable>)
        requires
            list.hittable_list@.len() >= 1,
            list_wf_from(list.hittable_list@, 0),
            boxed_from(list.hittable_list@, 0, time0 as int, time1 as int),
            sound_from(list.hittable_list@, 0, time0 as int, time1 as int),
            abs1(time0 as int) <= TIME_LIM,
            abs1(time1 as int) <= TIME_LIM,
        ensures
            ent_wf(*res),
            bvh_sound(*res, time0 as int, time1 as int),
            bbox_s(*res, time0 as int, time1 as int) is Some,
            det_list_from(list.hittable_list@, 0) ==> deterministic(*res),
            forall|x: Hittable|
                #[trigger] members_of(*res).contains(x) <==> in_list_members(
                    list.hittable_list@,
                    x,
                ),
    {
        BVHNode::build(list.hittable_list, time0, time1)
    }

    /// Build a hierarchy: sort by the minimum coordinate of a random axis,
    /// split at the midpoint, recurse; one entity becomes both children of
    /// a leaf node.
    pub fn build(src_objects: Vec<Arc<Hittable>>, time0: i64, time1: i64) -> (res: Arc<Hittable>)
        requires
            src_objects@.len() >= 1,
            list_wf_from(src_objects@, 0),
            boxed_from(src_objects@, 0, time0 as int, time1 as int),
            sound_from(src_objects@, 0, time0 as int, time1 as int),
            abs1(time0 as int) <= TIME_LIM,
            abs1(time1 as int) <= TIME_LIM,
        ensures
            ent_wf(*res),
            bvh_sound(*res, time0 as int, time1 as int),
            bbox_s(*res, time0 as int, time1 as int) is Some,
            det_list_from(src_objects@, 0) ==> deterministic(*res),
            forall|x: Hittable|
                #[trigger] members_of(*res).contains(x) <==> in_list_members(src_objects@, x),
        decreases src_objects@.len(),
    {
        let ghost src = src_objects@;
        let axis = crate::rng::rand_below(3);
        let objects = sort_by_axis(src_objects, axis, time0, time1);
        proof {
            lemma_same_elements(src, objects@);
        }
        let n = objects.len();
        let (left, right): (Arc<Hittable>, Arc<Hittable>) = if n == 1 {
            proof {
                lemma_list_wf_index(objects@, 0, 0);
                lemma_boxed_index(objects@, 0, 0, time0 as int, time1 as int);
                lemma_sound_index(objects@, 0, 0, time0 as int, time1 as int);
                lemma_det_index_if(objects@, 0);
            }
            let l = crate::arc_clone(&objects[0]);
            let rr = crate::arc_clone(&objects[0]);
            proof {
                let ghost lch = *l;
                assert forall|x: Hittable|
                    members_of(lch).contains(x) || members_of(*rr).contains(
                        x,
                    ) <==> in_list_members(objects@, x) by {
                    if members_of(lch).contains(x) {
                        assert(members_of(*objects@[0]).contains(x));
                    }
                    if in_list_members(objects@, x) {
                        let j = choose|j: int|
                            0 <= j < objects@.len() && #[trigger] members_of(
                                *objects@[j],
                            ).contains(x);
                        assert(j == 0);
                    }
                }
            }
            (l, rr)
        } else if n == 2 {
            proof {
                lemma_list_wf_index(objects@, 0, 0);
                lemma_list_wf_index(objects@, 0, 1);
                lemma_boxed_index(objects@, 0, 0, time0 as int, time1 as int);
                lemma_boxed_index(objects@, 0, 1, time0 as int, time1 as int);
                lemma_sound_index(objects@, 0, 0, time0 as int, time1 as int);
                lemma_sound_index(objects@, 0, 1, time0 as int, time1 as int);
                lemma_det_index_if(objects@, 0);
                lemma_det_index_if(objects@, 1);
            }
            let l = crate::arc_clone(&objects[0]);
            let rr = crate::arc_clone(&objects[1]);
            proof {
                let ghost lch = *l;
                let ghost rch = *rr;
                assert forall|x: Hittable|
                    members_of(lch).contains(x) || members_of(rch).contains(
                        x,
                    ) <==> in_list_members(objects@, x) by {
                    if members_of(lch).contains(x) {
                        assert(members_of(*objects@[0]).contains(x));
                    }
                    if members_of(rch).contains(x) {
                        assert(members_of(*objects@[1]).contains(x));
                    }
                    if in_list_members(objects@, x) {
                        let j = choose|j: int|
                            0 <= j < objects@.len() && #[trigger] members_of(
                                *objects@[j],
                            ).contains(x);
                        assert(j == 0 || j == 1);
                    }
                }
            }
            (l, rr)
        } else {
            let mut l_vec = objects;
            let ghost whole = l_vec@;
            let r_vec = l_vec.split_off(l_vec.len() / 2);
            proof {
                assert(l_vec@ + r_vec@ =~= whole);
                lemma_split_parts(l_vec@, r_vec@, time0 as int, time1 as int);
            }
            let l = BVHNode::build(l_vec, time0, time1);
            let rr = BVHNode::build(r_vec, time0, time1);
            proof {
                let ghost lch = *l;
                let ghost rch = *rr;
                assert forall|x: Hittable|
                    members_of(lch).contains(x) || members_of(rch).contains(
                        x,
                    ) <==> in_list_members(objects@, x) by {
                    lemma_in_list_split(l_vec@, r_vec@, x);
                    assert(l_vec@ + r_vec@ == objects@);
                }
            }
            (l, rr)
        };
        let lb = match crate::arc_as_ref(&left).bounding_box(time0, time1) {
            Some(b) => b,
            None => {
                proof {
                    assert(false);
                }
                Aabb::new(Vec3 { x: 0, y: 0, z: 0 }, Vec3 { x: 0, y: 0, z: 0 })
            }
        };
        let rb = match crate::arc_as_ref(&right).bounding_box(time0, time1) {
            Some(b) => b,
            None => {
                proof {
                    assert(false);
                }
                Aabb::new(Vec3 { x: 0, y: 0, z: 0 }, Vec3 { x: 0, y: 0, z: 0 })
            }
        };
        let box_ = Aabb::surrounding_box(lb, rb);
        proof {
            crate::aabb::lemma_surrounding_contains(lb, rb);
            let ghost lch = *left;
            let ghost rch = *right;
            let ghost node = Hittable::BVHNode(BVHNode { left, right, box_ });
            assert forall|x: Hittable|
                #[trigger] members_of(node).contains(x) <==> in_list_members(src, x) by {
                lemma_concat_contains(members_of(lch), members_of(rch), x);
                lemma_in_list_transfer(src, objects@, x);
                lemma_in_list_transfer(objects@, src, x);
            }
        }
        Arc::new(Hittable::BVHNode(BVHNode { left, right, box_ }))
    }
}

/// The minimum coordinate of an entity's box along an axis, the sort key.
fn axis_key(obj: &Hittable, axis: u64, time0: i64, time1: i64) -> (k: i64)
    requires
        ent_wf(*obj),
        bbox_s(*obj, time0 as int, time1 as int) is Some,
        abs1(time0 as int) <= TIME_LIM,
        abs1(time1 as int) <= TIME_LIM,
{
    match obj.bounding_box(time0, time1) {
        Some(b) => {
            if axis == 0 {
                b.minimum.x
            } else if axis == 1 {
                b.minimum.y
            } else {
                b.minimum.z
            }
        }
        None => {
            proof {
                assert(false);
            }
            0
        }
    }
}

/// Selection sort by box minimum on the chosen axis.  Order never affects
/// correctness, only tree shape; what is promised is that the members are
/// the same, and well-formedness carries over.
fn sort_by_axis(objects: Vec<Arc<Hittable>>, axis: u64, time0: i64, time1: i64) -> (res: Vec<
    Arc<Hittable>,
>)
    requires
        list_wf_from(objects@, 0),
        boxed_from(objects@, 0, time0 as int, time1 as int),
        sound_from(objects@, 0, time0 as int, time1 as int),
        abs1(time0 as int) <= TIME_LIM,
        abs1(time1 as int) <= TIME_LIM,
    ensures
        res@.to_multiset() == objects@.to_multiset(),
        res@.len() == objects@.len(),
        list_wf_from(res@, 0),
        boxed_from(res@, 0, time0 as int, time1 as int),
        sound_from(res@, 0, time0 as int, time1 as int),
        det_list_from(objects@, 0) ==> det_list_from(res@, 0),
{
    let ghost orig = objects@;
    let mut rest = objects;
    let mut done: Vec<Arc<Hittable>> = Vec::new();
    proof {
        broadcast use group_to_multiset_ensures;

        assert(done@.to_multiset().add(rest@.to_multiset()) =~= orig.to_multiset());
    }
    while rest.len() > 0
        invariant
            done@.to_multiset().add(rest@.to_multiset()) =~= orig.to_multiset(),
            done@.len() + rest@.len() == orig.len(),
            list_wf_from(orig, 0),
            boxed_from(orig, 0, time0 as int, time1 as int),
            sound_from(orig, 0, time0 as int, time1 as int),
            forall|i: int|
                0 <= i < rest@.len() ==> orig.contains(#[trigger] rest@[i]),
            forall|i: int|
                0 <= i < done@.len() ==> orig.contains(#[trigger] done@[i]),
            abs1(time0 as int) <= TIME_LIM,
            abs1(time1 as int) <= TIME_LIM,
        decreases rest@.len(),
    {
        let mut min_i: usize = 0;
        proof {
            lemma_contained_ok(orig, rest@, 0, time0 as int, time1 as int);
        }
        let mut key_min = axis_key(crate::arc_as_ref(&rest[0]), axis, time0, time1);
        let mut j: usize = 1;
        while j < rest.len()
            invariant
                0 <= min_i < rest@.len(),
                1 <= j <= rest@.len(),
                list_wf_from(orig, 0),
                boxed_from(orig, 0, time0 as int, time1 as int),
                sound_from(orig, 0, time0 as int, time1 as int),
                forall|i: int|
                    0 <= i < rest@.len() ==> orig.contains(#[trigger] rest@[i]),
                abs1(time0 as int) <= TIME_LIM,
                abs1(time1 as int) <= TIME_LIM,
            decreases rest@.len() - j,
        {
            proof {
                lemma_contained_ok(orig, rest@, j as int, time0 as int, time1 as int);
            }
            let key_j = axis_key(crate::arc_as_ref(&rest[j]), axis, time0, time1);
            if key_j < key_min {
                key_min = key_j;
                min_i = j;
            }
            j = j + 1;
        }
        let picked = rest.remove(min_i);
        done.push(picked);
        proof {
            broadcast use group_to_multiset_ensures;

        }
    }
    proof {
        broadcast use group_to_multiset_ensures;

        lemma_props_from_contains(orig, done@, 0, time0 as int, time1 as int);
    }
    done
}

/// An element drawn from a well-formed sequence is itself well-formed and
/// boxed.
proof fn lemma_contained_ok(orig: Seq<Arc<Hittable>>, s: Seq<Arc<Hittable>>, i: int, t0: int, t1: int)
    requires
        list_wf_from(orig, 0),
        boxed_from(orig, 0, t0, t1),
        sound_from(orig, 0, t0, t1),
        0 <= i < s.len(),
        orig.contains(s[i]),
    ensures
        ent_wf(*s[i]),
        bbox_s(*s[i], t0, t1) is Some,
        bvh_sound(*s[i], t0, t1),
{
    let k = choose|k: int| 0 <= k < orig.len() && orig[k] == s[i];
    lemma_list_wf_index(orig, 0, k);
    lemma_boxed_index(orig, 0, k, t0, t1);
    lemma_sound_index(orig, 0, k, t0, t1);
}

/// Prefix soundness reaches every later index.
pub proof fn lemma_sound_index(s: Seq<Arc<Hittable>>, i: int, j: int, t0: int, t1: int)
    requires
        sound_from(s, i, t0, t1),
        i <= j,
        0 <= i,
    ensures
        j < s.len() ==> bvh_sound(*s[j], t0, t1),
        sound_from(s, j, t0, t1),
    decreases j - i,
{
    if i < j && i < s.len() {
        lemma_sound_index(s, i + 1, j, t0, t1);
    }
}

/// Prefix boxedness reaches every later index.
pub proof fn lemma_boxed_index(s: Seq<Arc<Hittable>>, i: int, j: int, t0: int, t1: int)
    requires
        boxed_from(s, i, t0, t1),
        i <= j,
        0 <= i,
    ensures
        j < s.len() ==> bbox_s(*s[j], t0, t1) is Some,
        boxed_from(s, j, t0, t1),
    decreases j - i,
{
    if i < j && i < s.len() {
        lemma_boxed_index(s, i + 1, j, t0, t1);
    }
}

proof fn lemma_det_index_if(s: Seq<Arc<Hittable>>, j: int)
    requires
        0 <= j,
    ensures
        det_list_from(s, 0) && j < s.len() ==> deterministic(*s[j]),
{
    if det_list_from(s, 0) && j < s.len() {
        lemma_det_index(s, 0, j);
    }
}

/// A sequence whose elements all come from a well-formed sequence is
/// itself well-formed, boxed, and deterministic where the source is.
proof fn lemma_props_from_contains(
    orig: Seq<Arc<Hittable>>,
    s: Seq<Arc<Hittable>>,
    i: int,
    t0: int,
    t1: int,
)
    requires
        list_wf_from(orig, 0),
        boxed_from(orig, 0, t0, t1),
        sound_from(orig, 0, t0, t1),
        forall|k: int| 0 <= k < s.len() ==> orig.contains(#[trigger] s[k]),
        0 <= i,
    ensures
        list_wf_from(s, i),
        boxed_from(s, i, t0, t1),
        sound_from(s, i, t0, t1),
        det_list_from(orig, 0) ==> det_list_from(s, i),
    decreases s.len() - i + 1,
{
    if i < s.len() {
        lemma_contained_ok(orig, s, i, t0, t1);
        if det_list_from(orig, 0) {
            let k = choose|k: int| 0 <= k < orig.len() && orig[k] == s[i];
            lemma_det_index(orig, 0, k);
        }
        lemma_props_from_contains(orig, s, i + 1, t0, t1);
    }
}

/// Multiset-equal sequences hold the same entity values.
proof fn lemma_same_elements(a: Seq<Arc<Hittable>>, b: Seq<Arc<Hittable>>)
    requires
        b.to_multiset() == a.to_multiset(),
    ensures
        forall|i: int| 0 <= i < b.len() ==> a.contains(#[trigger] b[i]),
        forall|i: int| 0 <= i < a.len() ==> b.contains(#[trigger] a[i]),
{
    broadcast use group_to_multiset_ensures;

    assert forall|i: int| 0 <= i < b.len() implies a.contains(#[trigger] b[i]) by {
        assert(b.contains(b[i]));
        assert(b.to_multiset().count(b[i]) > 0);
        assert(a.to_multiset().count(b[i]) > 0);
    }
    assert forall|i: int| 0 <= i < a.len() implies b.contains(#[trigger] a[i]) by {
        assert(a.contains(a[i]));
        assert(a.to_multiset().count(a[i]) > 0);
        assert(b.to_multiset().count(a[i]) > 0);
    }
}

/// Concatenation distributes over membership.
proof fn lemma_concat_contains(a: Seq<Hittable>, b: Seq<Hittable>, x: Hittable)
    ensures
        (a + b).contains(x) <==> a.contains(x) || b.contains(x),
{
    if (a + b).contains(x) {
        let i = choose|i: int| 0 <= i < (a + b).len() && (a + b)[i] == x;
        if i < a.len() {
            assert(a[i] == x);
        } else {
            assert(b[i - a.len()] == x);
        }
    }
    if a.contains(x) {
        let i = choose|i: int| 0 <= i < a.len() && a[i] == x;
        assert((a + b)[i] == x);
    }
    if b.contains(x) {
        let i = choose|i: int| 0 <= i < b.len() && b[i] == x;
        assert((a + b)[a.len() + i] == x);
    }
}

/// A sequence holding only elements of another carries no members the
/// other lacks.
proof fn lemma_in_list_transfer(s1: Seq<Arc<Hittable>>, s2: Seq<Arc<Hittable>>, x: Hittable)
    requires
        forall|k: int| 0 <= k < s2.len() ==> s1.contains(#[trigger] s2[k]),
    ensures
        in_list_members(s2, x) ==> in_list_members(s1, x),
{
    if in_list_members(s2, x) {
        let j = choose|j: int| 0 <= j < s2.len() && #[trigger] members_of(*s2[j]).contains(x);
        assert(s1.contains(s2[j]));
        let k = choose|k: int| 0 <= k < s1.len() && s1[k] == s2[j];
        assert(members_of(*s1[k]).contains(x));
    }
}

/// Splitting a sequence splits its membership.
proof fn lemma_in_list_split(l: Seq<Arc<Hittable>>, r: Seq<Arc<Hittable>>, x: Hittable)
    ensures
        in_list_members(l + r, x) <==> in_list_members(l, x) || in_list_members(r, x),
{
    if in_list_members(l + r, x) {
        let j = choose|j: int|
            0 <= j < (l + r).len() && #[trigger] members_of(*(l + r)[j]).contains(x);
        if j < l.len() {
            assert((l + r)[j] == l[j]);
            assert(members_of(*l[j]).contains(x));
        } else {
            assert((l + r)[j] == r[j - l.len()]);
            assert(members_of(*r[j - l.len()]).contains(x));
        }
    }
    if in_list_members(l, x) {
        let j = choose|j: int| 0 <= j < l.len() && #[trigger] members_of(*l[j]).contains(x);
        assert((l + r)[j] == l[j]);
        assert(members_of(*(l + r)[j]).contains(x));
    }
    if in_list_members(r, x) {
        let j = choose|j: int| 0 <= j < r.len() && #[trigger] members_of(*r[j]).contains(x);
        assert((l + r)[l.len() + j] == r[j]);
        assert(members_of(*(l + r)[l.len() + j]).contains(x));
    }
}

/// The two halves of a split keep well-formedness and boxedness.
proof fn lemma_split_parts(l: Seq<Arc<Hittable>>, r: Seq<Arc<Hittable>>, t0: int, t1: int)
    requires
        list_wf_from(l + r, 0),
        boxed_from(l + r, 0, t0, t1),
        sound_from(l + r, 0, t0, t1),
    ensures
        list_wf_from(l, 0),
        boxed_from(l, 0, t0, t1),
        sound_from(l, 0, t0, t1),
        list_wf_from(r, 0),
        boxed_from(r, 0, t0, t1),
        sound_from(r, 0, t0, t1),
        det_list_from(l + r, 0) ==> det_list_from(l, 0) && det_list_from(r, 0),
{
    let w = l + r;
    assert forall|i: int| 0 <= i < l.len() implies w.contains(#[trigger] l[i]) by {
        assert(w[i] == l[i]);
    }
    assert forall|i: int| 0 <= i < r.len() implies w.contains(#[trigger] r[i]) by {
        assert(w[l.len() + i] == r[i]);
    }
    lemma_props_from_contains(w, l, 0, t0, t1);
    lemma_props_from_contains(w, r, 0, t0, t1);
}

} // verus!
