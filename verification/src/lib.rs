//! A small path-tracing library: ray/scene intersection, a bounding-volume
//! hierarchy, material scattering and a recursive integrator, all over a
//! 16.16 fixed-point scalar type so that every geometric computation has an
//! exact mathematical meaning.

pub mod aabb;
pub mod aarect;
pub mod bbox;
pub mod bvh;
pub mod bvh_law;
pub mod constant_medium;
pub mod fx;
pub mod hittable;
pub mod hittable_list;
pub mod integrator;
pub mod laws;
pub mod material;
pub mod perlin;
pub mod ray;
pub mod rng;
pub mod sphere;
pub mod texture;
pub mod vec3;

use vstd::prelude::*;

verus! {

/// Relies on `std::sync::Arc::clone`: the clone is a handle to the same
/// immutable value (vstd specifies `Arc::new` but not its `Clone`).
#[verifier::external_body]
pub(crate) fn arc_clone<T>(a: &std::sync::Arc<T>) -> (r: std::sync::Arc<T>)
    ensures
        r == *a,
{
    std::sync::Arc::clone(a)
}

/// Relies on `std::sync::Arc::as_ref`: the reference is to the held value.
#[verifier::external_body]
pub(crate) fn arc_as_ref<T>(a: &std::sync::Arc<T>) -> (r: &T)
    ensures
        *r == **a,
{
    a.as_ref()
}

} // verus!
