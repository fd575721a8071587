//! The recursive path-tracing integrator: emitted light plus attenuated
//! recursive radiance, truncated at a fixed depth.

use vstd::prelude::*;
use crate::fx::{clip, fmul, FX_INF};
use crate::hittable::{deterministic, ent_wf, hit_s, lights_off, Hittable};
use crate::material::{att_of, emitted_s, Material};
use crate::ray::{ray_wf, Ray};
use crate::vec3::{bounded_s, Color, Vec3, V3, COORD_LIM};

verus! {

/// The self-shadowing epsilon: queries start just above zero (about 1e-3).
pub const T_EPS: i64 = 66;

/// One radiance accumulation step, componentwise
/// `emitted + attenuation * incoming`, clipped to the color bound.
pub open spec fn radiance_s(emitted: V3, att: V3, incoming: V3) -> V3 {
    V3 {
        x: clip(emitted.x + fmul(att.x, incoming.x), COORD_LIM as int),
        y: clip(emitted.y + fmul(att.y, incoming.y), COORD_LIM as int),
        z: clip(emitted.z + fmul(att.z, incoming.z), COORD_LIM as int),
    }
}

/// The radiance carried back along a ray: black at the depth floor, the
/// background on a miss, emitted light plus attenuated recursive radiance
/// on a scatter, emitted light alone on an absorption.
///
/// For a deterministic scene the recurrence is pinned: a miss returns the
/// background exactly; a hit on a light (which never scatters) returns its
/// emission exactly; any other hit returns either the emission alone (the
/// surface absorbed the sample) or one radiance step over the material's
/// own attenuation and some recursive radiance, the random part of the
/// recurrence named existentially.
///
/// A fully absorptive scene turns every ray black: with a black background
/// and no emissive material anywhere in the scene, the result is exactly
/// black, whatever the depth and wherever the ray goes.
#[verifier::rlimit(100)]
pub fn ray_color(r: Ray, background: Color, world: &Hittable, depth: i32) -> (c: Color)
    requires
        ray_wf(r),
        ent_wf(*world),
        bounded_s(background.s(), COORD_LIM as int),
    ensures
        bounded_s(c.s(), COORD_LIM as int),
        background == (Vec3 { x: 0, y: 0, z: 0 }) && lights_off(*world) ==> c == (Vec3 {
            x: 0,
            y: 0,
            z: 0,
        }),
        depth <= 0 ==> c == (Vec3 { x: 0, y: 0, z: 0 }),
        depth > 0 && deterministic(*world) ==> match hit_s(
            *world,
            r,
            T_EPS as int,
            FX_INF as int,
        ) {
            None => c == background,
            Some(rec) => if *rec.mat is DiffuseLight {
                c.s() == emitted_s(*rec.mat, rec.u, rec.v, rec.p)
            } else {
                c.s() == emitted_s(*rec.mat, rec.u, rec.v, rec.p) || (exists|rest: V3|
                    #[trigger] bounded_s(rest, COORD_LIM as int) && c.s() == radiance_s(
                        emitted_s(*rec.mat, rec.u, rec.v, rec.p),
                        att_of(*rec.mat, rec.u, rec.v, rec.p),
                        rest,
                    ))
            },
        },
    decreases depth,
{
    if depth <= 0 {
        return Vec3 { x: 0, y: 0, z: 0 };
    }
    match world.hit(&r, T_EPS, FX_INF) {
        None => {
            proof {
                if depth > 0 && deterministic(*world) {
                    assert(hit_s(*world, r, T_EPS as int, FX_INF as int) is None);
                }
            }
            background
        }
        Some(rec) => {
            let m = crate::arc_as_ref(&rec.mat_ptr);
            let emitted = m.emitted(rec.u, rec.v, &rec.p);
            match m.scatter(&r, &rec) {
                None => {
                    proof {
                        if depth > 0 && deterministic(*world) {
                            assert(hit_s(*world, r, T_EPS as int, FX_INF as int) == Some(rec.s()));
                            assert(emitted.s() == emitted_s(
                                *rec.mat_ptr,
                                rec.u as int,
                                rec.v as int,
                                rec.p.s(),
                            ));
                        }
                    }
                    emitted
                }
                Some((scattered, attenuation)) => {
                    let rest = ray_color(scattered, background, world, depth - 1);
                    let x = radiance_comp(emitted.x, attenuation.x, rest.x);
                    let y = radiance_comp(emitted.y, attenuation.y, rest.y);
                    let z = radiance_comp(emitted.z, attenuation.z, rest.z);
                    proof {
                        if background == (Vec3 { x: 0, y: 0, z: 0 }) && lights_off(*world) {
                            crate::fx::lemma_fmul_unit(attenuation.x as int);
                            crate::fx::lemma_fmul_unit(attenuation.y as int);
                            crate::fx::lemma_fmul_unit(attenuation.z as int);
                        }
                        let ghost mm = *rec.mat_ptr;
                        if depth > 0 && deterministic(*world) {
                            assert(hit_s(*world, r, T_EPS as int, FX_INF as int) == Some(rec.s()));
                            let ghost e = emitted_s(mm, rec.u as int, rec.v as int, rec.p.s());
                            assert(emitted.s() == e);
                            match mm {
                                Material::Lambertian(_) => {
                                    assert(attenuation.s() == att_of(
                                        mm,
                                        rec.u as int,
                                        rec.v as int,
                                        rec.p.s(),
                                    ));
                                }
                                Material::Metal(mt) => {
                                    assert(attenuation == mt.albedo);
                                    assert(attenuation.s() == att_of(
                                        mm,
                                        rec.u as int,
                                        rec.v as int,
                                        rec.p.s(),
                                    ));
                                }
                                Material::Dielectric(_) => {
                                    assert(attenuation == (Vec3 {
                                        x: crate::fx::FX_ONE,
                                        y: crate::fx::FX_ONE,
                                        z: crate::fx::FX_ONE,
                                    }));
                                    assert(attenuation.s() == att_of(
                                        mm,
                                        rec.u as int,
                                        rec.v as int,
                                        rec.p.s(),
                                    ));
                                }
                                Material::DiffuseLight(_) => {
                                    assert(false);
                                }
                                Material::Iostropic(_) => {
                                    assert(attenuation.s() == att_of(
                                        mm,
                                        rec.u as int,
                                        rec.v as int,
                                        rec.p.s(),
                                    ));
                                }
                            }
                            assert(bounded_s(rest.s(), COORD_LIM as int));
                            assert((Vec3 { x, y, z }).s() == radiance_s(
                                e,
                                att_of(mm, rec.u as int, rec.v as int, rec.p.s()),
                                rest.s(),
                            ));
                        }
                    }
                    Vec3 { x, y, z }
                }
            }
        }
    }
}

/// One executable radiance component.
fn radiance_comp(e: i64, a: i64, inc: i64) -> (r: i64)
    requires
        crate::fx::abs1(e as int) <= COORD_LIM,
        crate::fx::abs1(a as int) <= COORD_LIM,
        crate::fx::abs1(inc as int) <= COORD_LIM,
    ensures
        r == clip(e as int + fmul(a as int, inc as int), COORD_LIM as int),
        crate::fx::abs1(r as int) <= COORD_LIM,
{
    proof {
        crate::fx::lemma_prod_bound(a as int, inc as int, COORD_LIM as int, COORD_LIM as int);
        crate::fx::lemma_tdiv_bound(a as int * inc as int, 65536);
    }
    let step = crate::fx::tdiv128(crate::fx::prod64(a, inc), 65536);
    crate::fx::clip128(e as i128 + step, COORD_LIM)
}

} // verus!
