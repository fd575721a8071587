//! A participating medium of constant density inside a convex boundary:
//! a ray entering the boundary scatters after an exponentially sampled
//! free-flight distance, or passes through.

use vstd::prelude::*;
use std::sync::Arc;
use crate::fx::{abs1, fmul, tdiv, tdiv128, FX_INF, FX_ONE};
use crate::hittable::{ent_wf, rec_wf, HitRecord, Hittable};
use crate::material::{mat_wf, Material};
use crate::ray::{ray_wf, Ray};
use crate::vec3::{bounded_s, vlensq_s, Vec3, DIR_LIM};

verus! {

/// The deterministic part of a medium query, before any random draw: the
/// entry and exit against the boundary, clamped to the query interval and
/// to nonnegative parameters — the span a scatter event would land in —
/// or nothing where the boundary is missed or the clamped span is empty.
pub open spec fn medium_span_s(c: ConstantMediun, r: Ray, t_min: int, t_max: int) -> Option<
    (int, int),
> {
    match crate::hittable::hit_s(*c.boundary, r, -FX_INF as int, FX_INF as int) {
        None => None,
        Some(h1) => if h1.t > FX_INF - crate::aarect::PAD {
            None
        } else {
            match crate::hittable::hit_s(
                *c.boundary,
                r,
                h1.t + crate::aarect::PAD,
                FX_INF as int,
            ) {
                None => None,
                Some(h2) => {
                    let lo0 = if h1.t < t_min {
                        t_min
                    } else {
                        h1.t
                    };
                    let hi = if h2.t > t_max {
                        t_max
                    } else {
                        h2.t
                    };
                    if lo0 >= hi {
                        None
                    } else {
                        let lo = if lo0 < 0 {
                            0
                        } else {
                            lo0
                        };
                        if lo >= hi {
                            None
                        } else {
                            Some((lo, hi))
                        }
                    }
                }
            }
        },
    }
}

pub struct ConstantMediun {
    pub boundary: Arc<Hittable>,
    pub phase_function: Arc<Material>,
    /// The reciprocal of the density (the mean free-flight distance), a
    /// positive fixed-point scalar.
    pub inv_density: i64,
}

impl ConstantMediun {
    /// A medium of density `d` with an isotropic phase function of color
    /// `c`.  The stored scalar is `1 / d`.
    pub fn new_col(b: Arc<Hittable>, d: i64, c: crate::vec3::Color) -> (r: Self)
        requires
            1 <= d,
        ensures
            r.boundary == b,
            r.inv_density == crate::fx::fdiv(FX_ONE as int, d as int),
            1 <= d <= FX_ONE ==> 65536 <= r.inv_density <= 4294967296,
            *r.phase_function matches Material::Iostropic(i) && *i.albedo
                == crate::texture::Texture::Solid(crate::texture::SolidColor { color_value: c }),
    {
        let phase = Arc::new(Material::Iostropic(crate::material::Iostropic::new_col(c)));
        proof {
            crate::fx::lemma_tdiv_bound(65536int * 65536, d as int);
            if d <= 65536 {
                assert(4294967296int / (d as int) >= 65536 && 4294967296int / (d as int)
                    <= 4294967296) by (nonlinear_arith)
                    requires
                        1 <= d <= 65536,
                ;
            }
        }
        let nid = crate::fx::fx_div(FX_ONE, d);
        Self { boundary: b, phase_function: phase, inv_density: nid }
    }

    /// Query the medium: find the boundary's entry and exit, clamp them to
    /// the interval, sample a free-flight distance, and scatter there or
    /// report a miss.  The sampled distance is random; for a deterministic
    /// boundary the contract still pins the deterministic part: an empty
    /// span is a certain miss, any hit lands inside the span, and a span
    /// so long that even the largest possible flight distance fits is a
    /// certain scatter.
    pub fn hit(&self, r: &Ray, t_min: i64, t_max: i64) -> (res: Option<HitRecord>)
        requires
            ent_wf(Hittable::ConstantMediun(*self)),
            ray_wf(*r),
            abs1(t_min as int) <= FX_INF,
            abs1(t_max as int) <= FX_INF,
        ensures
            res matches Some(rec) ==> (crate::hittable::lights_off(
                Hittable::ConstantMediun(*self),
            ) ==> crate::material::non_emissive(*rec.mat_ptr)),
            res matches Some(rec) ==> rec_wf(rec) && t_min <= rec.t <= t_max && rec.t >= 0
                && rec.mat_ptr == self.phase_function && rec.u == 0 && rec.v == 0 && rec.normal
                == (Vec3 { x: 0, y: 0, z: 0 }) && rec.p.s() == crate::ray::at_s(
                r.orig.s(),
                r.dir.s(),
                rec.t as int,
            ),
            crate::hittable::deterministic(*self.boundary) ==> match medium_span_s(
                *self,
                *r,
                t_min as int,
                t_max as int,
            ) {
                None => res is None,
                Some(span) => (res matches Some(rec) ==> span.0 <= rec.t <= span.1) && (fmul(
                    self.inv_density as int,
                    17 * FX_ONE as int,
                ) <= fmul(span.1 - span.0, crate::vec3::vlen_s(r.dir.s())) ==> res is Some),
            },
        decreases *self, 3int,
    {
        let boundary = crate::arc_as_ref(&self.boundary);
        let rec1 = match boundary.hit(r, -FX_INF, FX_INF) {
            None => {
                return None;
            }
            Some(h) => h,
        };
        // look for the exit strictly past the entry, nudged by the same
        // small epsilon the rectangles use for their degenerate axis
        if rec1.t > FX_INF - crate::aarect::PAD {
            return None;
        }
        let rec2 = match boundary.hit(r, rec1.t + crate::aarect::PAD, FX_INF) {
            None => {
                return None;
            }
            Some(h) => h,
        };
        let mut t1 = if rec1.t < t_min {
            t_min
        } else {
            rec1.t
        };
        let t2 = if rec2.t > t_max {
            t_max
        } else {
            rec2.t
        };
        if t1 >= t2 {
            return None;
        }
        if t1 < 0 {
            t1 = 0;
        }
        if t1 >= t2 {
            return None;
        }
        proof {
            crate::vec3::lemma_vlensq_bound(r.dir.s(), DIR_LIM as int);
        }
        let ray_length = r.dir.length();
        if ray_length == 0 {
            proof {
                let ghost bd = *self.boundary;
                if crate::hittable::deterministic(bd) {
                    lemma_span_needs_length(
                        self.inv_density as int,
                        (t2 - t1) as int,
                        crate::vec3::vlen_s(r.dir.s()),
                    );
                }
            }
            return None;
        }
        proof {
            crate::fx::lemma_sqrt_exists(crate::vec3::vlensq_s(r.dir.s()) * 65536);
            crate::fx::lemma_sqrt_le(crate::vec3::vlensq_s(r.dir.s()) * 65536, 17179869184);
            assert(3 * ((8589934592int) * 8589934592) / 65536 == 3377699720527872);
            assert(crate::vec3::vlensq_s(r.dir.s()) * 65536 < 17179869184int * 17179869184)
                by (nonlinear_arith)
                requires
                    0 <= crate::vec3::vlensq_s(r.dir.s()) <= 3377699720527872,
            ;
            crate::fx::lemma_prod_bound(
                (t2 - t1) as int,
                ray_length as int,
                2199023255552,
                17179869184,
            );
            crate::fx::lemma_tdiv_bound((t2 - t1) as int * ray_length as int, 65536);
            assert((2199023255552int) * 17179869184 == 37778931862957161709568);
            vstd::arithmetic::div_mod::lemma_div_is_ordered(
                abs1((t2 - t1) as int * ray_length as int),
                37778931862957161709568,
                65536,
            );
            assert(37778931862957161709568int / 65536 == 576460752303423488);
        }
        let distance_inside = tdiv128(crate::fx::prod64(t2 - t1, ray_length), FX_ONE as i128)
            as i64;
        let draw = crate::rng::rand_below(65536) as i64 + 1;
        let neg_ln = crate::fx::fx_neg_ln_unit(draw);
        proof {
            crate::fx::lemma_prod_bound(self.inv_density as int, neg_ln as int, 4294967296, 1114112);
            crate::fx::lemma_tdiv_bound(self.inv_density as int * neg_ln as int, 65536);
            assert((4294967296int) * 1114112 == 4785074604081152);
            vstd::arithmetic::div_mod::lemma_div_is_ordered(
                abs1(self.inv_density as int * neg_ln as int),
                4785074604081152,
                65536,
            );
            assert(4785074604081152int / 65536 == 73014444032);
        }
        let hit_distance = tdiv128(crate::fx::prod64(self.inv_density, neg_ln), FX_ONE as i128)
            as i64;
        proof {
            crate::fx::lemma_fmul_nonneg(self.inv_density as int, neg_ln as int);
        }
        if hit_distance > distance_inside {
            proof {
                let ghost bd = *self.boundary;
                if crate::hittable::deterministic(bd) {
                    lemma_flight_cap(
                        self.inv_density as int,
                        neg_ln as int,
                        (t2 - t1) as int,
                        ray_length as int,
                    );
                }
            }
            return None;
        }
        proof {
            lemma_flight_within(
                hit_distance as int,
                (t2 - t1) as int,
                ray_length as int,
            );
        }
        let step = tdiv128(
            crate::fx::prod64(hit_distance, FX_ONE),
            ray_length as i128,
        ) as i64;
        let t = t1 + step;
        let p = r.at(t);
        Some(
            HitRecord {
                p,
                normal: Vec3 { x: 0, y: 0, z: 0 },
                mat_ptr: crate::arc_clone(&self.phase_function),
                t,
                u: 0,
                v: 0,
                front_face: true,
            },
        )
    }
}

/// With a zero-length direction the in-medium distance is zero, below the
/// least possible flight distance, so certain scatter is never owed.
proof fn lemma_span_needs_length(inv: int, width: int, len: int)
    requires
        inv >= 1,
        len == 0,
    ensures
        !(fmul(inv, 17 * FX_ONE as int) <= fmul(width, len)),
{
    let s = FX_ONE as int;
    assert(width * 0 == 0) by (nonlinear_arith);
    assert(fmul(width, 0) == 0) by {
        crate::fx::lemma_fmul_unit(width);
    }
    assert(inv * (17 * s) >= 17 * s) by (nonlinear_arith)
        requires
            inv >= 1 && s == 65536,
    ;
    crate::fx::lemma_tdiv_mono(17 * s * 1, inv * (17 * s), s);
    assert(17 * s * 1 == 1114112) by (nonlinear_arith)
        requires
            s == 65536,
    ;
    assert(1114112int / 65536 == 17) by (nonlinear_arith);
    assert(crate::fx::tdiv(1114112, 65536) == 17);
}

/// The sampled flight distance never exceeds the mean free path scaled by
/// the largest logarithm the sampler can produce; a span at least that
/// long cannot be overshot.
proof fn lemma_flight_cap(inv: int, negln: int, width: int, len: int)
    requires
        inv >= 1,
        0 <= negln <= 17 * FX_ONE as int,
    ensures
        tdiv(inv * negln, FX_ONE as int) <= fmul(inv, 17 * FX_ONE as int),
{
    let s = FX_ONE as int;
    assert(inv * negln <= inv * (17 * s)) by (nonlinear_arith)
        requires
            inv >= 1 && 0 <= negln <= 17 * s,
    ;
    crate::fx::lemma_tdiv_mono(inv * negln, inv * (17 * s), s);
}

/// A sampled flight distance no longer than the in-medium segment maps
/// back to a parameter step no longer than the segment's parameter width.
proof fn lemma_flight_within(hd: int, width: int, len: int)
    requires
        0 <= hd,
        hd <= fmul(width, len),
        0 <= width,
        1 <= len,
    ensures
        0 <= tdiv(hd * (FX_ONE as int), len) <= width,
{
    let s = FX_ONE as int;
    crate::fx::lemma_tdiv_bound(hd * s, len);
    crate::fx::lemma_prod_mono(hd, fmul(width, len), s);
    crate::fx::lemma_tdiv_mono(hd * s, fmul(width, len) * s, len);
    // fmul(width, len) * s <= width * len, so dividing by len gives width
    crate::fx::lemma_tdiv_bound(width * len, s);
    assert(fmul(width, len) >= 0) by {
        crate::fx::lemma_fmul_nonneg(width, len);
    }
    assert(fmul(width, len) * s <= width * len) by (nonlinear_arith)
        requires
            fmul(width, len) == tdiv(width * len, s) && s == 65536 && width >= 0 && len >= 1
                && tdiv(width * len, s) == abs1(width * len) / s && abs1(width * len) == width
                * len,
    ;
    crate::fx::lemma_tdiv_mono(fmul(width, len) * s, width * len, len);
    assert(tdiv(width * len, len) == width) by (nonlinear_arith)
        requires
            len >= 1 && width >= 0,
    ;
    assert(hd * s >= 0) by (nonlinear_arith)
        requires
            hd >= 0 && s == 65536,
    ;
}

} // verus!
