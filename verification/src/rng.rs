//! Random sampling.  The single trusted item wraps rand's uniform integer
//! draw; every geometric sampler built on it is verified, and each states
//! what holds of every possible outcome.

use vstd::prelude::*;
use rand::Rng;
use crate::fx::FX_ONE;
use crate::vec3::{bounded_s, vlensq_s, vunit_s, Vec3, V3};

verus! {

/// Relies on rand's `thread_rng` and `Rng::gen_range`: a draw uniform over
/// `0..n`.  Nothing more than the range is promised; two calls may differ.
#[verifier::external_body]
pub(crate) fn rand_below(n: u64) -> (r: u64)
    requires
        n > 0,
    ensures
        r < n,
{
    rand::thread_rng().gen_range(0..n)
}

/// A scalar drawn from the unit interval `[0, 1)`.
pub fn random_unit_scalar() -> (r: i64)
    ensures
        0 <= r < FX_ONE,
{
    rand_below(65536) as i64
}

/// A scalar drawn from `[-FX_ONE, FX_ONE]`.
fn random_sym() -> (r: i64)
    ensures
        -FX_ONE <= r <= FX_ONE,
{
    let v = rand_below(131073) as i64;
    v - FX_ONE
}

/// A point inside the unit sphere (strictly, squared length below 1).
/// Rejection sampling, with a fixed interior fallback after a bounded
/// number of attempts.
pub fn random_in_unit_sphere() -> (r: Vec3)
    ensures
        bounded_s(r.s(), FX_ONE as int),
        0 <= vlensq_s(r.s()) < FX_ONE,
{
    let mut tries: u64 = 0;
    while tries < 64
        invariant
            tries <= 64,
        decreases 64 - tries,
    {
        let p = Vec3 { x: random_sym(), y: random_sym(), z: random_sym() };
        proof {
            crate::vec3::lemma_vlensq_bound(p.s(), FX_ONE as int);
        }
        let sq = p.squared_length();
        if sq < FX_ONE {
            return p;
        }
        tries = tries + 1;
    }
    let f = Vec3 { x: 16384, y: 0, z: 0 };
    proof {
        lemma_fallback_values();
    }
    f
}

/// A vector of (fixed-point) unit length: a rejected-shell sample,
/// normalized.  Every outcome has components within `2 * FX_ONE` and is the
/// exact normalization of some nonzero sample.
pub fn random_unit_vector() -> (r: Vec3)
    ensures
        bounded_s(r.s(), 2 * FX_ONE as int),
        exists|p: Vec3|
            #[trigger] vlensq_s(p.s()) >= 16384 && bounded_s(p.s(), FX_ONE as int) && r.s()
                == vunit_s(p.s()),
{
    let mut tries: u64 = 0;
    while tries < 64
        invariant
            tries <= 64,
        decreases 64 - tries,
    {
        let p = Vec3 { x: random_sym(), y: random_sym(), z: random_sym() };
        proof {
            crate::vec3::lemma_vlensq_bound(p.s(), FX_ONE as int);
        }
        let sq = p.squared_length();
        if sq >= 16384 && sq < FX_ONE {
            let u = p.unit_vector();
            proof {
                assert(vlensq_s(p.s()) >= 16384 && bounded_s(p.s(), FX_ONE as int) && u.s()
                    == vunit_s(p.s()));
            }
            return u;
        }
        tries = tries + 1;
    }
    let q = Vec3 { x: 65536, y: 0, z: 0 };
    proof {
        lemma_fallback_values();
    }
    let u = q.unit_vector();
    proof {
        assert(vlensq_s(q.s()) >= 16384 && bounded_s(q.s(), FX_ONE as int) && u.s() == vunit_s(
            q.s(),
        ));
    }
    u
}

/// The squared lengths of the two fixed fallback samples.
proof fn lemma_fallback_values()
    ensures
        vlensq_s(V3 { x: 16384, y: 0, z: 0 }) == 4096,
        vlensq_s(V3 { x: 65536, y: 0, z: 0 }) == 65536,
{
    assert(16384int * 16384 == 268435456) by (nonlinear_arith);
    assert(65536int * 65536 == 4294967296) by (nonlinear_arith);
    assert(268435456int / 65536int == 4096) by (nonlinear_arith);
    assert(4294967296int / 65536int == 65536) by (nonlinear_arith);
}

} // verus!
