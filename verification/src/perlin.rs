//! Perlin noise: shuffled lattice permutations, random gradient vectors,
//! and smoothed trilinear interpolation, all in fixed point.

use vstd::prelude::*;
use crate::fx::{abs1, fmul, tdiv128, FX_ONE};
use crate::vec3::{bounded_s, Point3, Vec3, V3};

verus! {

pub struct Perlin {
    pub ranvec: Vec<Vec3>,
    pub perm_x: Vec<i32>,
    pub perm_y: Vec<i32>,
    pub perm_z: Vec<i32>,
}

pub open spec fn perm_wf(s: Seq<i32>) -> bool {
    s.len() == 256 && forall|i: int| 0 <= i < 256 ==> 0 <= #[trigger] s[i] < 256
}

pub open spec fn perlin_wf(p: Perlin) -> bool {
    &&& p.ranvec@.len() == 256
    &&& forall|i: int|
        0 <= i < 256 ==> bounded_s(#[trigger] p.ranvec@[i].s(), 2 * FX_ONE as int)
    &&& perm_wf(p.perm_x@)
    &&& perm_wf(p.perm_y@)
    &&& perm_wf(p.perm_z@)
}

/// The gradient vector at a lattice point: the three permutations, folded
/// by exclusive or, index the gradient table.
pub open spec fn grad_at(p: Perlin, i: int, j: int, k: int) -> V3 {
    let xi = p.perm_x@[i % 256];
    let yj = p.perm_y@[j % 256];
    let zk = p.perm_z@[k % 256];
    p.ranvec@[(xi ^ yj ^ zk) as int].s()
}

/// The smoothing weight `t^2 (3 - 2t)`.
pub open spec fn smooth_s(t: int) -> int {
    fmul(fmul(t, t), 3 * FX_ONE - 2 * t)
}

pub open spec fn pick_s(sel: int, on: int, off: int) -> int {
    if sel == 1 {
        on
    } else {
        off
    }
}

/// One corner's contribution to the trilinear sum.
pub open spec fn corner_s(p: Perlin, i: int, j: int, k: int, a: int, b: int, c: int, u: int, v: int, w: int) -> int {
    let uu = smooth_s(u);
    let vv = smooth_s(v);
    let ww = smooth_s(w);
    let g = grad_at(p, i + a, j + b, k + c);
    let d = V3 { x: u - a * FX_ONE, y: v - b * FX_ONE, z: w - c * FX_ONE };
    fmul(
        fmul(
            fmul(pick_s(a, uu, FX_ONE - uu), pick_s(b, vv, FX_ONE - vv)),
            pick_s(c, ww, FX_ONE - ww),
        ),
        crate::vec3::vdot_s(g, d),
    )
}

/// The noise value at a point: the smoothed trilinear interpolation of the
/// eight surrounding lattice gradients.
pub open spec fn noise_s(p: Perlin, pt: V3) -> int {
    let i = pt.x / (FX_ONE as int);
    let j = pt.y / (FX_ONE as int);
    let k = pt.z / (FX_ONE as int);
    let u = pt.x - (FX_ONE as int) * i;
    let v = pt.y - (FX_ONE as int) * j;
    let w = pt.z - (FX_ONE as int) * k;
    corner_s(p, i, j, k, 0, 0, 0, u, v, w) + corner_s(p, i, j, k, 0, 0, 1, u, v, w) + corner_s(
        p,
        i,
        j,
        k,
        0,
        1,
        0,
        u,
        v,
        w,
    ) + corner_s(p, i, j, k, 0, 1, 1, u, v, w) + corner_s(p, i, j, k, 1, 0, 0, u, v, w)
        + corner_s(p, i, j, k, 1, 0, 1, u, v, w) + corner_s(p, i, j, k, 1, 1, 0, u, v, w)
        + corner_s(p, i, j, k, 1, 1, 1, u, v, w)
}

/// Successive powers of two, for the octave headroom bound.
pub open spec fn pow2i(d: int) -> int
    decreases d,
{
    if d <= 0 {
        1
    } else {
        2 * pow2i(d - 1)
    }
}

/// Turbulence: recursively summed noise at doubling frequency and halving
/// weight.
pub open spec fn turb_s(p: Perlin, pt: V3, depth: int, weight: int) -> int
    decreases depth,
{
    if depth <= 0 {
        0
    } else {
        fmul(weight, noise_s(p, pt)) + turb_s(
            p,
            V3 { x: 2 * pt.x, y: 2 * pt.y, z: 2 * pt.z },
            depth - 1,
            weight / 2,
        )
    }
}

/// Exclusive or keeps byte range.
proof fn lemma_xor_byte(a: i32, b: i32)
    by (bit_vector)
    requires
        0 <= a < 256,
        0 <= b < 256,
    ensures
        0 <= (a ^ b) < 256,
{
}

/// Floor and fractional part in fixed point.
fn floor_frac(x: i64) -> (r: (i64, i64))
    requires
        abs1(x as int) <= 0x100000000000000,
    ensures
        r.0 == x as int / (FX_ONE as int),
        r.1 == x as int - (FX_ONE as int) * (x as int / (FX_ONE as int)),
        0 <= r.1 < FX_ONE,
        abs1(r.0 as int) <= 0x100000000000000,
{
    let q = crate::fx::ediv(x, FX_ONE);
    proof {
        vstd::arithmetic::div_mod::lemma_fundamental_div_mod(x as int, FX_ONE as int);
        vstd::arithmetic::div_mod::lemma_mod_bound(x as int, FX_ONE as int);
        crate::fx::lemma_prod_bound(q as int, 65536, abs1(x as int), 65536);
        assert(crate::fx::tdiv(q as int * 65536, 1) == q as int * 65536) by (nonlinear_arith);
        assert(q as int * 65536 == 65536 * (x as int / 65536)) by (nonlinear_arith)
            requires
                q == x as int / 65536,
        ;
    }
    let f = x - (tdiv128(crate::fx::prod64(q, FX_ONE), 1) as i64);
    (q, f)
}

impl Perlin {
    /// A fresh noise field: random unit gradients and three fresh lattice
    /// permutations.
    pub fn new() -> (p: Perlin)
        ensures
            perlin_wf(p),
    {
        let mut ranvec: Vec<Vec3> = Vec::new();
        let mut i: usize = 0;
        while i < 256
            invariant
                i <= 256,
                ranvec@.len() == i,
                forall|k: int|
                    0 <= k < i as int ==> bounded_s(#[trigger] ranvec@[k].s(), 2 * FX_ONE as int),
            decreases 256 - i,
        {
            ranvec.push(crate::rng::random_unit_vector());
            i = i + 1;
        }
        Perlin {
            ranvec,
            perm_x: Perlin::perlin_generate_perm(),
            perm_y: Perlin::perlin_generate_perm(),
            perm_z: Perlin::perlin_generate_perm(),
        }
    }

    /// A shuffled permutation of the byte values: every value below 256
    /// occurs (so, by counting, exactly once).
    pub fn perlin_generate_perm() -> (p: Vec<i32>)
        ensures
            perm_wf(p@),
            forall|v: int| 0 <= v < 256 ==> p@.contains(#[trigger] (v as i32)),
    {
        let mut p: Vec<i32> = Vec::new();
        let mut i: i32 = 0;
        while i < 256
            invariant
                0 <= i <= 256,
                p@.len() == i as int,
                forall|k: int| 0 <= k < i as int ==> #[trigger] p@[k] == k as i32,
            decreases 256 - i,
        {
            p.push(i);
            i = i + 1;
        }
        assert forall|v: int| 0 <= v < 256 implies p@.contains(#[trigger] (v as i32)) by {
            assert(p@[v] == v as i32);
        }
        Perlin::permute(&mut p, 256);
        p
    }

    /// A backward pass of random transpositions.
    fn permute(p: &mut Vec<i32>, n: i32)
        requires
            n == 256,
            old(p)@.len() == 256,
            forall|k: int| 0 <= k < 256 ==> 0 <= #[trigger] old(p)@[k] < 256,
            forall|v: int| 0 <= v < 256 ==> old(p)@.contains(#[trigger] (v as i32)),
        ensures
            perm_wf(final(p)@),
            forall|v: int| 0 <= v < 256 ==> final(p)@.contains(#[trigger] (v as i32)),
    {
        let mut i: usize = 255;
        while i >= 1
            invariant
                i <= 255,
                p@.len() == 256,
                forall|k: int| 0 <= k < 256 ==> 0 <= #[trigger] p@[k] < 256,
                forall|v: int| 0 <= v < 256 ==> p@.contains(#[trigger] (v as i32)),
            decreases i,
        {
            let target = crate::rng::rand_below(i as u64) as usize;
            let a = p[i];
            let b = p[target];
            let ghost before = p@;
            p[i] = b;
            p[target] = a;
            proof {
                lemma_swap_keeps_values(before, p@, i as int, target as int);
            }
            i = i - 1;
        }
    }

    /// The gradient for a lattice point, by table lookup.
    fn gradient(&self, i: i64, j: i64, k: i64) -> (g: Vec3)
        requires
            perlin_wf(*self),
            abs1(i as int) <= 0x200000000000000,
            abs1(j as int) <= 0x200000000000000,
            abs1(k as int) <= 0x200000000000000,
        ensures
            g.s() == grad_at(*self, i as int, j as int, k as int),
            bounded_s(g.s(), 2 * FX_ONE as int),
    {
        let im = emod256(i);
        let jm = emod256(j);
        let km = emod256(k);
        let xi = self.perm_x[im];
        let yj = self.perm_y[jm];
        let zk = self.perm_z[km];
        proof {
            lemma_xor_byte(xi, yj);
            lemma_xor_byte(xi ^ yj, zk);
        }
        let idx = (xi ^ yj ^ zk) as usize;
        self.ranvec[idx]
    }

    /// The smoothed trilinear interpolation of the eight neighboring
    /// gradients.
    #[verifier::rlimit(100)]
    pub fn noise(&self, p: &Point3) -> (r: i64)
        requires
            perlin_wf(*self),
            bounded_s(p.s(), 0x100000000000000),
        ensures
            r == noise_s(*self, p.s()),
            abs1(r as int) <= 1296 * FX_ONE as int,
    {
        let (i, u) = floor_frac(p.x);
        let (j, v) = floor_frac(p.y);
        let (k, w) = floor_frac(p.z);
        let mut acc: i64 = 0;
        proof {
            lemma_corner_bound(*self, i as int, j as int, k as int, 0, 0, 0, u as int, v as int, w as int);
        }
        let c = self.corner(i, j, k, 0, 0, 0, u, v, w);
        acc = acc + c;
        proof {
            lemma_corner_bound(*self, i as int, j as int, k as int, 0, 0, 1, u as int, v as int, w as int);
        }
        let c = self.corner(i, j, k, 0, 0, 1, u, v, w);
        acc = acc + c;
        proof {
            lemma_corner_bound(*self, i as int, j as int, k as int, 0, 1, 0, u as int, v as int, w as int);
        }
        let c = self.corner(i, j, k, 0, 1, 0, u, v, w);
        acc = acc + c;
        proof {
            lemma_corner_bound(*self, i as int, j as int, k as int, 0, 1, 1, u as int, v as int, w as int);
        }
        let c = self.corner(i, j, k, 0, 1, 1, u, v, w);
        acc = acc + c;
        proof {
            lemma_corner_bound(*self, i as int, j as int, k as int, 1, 0, 0, u as int, v as int, w as int);
        }
        let c = self.corner(i, j, k, 1, 0, 0, u, v, w);
        acc = acc + c;
        proof {
            lemma_corner_bound(*self, i as int, j as int, k as int, 1, 0, 1, u as int, v as int, w as int);
        }
        let c = self.corner(i, j, k, 1, 0, 1, u, v, w);
        acc = acc + c;
        proof {
            lemma_corner_bound(*self, i as int, j as int, k as int, 1, 1, 0, u as int, v as int, w as int);
        }
        let c = self.corner(i, j, k, 1, 1, 0, u, v, w);
        acc = acc + c;
        proof {
            lemma_corner_bound(*self, i as int, j as int, k as int, 1, 1, 1, u as int, v as int, w as int);
        }
        let c = self.corner(i, j, k, 1, 1, 1, u, v, w);
        acc = acc + c;
        acc
    }

    /// One corner's executable contribution.
    fn corner(&self, i: i64, j: i64, k: i64, a: i64, b: i64, c: i64, u: i64, v: i64, w: i64) -> (r:
        i64)
        requires
            perlin_wf(*self),
            abs1(i as int) <= 0x100000000000000,
            abs1(j as int) <= 0x100000000000000,
            abs1(k as int) <= 0x100000000000000,
            a == 0 || a == 1,
            b == 0 || b == 1,
            c == 0 || c == 1,
            0 <= u < FX_ONE,
            0 <= v < FX_ONE,
            0 <= w < FX_ONE,
        ensures
            r == corner_s(
                *self,
                i as int,
                j as int,
                k as int,
                a as int,
                b as int,
                c as int,
                u as int,
                v as int,
                w as int,
            ),
            abs1(r as int) <= 162 * FX_ONE as int,
    {
        proof {
            lemma_smooth_range(u as int);
            lemma_smooth_range(v as int);
            lemma_smooth_range(w as int);
        }
        let uu = smooth(u);
        let vv = smooth(v);
        let ww = smooth(w);
        let wu = if a == 1 {
            uu
        } else {
            FX_ONE - uu
        };
        let wv = if b == 1 {
            vv
        } else {
            FX_ONE - vv
        };
        let wc = if c == 1 {
            ww
        } else {
            FX_ONE - ww
        };
        let g = self.gradient(i + a, j + b, k + c);
        let d = Vec3 { x: u - a * FX_ONE, y: v - b * FX_ONE, z: w - c * FX_ONE };
        proof {
            crate::vec3::lemma_vdot_bound(g.s(), d.s(), 2 * FX_ONE as int, FX_ONE as int);
            assert(3 * ((2 * 65536int) * 65536) / 65536 == 393216);
            crate::fx::lemma_fmul_bound(wu as int, wv as int, 196608, 196608);
            assert(196608int * 196608 / 65536 == 589824);
            crate::fx::lemma_fmul_bound(fmul(wu as int, wv as int), wc as int, 589824, 196608);
            assert(589824int * 196608 / 65536 == 1769472);
            crate::fx::lemma_fmul_bound(
                fmul(fmul(wu as int, wv as int), wc as int),
                crate::vec3::vdot_s(g.s(), d.s()),
                1769472,
                393216,
            );
            assert(1769472int * 393216 / 65536 == 10616832);
        }
        let dd = g.dot(d);
        let m1 = crate::fx::fx_mul(wu, wv);
        let m2 = crate::fx::fx_mul(m1, wc);
        crate::fx::fx_mul(m2, dd)
    }

    /// Turbulence over a fixed number of octaves.
    pub fn turb(&self, p: &Point3, depth: i32) -> (r: i64)
        requires
            perlin_wf(*self),
            bounded_s(p.s(), 0x2000000000000),
            0 <= depth <= 7,
        ensures
            r == turb_s(*self, p.s(), depth as int, FX_ONE as int),
            abs1(r as int) <= 20000 * FX_ONE as int,
    {
        proof {
            lemma_pow2i_small(depth as int);
            assert(abs1(p.x as int) * pow2i(depth as int) <= 0x2000000000000int * 128)
                by (nonlinear_arith)
                requires
                    abs1(p.x as int) <= 0x2000000000000 && 1 <= pow2i(depth as int) <= 128,
            ;
            assert(abs1(p.y as int) * pow2i(depth as int) <= 0x2000000000000int * 128)
                by (nonlinear_arith)
                requires
                    abs1(p.y as int) <= 0x2000000000000 && 1 <= pow2i(depth as int) <= 128,
            ;
            assert(abs1(p.z as int) * pow2i(depth as int) <= 0x2000000000000int * 128)
                by (nonlinear_arith)
                requires
                    abs1(p.z as int) <= 0x2000000000000 && 1 <= pow2i(depth as int) <= 128,
            ;
            assert(0x2000000000000int * 128 == 0x100000000000000);
        }
        let res = self.turb_from(p.x, p.y, p.z, depth, FX_ONE);
        res
    }

    /// The recursive turbulence worker.
    fn turb_from(&self, x: i64, y: i64, z: i64, depth: i32, weight: i64) -> (r: i64)
        requires
            perlin_wf(*self),
            abs1(x as int) * pow2i(depth as int) <= 0x100000000000000,
            abs1(y as int) * pow2i(depth as int) <= 0x100000000000000,
            abs1(z as int) * pow2i(depth as int) <= 0x100000000000000,
            0 <= depth <= 7,
            0 <= weight <= FX_ONE,
        ensures
            r == turb_s(
                *self,
                V3 { x: x as int, y: y as int, z: z as int },
                depth as int,
                weight as int,
            ),
            abs1(r as int) <= depth as int * 1296 * FX_ONE as int,
        decreases depth,
    {
        if depth <= 0 {
            return 0;
        }
        proof {
            lemma_pow2i_pos(depth as int);
            assert(abs1(x as int) * 1 == abs1(x as int)) by (nonlinear_arith);
            lemma_headroom(x as int, depth as int);
            lemma_headroom(y as int, depth as int);
            lemma_headroom(z as int, depth as int);
        }
        let pt = Vec3 { x, y, z };
        let n = self.noise(&pt);
        proof {
            crate::fx::lemma_fmul_bound(weight as int, n as int, 65536, 1296 * 65536int);
            assert(65536int * (1296 * 65536) / 65536 == 84934656);
        }
        let here = crate::fx::fx_mul(weight, n);
        let rest = self.turb_from(2 * x, 2 * y, 2 * z, depth - 1, weight / 2);
        here + rest
    }
}

/// Powers of two up to the octave cap are positive and at most 128.
proof fn lemma_pow2i_pos(d: int)
    ensures
        pow2i(d) >= 1,
    decreases d,
{
    if d > 0 {
        lemma_pow2i_pos(d - 1);
    }
}

proof fn lemma_pow2i_small(d: int)
    requires
        d <= 7,
    ensures
        1 <= pow2i(d) <= 128,
    decreases d,
{
    lemma_pow2i_pos(d);
    lemma_pow2i_mono(d, 7);
    assert(pow2i(0) == 1);
    assert(pow2i(1) == 2);
    assert(pow2i(2) == 4);
    assert(pow2i(3) == 8);
    assert(pow2i(4) == 16);
    assert(pow2i(5) == 32);
    assert(pow2i(6) == 64);
    assert(pow2i(7) == 128);
}

proof fn lemma_pow2i_mono(d: int, n: int)
    requires
        d <= n,
    ensures
        pow2i(d) <= pow2i(n),
    decreases n - d,
{
    if d < n {
        lemma_pow2i_mono(d, n - 1);
        lemma_pow2i_pos(n - 1);
    }
}

/// Doubling the point and lowering the octave preserves the headroom.
proof fn lemma_headroom(x: int, depth: int)
    requires
        depth >= 1,
        abs1(x) * pow2i(depth) <= 0x100000000000000,
    ensures
        abs1(2 * x) * pow2i(depth - 1) <= 0x100000000000000,
        abs1(x) <= 0x100000000000000,
{
    lemma_pow2i_pos(depth - 1);
    assert(abs1(2 * x) == 2 * abs1(x));
    assert(2 * abs1(x) * pow2i(depth - 1) == abs1(x) * (2 * pow2i(depth - 1))) by (nonlinear_arith);
    assert(abs1(x) * 1 <= abs1(x) * pow2i(depth)) by (nonlinear_arith)
        requires
            pow2i(depth) >= 1 && abs1(x) >= 0,
    ;
    assert(pow2i(depth) == 2 * pow2i(depth - 1));
}

/// The executable smoothing weight.
fn smooth(t: i64) -> (r: i64)
    requires
        0 <= t < FX_ONE,
    ensures
        r == smooth_s(t as int),
        0 <= r <= 3 * FX_ONE as int,
{
    proof {
        lemma_smooth_range(t as int);
        crate::fx::lemma_fmul_bound(t as int, t as int, 65536, 65536);
        crate::fx::lemma_fmul_bound(
            fmul(t as int, t as int),
            3 * FX_ONE as int - 2 * t as int,
            65536,
            196608,
        );
    }
    let t2 = crate::fx::fx_mul(t, t);
    crate::fx::fx_mul(t2, 3 * FX_ONE - 2 * t)
}

/// Ranges of the smoothing weight and a corner's contribution.
proof fn lemma_smooth_range(t: int)
    requires
        0 <= t <= FX_ONE,
    ensures
        0 <= smooth_s(t) <= 3 * FX_ONE as int,
        abs1(FX_ONE - smooth_s(t)) <= 3 * FX_ONE as int,
{
    crate::fx::lemma_fmul_nonneg(t, t);
    crate::fx::lemma_fmul_nonneg(fmul(t, t), 3 * FX_ONE - 2 * t);
    crate::fx::lemma_fmul_bound(t, t, 65536, 65536);
    crate::fx::lemma_fmul_bound(fmul(t, t), 3 * FX_ONE - 2 * t, 65536, 196608);
    assert(65536int * 196608 / 65536 == 196608);
}

proof fn lemma_corner_bound(
    p: Perlin,
    i: int,
    j: int,
    k: int,
    a: int,
    b: int,
    c: int,
    u: int,
    v: int,
    w: int,
)
    requires
        perlin_wf(p),
        a == 0 || a == 1,
        b == 0 || b == 1,
        c == 0 || c == 1,
        0 <= u < FX_ONE,
        0 <= v < FX_ONE,
        0 <= w < FX_ONE,
    ensures
        abs1(corner_s(p, i, j, k, a, b, c, u, v, w)) <= 162 * FX_ONE as int,
{
    lemma_smooth_range(u);
    lemma_smooth_range(v);
    lemma_smooth_range(w);
    let uu = smooth_s(u);
    let vv = smooth_s(v);
    let ww = smooth_s(w);
    let g = grad_at(p, i + a, j + b, k + c);
    let d = V3 { x: u - a * FX_ONE, y: v - b * FX_ONE, z: w - c * FX_ONE };
    lemma_grad_bounded(p, i + a, j + b, k + c);
    crate::vec3::lemma_vdot_bound(g, d, 2 * FX_ONE as int, FX_ONE as int);
    assert(3 * ((2 * 65536int) * 65536) / 65536 == 393216);
    crate::fx::lemma_fmul_bound(pick_s(a, uu, FX_ONE - uu), pick_s(b, vv, FX_ONE - vv), 196608, 196608);
    assert(196608int * 196608 / 65536 == 589824);
    crate::fx::lemma_fmul_bound(
        fmul(pick_s(a, uu, FX_ONE - uu), pick_s(b, vv, FX_ONE - vv)),
        pick_s(c, ww, FX_ONE - ww),
        589824,
        196608,
    );
    assert(589824int * 196608 / 65536 == 1769472);
    crate::fx::lemma_fmul_bound(
        fmul(
            fmul(pick_s(a, uu, FX_ONE - uu), pick_s(b, vv, FX_ONE - vv)),
            pick_s(c, ww, FX_ONE - ww),
        ),
        crate::vec3::vdot_s(g, d),
        1769472,
        393216,
    );
    assert(1769472int * 393216 / 65536 == 10616832);
}

/// A gradient drawn from a well-formed table is bounded.
proof fn lemma_grad_bounded(p: Perlin, i: int, j: int, k: int)
    requires
        perlin_wf(p),
    ensures
        bounded_s(grad_at(p, i, j, k), 2 * FX_ONE as int),
{
    vstd::arithmetic::div_mod::lemma_mod_bound(i, 256);
    vstd::arithmetic::div_mod::lemma_mod_bound(j, 256);
    vstd::arithmetic::div_mod::lemma_mod_bound(k, 256);
    let xi = p.perm_x@[i % 256];
    let yj = p.perm_y@[j % 256];
    let zk = p.perm_z@[k % 256];
    lemma_xor_byte(xi, yj);
    lemma_xor_byte(xi ^ yj, zk);
}

/// Swapping two positions keeps every value present and in range.
proof fn lemma_swap_keeps_values(before: Seq<i32>, after: Seq<i32>, i: int, t: int)
    requires
        before.len() == 256,
        after.len() == 256,
        0 <= i < 256,
        0 <= t < 256,
        after == before.update(i, before[t]).update(t, before[i]),
        forall|k: int| 0 <= k < 256 ==> 0 <= #[trigger] before[k] < 256,
        forall|v: int| 0 <= v < 256 ==> before.contains(#[trigger] (v as i32)),
    ensures
        forall|k: int| 0 <= k < 256 ==> 0 <= #[trigger] after[k] < 256,
        forall|v: int| 0 <= v < 256 ==> after.contains(#[trigger] (v as i32)),
{
    assert forall|v: int| 0 <= v < 256 implies after.contains(#[trigger] (v as i32)) by {
        let k = choose|k: int| 0 <= k < before.len() && before[k] == v as i32;
        if k == i {
            if t == i {
                assert(after[i] == v as i32);
            } else {
                assert(after[t] == v as i32);
            }
        } else if k == t {
            assert(after[i] == v as i32);
        } else {
            assert(after[k] == v as i32);
        }
    }
    assert forall|k: int| 0 <= k < 256 implies 0 <= #[trigger] after[k] < 256 by {
        if k != i && k != t {
            assert(after[k] == before[k]);
        }
    }
}

/// The lattice coordinate folded into the byte range.
fn emod256(v: i64) -> (r: usize)
    requires
        abs1(v as int) <= 0x400000000000000,
    ensures
        r == v as int % 256,
        r < 256,
{
    let q = crate::fx::ediv(v, 256);
    proof {
        vstd::arithmetic::div_mod::lemma_fundamental_div_mod(v as int, 256);
        vstd::arithmetic::div_mod::lemma_mod_bound(v as int, 256);
        crate::fx::lemma_prod_bound(q as int, 256, abs1(v as int), 256);
        assert(crate::fx::tdiv(q as int * 256, 1) == q as int * 256) by (nonlinear_arith);
        assert(q as int * 256 == 256 * (v as int / 256)) by (nonlinear_arith)
            requires
                q == v as int / 256,
        ;
    }
    let m = v - (tdiv128(crate::fx::prod64(q, 256), 1) as i64);
    m as usize
}

} // verus!
