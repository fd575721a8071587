//! 16.16 fixed-point scalars.
//!
//! Every scalar quantity of the library (coordinates, ray parameters,
//! colors, trigonometric values) is an `i64` holding `FX_ONE` times its real
//! value.  All operations round toward zero, exactly as the spec functions
//! here define, so contracts elsewhere can state results exactly.

use vstd::prelude::*;

verus! {

/// The fixed-point unit: the representation of 1.0.
pub const FX_ONE: i64 = 65536;

/// The "infinite" ray parameter: queries over an unbounded interval use this
/// bound (2^40, about 16.7 million in real units).
pub const FX_INF: i64 = 1099511627776;

pub open spec fn abs1(a: int) -> int {
    if a >= 0 {
        a
    } else {
        -a
    }
}

/// Division truncating toward zero (the rounding used by every fixed-point
/// operation of this library); 0 when the divisor is 0.
pub open spec fn tdiv(a: int, b: int) -> int {
    if b == 0 {
        0
    } else {
        let m = abs1(a) / abs1(b);
        if (a < 0) == (b < 0) {
            m
        } else {
            -m
        }
    }
}

/// Fixed-point product: `a * b` scaled back down, truncated toward zero.
pub open spec fn fmul(a: int, b: int) -> int {
    tdiv(a * b, FX_ONE as int)
}

/// Fixed-point quotient: `a / b` scaled up, truncated toward zero.
pub open spec fn fdiv(a: int, b: int) -> int {
    tdiv(a * (FX_ONE as int), b)
}

/// Clamp to the symmetric interval `[-lim, lim]`.
pub open spec fn clip(a: int, lim: int) -> int {
    if a > lim {
        lim
    } else if a < -lim {
        -lim
    } else {
        a
    }
}

pub open spec fn is_sqrt(n: int, r: int) -> bool {
    0 <= r && r * r <= n && n < (r + 1) * (r + 1)
}

/// The integer square root (largest `r` with `r * r <= n`).
pub open spec fn sqrt_floor(n: int) -> int {
    choose|r: int| is_sqrt(n, r)
}

/// Fixed-point square root: `sqrt(x / FX_ONE)` in fixed point is
/// `sqrt(x * FX_ONE)` in integers.
pub open spec fn fx_sqrt_s(x: int) -> int {
    sqrt_floor(x * (FX_ONE as int))
}

pub proof fn lemma_sqrt_unique(n: int, r1: int, r2: int)
    by (nonlinear_arith)
    requires
        is_sqrt(n, r1),
        is_sqrt(n, r2),
    ensures
        r1 == r2,
{
}

pub proof fn lemma_sqrt_exists(n: int)
    requires
        n >= 0,
    ensures
        is_sqrt(n, sqrt_floor(n)),
    decreases n,
{
    if n == 0 {
        assert(is_sqrt(0, 0)) by (nonlinear_arith);
    } else {
        lemma_sqrt_exists(n - 1);
        let r = sqrt_floor(n - 1);
        assert(is_sqrt(n - 1, r));
        if n == (r + 1) * (r + 1) {
            assert(is_sqrt(n, r + 1)) by (nonlinear_arith)
                requires
                    n == (r + 1) * (r + 1) && r >= 0,
            ;
        } else {
            assert(is_sqrt(n, r)) by (nonlinear_arith)
                requires
                    is_sqrt(n - 1, r) && n != (r + 1) * (r + 1),
            ;
        }
        let w = choose|w: int| is_sqrt(n, w);
        lemma_sqrt_unique(n, w, if n == (r + 1) * (r + 1) { r + 1 } else { r });
    }
}

/// A square root is bounded by any `b` whose square exceeds `n`.
pub proof fn lemma_sqrt_le(n: int, b: int)
    by (nonlinear_arith)
    requires
        0 <= n,
        0 <= b,
        n < b * b,
        is_sqrt(n, sqrt_floor(n)),
    ensures
        sqrt_floor(n) < b,
{
}

/// Truncating division shrinks magnitude (the divisor's magnitude is >= 1).
pub proof fn lemma_tdiv_bound(a: int, b: int)
    requires
        b != 0,
    ensures
        abs1(tdiv(a, b)) == abs1(a) / abs1(b),
        abs1(tdiv(a, b)) <= abs1(a),
        a >= 0 && b > 0 ==> 0 <= tdiv(a, b) <= a,
{
    let ma = abs1(a);
    let mb = abs1(b);
    assert(ma / mb <= ma && ma / mb >= 0) by (nonlinear_arith)
        requires
            ma >= 0 && mb >= 1,
    ;
}

/// The magnitude of a fixed-point product, from magnitudes of the factors.
pub proof fn lemma_fmul_bound(a: int, b: int, la: int, lb: int)
    requires
        abs1(a) <= la,
        abs1(b) <= lb,
    ensures
        abs1(fmul(a, b)) <= la * lb / (FX_ONE as int),
        abs1(fmul(a, b)) <= la * lb,
{
    lemma_prod_bound(a, b, la, lb);
    lemma_tdiv_bound(a * b, FX_ONE as int);
    vstd::arithmetic::div_mod::lemma_div_is_ordered(abs1(a * b), la * lb, FX_ONE as int);
    assert(la * lb / (FX_ONE as int) <= la * lb) by (nonlinear_arith)
        requires
            la * lb >= 0,
    ;
}

/// Floor division by a positive divisor (the rounding of the lattice and
/// parity computations); this is the `/` of ghost mathematics.
pub(crate) fn ediv(a: i64, b: i64) -> (q: i64)
    requires
        0 < b <= 4294967296,
        a > i64::MIN,
    ensures
        q == a as int / b as int,
        abs1(q as int) <= abs1(a as int),
{
    if a >= 0 {
        let q = ((a as u64) / (b as u64)) as i64;
        proof {
            vstd::arithmetic::div_mod::lemma_div_is_ordered(a as int, a as int, b as int);
            vstd::arithmetic::div_mod::lemma_div_nonincreasing(a as int, b as int);
            vstd::arithmetic::div_mod::lemma_div_pos_is_pos(a as int, b as int);
        }
        q
    } else {
        let m: u64 = (-a) as u64;
        let d = (m + (b as u64) - 1) / (b as u64);
        proof {
            assert(d <= m) by (nonlinear_arith)
                requires
                    d == (m + b - 1) / (b as int) && m >= 1 && b >= 1,
            ;
        }
        let q = -(d as i64);
        proof {
            lemma_floor_neg(a as int, b as int, d as int);
        }
        q
    }
}

/// For a negative numerator, floor division is the negated rounded-up
/// division of the magnitude.
proof fn lemma_floor_neg(a: int, b: int, d: int)
    by (nonlinear_arith)
    requires
        a < 0,
        b > 0,
        d == (-a + b - 1) / b,
    ensures
        -d == a / b,
        abs1(-d) <= abs1(a),
{
    vstd::arithmetic::div_mod::lemma_fundamental_div_mod(-a + b - 1, b);
    vstd::arithmetic::div_mod::lemma_fundamental_div_mod(a, b);
    vstd::arithmetic::div_mod::lemma_mod_bound(-a + b - 1, b);
    vstd::arithmetic::div_mod::lemma_mod_bound(a, b);
}

/// Truncating division is monotone in the numerator, for a positive divisor.
pub proof fn lemma_tdiv_mono(a1: int, a2: int, b: int)
    by (nonlinear_arith)
    requires
        b > 0,
        a1 <= a2,
    ensures
        tdiv(a1, b) <= tdiv(a2, b),
{
    if a1 >= 0 {
        vstd::arithmetic::div_mod::lemma_div_is_ordered(a1, a2, b);
    } else if a2 < 0 {
        vstd::arithmetic::div_mod::lemma_div_is_ordered(-a2, -a1, b);
    } else {
        vstd::arithmetic::div_mod::lemma_div_pos_is_pos(a2, b);
        vstd::arithmetic::div_mod::lemma_div_pos_is_pos(-a1, b);
    }
}

/// Truncating division by a negative divisor reverses order.
pub proof fn lemma_tdiv_anti(a1: int, a2: int, b: int)
    requires
        b < 0,
        a1 <= a2,
    ensures
        tdiv(a1, b) >= tdiv(a2, b),
{
    lemma_tdiv_mono(a1, a2, -b);
    lemma_tdiv_neg_den(a1, b);
    lemma_tdiv_neg_den(a2, b);
}

/// Negating the divisor negates a truncating quotient.
pub proof fn lemma_tdiv_neg_den(a: int, b: int)
    ensures
        tdiv(a, -b) == -tdiv(a, b),
{
}

/// Scaling by a positive factor preserves order.
pub proof fn lemma_prod_mono(a: int, b: int, s: int)
    by (nonlinear_arith)
    requires
        a <= b,
        s > 0,
    ensures
        a * s <= b * s,
{
}

/// Multiplying by the unit is the identity, and by zero gives zero.
pub proof fn lemma_fmul_unit(x: int)
    ensures
        fmul(FX_ONE as int, x) == x,
        fmul(x, FX_ONE as int) == x,
        fmul(0, x) == 0,
        fmul(x, 0) == 0,
{
    let s = FX_ONE as int;
    assert(x * s == s * x && 0 * x == 0 && x * 0 == 0) by (nonlinear_arith);
    if x >= 0 {
        assert(s * x >= 0) by (nonlinear_arith)
            requires
                x >= 0 && s > 0,
        ;
        vstd::arithmetic::div_mod::lemma_div_multiples_vanish(x, s);
    } else {
        assert(s * x < 0 && -(s * x) == s * (-x)) by (nonlinear_arith)
            requires
                x < 0 && s > 0,
        ;
        vstd::arithmetic::div_mod::lemma_div_multiples_vanish(-x, s);
    }
}

/// Fixed-point products of nonnegative factors are nonnegative.
pub proof fn lemma_fmul_nonneg(a: int, b: int)
    ensures
        a >= 0 && b >= 0 ==> fmul(a, b) >= 0,
{
    assert(a >= 0 && b >= 0 ==> a * b >= 0) by (nonlinear_arith);
    if a >= 0 && b >= 0 {
        lemma_tdiv_bound(a * b, FX_ONE as int);
    }
}

/// Negating the numerator negates a truncating quotient.
pub proof fn lemma_tdiv_neg(a: int, b: int)
    ensures
        tdiv(-a, b) == -tdiv(a, b),
{
}

/// Negating one factor negates a fixed-point product.
pub proof fn lemma_fmul_neg(a: int, b: int)
    ensures
        fmul(-a, b) == -fmul(a, b),
        fmul(a, -b) == -fmul(a, b),
{
    assert(-a * b == -(a * b) && a * -b == -(a * b)) by (nonlinear_arith);
    lemma_tdiv_neg(a * b, FX_ONE as int);
}

/// The magnitude of a product is the product of the magnitudes.
pub proof fn lemma_prod_bound(a: int, b: int, la: int, lb: int)
    by (nonlinear_arith)
    requires
        abs1(a) <= la,
        abs1(b) <= lb,
    ensures
        abs1(a * b) <= la * lb,
{
}

/// A full-width product of two scalars.
pub(crate) fn prod64(a: i64, b: i64) -> (r: i128)
    ensures
        r as int == (a as int) * (b as int),
        abs1(r as int) <= 0x40000000000000000000000000000000,
{
    proof {
        assert(abs1((a as int) * (b as int)) <= 0x40000000000000000000000000000000)
            by (nonlinear_arith)
            requires
                -0x8000000000000000 <= a <= 0x7fffffffffffffff && -0x8000000000000000 <= b
                    <= 0x7fffffffffffffff,
        ;
    }
    (a as i128) * (b as i128)
}

/// Division truncating toward zero, on machine integers.
pub(crate) fn tdiv128(a: i128, b: i128) -> (q: i128)
    requires
        b != 0,
        a != i128::MIN,
        b != i128::MIN,
    ensures
        q == tdiv(a as int, b as int),
        abs1(q as int) <= abs1(a as int),
{
    proof {
        lemma_tdiv_bound(a as int, b as int);
    }
    let ma: u128 = if a < 0 {
        (-a) as u128
    } else {
        a as u128
    };
    let mb: u128 = if b < 0 {
        (-b) as u128
    } else {
        b as u128
    };
    let m: u128 = ma / mb;
    if (a < 0) == (b < 0) {
        m as i128
    } else {
        -(m as i128)
    }
}

/// The integer square root, by bisection.
pub(crate) fn isqrt_u128(n: u128) -> (r: u128)
    ensures
        r == sqrt_floor(n as int),
        is_sqrt(n as int, r as int),
{
    let mut lo: u128 = 0;
    let mut hi: u128 = 0x10000000000000000;
    proof {
        assert(n < hi * hi) by (nonlinear_arith)
            requires
                n <= 0xffffffffffffffffffffffffffffffff && hi == 0x10000000000000000,
        ;
    }
    while hi - lo > 1
        invariant
            0 <= lo < hi <= 0x10000000000000000,
            lo * lo <= n,
            n < hi * hi,
        decreases hi - lo,
    {
        let mid: u128 = lo + (hi - lo) / 2;
        assert(lo < mid < hi);
        assert(mid * mid < 0x100000000000000000000000000000000) by (nonlinear_arith)
            requires
                0 < mid < 0x10000000000000000,
        ;
        if mid * mid <= n {
            lo = mid;
        } else {
            hi = mid;
        }
    }
    proof {
        assert(n < (lo + 1) * (lo + 1)) by (nonlinear_arith)
            requires
                hi == lo + 1 && n < hi * hi,
        ;
        assert(is_sqrt(n as int, lo as int));
        lemma_sqrt_exists(n as int);
        lemma_sqrt_unique(n as int, lo as int, sqrt_floor(n as int));
    }
    lo
}

/// Clamp a wide intermediate into `[-lim, lim]`.
pub(crate) fn clip128(v: i128, lim: i64) -> (r: i64)
    requires
        lim > 0,
    ensures
        r == clip(v as int, lim as int),
        abs1(r as int) <= lim,
{
    if v > lim as i128 {
        lim
    } else if v < -(lim as i128) {
        -lim
    } else {
        v as i64
    }
}

/// Fixed-point square root of a nonnegative scalar.
pub fn fx_sqrt(x: i64) -> (r: i64)
    requires
        0 <= x,
    ensures
        r == fx_sqrt_s(x as int),
        0 <= r < 0x10000000000,
{
    proof {
        assert((x as int) * (FX_ONE as int) < 0x40000000000000000000000000000000)
            by (nonlinear_arith)
            requires
                0 <= x <= 0x7fffffffffffffff,
        ;
    }
    let n: u128 = (x as u128) * (FX_ONE as u128);
    let r = isqrt_u128(n);
    proof {
        lemma_sqrt_le(n as int, 0x10000000000);
    }
    r as i64
}

/// The fixed-point rendering of pi.
pub const FX_PI: i64 = 205887;

/// The sine approximation: reduce modulo two pi, then a rational
/// approximation of the half-wave, negated on the second half.
pub open spec fn fx_sin_s(x: int) -> int {
    let m = x % (2 * FX_PI as int);
    if m < FX_PI {
        half_sin_s(m)
    } else {
        -half_sin_s(m - FX_PI)
    }
}

/// `16 t (pi - t) / (5 pi^2 - 4 t (pi - t))`, a rational approximation of
/// `sin(t)` on `[0, pi]` that is exact at 0, pi/2 and pi.
pub open spec fn half_sin_s(t: int) -> int {
    let w = fmul(t, FX_PI - t);
    fdiv(16 * w, 5 * fmul(FX_PI as int, FX_PI as int) - 4 * w)
}

/// The sine approximation stays within the unit range.
pub proof fn lemma_fx_sin_range(x: int)
    ensures
        -FX_ONE <= fx_sin_s(x) <= FX_ONE,
{
    vstd::arithmetic::div_mod::lemma_mod_bound(x, 2 * FX_PI as int);
    let m = x % (2 * FX_PI as int);
    if m < FX_PI {
        lemma_half_sin_range(m);
    } else {
        lemma_half_sin_range(m - FX_PI);
    }
}

/// The half-wave approximation stays within the unit range.
proof fn lemma_half_sin_range(t: int)
    requires
        0 <= t <= FX_PI,
    ensures
        0 <= half_sin_s(t) <= FX_ONE,
{
    lemma_prod_bound(t, (FX_PI as int) - t, 205887, 205887);
    lemma_tdiv_bound(t * ((FX_PI as int) - t), 65536);
    let w = fmul(t, (FX_PI as int) - t);
    assert(4 * (t * ((FX_PI as int) - t)) <= 42389456769) by (nonlinear_arith)
        requires
            0 <= t <= 205887,
    ;
    assert(t * ((FX_PI as int) - t) >= 0) by (nonlinear_arith)
        requires
            0 <= t <= 205887,
    ;
    vstd::arithmetic::div_mod::lemma_div_is_ordered(
        t * ((FX_PI as int) - t),
        10597364192,
        65536,
    );
    assert(10597364192int / 65536 == 161702);
    assert((205887int) * 205887 == 42389456769);
    assert(42389456769int / 65536 == 646811);
    assert(fmul(FX_PI as int, FX_PI as int) == 646811);
    let den = 5 * 646811 - 4 * w;
    lemma_tdiv_bound(16 * w * 65536, den);
    assert(16 * w * 65536 <= den * 65536) by (nonlinear_arith)
        requires
            0 <= w <= 161702 && den == 3234055 - 4 * w,
    ;
    assert((16 * w * 65536) / den <= 65536) by (nonlinear_arith)
        requires
            0 <= 16 * w * 65536 <= den * 65536 && den >= 1,
    ;
    assert(16 * w * 65536 >= 0) by (nonlinear_arith)
        requires
            w >= 0,
    ;
}

/// The executable sine.
pub fn fx_sin(x: i64) -> (r: i64)
    requires
        abs1(x as int) <= 0x1000000000000000,
    ensures
        r == fx_sin_s(x as int),
        -FX_ONE <= r <= FX_ONE,
{
    let q = ediv(x, 2 * FX_PI);
    proof {
        vstd::arithmetic::div_mod::lemma_fundamental_div_mod(x as int, 2 * FX_PI as int);
        vstd::arithmetic::div_mod::lemma_mod_bound(x as int, 2 * FX_PI as int);
        lemma_prod_bound(q as int, 411774, abs1(x as int), 411774);
    }
    let m = x - (tdiv128(prod64(q, 2 * FX_PI), 1) as i64);
    if m < FX_PI {
        half_sin(m)
    } else {
        -half_sin(m - FX_PI)
    }
}

/// The executable half-wave approximation.
fn half_sin(t: i64) -> (r: i64)
    requires
        0 <= t < FX_PI,
    ensures
        r == half_sin_s(t as int),
        0 <= r <= FX_ONE,
{
    proof {
        lemma_prod_bound(t as int, (FX_PI - t) as int, 205887, 205887);
        lemma_tdiv_bound(t as int * (FX_PI - t) as int, 65536);
        assert(4 * (t as int * ((FX_PI as int) - t)) <= 42389456769) by (nonlinear_arith)
            requires
                0 <= t <= 205887,
        ;
        assert(t as int * ((FX_PI as int) - t) >= 0) by (nonlinear_arith)
            requires
                0 <= t <= 205887,
        ;
        vstd::arithmetic::div_mod::lemma_div_is_ordered(
            t as int * ((FX_PI as int) - t),
            10597364192,
            65536,
        );
        assert(10597364192int / 65536 == 161702);
        assert((205887int) * 205887 == 42389456769);
        assert(42389456769int / 65536 == 646811);
    }
    let w = tdiv128(prod64(t, FX_PI - t), FX_ONE as i128) as i64;
    let den = 5 * 646811 - 4 * w;
    proof {
        lemma_tdiv_bound(16 * w as int * 65536, den as int);
        assert(fmul(FX_PI as int, FX_PI as int) == 646811);
        assert(16 * w as int * 65536 <= den as int * 65536) by (nonlinear_arith)
            requires
                0 <= w <= 161702 && den == 3234055 - 4 * w,
        ;
        assert((16 * w as int * 65536) / (den as int) <= 65536) by (nonlinear_arith)
            requires
                0 <= 16 * w as int * 65536 <= den as int * 65536 && den >= 1,
        ;
    }
    let r = tdiv128(prod64(16 * w, FX_ONE), den as i128) as i64;
    r
}

/// An approximation of `-ln(u / FX_ONE)` for `u` in `(0, 1]`, by binary
/// normalization and bitwise extraction of the fractional base-2 logarithm.
/// Its exact values matter to no contract (the argument is always a random
/// draw); what is promised is the range, and that 1 maps to 0.
pub fn fx_neg_ln_unit(u: i64) -> (r: i64)
    requires
        1 <= u <= FX_ONE,
    ensures
        0 <= r <= 17 * FX_ONE as int,
        u == FX_ONE ==> r == 0,
{
    let mut m: i64 = u;
    let mut k: i64 = 0;
    let mut i: u64 = 0;
    while i < 16
        invariant
            1 <= m <= FX_ONE,
            0 <= k <= i,
            i <= 16,
            u == FX_ONE ==> (m == FX_ONE && k == 0),
        decreases 16 - i,
    {
        if m < 32768 {
            m = 2 * m;
            k = k + 1;
        }
        i = i + 1;
    }
    let mut y: i64 = m;
    let mut acc: i64 = 0;
    let mut bit: u64 = 32768;
    let mut j: u64 = 0;
    while j < 16
        invariant
            0 <= y <= FX_ONE,
            0 <= acc <= FX_ONE,
            bit <= 32768,
            j <= 16,
            acc + 2 * bit <= 65537,
            bit == 0 ==> acc <= FX_ONE,
            u == FX_ONE ==> (y == FX_ONE && acc == 0),
        decreases 16 - j,
    {
        proof {
            lemma_fmul_bound(y as int, y as int, 65536, 65536);
            if u == FX_ONE {
                lemma_fmul_unit(65536);
            }
            lemma_tdiv_bound(y as int * y as int, 65536);
            assert(y as int * y as int >= 0) by (nonlinear_arith);
        }
        let y2 = fx_mul(y, y);
        if y2 < 32768 {
            acc = acc + (bit as i64);
            y = 2 * y2;
        } else {
            y = y2;
        }
        bit = bit / 2;
        j = j + 1;
    }
    proof {
        lemma_fmul_bound((k * 65536 + acc) as int, 45426, 1114112, 45426);
        lemma_tdiv_bound((k * 65536 + acc) as int * 45426, 65536);
        assert((1114112int * 45426) / 65536 == 772242);
        vstd::arithmetic::div_mod::lemma_div_is_ordered(
            abs1((k * 65536 + acc) as int * 45426),
            1114112int * 45426,
            65536,
        );
        if u == FX_ONE {
            lemma_fmul_unit(0);
            assert(fmul(0, 45426) == 0);
        }
        assert(k * 65536 + acc >= 0) by (nonlinear_arith)
            requires
                k >= 0 && acc >= 0,
        ;
        assert(k * 65536 + acc <= 1114112) by (nonlinear_arith)
            requires
                0 <= k <= 16 && 0 <= acc <= 65536,
        ;
        lemma_fmul_nonneg((k * 65536 + acc) as int, 45426);
    }
    fx_mul(k * 65536 + acc, 45426)
}

/// Fixed-point product on scalars; the result must fit.
pub fn fx_mul(a: i64, b: i64) -> (r: i64)
    requires
        abs1(fmul(a as int, b as int)) <= i64::MAX,
    ensures
        r == fmul(a as int, b as int),
{
    let p: i128 = prod64(a, b);
    let q = tdiv128(p, FX_ONE as i128);
    q as i64
}

/// Fixed-point quotient on scalars; the divisor must be nonzero and the
/// result must fit.
pub fn fx_div(a: i64, b: i64) -> (r: i64)
    requires
        b != 0,
        abs1(fdiv(a as int, b as int)) <= i64::MAX,
    ensures
        r == fdiv(a as int, b as int),
{
    let p: i128 = (a as i128) * (FX_ONE as i128);
    let q = tdiv128(p, b as i128);
    q as i64
}

} // verus!
