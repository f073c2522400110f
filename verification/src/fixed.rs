//! Fixed-point arithmetic: the numeric base of the renderer.
//!
//! A scalar is an `i128` holding `value * SCALE`, so `SCALE` itself stands
//! for one.  All operations round toward zero, and every executable
//! operation is specified exactly against its mathematical counterpart.

use vstd::prelude::*;

verus! {

/// Scale of the fixed-point format: a stored value `v` stands for `v / SCALE`.
pub const SCALE: i128 = 4096;

/// Absolute value over mathematical integers.
pub open spec fn abs_int(a: int) -> int {
    if a < 0 {
        -a
    } else {
        a
    }
}

/// Division rounding toward zero, the rounding of the executable operators.
pub open spec fn div_trunc(a: int, b: int) -> int
    recommends
        b != 0,
{
    if (a < 0) == (b < 0) {
        abs_int(a) / abs_int(b)
    } else {
        -(abs_int(a) / abs_int(b))
    }
}

/// The magnitude of a truncating quotient never exceeds the magnitude of the
/// dividend, and equals the quotient of the magnitudes.
pub proof fn lemma_div_trunc_bound(a: int, b: int)
    requires
        b >= 1,
    ensures
        abs_int(div_trunc(a, b)) == abs_int(a) / b,
        abs_int(div_trunc(a, b)) <= abs_int(a),
{
    assert(abs_int(a) / b <= abs_int(a)) by (nonlinear_arith)
        requires
            b >= 1,
            abs_int(a) >= 0,
    ;
}

/// Bound a product from bounds on its factors.
pub proof fn lemma_mul_bound(x: int, y: int, a: int, b: int)
    by (nonlinear_arith)
    requires
        -a <= x <= a,
        -b <= y <= b,
    ensures
        -(a * b) <= x * y <= a * b,
{
}

/// A truncating quotient of an exact multiple is exact.
pub proof fn lemma_div_trunc_multiple(x: int, d: int)
    requires
        d >= 1,
    ensures
        div_trunc(x * d, d) == x,
{
    if x >= 0 {
        assert(x * d >= 0) by (nonlinear_arith)
            requires
                x >= 0,
                d >= 1,
        ;
        assert(x * d == d * x) by (nonlinear_arith);
        vstd::arithmetic::div_mod::lemma_div_multiples_vanish(x, d);
    } else {
        assert(x * d < 0) by (nonlinear_arith)
            requires
                x < 0,
                d >= 1,
        ;
        assert(-(x * d) == d * (-x)) by (nonlinear_arith);
        vstd::arithmetic::div_mod::lemma_div_multiples_vanish(-x, d);
    }
}

/// Bound a fixed-point product from bounds on its factors.
pub proof fn lemma_fpmul_abs_bound(a: int, b: int, ma: int, mb: int)
    requires
        abs_int(a) <= ma,
        abs_int(b) <= mb,
    ensures
        abs_int(a * b) <= ma * mb,
        abs_int(spec_fpmul(a, b)) <= (ma * mb) / (SCALE as int),
{
    lemma_mul_bound(a, b, ma, mb);
    lemma_div_trunc_bound(a * b, SCALE as int);
    vstd::arithmetic::div_mod::lemma_div_is_ordered(abs_int(a * b), ma * mb, SCALE as int);
}

/// Truncating division on machine integers.
pub fn div_trunc_i128(a: i128, b: i128) -> (r: i128)
    requires
        b != 0,
        a != i128::MIN,
        b != i128::MIN,
    ensures
        r == div_trunc(a as int, b as int),
{
    let na: u128 = if a < 0 {
        (-a) as u128
    } else {
        a as u128
    };
    let nb: u128 = if b < 0 {
        (-b) as u128
    } else {
        b as u128
    };
    proof {
        assert(na == abs_int(a as int));
        assert(nb == abs_int(b as int));
        assert(na / nb <= na) by (nonlinear_arith)
            requires
                nb >= 1,
        ;
    }
    let q: u128 = na / nb;
    if (a < 0) == (b < 0) {
        q as i128
    } else {
        -(q as i128)
    }
}

/// The integer square root as a mathematical function.
pub open spec fn spec_isqrt(n: nat) -> nat
    decreases n,
{
    if n == 0 {
        0
    } else {
        let r = spec_isqrt((n - 1) as nat);
        if (r + 1) * (r + 1) <= n {
            r + 1
        } else {
            r
        }
    }
}

/// `spec_isqrt(n)` is the greatest integer whose square is at most `n`.
pub proof fn lemma_isqrt_bounds(n: nat)
    ensures
        spec_isqrt(n) * spec_isqrt(n) <= n,
        n < (spec_isqrt(n) + 1) * (spec_isqrt(n) + 1),
    decreases n,
{
    if n == 0 {
        let s = spec_isqrt(n);
        assert(s == 0);
        assert(s * s <= n && n < (s + 1) * (s + 1)) by (nonlinear_arith)
            requires
                s == 0,
                n == 0,
        ;
    } else {
        lemma_isqrt_bounds((n - 1) as nat);
        let r = spec_isqrt((n - 1) as nat);
        let s = spec_isqrt(n);
        if (r + 1) * (r + 1) <= n {
            assert(s == r + 1);
            assert(s * s <= n) by (nonlinear_arith)
                requires
                    s == r + 1,
                    (r + 1) * (r + 1) <= n,
            ;
            assert(n < (s + 1) * (s + 1)) by (nonlinear_arith)
                requires
                    n <= (r + 1) * (r + 1),
                    s == r + 1,
            ;
        } else {
            assert(s == r);
            assert(s * s <= n) by (nonlinear_arith)
                requires
                    s == r,
                    r * r <= n - 1,
            ;
            assert(n < (s + 1) * (s + 1)) by (nonlinear_arith)
                requires
                    s == r,
                    n < (r + 1) * (r + 1),
            ;
        }
    }
}

/// Any integer satisfying the square-root bracketing is the integer square root.
pub proof fn lemma_isqrt_unique(n: nat, r: nat)
    requires
        r * r <= n,
        n < (r + 1) * (r + 1),
    ensures
        r == spec_isqrt(n),
{
    lemma_isqrt_bounds(n);
    let s = spec_isqrt(n);
    if r < s {
        assert((r + 1) * (r + 1) <= s * s) by (nonlinear_arith)
            requires
                r + 1 <= s,
                0 <= r,
        ;
    }
    if r > s {
        assert((s + 1) * (s + 1) <= r * r) by (nonlinear_arith)
            requires
                s + 1 <= r,
                0 <= s,
        ;
    }
}

/// Integer square root by bisection.
pub fn isqrt_u128(n: u128) -> (r: u128)
    ensures
        r * r <= n,
        n < (r + 1) * (r + 1),
        r == spec_isqrt(n as nat),
{
    let mut lo: u128 = 0;
    let mut hi: u128 = 0x1_0000_0000_0000_0000;
    proof {
        assert(n < hi * hi) by (nonlinear_arith)
            requires
                hi == 0x1_0000_0000_0000_0000u128,
                n <= u128::MAX,
        ;
    }
    while lo + 1 < hi
        invariant
            lo < hi,
            hi <= 0x1_0000_0000_0000_0000u128,
            lo * lo <= n,
            n < hi * hi,
        decreases hi - lo,
    {
        let mid = lo + (hi - lo) / 2;
        proof {
            assert(lo < mid < hi);
            assert(mid * mid < 0x1_0000_0000_0000_0000u128 * 0x1_0000_0000_0000_0000u128)
                by (nonlinear_arith)
                requires
                    mid < 0x1_0000_0000_0000_0000u128,
            ;
        }
        let sq = mid * mid;
        if sq <= n {
            lo = mid;
        } else {
            hi = mid;
        }
    }
    proof {
        lemma_isqrt_unique(n as nat, lo as nat);
    }
    lo
}

/// Fixed-point multiplication: `(a * b) / SCALE`, rounded toward zero.
pub open spec fn spec_fpmul(a: int, b: int) -> int {
    div_trunc(a * b, SCALE as int)
}

pub fn fpmul(a: i128, b: i128) -> (r: i128)
    requires
        -(i128::MAX as int) <= a * b <= i128::MAX as int,
    ensures
        r == spec_fpmul(a as int, b as int),
        abs_int(r as int) <= abs_int((a * b) as int) / (SCALE as int),
{
    let p = a * b;
    proof {
        lemma_div_trunc_bound(p as int, SCALE as int);
    }
    div_trunc_i128(p, SCALE)
}

/// Fixed-point division: `(a * SCALE) / b`, rounded toward zero.
pub open spec fn spec_fpdiv(a: int, b: int) -> int
    recommends
        b != 0,
{
    div_trunc(a * SCALE, b)
}

pub fn fpdiv(a: i128, b: i128) -> (r: i128)
    requires
        b != 0,
        b != i128::MIN,
        -(i128::MAX as int) <= a * SCALE <= i128::MAX as int,
    ensures
        r == spec_fpdiv(a as int, b as int),
{
    div_trunc_i128(a * SCALE, b)
}

/// Fixed-point square root: `spec_isqrt(c * SCALE)` represents `sqrt(c / SCALE)`.
pub open spec fn spec_sqrt_fp(c: int) -> int
    recommends
        c >= 0,
{
    spec_isqrt((c * SCALE) as nat) as int
}

pub fn sqrt_fp(c: i128) -> (r: i128)
    requires
        0 <= c,
        c * SCALE <= u128::MAX as int,
    ensures
        r == spec_sqrt_fp(c as int),
        0 <= r,
        r * r <= c * SCALE,
        c * SCALE < (r + 1) * (r + 1),
{
    let n = (c as u128) * (SCALE as u128);
    let r = isqrt_u128(n);
    proof {
        assert(r <= 0xffff_ffff_ffff_ffffu128) by (nonlinear_arith)
            requires
                r * r <= n,
                n < u128::MAX as int + 1,
        ;
    }
    r as i128
}

} // verus!
