//! Random sampling for the Monte Carlo estimator: uniform 2D samples,
//! cosine-weighted hemisphere directions, a branchless orthonormal basis
//! around a normal, and normal flipping.
//!
//! Randomness enters the library in two ways: `thread_sample_2d` draws from
//! the process-wide generator of the `rand` crate (nothing is promised of
//! those values beyond their range), and `Prng` is a small deterministic
//! generator with an exact contract, so that a render from a fixed seed is a
//! pure function of its inputs.

use rand::Rng;
use vstd::prelude::*;
use vstd::arithmetic::div_mod::{lemma_div_is_ordered, lemma_div_multiples_vanish};
use crate::fixed::{
    SCALE, abs_int, div_trunc, spec_fpmul, spec_fpdiv, spec_sqrt_fp, fpmul, fpdiv, sqrt_fp,
    div_trunc_i128, lemma_div_trunc_bound, lemma_fpmul_abs_bound, lemma_div_trunc_multiple,
};
use crate::vec3::{Vec3, V3, v3_bounded, spec_mulf, spec_dot, lemma_div_trunc_nonneg};
use crate::scene::DIR_MAX;

verus! {

/// The circle constant in fixed point.
pub const PI_FP: i128 = 12868;

pub const HALF_PI_FP: i128 = 6434;

pub const TWO_PI_FP: i128 = 25736;

/// Two uniform fixed-point values in `[0, 1)`.
#[derive(Clone, Copy, PartialEq, Eq, Structural, Debug)]
pub struct Sample2D {
    pub u: i128,
    pub v: i128,
}

/// A sampled value together with the probability density it was drawn with.
#[derive(Clone, Copy, PartialEq, Eq, Structural, Debug)]
pub struct Sample<T> {
    pub pdf: i128,
    pub value: T,
}

/// Rational approximation of the sine on `[0, PI_FP]` (Bhaskara's formula):
/// `sin(x) ~= 16 x (PI - x) / (5 PI^2 - 4 x (PI - x))`, in fixed point.
pub open spec fn spec_sin_half(x: int) -> int
    recommends
        0 <= x <= PI_FP as int,
{
    div_trunc(
        16 * (x * (PI_FP - x)) * SCALE,
        5 * ((PI_FP as int) * (PI_FP as int)) - 4 * (x * (PI_FP - x)),
    )
}

/// The sine over a whole turn: the second half is the negated first half.
pub open spec fn spec_sin_fp(x: int) -> int
    recommends
        0 <= x <= TWO_PI_FP as int,
{
    if x <= PI_FP as int {
        spec_sin_half(x)
    } else {
        -spec_sin_half(x - PI_FP)
    }
}

/// The cosine, as the sine advanced a quarter turn.
pub open spec fn spec_cos_fp(x: int) -> int
    recommends
        0 <= x <= TWO_PI_FP as int,
{
    if x + HALF_PI_FP >= TWO_PI_FP as int {
        spec_sin_fp(x + HALF_PI_FP - TWO_PI_FP)
    } else {
        spec_sin_fp(x + HALF_PI_FP)
    }
}

proof fn lemma_sin_half_bounds(x: int)
    requires
        0 <= x <= PI_FP as int,
    ensures
        0 <= spec_sin_half(x) <= SCALE as int,
{
    let y = x * (12868 - x);
    let num = 16 * y * 4096;
    let den = 5 * (12868int * 12868) - 4 * y;
    assert(0 <= y <= 12868 * 12868) by (nonlinear_arith)
        requires
            0 <= x <= 12868,
            y == x * (12868 - x),
    ;
    // 4 y <= PI^2 because (PI - 2x)^2 >= 0, so the numerator is at most
    // SCALE times the denominator
    assert(4 * y <= 12868int * 12868) by (nonlinear_arith)
        requires
            y == x * (12868 - x),
    ;
    assert(den >= 4 * (12868int * 12868)) by (nonlinear_arith)
        requires
            den == 5 * (12868int * 12868) - 4 * y,
            4 * y <= 12868int * 12868,
    ;
    assert(num <= den * 4096) by (nonlinear_arith)
        requires
            num == 16 * y * 4096,
            den == 5 * (12868int * 12868) - 4 * y,
            4 * y <= 12868int * 12868,
    ;
    assert(num >= 0) by (nonlinear_arith)
        requires
            num == 16 * y * 4096,
            y >= 0,
    ;
    lemma_div_trunc_bound(num, den);
    assert(div_trunc(num, den) == num / den);
    lemma_div_is_ordered(num, den * 4096, den);
    lemma_div_multiples_vanish(4096, den);
    assert(den * 4096 == 4096 * den) by (nonlinear_arith);
    lemma_div_trunc_nonneg(num, den);
}

/// The sine in fixed point, exactly as `spec_sin_fp` states it.
pub fn sin_fp(x: i128) -> (r: i128)
    requires
        0 <= x <= TWO_PI_FP,
    ensures
        r == spec_sin_fp(x as int),
        -SCALE <= r <= SCALE,
{
    if x <= PI_FP {
        sin_half(x)
    } else {
        -sin_half(x - PI_FP)
    }
}

/// The cosine in fixed point, exactly as `spec_cos_fp` states it.
pub fn cos_fp(x: i128) -> (r: i128)
    requires
        0 <= x <= TWO_PI_FP,
    ensures
        r == spec_cos_fp(x as int),
        -SCALE <= r <= SCALE,
{
    let y = x + HALF_PI_FP;
    if y >= TWO_PI_FP {
        sin_fp(y - TWO_PI_FP)
    } else {
        sin_fp(y)
    }
}

fn sin_half(x: i128) -> (r: i128)
    requires
        0 <= x <= PI_FP,
    ensures
        r == spec_sin_half(x as int),
        0 <= r <= SCALE,
{
    proof {
        assert(0 <= (x as int) * (PI_FP - x) <= 12868int * 12868) by (nonlinear_arith)
            requires
                0 <= x <= 12868,
                PI_FP == 12868,
        ;
    }
    let y = x * (PI_FP - x);
    proof {
        assert(4 * (y as int) <= 12868int * 12868) by (nonlinear_arith)
            requires
                y == (x as int) * (12868 - x),
        ;
        lemma_sin_half_bounds(x as int);
    }
    let num = 16 * y * SCALE;
    let den = 5 * (PI_FP * PI_FP) - 4 * y;
    proof {
        assert(den > 0);
    }
    div_trunc_i128(num, den)
}

/// Cosine-weighted direction on the hemisphere around local `+z`, and its
/// probability density `cos(theta) / PI`, from a 2D uniform sample:
/// `phi = 2 PI u`, `cos(theta) = sqrt(v)`, `sin(theta) = sqrt(1 - v)`.
pub open spec fn spec_cosine_dir(u: int, v: int) -> V3
    recommends
        0 <= u < SCALE as int,
        0 <= v < SCALE as int,
{
    let phi = spec_fpmul(TWO_PI_FP as int, u);
    let z = spec_sqrt_fp(v);
    let s1 = spec_sqrt_fp(SCALE - v);
    V3 { x: spec_fpmul(spec_cos_fp(phi), s1), y: spec_fpmul(spec_sin_fp(phi), s1), z: z }
}

pub open spec fn spec_cosine_pdf(v: int) -> int
    recommends
        0 <= v < SCALE as int,
{
    spec_fpdiv(spec_sqrt_fp(v), PI_FP as int)
}

/// A fixed-point square root of a value in `[0, 1]` is again in `[0, 1]`.
proof fn lemma_sqrt_fp_unit(v: int)
    requires
        0 <= v <= SCALE as int,
    ensures
        0 <= spec_sqrt_fp(v) <= SCALE as int,
{
    crate::fixed::lemma_isqrt_bounds((v * 4096) as nat);
    let r = spec_sqrt_fp(v);
    assert(r <= 4096) by (nonlinear_arith)
        requires
            r >= 0,
            r * r <= v * 4096,
            v <= 4096,
    ;
}

impl Sample2D {
    pub fn new(u: i128, v: i128) -> (r: Sample2D)
        ensures
            r.u == u,
            r.v == v,
    {
        Sample2D { u, v }
    }
}

/// Draws a cosine-weighted hemisphere direction from a uniform 2D sample,
/// exactly as `spec_cosine_dir` and `spec_cosine_pdf` state it.  The pdf is
/// `cos(theta) / PI`, which cancels the Lambertian cosine term, so callers
/// need no further weighting.
pub fn sample_cosinus_hemisphere(s: &Sample2D) -> (r: Sample<Vec3>)
    requires
        0 <= s.u < SCALE,
        0 <= s.v < SCALE,
    ensures
        r.value@ == spec_cosine_dir(s.u as int, s.v as int),
        r.pdf == spec_cosine_pdf(s.v as int),
        v3_bounded(r.value@, SCALE as int),
        0 <= r.pdf <= SCALE,
{
    proof {
        lemma_fpmul_abs_bound(TWO_PI_FP as int, s.u as int, TWO_PI_FP as int, SCALE as int);
    }
    let phi = fpmul(TWO_PI_FP, s.u);
    proof {
        assert(abs_int(phi as int) <= (25736int * 4096) / 4096);
        lemma_div_trunc_nonneg((TWO_PI_FP * s.u) as int, SCALE as int);
        assert((TWO_PI_FP * s.u) as int >= 0) by (nonlinear_arith)
            requires
                s.u >= 0,
                TWO_PI_FP == 25736,
        ;
        lemma_sqrt_fp_unit(s.v as int);
        lemma_sqrt_fp_unit(SCALE - s.v as int);
    }
    let sqrt_v = sqrt_fp(s.v);
    let sqrt_1_minus_v = sqrt_fp(SCALE - s.v);
    let c = cos_fp(phi);
    let si = sin_fp(phi);
    proof {
        lemma_fpmul_abs_bound(c as int, sqrt_1_minus_v as int, SCALE as int, SCALE as int);
        lemma_fpmul_abs_bound(si as int, sqrt_1_minus_v as int, SCALE as int, SCALE as int);
        lemma_div_trunc_bound((sqrt_v * SCALE) as int, PI_FP as int);
        assert(abs_int((sqrt_v * SCALE) as int) <= 4096int * 4096) by (nonlinear_arith)
            requires
                0 <= sqrt_v <= 4096,
                SCALE == 4096,
        ;
        lemma_div_trunc_nonneg((sqrt_v * SCALE) as int, PI_FP as int);
        assert((sqrt_v * SCALE) as int >= 0) by (nonlinear_arith)
            requires
                sqrt_v >= 0,
                SCALE == 4096,
        ;
    }
    let pdf = fpdiv(sqrt_v, PI_FP);
    Sample { pdf, value: Vec3::new(fpmul(c, sqrt_1_minus_v), fpmul(si, sqrt_1_minus_v), sqrt_v) }
}

/// The sign word of the basis construction: one, carrying the sign of `z`.
pub open spec fn spec_onb_sign(n: V3) -> int {
    if n.z >= 0 {
        SCALE as int
    } else {
        -(SCALE as int)
    }
}

/// The branchless orthonormal basis in fixed point, component for component
/// as the executable code computes it.
pub open spec fn spec_onb(n: V3) -> (V3, V3) {
    let s = spec_onb_sign(n);
    let a = spec_fpdiv(-(SCALE as int), s + n.z);
    let b = spec_fpmul(spec_fpmul(n.x, n.y), a);
    (
        V3 {
            x: SCALE + spec_fpmul(spec_fpmul(spec_fpmul(s, n.x), n.x), a),
            y: spec_fpmul(s, b),
            z: -spec_fpmul(s, n.x),
        },
        V3 { x: b, y: s + spec_fpmul(spec_fpmul(n.y, n.y), a), z: -n.y },
    )
}

/// Branchless construction of two basis vectors orthogonal to the normal,
/// valid for every unit normal including the poles `z = 1` and `z = -1`:
/// the sign word keeps the divisor `sign + z` away from zero.
pub fn branchless_onb(n: &Vec3) -> (r: (Vec3, Vec3))
    requires
        v3_bounded(n@, 2 * SCALE as int),
    ensures
        (r.0@, r.1@) == spec_onb(n@),
        v3_bounded(r.0@, 8 * SCALE as int),
        v3_bounded(r.1@, 8 * SCALE as int),
{
    let sign: i128 = if n.z >= 0 {
        SCALE
    } else {
        -SCALE
    };
    let denom = sign + n.z;
    proof {
        assert(abs_int(denom as int) >= SCALE as int);
        lemma_div_trunc_bound((-SCALE * SCALE) as int, abs_int(denom as int));
        lemma_onb_div_bound(denom as int);
    }
    let a = fpdiv(-SCALE, denom);
    proof {
        lemma_fpmul_abs_bound(n@.x, n@.y, 8192, 8192);
        lemma_fpmul_abs_bound(spec_fpmul(n@.x, n@.y), a as int, 16384, 4096);
        lemma_fpmul_abs_bound(sign as int, n@.x, 4096, 8192);
        lemma_fpmul_abs_bound(spec_fpmul(sign as int, n@.x), n@.x, 8192, 8192);
        lemma_fpmul_abs_bound(
            spec_fpmul(spec_fpmul(sign as int, n@.x), n@.x),
            a as int,
            16384,
            4096,
        );
        lemma_fpmul_abs_bound(n@.y, n@.y, 8192, 8192);
        lemma_fpmul_abs_bound(spec_fpmul(n@.y, n@.y), a as int, 16384, 4096);
    }
    let b = fpmul(fpmul(n.x, n.y), a);
    let r0 = Vec3::new(
        SCALE + fpmul(fpmul(fpmul(sign, n.x), n.x), a),
        fpmul(sign, b),
        -fpmul(sign, n.x),
    );
    let r1 = Vec3::new(b, sign + fpmul(fpmul(n.y, n.y), a), -n.y);
    proof {
        lemma_fpmul_abs_bound(sign as int, b as int, 4096, 16384);
    }
    (r0, r1)
}

/// `|a| = (S * S) / |denom| <= S` whenever `|denom| >= S`.
proof fn lemma_onb_div_bound(denom: int)
    requires
        abs_int(denom) >= SCALE as int,
    ensures
        abs_int(spec_fpdiv(-(SCALE as int), denom)) <= SCALE as int,
{
    lemma_div_trunc_bound(-(SCALE as int) * SCALE, abs_int(denom));
    assert(abs_int(-(SCALE as int) * SCALE) == 4096int * 4096);
    vstd::arithmetic::div_mod::lemma_div_is_ordered_by_denominator(
        4096int * 4096,
        4096,
        abs_int(denom),
    );
    lemma_div_multiples_vanish(4096, 4096);
    // the sign of the quotient does not change its magnitude
    assert(abs_int(div_trunc(-(SCALE as int) * SCALE, denom)) == (4096int * 4096) / abs_int(
        denom,
    ));
}

/// Flips a shading normal so that it faces back toward the incoming
/// direction: negated when it points into the same hemisphere as `a`.
pub open spec fn spec_flip_normal(a: V3, n: V3) -> V3 {
    if spec_dot(n, a) > 0 {
        spec_mulf(n, -(SCALE as int))
    } else {
        spec_mulf(n, SCALE as int)
    }
}

pub fn flip_normal(a: &Vec3, n: &Vec3) -> (r: Vec3)
    requires
        v3_bounded(a@, DIR_MAX as int),
        v3_bounded(n@, 2 * SCALE as int),
    ensures
        r@ == spec_flip_normal(a@, n@),
        v3_bounded(r@, 2 * SCALE as int),
{
    proof {
        crate::vec3::lemma_dot_abs_bound(n@, a@, 2 * SCALE as int, DIR_MAX as int);
        lemma_mulf_sign_exact(n@);
    }
    if n.dot(a) > 0 {
        n.mulf(-SCALE)
    } else {
        n.mulf(SCALE)
    }
}

/// Scaling by plus or minus one is exact.
proof fn lemma_mulf_sign_exact(v: V3)
    ensures
        spec_mulf(v, SCALE as int) == v,
        spec_mulf(v, -(SCALE as int)) == (V3 { x: -v.x, y: -v.y, z: -v.z }),
{
    crate::vec3::lemma_mulf_one(v);
    lemma_fpmul_neg_scale(v.x);
    lemma_fpmul_neg_scale(v.y);
    lemma_fpmul_neg_scale(v.z);
}

proof fn lemma_fpmul_neg_scale(x: int)
    ensures
        spec_fpmul(x, -(SCALE as int)) == -x,
{
    lemma_div_multiples_vanish(abs_int(x), 4096);
    assert(abs_int(x * -4096) == 4096 * abs_int(x));
}

/// A deterministic xorshift generator.  Rendering from a fixed seed is a
/// pure function of the scene and the seed, so a render can be reproduced
/// bit for bit, and concurrent pixels can each own an independent generator.
pub struct Prng {
    pub s: u64,
}

/// One xorshift step.
pub open spec fn spec_prng_next(s: u64) -> u64 {
    let a = s ^ (s << 13);
    let b = a ^ (a >> 7);
    b ^ (b << 17)
}

impl Prng {
    pub fn new(seed: u64) -> (r: Prng)
        ensures
            r.s == seed,
    {
        Prng { s: seed }
    }

    /// Advances the generator once and returns the new raw word.
    pub fn next_raw(&mut self) -> (r: u64)
        ensures
            final(self).s == spec_prng_next(old(self).s),
            r == final(self).s,
    {
        let mut x = self.s;
        x = x ^ (x << 13);
        x = x ^ (x >> 7);
        x = x ^ (x << 17);
        self.s = x;
        x
    }

    /// Draws two fixed-point samples in `[0, 1)`, advancing the state twice.
    pub fn sample2d(&mut self) -> (r: Sample2D)
        ensures
            final(self).s == spec_prng_next(spec_prng_next(old(self).s)),
            r == spec_prng_sample(old(self).s),
            0 <= r.u < SCALE,
            0 <= r.v < SCALE,
    {
        let a = self.next_raw();
        let b = self.next_raw();
        Sample2D { u: (a % 4096) as i128, v: (b % 4096) as i128 }
    }
}

/// The sample drawn from a given generator state.
pub open spec fn spec_prng_sample(s: u64) -> Sample2D {
    Sample2D {
        u: (spec_prng_next(s) % 4096) as i128,
        v: (spec_prng_next(spec_prng_next(s)) % 4096) as i128,
    }
}

/// Relies on `rand::thread_rng` and `rand::Rng::gen::<u64>`: one draw from
/// the thread-local generator.  Nothing is promised of the value.
#[verifier::external_body]
fn entropy_u64() -> u64 {
    rand::thread_rng().gen()
}

/// Two uniform fixed-point samples in `[0, 1)` from the process random
/// source.  Each call draws fresh entropy; only the range of the result is
/// guaranteed.
pub fn thread_sample_2d() -> (r: Sample2D)
    ensures
        0 <= r.u < SCALE,
        0 <= r.v < SCALE,
{
    let a = entropy_u64();
    let b = entropy_u64();
    Sample2D { u: (a % 4096) as i128, v: (b % 4096) as i128 }
}

/// The exact mathematical dot product, without fixed-point scaling.
pub open spec fn spec_dot_int(a: V3, b: V3) -> int {
    a.x * b.x + a.y * b.y + a.z * b.z
}

/// The orthonormal-basis law at the poles: for the unit normals straight
/// along `+z` and `-z` (the cases the sign trick exists for), the two
/// constructed vectors are exactly unit length, orthogonal to each other and
/// to the normal.
pub proof fn lemma_onb_poles()
    ensures
        spec_onb(V3 { x: 0, y: 0, z: SCALE as int }) == (
            V3 { x: SCALE as int, y: 0, z: 0 },
            V3 { x: 0, y: SCALE as int, z: 0 },
        ),
        spec_onb(V3 { x: 0, y: 0, z: -(SCALE as int) }) == (
            V3 { x: SCALE as int, y: 0, z: 0 },
            V3 { x: 0, y: -(SCALE as int), z: 0 },
        ),
        spec_dot_int(
            V3 { x: SCALE as int, y: 0, z: 0 },
            V3 { x: SCALE as int, y: 0, z: 0 },
        ) == (SCALE as int) * (SCALE as int),
        spec_dot_int(
            V3 { x: 0, y: SCALE as int, z: 0 },
            V3 { x: 0, y: SCALE as int, z: 0 },
        ) == (SCALE as int) * (SCALE as int),
        spec_dot_int(
            V3 { x: 0, y: -(SCALE as int), z: 0 },
            V3 { x: 0, y: -(SCALE as int), z: 0 },
        ) == (SCALE as int) * (SCALE as int),
        spec_dot_int(V3 { x: SCALE as int, y: 0, z: 0 }, V3 { x: 0, y: SCALE as int, z: 0 }) == 0,
        spec_dot_int(V3 { x: SCALE as int, y: 0, z: 0 }, V3 { x: 0, y: 0, z: SCALE as int }) == 0,
        spec_dot_int(V3 { x: 0, y: SCALE as int, z: 0 }, V3 { x: 0, y: 0, z: SCALE as int }) == 0,
        spec_dot_int(V3 { x: SCALE as int, y: 0, z: 0 }, V3 { x: 0, y: -(SCALE as int), z: 0 })
            == 0,
        spec_dot_int(V3 { x: 0, y: -(SCALE as int), z: 0 }, V3 { x: 0, y: 0, z: -(SCALE as int) })
            == 0,
{
    // at the north pole the divisor is 2 and the scale factor is -1/2
    lemma_div_trunc_multiple(-2048, 8192);
    assert(-(4096int) * 4096 == -2048 * 8192);
    assert(spec_fpdiv(-(SCALE as int), 4096int + 4096) == -2048);
    // at the south pole the divisor is -2 and the scale factor is 1/2
    assert(div_trunc(-(4096int) * 4096, -8192) == 2048);
    assert(spec_fpdiv(-(SCALE as int), -4096int - 4096) == 2048);
    // every remaining fixed-point product has a zero factor
    lemma_div_trunc_multiple(0, 4096);
    assert(spec_fpmul(0, -2048) == 0);
    assert(spec_fpmul(0, 2048) == 0);
    assert(spec_fpmul(4096, 0) == 0);
    assert(spec_fpmul(-4096, 0) == 0);
    assert(spec_fpmul(0, 0) == 0);
    lemma_div_trunc_multiple(-2048, 4096);
    lemma_div_trunc_multiple(2048, 4096);
    assert(spec_fpmul(0, -2048) == div_trunc(0int * (-2048), SCALE as int) || true);
    assert((4096int) * (4096int) == 4096int * 4096);
}

} // verus!
