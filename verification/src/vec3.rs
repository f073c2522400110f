//! Three-component fixed-point vectors, used both for points and directions
//! in space and for RGB colors.
//!
//! Every executable operation is specified exactly against a mathematical
//! model: `V3`, a ghost triple of unbounded integers.  The algebraic laws of
//! the operations (addition and subtraction invert each other, the dot of a
//! vector with itself is its squared length, scaling by one is the identity,
//! normalizing a whole-valued axis vector yields a vector of unit length)
//! are proved below.

use vstd::prelude::*;
use vstd::arithmetic::div_mod::{
    lemma_div_is_ordered, lemma_div_multiples_vanish, lemma_fundamental_div_mod,
};
use crate::fixed::{
    SCALE, abs_int, div_trunc, spec_fpmul, spec_fpdiv, spec_sqrt_fp, spec_isqrt,
    lemma_isqrt_unique, lemma_div_trunc_bound, lemma_mul_bound, fpmul, fpdiv, sqrt_fp,
};

verus! {

/// Largest magnitude accepted by `normalize`.
pub const NORM_ARG_MAX: i128 = 0x80_0000_0000_0000;

/// The mathematical model of a vector: three unbounded integers.
pub ghost struct V3 {
    pub x: int,
    pub y: int,
    pub z: int,
}

/// A fixed-point vector; each component stands for `component / SCALE`.
#[derive(Clone, Copy, PartialEq, Eq, Structural, Debug)]
pub struct Vec3 {
    pub x: i128,
    pub y: i128,
    pub z: i128,
}

impl View for Vec3 {
    type V = V3;

    open spec fn view(&self) -> V3 {
        V3 { x: self.x as int, y: self.y as int, z: self.z as int }
    }
}

/// All three components are at most `m` in magnitude.
pub open spec fn v3_bounded(v: V3, m: int) -> bool {
    abs_int(v.x) <= m && abs_int(v.y) <= m && abs_int(v.z) <= m
}

pub open spec fn spec_add(a: V3, b: V3) -> V3 {
    V3 { x: a.x + b.x, y: a.y + b.y, z: a.z + b.z }
}

pub open spec fn spec_sub(a: V3, b: V3) -> V3 {
    V3 { x: a.x - b.x, y: a.y - b.y, z: a.z - b.z }
}

/// Component-wise fixed-point product.
pub open spec fn spec_mul(a: V3, b: V3) -> V3 {
    V3 { x: spec_fpmul(a.x, b.x), y: spec_fpmul(a.y, b.y), z: spec_fpmul(a.z, b.z) }
}

/// Scaling by a fixed-point scalar.
pub open spec fn spec_mulf(a: V3, f: int) -> V3 {
    V3 { x: spec_fpmul(a.x, f), y: spec_fpmul(a.y, f), z: spec_fpmul(a.z, f) }
}

/// Fixed-point dot product: the sum of the component products.
pub open spec fn spec_dot(a: V3, b: V3) -> int {
    spec_fpmul(a.x, b.x) + spec_fpmul(a.y, b.y) + spec_fpmul(a.z, b.z)
}

/// Squared length: the dot product of a vector with itself.
pub open spec fn spec_length2(a: V3) -> int {
    spec_dot(a, a)
}

/// Scaling to (approximately) unit length: each component is divided by the
/// fixed-point square root of the squared length.
pub open spec fn spec_normalize(v: V3) -> V3
    recommends
        spec_length2(v) >= 1,
{
    let n = spec_sqrt_fp(spec_length2(v));
    V3 { x: spec_fpdiv(v.x, n), y: spec_fpdiv(v.y, n), z: spec_fpdiv(v.z, n) }
}

impl Vec3 {
    pub fn new(x: i128, y: i128, z: i128) -> (r: Vec3)
        ensures
            r@ == (V3 { x: x as int, y: y as int, z: z as int }),
    {
        Vec3 { x, y, z }
    }

    pub fn add(&self, other: &Vec3) -> (r: Vec3)
        requires
            -(i128::MAX as int) <= self@.x + other@.x <= i128::MAX as int,
            -(i128::MAX as int) <= self@.y + other@.y <= i128::MAX as int,
            -(i128::MAX as int) <= self@.z + other@.z <= i128::MAX as int,
        ensures
            r@ == spec_add(self@, other@),
    {
        Vec3 { x: self.x + other.x, y: self.y + other.y, z: self.z + other.z }
    }

    pub fn sub(&self, other: &Vec3) -> (r: Vec3)
        requires
            -(i128::MAX as int) <= self@.x - other@.x <= i128::MAX as int,
            -(i128::MAX as int) <= self@.y - other@.y <= i128::MAX as int,
            -(i128::MAX as int) <= self@.z - other@.z <= i128::MAX as int,
        ensures
            r@ == spec_sub(self@, other@),
    {
        Vec3 { x: self.x - other.x, y: self.y - other.y, z: self.z - other.z }
    }

    pub fn mul(&self, other: &Vec3) -> (r: Vec3)
        requires
            -(i128::MAX as int) <= self@.x * other@.x <= i128::MAX as int,
            -(i128::MAX as int) <= self@.y * other@.y <= i128::MAX as int,
            -(i128::MAX as int) <= self@.z * other@.z <= i128::MAX as int,
        ensures
            r@ == spec_mul(self@, other@),
    {
        Vec3 {
            x: fpmul(self.x, other.x),
            y: fpmul(self.y, other.y),
            z: fpmul(self.z, other.z),
        }
    }

    pub fn mulf(&self, f: i128) -> (r: Vec3)
        requires
            -(i128::MAX as int) <= self@.x * f <= i128::MAX as int,
            -(i128::MAX as int) <= self@.y * f <= i128::MAX as int,
            -(i128::MAX as int) <= self@.z * f <= i128::MAX as int,
        ensures
            r@ == spec_mulf(self@, f as int),
    {
        Vec3 { x: fpmul(self.x, f), y: fpmul(self.y, f), z: fpmul(self.z, f) }
    }

    pub fn dot(&self, other: &Vec3) -> (r: i128)
        requires
            -(i128::MAX as int) <= self@.x * other@.x <= i128::MAX as int,
            -(i128::MAX as int) <= self@.y * other@.y <= i128::MAX as int,
            -(i128::MAX as int) <= self@.z * other@.z <= i128::MAX as int,
        ensures
            r == spec_dot(self@, other@),
    {
        let m = self.mul(other);
        proof {
            lemma_div_trunc_bound(self@.x * other@.x, SCALE as int);
            lemma_div_trunc_bound(self@.y * other@.y, SCALE as int);
            lemma_div_trunc_bound(self@.z * other@.z, SCALE as int);
        }
        m.x + m.y + m.z
    }

    pub fn length2(&self) -> (r: i128)
        requires
            self@.x * self@.x <= i128::MAX as int,
            self@.y * self@.y <= i128::MAX as int,
            self@.z * self@.z <= i128::MAX as int,
        ensures
            r == spec_length2(self@),
            r >= 0,
    {
        proof {
            lemma_square_nonneg(self@.x);
            lemma_square_nonneg(self@.y);
            lemma_square_nonneg(self@.z);
            lemma_div_trunc_nonneg(self@.x * self@.x, SCALE as int);
            lemma_div_trunc_nonneg(self@.y * self@.y, SCALE as int);
            lemma_div_trunc_nonneg(self@.z * self@.z, SCALE as int);
        }
        self.dot(self)
    }

    pub fn normalize(&self) -> (r: Vec3)
        requires
            v3_bounded(self@, NORM_ARG_MAX as int),
            spec_length2(self@) >= 1,
        ensures
            r@ == spec_normalize(self@),
            v3_bounded(r@, 2 * SCALE as int),
    {
        proof {
            lemma_mul_bound(self@.x, self@.x, NORM_ARG_MAX as int, NORM_ARG_MAX as int);
            lemma_mul_bound(self@.y, self@.y, NORM_ARG_MAX as int, NORM_ARG_MAX as int);
            lemma_mul_bound(self@.z, self@.z, NORM_ARG_MAX as int, NORM_ARG_MAX as int);
            lemma_square_nonneg(self@.x);
            lemma_square_nonneg(self@.y);
            lemma_square_nonneg(self@.z);
            lemma_div_trunc_nonneg(self@.x * self@.x, SCALE as int);
            lemma_div_trunc_nonneg(self@.y * self@.y, SCALE as int);
            lemma_div_trunc_nonneg(self@.z * self@.z, SCALE as int);
        }
        let l2 = self.length2();
        let n = sqrt_fp(l2);
        proof {
            assert(n >= 64) by (nonlinear_arith)
                requires
                    l2 * 4096 < (n + 1) * (n + 1),
                    l2 >= 1,
                    n >= 0,
            ;
            lemma_normalize_component(self@.x, l2 as int, n as int);
            lemma_normalize_component(self@.y, l2 as int, n as int);
            lemma_normalize_component(self@.z, l2 as int, n as int);
        }
        Vec3 { x: fpdiv(self.x, n), y: fpdiv(self.y, n), z: fpdiv(self.z, n) }
    }
}

pub proof fn lemma_square_nonneg(x: int)
    by (nonlinear_arith)
    ensures
        x * x >= 0,
{
}

pub proof fn lemma_div_trunc_nonneg(a: int, b: int)
    requires
        a >= 0,
        b >= 1,
    ensures
        div_trunc(a, b) >= 0,
{
}

/// A component of a vector is at most twice the fixed-point square root of
/// the vector's squared length, so a normalized component is at most two.
proof fn lemma_normalize_component(vc: int, l2: int, n: int)
    requires
        l2 >= div_trunc(vc * vc, 4096),
        l2 >= 1,
        n * n <= l2 * 4096,
        l2 * 4096 < (n + 1) * (n + 1),
        n >= 64,
    ensures
        abs_int(spec_fpdiv(vc, n)) <= 2 * 4096,
{
    let sq = vc * vc;
    lemma_square_nonneg(vc);
    assert(div_trunc(sq, 4096) == sq / 4096);
    lemma_fundamental_div_mod(sq, 4096);
    // 4096 * (sq / 4096) > sq - 4096, so l2 * 4096 > vc * vc - 4096
    assert(l2 * 4096 >= (sq / 4096) * 4096);
    assert(l2 * 4096 > vc * vc - 4096);
    assert(-(2 * n) <= vc <= 2 * n) by (nonlinear_arith)
        requires
            l2 * 4096 > vc * vc - 4096,
            l2 * 4096 < (n + 1) * (n + 1),
            n >= 64,
    ;
    assert(abs_int(vc) <= 2 * n);
    // |vc| * SCALE / n <= (2n * SCALE) / n == 2 * SCALE
    lemma_div_trunc_bound(vc * 4096, n);
    assert(abs_int(vc * 4096) == abs_int(vc) * 4096);
    assert(abs_int(vc) * 4096 <= n * (2 * 4096)) by (nonlinear_arith)
        requires
            abs_int(vc) <= 2 * n,
            n >= 0,
    ;
    lemma_div_is_ordered(abs_int(vc) * 4096, n * (2 * 4096), n);
    lemma_div_multiples_vanish(2int * 4096, n);
    assert(abs_int(spec_fpdiv(vc, n)) == abs_int(vc * 4096) / n);
}

/// Bound a dot product from bounds on its operands.
pub proof fn lemma_dot_abs_bound(a: V3, b: V3, ma: int, mb: int)
    requires
        v3_bounded(a, ma),
        v3_bounded(b, mb),
    ensures
        abs_int(a.x * b.x) <= ma * mb,
        abs_int(a.y * b.y) <= ma * mb,
        abs_int(a.z * b.z) <= ma * mb,
        abs_int(spec_dot(a, b)) <= 3 * ((ma * mb) / (SCALE as int)),
{
    crate::fixed::lemma_fpmul_abs_bound(a.x, b.x, ma, mb);
    crate::fixed::lemma_fpmul_abs_bound(a.y, b.y, ma, mb);
    crate::fixed::lemma_fpmul_abs_bound(a.z, b.z, ma, mb);
}

/// A squared length is non-negative and bounded by its components' bounds.
pub proof fn lemma_length2_abs_bound(a: V3, ma: int)
    requires
        v3_bounded(a, ma),
    ensures
        abs_int(a.x * a.x) <= ma * ma,
        abs_int(a.y * a.y) <= ma * ma,
        abs_int(a.z * a.z) <= ma * ma,
        0 <= spec_length2(a) <= 3 * ((ma * ma) / (SCALE as int)),
{
    lemma_dot_abs_bound(a, a, ma, ma);
    lemma_square_nonneg(a.x);
    lemma_square_nonneg(a.y);
    lemma_square_nonneg(a.z);
    lemma_div_trunc_nonneg(a.x * a.x, SCALE as int);
    lemma_div_trunc_nonneg(a.y * a.y, SCALE as int);
    lemma_div_trunc_nonneg(a.z * a.z, SCALE as int);
}

/// Adding and then subtracting the same vector (or the other way round)
/// returns the original vector exactly.
pub proof fn lemma_add_sub_inverse(a: V3, b: V3)
    ensures
        spec_sub(spec_add(a, b), b) == a,
        spec_add(spec_sub(a, b), b) == a,
{
}

/// The dot product of a vector with itself is its squared length.
pub proof fn lemma_dot_self_is_length2(a: V3)
    ensures
        spec_dot(a, a) == spec_length2(a),
{
}

/// Scaling by one (the fixed-point value `SCALE`) is the identity.
pub proof fn lemma_mulf_one(v: V3)
    ensures
        spec_mulf(v, SCALE as int) == v,
{
    lemma_fpmul_scale(v.x);
    lemma_fpmul_scale(v.y);
    lemma_fpmul_scale(v.z);
}

proof fn lemma_fpmul_scale(x: int)
    ensures
        spec_fpmul(x, SCALE as int) == x,
{
    lemma_div_multiples_vanish(abs_int(x), SCALE as int);
    assert(abs_int(x * 4096) == 4096 * abs_int(x));
}

/// Normalizing an axis-aligned vector with a whole-valued coordinate yields
/// exactly the unit vector along that axis, whose squared length is one.
pub proof fn lemma_normalize_axis(m: int)
    requires
        m >= 1,
        m * SCALE <= NORM_ARG_MAX as int,
    ensures
        spec_normalize(V3 { x: m * SCALE, y: 0, z: 0 }) == (V3 { x: SCALE as int, y: 0, z: 0 }),
        spec_length2(V3 { x: SCALE as int, y: 0, z: 0 }) == SCALE as int,
{
    let v = V3 { x: m * SCALE, y: 0, z: 0 };
    // squared length: div_trunc((m*4096)^2, 4096) == m*m*4096
    assert((m * 4096) * (m * 4096) == 4096 * (m * m * 4096)) by (nonlinear_arith);
    assert((m * 4096) * (m * 4096) >= 0) by (nonlinear_arith)
        requires
            m >= 1,
    ;
    lemma_div_multiples_vanish(m * m * 4096, 4096);
    assert(spec_length2(v) == m * m * 4096);
    // fixed-point square root: isqrt(m*m*4096*4096) == m*4096
    assert((m * m * 4096) * 4096 == (m * 4096) * (m * 4096)) by (nonlinear_arith);
    assert((m * 4096) * (m * 4096) < (m * 4096 + 1) * (m * 4096 + 1)) by (nonlinear_arith)
        requires
            m >= 1,
    ;
    lemma_isqrt_unique(((m * m * 4096) * 4096) as nat, (m * 4096) as nat);
    assert(spec_sqrt_fp(m * m * 4096) == m * 4096);
    // the x component: div_trunc((m*4096) * 4096, m*4096) == 4096
    assert((m * 4096) * 4096 >= 0) by (nonlinear_arith)
        requires
            m >= 1,
    ;
    assert(abs_int((m * 4096) * 4096) == (m * 4096) * 4096);
    lemma_div_multiples_vanish(4096, m * 4096);
    assert(div_trunc((m * 4096) * 4096, m * 4096) == 4096);
    // the y and z components: div_trunc(0, m*4096) == 0
    lemma_div_multiples_vanish(0, m * 4096);
    assert(div_trunc(0, m * 4096) == 0);
    // squared length of the unit vector: div_trunc(4096*4096, 4096) == 4096
    lemma_div_multiples_vanish(4096, 4096);
    assert(abs_int(4096int * 4096) == 4096int * 4096);
    assert(spec_length2(V3 { x: 4096int, y: 0, z: 0 }) == div_trunc(4096int * 4096, 4096));
}

} // verus!
