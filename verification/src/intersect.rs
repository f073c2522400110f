//! Ray-sphere intersection and the nearest-hit scan over a scene.
//!
//! A hit is found by solving the quadratic `a*t^2 + b*t + c = 0` with
//! `a = |d|^2`, `b = -2 * d . (C - O)`, `c = |C - O|^2 - r^2`.  The smaller
//! root is preferred when it is non-negative, else the larger; a negative
//! discriminant or two negative roots mean no hit, so a hit is never
//! reported behind the ray origin.

use vstd::prelude::*;
use vstd::arithmetic::div_mod::{lemma_div_is_ordered, lemma_div_is_ordered_by_denominator};
use crate::fixed::{
    SCALE, abs_int, spec_fpmul, spec_fpdiv, spec_sqrt_fp, fpmul, fpdiv, sqrt_fp,
    lemma_mul_bound, lemma_div_trunc_bound, lemma_fpmul_abs_bound, lemma_div_trunc_multiple,
    lemma_isqrt_unique,
};
use crate::vec3::{
    V3, v3_bounded, spec_add, spec_sub, spec_dot, spec_length2, lemma_dot_abs_bound,
    lemma_length2_abs_bound,
};
use crate::scene::{
    Sphere, SphereV, Ray, RayV, Scene, SceneV, Intersect, IntersectV, sphere_wf, scene_wf,
    COORD_MAX, ORIGIN_MAX, DIR_MAX, T_MAX,
};

verus! {

/// The hit distance reported by `intersect`, as a mathematical function of
/// the sphere and the ray.
pub open spec fn spec_intersect(s: SphereV, r: RayV) -> Option<int> {
    let oc = spec_sub(s.center, r.origin);
    let a = spec_length2(r.direction);
    let b = -2 * spec_dot(r.direction, oc);
    let c = spec_length2(oc) - spec_fpmul(s.radius, s.radius);
    if a <= 0 {
        None
    } else {
        let det = spec_fpmul(b, b) - spec_fpmul(4 * a, c);
        if det < 0 {
            None
        } else {
            let ds = spec_sqrt_fp(det);
            let t = spec_fpdiv(-b - ds, 2 * a);
            if t >= 0 {
                Some(t)
            } else {
                let t2 = spec_fpdiv(-b + ds, 2 * a);
                if t2 >= 0 {
                    Some(t2)
                } else {
                    None
                }
            }
        }
    }
}

/// Hit test of a single sphere.  Returns the distance parameter of the
/// nearest hit in front of the ray origin, exactly as `spec_intersect`
/// describes it.
pub fn intersect(sphere: &Sphere, ray: &Ray) -> (res: Option<i128>)
    requires
        sphere_wf(sphere@),
        v3_bounded(ray@.origin, ORIGIN_MAX as int),
        v3_bounded(ray@.direction, DIR_MAX as int),
    ensures
        res is Some <==> spec_intersect(sphere@, ray@) is Some,
        res is Some ==> res->0 == spec_intersect(sphere@, ray@)->0,
        res is Some ==> 0 <= res->0 <= T_MAX,
{
    let oc = sphere.center.sub(&ray.origin);
    proof {
        assert(v3_bounded(oc@, 0x80_0000_0000_0000));
        lemma_length2_abs_bound(ray@.direction, DIR_MAX as int);
        lemma_dot_abs_bound(ray@.direction, oc@, DIR_MAX as int, 0x80_0000_0000_0000);
        lemma_length2_abs_bound(oc@, 0x80_0000_0000_0000);
        lemma_fpmul_abs_bound(sphere@.radius, sphere@.radius, COORD_MAX as int, COORD_MAX as int);
    }
    let a = ray.direction.length2();
    let dot_doc = ray.direction.dot(&oc);
    proof {
        // |dot_doc| <= 3 * (2^17 * 2^55 / 2^12) == 3 * 2^60
        assert(abs_int(dot_doc as int) <= 0x3000_0000_0000_0000);
        assert(-0x3000_0000_0000_0000 <= dot_doc as int <= 0x3000_0000_0000_0000);
    }
    let b = -(dot_doc + dot_doc);
    proof {
        assert(b == -2 * spec_dot(ray@.direction, oc@)) by (nonlinear_arith)
            requires
                b == -(dot_doc + dot_doc),
                dot_doc == spec_dot(ray@.direction, oc@),
        ;
    }
    let l2oc = oc.length2();
    let rr = fpmul(sphere.radius, sphere.radius);
    proof {
        crate::vec3::lemma_square_nonneg(sphere@.radius);
        crate::vec3::lemma_div_trunc_nonneg(sphere@.radius * sphere@.radius, SCALE as int);
    }
    let c = l2oc - rr;
    if a == 0 {
        return None;
    }
    proof {
        // |b| <= 6 * 2^60, so |b * b| <= 36 * 2^120 fits in an i128
        lemma_fpmul_abs_bound(b as int, b as int, 0x6000_0000_0000_0000, 0x6000_0000_0000_0000);
        // |4a| <= 3 * 2^24 and |c| <= 3 * 2^98 + 2^68 < 2^100
        lemma_fpmul_abs_bound(
            4 * (a as int),
            c as int,
            0x300_0000,
            0x10_0000_0000_0000_0000_0000_0000int,
        );
    }
    let bb = fpmul(b, b);
    let fourac = fpmul(4 * a, c);
    let det = bb - fourac;
    if det < 0 {
        return None;
    }
    let ds = sqrt_fp(det);
    proof {
        assert(ds <= 0x1_0000_0000_0000_0000) by (nonlinear_arith)
            requires
                0 <= ds,
                ds * ds <= det * 4096,
                det * 4096
                    <= 0x1_0000_0000_0000_0000 * 0x1_0000_0000_0000_0000,
        ;
    }
    let nb = -b;
    let num1 = nb - ds;
    let t = fpdiv(num1, 2 * a);
    proof {
        lemma_t_bound(num1 as int, a as int);
    }
    if t >= 0 {
        return Some(t);
    }
    let num2 = nb + ds;
    let t2 = fpdiv(num2, 2 * a);
    proof {
        lemma_t_bound(num2 as int, a as int);
    }
    if t2 >= 0 {
        return Some(t2);
    }
    None
}

/// The nearest hit over the first `k` spheres of a scene, ties broken in
/// favor of the sphere that comes first.
pub open spec fn spec_intersect_prefix(spheres: Seq<SphereV>, r: RayV, k: int) -> Option<
    IntersectV,
>
    decreases k,
{
    if k <= 0 {
        None
    } else {
        let prev = spec_intersect_prefix(spheres, r, k - 1);
        match spec_intersect(spheres[k - 1], r) {
            Option::None => prev,
            Option::Some(t) => match prev {
                Option::None => Some(IntersectV { t: t, sphere: k - 1 }),
                Option::Some(p) => if t < p.t {
                    Some(IntersectV { t: t, sphere: k - 1 })
                } else {
                    prev
                },
            },
        }
    }
}

/// The nearest hit over a whole scene.
pub open spec fn spec_intersect_scene(sc: SceneV, r: RayV) -> Option<IntersectV> {
    spec_intersect_prefix(sc.spheres, r, sc.spheres.len() as int)
}

/// Linear scan for the nearest hit among all spheres of the scene.  The
/// intersection with the smallest distance wins; on a tie the sphere
/// encountered first is kept.
pub fn intersect_scene(scene: &Scene, ray: &Ray) -> (res: Option<Intersect>)
    requires
        scene_wf(scene@),
        v3_bounded(ray@.origin, ORIGIN_MAX as int),
        v3_bounded(ray@.direction, DIR_MAX as int),
    ensures
        res is Some <==> spec_intersect_scene(scene@, ray@) is Some,
        res is Some ==> res->0@ == spec_intersect_scene(scene@, ray@)->0,
        res is Some ==> 0 <= res->0.t <= T_MAX && res->0.sphere < scene.spheres@.len(),
{
    let ghost spheres = scene@.spheres;
    let n = scene.spheres.len();
    let mut res: Option<Intersect> = None;
    let mut i: usize = 0;
    while i < n
        invariant
            scene_wf(scene@),
            v3_bounded(ray@.origin, ORIGIN_MAX as int),
            v3_bounded(ray@.direction, DIR_MAX as int),
            spheres == scene@.spheres,
            n == scene.spheres@.len(),
            spheres.len() == n,
            0 <= i <= n,
            res is Some <==> spec_intersect_prefix(spheres, ray@, i as int) is Some,
            res is Some ==> res->0@ == spec_intersect_prefix(spheres, ray@, i as int)->0,
            res is Some ==> 0 <= res->0.t <= T_MAX && res->0.sphere < i,
        decreases n - i,
    {
        let sphere = scene.spheres[i];
        proof {
            assert(sphere@ == spheres[i as int]);
            assert(sphere_wf(spheres[i as int]));
        }
        let cur = intersect(&sphere, ray);
        match cur {
            Option::None => {},
            Option::Some(t) => {
                match res {
                    Option::None => {
                        res = Some(Intersect { t: t, sphere: i });
                    },
                    Option::Some(p) => {
                        if t < p.t {
                            res = Some(Intersect { t: t, sphere: i });
                        }
                    },
                }
            },
        }
        i = i + 1;
        proof {
            assert(spec_intersect_prefix(spheres, ray@, i as int) == {
                let prev = spec_intersect_prefix(spheres, ray@, i - 1);
                match spec_intersect(spheres[i - 1], ray@) {
                    Option::None => prev,
                    Option::Some(t) => match prev {
                        Option::None => Some(IntersectV { t: t, sphere: i - 1 }),
                        Option::Some(p) => if t < p.t {
                            Some(IntersectV { t: t, sphere: i - 1 })
                        } else {
                            prev
                        },
                    },
                }
            });
        }
    }
    res
}

/// The scan returns the globally nearest hit: when it reports a sphere, that
/// sphere's hit distance is no larger than any other sphere's, every earlier
/// sphere hits strictly farther away, and when it reports nothing, no sphere
/// is hit at all.
pub proof fn lemma_intersect_scene_nearest(sc: SceneV, r: RayV)
    ensures
        spec_intersect_scene(sc, r) is None ==> forall|j: int|
            0 <= j < sc.spheres.len() ==> spec_intersect(#[trigger] sc.spheres[j], r) is None,
        spec_intersect_scene(sc, r) is Some ==> {
            let h = spec_intersect_scene(sc, r)->0;
            &&& 0 <= h.sphere < sc.spheres.len()
            &&& spec_intersect(sc.spheres[h.sphere], r) == Some(h.t)
            &&& forall|j: int|
                0 <= j < sc.spheres.len() && spec_intersect(#[trigger] sc.spheres[j], r) is Some
                    ==> h.t <= spec_intersect(sc.spheres[j], r)->0
            &&& forall|j: int|
                0 <= j < h.sphere && spec_intersect(#[trigger] sc.spheres[j], r) is Some
                    ==> h.t < spec_intersect(sc.spheres[j], r)->0
        },
{
    lemma_prefix_nearest(sc.spheres, r, sc.spheres.len() as int);
}

proof fn lemma_prefix_nearest(spheres: Seq<SphereV>, r: RayV, k: int)
    requires
        0 <= k <= spheres.len(),
    ensures
        spec_intersect_prefix(spheres, r, k) is None ==> forall|j: int|
            0 <= j < k ==> spec_intersect(#[trigger] spheres[j], r) is None,
        spec_intersect_prefix(spheres, r, k) is Some ==> {
            let h = spec_intersect_prefix(spheres, r, k)->0;
            &&& 0 <= h.sphere < k
            &&& spec_intersect(spheres[h.sphere], r) == Some(h.t)
            &&& forall|j: int|
                0 <= j < k && spec_intersect(#[trigger] spheres[j], r) is Some ==> h.t
                    <= spec_intersect(spheres[j], r)->0
            &&& forall|j: int|
                0 <= j < h.sphere && spec_intersect(#[trigger] spheres[j], r) is Some ==> h.t
                    < spec_intersect(spheres[j], r)->0
        },
    decreases k,
{
    if k > 0 {
        lemma_prefix_nearest(spheres, r, k - 1);
    }
}

/// Exact hit distances for an axis-aligned ray: for a unit ray along `+x`
/// and a sphere centered `m` whole units along `+x` with whole radius `w`,
/// the ray hits at distance `m - w` (the distance to the center minus the
/// radius) when the origin is outside with the sphere ahead, hits at `m + w`
/// (the exit point) when the origin is inside, and reports no hit when the
/// sphere lies entirely behind the origin.
pub proof fn lemma_intersect_axis(s: SphereV, r: RayV, m: int, w: int)
    requires
        w >= 1,
        s.radius == w * SCALE,
        s.center == spec_add(r.origin, V3 { x: m * SCALE, y: 0, z: 0 }),
        r.direction == (V3 { x: SCALE as int, y: 0, z: 0 }),
    ensures
        m >= w ==> spec_intersect(s, r) == Some((m - w) * (SCALE as int)),
        -w <= m < w ==> spec_intersect(s, r) == Some((m + w) * (SCALE as int)),
        m < -w ==> spec_intersect(s, r) == None::<int>,
{
    let oc = spec_sub(s.center, r.origin);
    assert(oc == (V3 { x: m * 4096, y: 0, z: 0 }));
    // a == 4096, one in fixed point
    lemma_div_trunc_multiple(4096, 4096);
    assert(spec_length2(r.direction) == 4096);
    let a = spec_length2(r.direction);
    // the dot of the direction with oc is m in fixed point
    assert(4096 * (m * 4096) == (m * 4096) * 4096) by (nonlinear_arith);
    lemma_div_trunc_multiple(m * 4096, 4096);
    assert(spec_dot(r.direction, oc) == m * 4096);
    let b = -2 * spec_dot(r.direction, oc);
    assert(b == -2 * (m * 4096));
    // c == (m*m - w*w) in fixed point
    assert((m * 4096) * (m * 4096) == (m * (m * 4096)) * 4096) by (nonlinear_arith);
    lemma_div_trunc_multiple(m * (m * 4096), 4096);
    assert(spec_length2(oc) == m * (m * 4096));
    assert((w * 4096) * (w * 4096) == (w * (w * 4096)) * 4096) by (nonlinear_arith);
    lemma_div_trunc_multiple(w * (w * 4096), 4096);
    assert(spec_fpmul(s.radius, s.radius) == w * (w * 4096));
    let c = spec_length2(oc) - spec_fpmul(s.radius, s.radius);
    // the discriminant collapses to 4 * w * w in fixed point
    assert(b * b == ((4 * (m * m)) * 4096) * 4096) by (nonlinear_arith)
        requires
            b == -2 * (m * 4096),
    ;
    lemma_div_trunc_multiple((4 * (m * m)) * 4096, 4096);
    assert(spec_fpmul(b, b) == (4 * (m * m)) * 4096);
    assert((4 * a) * c == ((4 * (m * m) - 4 * (w * w)) * 4096) * 4096) by (nonlinear_arith)
        requires
            a == 4096,
            c == m * (m * 4096) - w * (w * 4096),
    ;
    lemma_div_trunc_multiple((4 * (m * m) - 4 * (w * w)) * 4096, 4096);
    assert(spec_fpmul(4 * a, c) == (4 * (m * m) - 4 * (w * w)) * 4096);
    let det = spec_fpmul(b, b) - spec_fpmul(4 * a, c);
    assert(det == (4 * (w * w)) * 4096) by (nonlinear_arith)
        requires
            det == (4 * (m * m)) * 4096 - (4 * (m * m) - 4 * (w * w)) * 4096,
    ;
    assert(det >= 0) by (nonlinear_arith)
        requires
            det == (4 * (w * w)) * 4096,
            w >= 1,
    ;
    // its fixed-point square root is 2 * w exactly
    assert(det * 4096 == (2 * (w * 4096)) * (2 * (w * 4096))) by (nonlinear_arith)
        requires
            det == (4 * (w * w)) * 4096,
    ;
    assert(2 * (w * 4096) >= 0);
    assert((2 * (w * 4096)) * (2 * (w * 4096)) < (2 * (w * 4096) + 1) * (2 * (w * 4096)
        + 1)) by (nonlinear_arith)
        requires
            w >= 1,
    ;
    lemma_isqrt_unique((det * 4096) as nat, (2 * (w * 4096)) as nat);
    assert(spec_sqrt_fp(det) == 2 * (w * 4096));
    let ds = spec_sqrt_fp(det);
    // the two roots
    assert((-b - ds) * 4096 == ((m - w) * 4096) * (2 * a)) by (nonlinear_arith)
        requires
            b == -2 * (m * 4096),
            ds == 2 * (w * 4096),
            a == 4096,
    ;
    lemma_div_trunc_multiple((m - w) * 4096, 2 * a);
    assert(spec_fpdiv(-b - ds, 2 * a) == (m - w) * 4096);
    assert((-b + ds) * 4096 == ((m + w) * 4096) * (2 * a)) by (nonlinear_arith)
        requires
            b == -2 * (m * 4096),
            ds == 2 * (w * 4096),
            a == 4096,
    ;
    lemma_div_trunc_multiple((m + w) * 4096, 2 * a);
    assert(spec_fpdiv(-b + ds, 2 * a) == (m + w) * 4096);
    // which root is reported follows from the sign of m - w and m + w
    assert((m - w) * 4096 >= 0 <==> m >= w) by (nonlinear_arith);
    assert((m + w) * 4096 >= 0 <==> m >= -w) by (nonlinear_arith);
}

/// The root of the quadratic is bounded: `|num * SCALE / (2a)| <= T_MAX`
/// whenever the numerator is within range and `a >= 1`.
proof fn lemma_t_bound(num: int, a: int)
    requires
        abs_int(num) <= 0x2_0000_0000_0000_0000,
        a >= 1,
    ensures
        abs_int(spec_fpdiv(num, 2 * a)) <= T_MAX as int,
{
    lemma_div_trunc_bound(num * 4096, 2 * a);
    assert(abs_int(num * 4096) == abs_int(num) * 4096);
    lemma_div_is_ordered_by_denominator(abs_int(num * 4096), 2, 2 * a);
    lemma_div_is_ordered(abs_int(num * 4096), 0x2_0000_0000_0000_0000int * 4096, 2);
    assert(abs_int(num) * 4096 <= 0x2_0000_0000_0000_0000 * 4096) by (nonlinear_arith)
        requires
            abs_int(num) <= 0x2_0000_0000_0000_0000,
    ;
}

} // verus!
