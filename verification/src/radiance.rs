//! The radiance integrator: a bounded recursive Monte Carlo estimator of the
//! light carried back along a ray.
//!
//! At each hit the estimator adds direct lighting (a shadow ray towards the
//! single light, with inverse-square falloff and a Lambertian cosine term)
//! and indirect lighting (one cosine-weighted bounce, recursing one level
//! deeper), or follows a perfect reflection for mirror-like materials.
//! Glass deliberately behaves like a mirror: no refraction is modeled.
//! Recursion stops at a fixed depth, returning black; a miss and an occluded
//! light are valid zero-radiance outcomes, not errors.  Degenerate geometry
//! (a hit point at a sphere's center, a light exactly at the surface point,
//! or values outside the supported coordinate range) also yields black
//! rather than undefined arithmetic.
//!
//! The whole estimator is a pure function of the scene, the ray, the depth,
//! and the sampler state: `spec_radiance` fixes the result and the new
//! sampler state exactly, so a render from a fixed seed is reproducible bit
//! for bit, whatever the order pixels are computed in.

use vstd::prelude::*;
use crate::fixed::{
    SCALE, abs_int, div_trunc, spec_fpmul, spec_fpdiv, fpmul, fpdiv, sqrt_fp, spec_sqrt_fp,
    lemma_fpmul_abs_bound, lemma_div_trunc_bound, lemma_mul_bound,
};
use crate::vec3::{
    Vec3, V3, v3_bounded, spec_add, spec_sub, spec_mul, spec_mulf, spec_dot, spec_length2,
    spec_normalize, lemma_dot_abs_bound, lemma_length2_abs_bound, lemma_div_trunc_nonneg,
};
use crate::scene::{
    Scene, SceneV, Sphere, SphereV, Light, LightV, Ray, RayV, Material, sphere_wf, light_wf,
    scene_wf, ray_wf, spec_ray_point, ray_in_bounds, v3_in_bounds, COORD_MAX, POINT_MAX,
    DIR_MAX,
};
use crate::sampling::{
    Prng, PI_FP, spec_prng_sample, spec_prng_next, spec_cosine_dir, spec_onb, spec_flip_normal,
    sample_cosinus_hemisphere, branchless_onb, flip_normal,
};
use crate::intersect::{intersect_scene, spec_intersect_scene};

verus! {

/// Offset of a secondary ray origin off the surface, to avoid
/// self-intersection: one hundredth in fixed point.
pub const RAY_EPS: i128 = 41;

/// Greatest recursion depth of the integrator.
pub const MAX_DEPTH: u32 = 3;

/// Largest magnitude of one direct-lighting contribution per channel.
pub const DIRECT_MAX: i128 = 0x100_0000_0000_0000;

pub open spec fn spec_black() -> V3 {
    V3 { x: 0, y: 0, z: 0 }
}

/// Each channel of a radiance value lies in `[0, hi]`.
pub open spec fn v3_channels(v: V3, hi: int) -> bool {
    0 <= v.x <= hi && 0 <= v.y <= hi && 0 <= v.z <= hi
}

/// Largest radiance a call at the given depth can return: one
/// direct-lighting term per remaining bounce.
pub open spec fn rad_bound(depth: u32) -> int {
    if depth > MAX_DEPTH {
        0
    } else {
        (MAX_DEPTH + 1 - depth) * (DIRECT_MAX as int)
    }
}

pub open spec fn rad_measure(depth: u32) -> int {
    if depth > MAX_DEPTH {
        0
    } else {
        MAX_DEPTH + 1 - depth
    }
}

/// The perfectly reflected direction `n * (-2 (i . n)) + i`.
pub open spec fn spec_reflect(i: V3, n: V3) -> V3 {
    spec_add(spec_mulf(n, -2 * spec_dot(i, n)), i)
}

/// Direct lighting at surface point `p` of `sphere`: zero when degenerate or
/// occluded, else `color * |normal . toLight| / (PI d^2) * emission`.
pub open spec fn spec_direct(sc: SceneV, sphere: SphereV, light: LightV, p: V3) -> V3 {
    let to_light = spec_sub(light.position, p);
    let d2 = spec_length2(to_light);
    let gl2 = spec_length2(spec_sub(p, sphere.center));
    if d2 < 1 || gl2 < 1 {
        spec_black()
    } else {
        let l_norm = spec_normalize(to_light);
        let d = spec_sqrt_fp(d2);
        let gn = spec_normalize(spec_sub(p, sphere.center));
        let abs_dot = abs_int(spec_dot(gn, l_norm));
        let shadow = RayV { origin: spec_add(p, spec_mulf(l_norm, RAY_EPS as int)), direction: l_norm };
        let occluded = match spec_intersect_scene(sc, shadow) {
            Option::None => false,
            Option::Some(h) => h.t < d,
        };
        if occluded {
            spec_black()
        } else {
            spec_mul(spec_mulf(sphere.color, spec_fpdiv(abs_dot, spec_fpmul(PI_FP as int, d2))), light.emission)
        }
    }
}

/// The indirect contribution at a diffuse hit, and the sampler state after
/// it: one cosine-weighted bounce, its radiance scaled by the surface color.
pub open spec fn spec_indirect(
    spheres: Seq<SphereV>,
    lights: Seq<LightV>,
    sphere: SphereV,
    p: V3,
    dir: V3,
    depth: u32,
    st: u64,
) -> (V3, u64)
    decreases rad_measure(depth), 0int,
{
    if depth > MAX_DEPTH {
        (spec_black(), st)
    } else {
        let gl2 = spec_length2(spec_sub(p, sphere.center));
        if gl2 < 1 {
            (spec_black(), st)
        } else {
            let gn = spec_normalize(spec_sub(p, sphere.center));
            let n = spec_flip_normal(dir, gn);
            let basis = spec_onb(n);
            let smp = spec_prng_sample(st);
            let st1 = spec_prng_next(spec_prng_next(st));
            let local = spec_cosine_dir(smp.u as int, smp.v as int);
            let w = spec_add(
                spec_add(spec_mulf(basis.0, local.x), spec_mulf(basis.1, local.y)),
                spec_mulf(n, local.z),
            );
            let nray = RayV { origin: spec_add(p, spec_mulf(w, RAY_EPS as int)), direction: w };
            if !ray_wf(nray) {
                (spec_black(), st1)
            } else {
                let rs = spec_radiance(spheres, lights, nray, (depth + 1) as u32, st1);
                (spec_mul(sphere.color, rs.0), rs.1)
            }
        }
    }
}

/// The radiance estimate along a ray, and the sampler state after it.
pub open spec fn spec_radiance(
    spheres: Seq<SphereV>,
    lights: Seq<LightV>,
    ray: RayV,
    depth: u32,
    st: u64,
) -> (V3, u64)
    decreases rad_measure(depth), 1int,
{
    if depth > MAX_DEPTH {
        (spec_black(), st)
    } else {
        let sc = SceneV { spheres, lights };
        match spec_intersect_scene(sc, ray) {
            Option::None => (spec_black(), st),
            Option::Some(h) => {
                let p = spec_ray_point(ray, h.t);
                if !v3_bounded(p, POINT_MAX as int) {
                    (spec_black(), st)
                } else {
                    let sphere = spheres[h.sphere];
                    match sphere.material {
                        Material::Diffuse => {
                            let direct = spec_direct(sc, sphere, lights[0], p);
                            let rs = spec_indirect(spheres, lights, sphere, p, ray.direction, depth, st);
                            (spec_add(direct, rs.0), rs.1)
                        },
                        Material::Mirror => spec_radiance_mirror(spheres, lights, ray, depth, st, p, sphere),
                        Material::Glass => spec_radiance_mirror(spheres, lights, ray, depth, st, p, sphere),
                    }
                }
            },
        }
    }
}

/// The mirror bounce: recurse once along the reflected direction.  Glass
/// shares this behavior.
pub open spec fn spec_radiance_mirror(
    spheres: Seq<SphereV>,
    lights: Seq<LightV>,
    ray: RayV,
    depth: u32,
    st: u64,
    p: V3,
    sphere: SphereV,
) -> (V3, u64)
    decreases rad_measure(depth), 0int,
{
    if depth > MAX_DEPTH {
        (spec_black(), st)
    } else {
        let gl2 = spec_length2(spec_sub(p, sphere.center));
        if gl2 < 1 {
            (spec_black(), st)
        } else {
            let normal = spec_normalize(spec_sub(p, sphere.center));
            let dir = spec_reflect(ray.direction, normal);
            let nray = RayV { origin: spec_add(p, spec_mulf(dir, RAY_EPS as int)), direction: dir };
            if !ray_wf(nray) {
                (spec_black(), st)
            } else {
                spec_radiance(spheres, lights, nray, (depth + 1) as u32, st)
            }
        }
    }
}

/// The reflected direction, exactly as `spec_reflect` states it.
pub fn reflect(i: &Vec3, n: &Vec3) -> (r: Vec3)
    requires
        v3_bounded(i@, DIR_MAX as int),
        v3_bounded(n@, 2 * SCALE as int),
    ensures
        r@ == spec_reflect(i@, n@),
        v3_bounded(r@, 0x40_0000),
{
    proof {
        lemma_dot_abs_bound(i@, n@, 0x20000, 8192);
    }
    let dd = i.dot(n);
    let f = -(dd + dd);
    proof {
        assert(f == -2 * spec_dot(i@, n@)) by (nonlinear_arith)
            requires
                f == -(dd + dd),
                dd == spec_dot(i@, n@),
        ;
        lemma_fpmul_abs_bound(n@.x, f as int, 8192, 0x180000);
        lemma_fpmul_abs_bound(n@.y, f as int, 8192, 0x180000);
        lemma_fpmul_abs_bound(n@.z, f as int, 8192, 0x180000);
    }
    n.mulf(f).add(i)
}

/// Direct lighting with a shadow-ray visibility test, exactly as
/// `spec_direct` states it; every channel lies in `[0, DIRECT_MAX]`.
pub fn compute_direct_lighting(scene: &Scene, sphere: &Sphere, light: &Light, p: &Vec3) -> (r:
    Vec3)
    requires
        scene_wf(scene@),
        sphere_wf(sphere@),
        light_wf(light@),
        v3_bounded(p@, POINT_MAX as int),
    ensures
        r@ == spec_direct(scene@, sphere@, light@, p@),
        v3_channels(r@, DIRECT_MAX as int),
{
    proof {
        lemma_length2_abs_bound(spec_sub(light@.position, p@), 0x8_0000_0000_0000);
        lemma_length2_abs_bound(spec_sub(p@, sphere@.center), 0x8_0000_0000_0000);
    }
    let to_light = light.position.sub(p);
    let d2 = to_light.length2();
    let oc = p.sub(&sphere.center);
    let gl2 = oc.length2();
    if d2 < 1 || gl2 < 1 {
        return Vec3::new(0, 0, 0);
    }
    let l_norm = to_light.normalize();
    let d = sqrt_fp(d2);
    let gn = oc.normalize();
    proof {
        lemma_dot_abs_bound(gn@, l_norm@, 8192, 8192);
    }
    let ad = gn.dot(&l_norm);
    let abs_dot = if ad < 0 {
        -ad
    } else {
        ad
    };
    proof {
        lemma_fpmul_abs_bound(l_norm@.x, RAY_EPS as int, 8192, 41);
        lemma_fpmul_abs_bound(l_norm@.y, RAY_EPS as int, 8192, 41);
        lemma_fpmul_abs_bound(l_norm@.z, RAY_EPS as int, 8192, 41);
    }
    let shadow = Ray { origin: p.add(&l_norm.mulf(RAY_EPS)), direction: l_norm };
    let it = intersect_scene(scene, &shadow);
    let occluded = match it {
        Option::None => false,
        Option::Some(h) => h.t < d,
    };
    if occluded {
        return Vec3::new(0, 0, 0);
    }
    proof {
        lemma_fpmul_abs_bound(PI_FP as int, d2 as int, 12868, 0x10_0000_0000_0000_0000_0000_0000int);
        assert(PI_FP * (d2 as int) >= 12868) by (nonlinear_arith)
            requires
                d2 >= 1,
                PI_FP == 12868,
        ;
        lemma_div_trunc_nonneg(PI_FP * (d2 as int), SCALE as int);
        vstd::arithmetic::div_mod::lemma_div_is_ordered(4096, PI_FP * (d2 as int), SCALE as int);
        assert(div_trunc(4096, 4096int) == 1);
    }
    let pd2 = fpmul(PI_FP, d2);
    proof {
        lemma_div_trunc_bound((abs_dot * SCALE) as int, pd2 as int);
        assert(abs_int((abs_dot * SCALE) as int) <= 0xC00_0000) by (nonlinear_arith)
            requires
                0 <= abs_dot <= 49152,
                SCALE == 4096,
        ;
    }
    let f = fpdiv(abs_dot, pd2);
    proof {
        lemma_fpmul_nonneg_bound(sphere@.color.x, f as int, 4096, 0xC00_0000);
        lemma_fpmul_nonneg_bound(sphere@.color.y, f as int, 4096, 0xC00_0000);
        lemma_fpmul_nonneg_bound(sphere@.color.z, f as int, 4096, 0xC00_0000);
        lemma_div_trunc_nonneg((abs_dot * SCALE) as int, pd2 as int);
        assert((abs_dot * SCALE) as int >= 0) by (nonlinear_arith)
            requires
                abs_dot >= 0,
                SCALE == 4096,
        ;
    }
    let c1 = sphere.color.mulf(f);
    proof {
        lemma_fpmul_nonneg_bound(c1@.x, light@.emission.x, 0xC00_0000, COORD_MAX as int);
        lemma_fpmul_nonneg_bound(c1@.y, light@.emission.y, 0xC00_0000, COORD_MAX as int);
        lemma_fpmul_nonneg_bound(c1@.z, light@.emission.z, 0xC00_0000, COORD_MAX as int);
    }
    c1.mul(&light.emission)
}

/// A fixed-point product of non-negative bounded factors is non-negative
/// and bounded by the scaled product of the bounds.
proof fn lemma_fpmul_nonneg_bound(a: int, b: int, ma: int, mb: int)
    requires
        0 <= a <= ma,
        0 <= b <= mb,
    ensures
        0 <= spec_fpmul(a, b) <= (ma * mb) / (SCALE as int),
        abs_int(a * b) <= ma * mb,
{
    assert(a * b >= 0) by (nonlinear_arith)
        requires
            a >= 0,
            b >= 0,
    ;
    lemma_mul_bound(a, b, ma, mb);
    lemma_div_trunc_bound(a * b, SCALE as int);
    lemma_div_trunc_nonneg(a * b, SCALE as int);
    vstd::arithmetic::div_mod::lemma_div_is_ordered(a * b, ma * mb, SCALE as int);
}

/// A color channel in `[0, 1]` scales a non-negative value down.
proof fn lemma_color_scale(c: int, r: int, hi: int)
    requires
        0 <= c <= SCALE as int,
        0 <= r <= hi,
    ensures
        0 <= spec_fpmul(c, r) <= hi,
{
    assert(c * r >= 0) by (nonlinear_arith)
        requires
            c >= 0,
            r >= 0,
    ;
    assert(c * r <= 4096 * r) by (nonlinear_arith)
        requires
            c <= 4096,
            r >= 0,
    ;
    lemma_div_trunc_nonneg(c * r, SCALE as int);
    lemma_div_trunc_bound(c * r, SCALE as int);
    vstd::arithmetic::div_mod::lemma_div_is_ordered(c * r, 4096 * r, SCALE as int);
    vstd::arithmetic::div_mod::lemma_div_multiples_vanish(r, 4096);
}

/// One cosine-weighted indirect bounce, exactly as `spec_indirect` states
/// it, advancing the sampler as the specification says.
pub fn compute_indirect_lighting(
    scene: &Scene,
    sphere: &Sphere,
    p: &Vec3,
    dir: &Vec3,
    depth: u32,
    rng: &mut Prng,
) -> (r: Vec3)
    requires
        scene_wf(scene@),
        sphere_wf(sphere@),
        v3_bounded(p@, POINT_MAX as int),
        v3_bounded(dir@, DIR_MAX as int),
        depth <= MAX_DEPTH,
    ensures
        ({
            let rs = spec_indirect(
                scene@.spheres,
                scene@.lights,
                sphere@,
                p@,
                dir@,
                depth,
                old(rng).s,
            );
            r@ == rs.0 && final(rng).s == rs.1
        }),
        v3_channels(r@, rad_bound((depth + 1) as u32)),
    decreases rad_measure(depth), 0int,
{
    proof {
        lemma_length2_abs_bound(spec_sub(p@, sphere@.center), 0x8_0000_0000_0000);
    }
    let oc = p.sub(&sphere.center);
    let gl2 = oc.length2();
    if gl2 < 1 {
        return Vec3::new(0, 0, 0);
    }
    let gn = oc.normalize();
    let n = flip_normal(dir, &gn);
    let basis = branchless_onb(&n);
    let smp = rng.sample2d();
    let local = sample_cosinus_hemisphere(&smp);
    proof {
        lemma_fpmul_abs_bound(basis.0@.x, local.value@.x, 32768, 4096);
        lemma_fpmul_abs_bound(basis.0@.y, local.value@.x, 32768, 4096);
        lemma_fpmul_abs_bound(basis.0@.z, local.value@.x, 32768, 4096);
        lemma_fpmul_abs_bound(basis.1@.x, local.value@.y, 32768, 4096);
        lemma_fpmul_abs_bound(basis.1@.y, local.value@.y, 32768, 4096);
        lemma_fpmul_abs_bound(basis.1@.z, local.value@.y, 32768, 4096);
        lemma_fpmul_abs_bound(n@.x, local.value@.z, 8192, 4096);
        lemma_fpmul_abs_bound(n@.y, local.value@.z, 8192, 4096);
        lemma_fpmul_abs_bound(n@.z, local.value@.z, 8192, 4096);
    }
    let w = basis.0.mulf(local.value.x).add(&basis.1.mulf(local.value.y)).add(
        &n.mulf(local.value.z),
    );
    proof {
        lemma_fpmul_abs_bound(w@.x, RAY_EPS as int, 0x20000, 41);
        lemma_fpmul_abs_bound(w@.y, RAY_EPS as int, 0x20000, 41);
        lemma_fpmul_abs_bound(w@.z, RAY_EPS as int, 0x20000, 41);
    }
    let nray = Ray { origin: p.add(&w.mulf(RAY_EPS)), direction: w };
    if !ray_in_bounds(&nray) {
        return Vec3::new(0, 0, 0);
    }
    let rec = radiance(scene, &nray, depth + 1, rng);
    proof {
        lemma_color_scale(sphere@.color.x, rec@.x, rad_bound((depth + 1) as u32));
        lemma_color_scale(sphere@.color.y, rec@.y, rad_bound((depth + 1) as u32));
        lemma_color_scale(sphere@.color.z, rec@.z, rad_bound((depth + 1) as u32));
        lemma_mul_bound(sphere@.color.x, rec@.x, 4096, 0x400_0000_0000_0000);
        lemma_mul_bound(sphere@.color.y, rec@.y, 4096, 0x400_0000_0000_0000);
        lemma_mul_bound(sphere@.color.z, rec@.z, 4096, 0x400_0000_0000_0000);
    }
    sphere.color.mul(&rec)
}

/// The radiance carried back along `ray`, exactly as `spec_radiance` states
/// it; a pure function of the scene, the ray, the depth and the sampler
/// seed.  Recursion is capped at `MAX_DEPTH` bounces, so the estimator
/// terminates on every scene, mirror-only scenes included, and beyond the
/// cap it returns black.
pub fn radiance(scene: &Scene, ray: &Ray, depth: u32, rng: &mut Prng) -> (r: Vec3)
    requires
        scene_wf(scene@),
        ray_wf(ray@),
    ensures
        ({
            let rs = spec_radiance(scene@.spheres, scene@.lights, ray@, depth, old(rng).s);
            r@ == rs.0 && final(rng).s == rs.1
        }),
        v3_channels(r@, rad_bound(depth)),
    decreases rad_measure(depth), 1int,
{
    if depth > MAX_DEPTH {
        return Vec3::new(0, 0, 0);
    }
    proof {
        assert(scene@ == (SceneV { spheres: scene@.spheres, lights: scene@.lights }));
    }
    let it = intersect_scene(scene, ray);
    match it {
        Option::None => Vec3::new(0, 0, 0),
        Option::Some(h) => {
            let p = ray.get_p(h.t);
            if !v3_in_bounds(&p, POINT_MAX) {
                return Vec3::new(0, 0, 0);
            }
            let sphere = scene.spheres[h.sphere];
            proof {
                assert(sphere@ == scene@.spheres[h.sphere as int]);
                assert(sphere_wf(sphere@));
            }
            match sphere.material {
                Material::Diffuse => {
                    let light = scene.lights[0];
                    proof {
                        assert(light@ == scene@.lights[0]);
                        assert(light_wf(light@));
                    }
                    let direct = compute_direct_lighting(scene, &sphere, &light, &p);
                    let indirect = compute_indirect_lighting(
                        scene,
                        &sphere,
                        &p,
                        &ray.direction,
                        depth,
                        rng,
                    );
                    direct.add(&indirect)
                },
                Material::Mirror => mirror_bounce(scene, ray, depth, rng, &p, &sphere),
                Material::Glass => mirror_bounce(scene, ray, depth, rng, &p, &sphere),
            }
        },
    }
}

/// The mirror (and glass) bounce, exactly as `spec_radiance_mirror` states
/// it.
fn mirror_bounce(scene: &Scene, ray: &Ray, depth: u32, rng: &mut Prng, p: &Vec3, sphere: &Sphere)
    -> (r: Vec3)
    requires
        scene_wf(scene@),
        ray_wf(ray@),
        sphere_wf(sphere@),
        v3_bounded(p@, POINT_MAX as int),
        depth <= MAX_DEPTH,
    ensures
        ({
            let rs = spec_radiance_mirror(
                scene@.spheres,
                scene@.lights,
                ray@,
                depth,
                old(rng).s,
                p@,
                sphere@,
            );
            r@ == rs.0 && final(rng).s == rs.1
        }),
        v3_channels(r@, rad_bound((depth + 1) as u32)),
    decreases rad_measure(depth), 0int,
{
    proof {
        lemma_length2_abs_bound(spec_sub(p@, sphere@.center), 0x8_0000_0000_0000);
    }
    let oc = p.sub(&sphere.center);
    let gl2 = oc.length2();
    if gl2 < 1 {
        return Vec3::new(0, 0, 0);
    }
    let normal = oc.normalize();
    let dir = reflect(&ray.direction, &normal);
    proof {
        lemma_fpmul_abs_bound(dir@.x, RAY_EPS as int, 0x40_0000, 41);
        lemma_fpmul_abs_bound(dir@.y, RAY_EPS as int, 0x40_0000, 41);
        lemma_fpmul_abs_bound(dir@.z, RAY_EPS as int, 0x40_0000, 41);
    }
    let nray = Ray { origin: p.add(&dir.mulf(RAY_EPS)), direction: dir };
    if !ray_in_bounds(&nray) {
        return Vec3::new(0, 0, 0);
    }
    radiance(scene, &nray, depth + 1, rng)
}

/// The depth cutoff in one sentence: past the greatest depth the estimator
/// returns black whatever the scene and the ray, so even a scene of mirrors
/// arranged to reflect a ray forever yields a finite result.
pub proof fn lemma_radiance_depth_cutoff(
    spheres: Seq<SphereV>,
    lights: Seq<LightV>,
    ray: RayV,
    depth: u32,
    st: u64,
)
    requires
        depth > MAX_DEPTH,
    ensures
        spec_radiance(spheres, lights, ray, depth, st) == (spec_black(), st),
{
}

} // verus!
