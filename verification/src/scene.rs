//! The scene model: spheres with a material and a color, point lights, rays,
//! and the record of a ray-sphere hit.
//!
//! Well-formedness predicates bound every coordinate so that the arithmetic
//! of the intersection engine and the integrator can be proved free of
//! overflow; an executable check is provided for each predicate so unverified
//! callers can validate their data before rendering.

use vstd::prelude::*;
use crate::vec3::{Vec3, V3, v3_bounded, spec_add, spec_mulf, lemma_dot_abs_bound};
use crate::fixed::{SCALE, abs_int, lemma_div_trunc_bound, lemma_mul_bound};

verus! {

/// Largest magnitude of a scene coordinate, radius, or emission component.
pub const COORD_MAX: i128 = 0x100_0000_0000;

/// Largest magnitude of a surface point handled by the integrator.
pub const POINT_MAX: i128 = 0x4_0000_0000_0000;

/// Largest magnitude of a ray origin accepted by the intersection routines.
pub const ORIGIN_MAX: i128 = 0x40_0000_0000_0000;

/// Largest magnitude of a ray direction component.
pub const DIR_MAX: i128 = 0x20000;

/// Largest hit distance the intersection routines can report.
pub const T_MAX: i128 = 0x1000_0000_0000_0000_0000;

/// How a surface scatters light.  Glass currently reflects like a mirror:
/// refraction is deliberately not modeled.
#[derive(Clone, Copy, PartialEq, Eq, Structural, Debug)]
pub enum Material {
    Diffuse,
    Mirror,
    Glass,
}

/// A sphere: the only geometric primitive of the renderer.
#[derive(Clone, Copy, PartialEq, Eq, Structural, Debug)]
pub struct Sphere {
    pub radius: i128,
    pub center: Vec3,
    pub emission: Vec3,
    pub color: Vec3,
    pub material: Material,
}

pub ghost struct SphereV {
    pub radius: int,
    pub center: V3,
    pub emission: V3,
    pub color: V3,
    pub material: Material,
}

impl View for Sphere {
    type V = SphereV;

    open spec fn view(&self) -> SphereV {
        SphereV {
            radius: self.radius as int,
            center: self.center@,
            emission: self.emission@,
            color: self.color@,
            material: self.material,
        }
    }
}

/// A point light with a radiant intensity.
#[derive(Clone, Copy, PartialEq, Eq, Structural, Debug)]
pub struct Light {
    pub position: Vec3,
    pub emission: Vec3,
}

pub ghost struct LightV {
    pub position: V3,
    pub emission: V3,
}

impl View for Light {
    type V = LightV;

    open spec fn view(&self) -> LightV {
        LightV { position: self.position@, emission: self.emission@ }
    }
}

/// A half line: an origin and a direction, the latter expected to be
/// normalized by the caller.
#[derive(Clone, Copy, PartialEq, Eq, Structural, Debug)]
pub struct Ray {
    pub origin: Vec3,
    pub direction: Vec3,
}

pub ghost struct RayV {
    pub origin: V3,
    pub direction: V3,
}

impl View for Ray {
    type V = RayV;

    open spec fn view(&self) -> RayV {
        RayV { origin: self.origin@, direction: self.direction@ }
    }
}

/// The result of a hit test: the distance along the ray and the index of the
/// struck sphere in the scene.
#[derive(Clone, Copy, PartialEq, Eq, Structural, Debug)]
pub struct Intersect {
    pub t: i128,
    pub sphere: usize,
}

pub ghost struct IntersectV {
    pub t: int,
    pub sphere: int,
}

impl View for Intersect {
    type V = IntersectV;

    open spec fn view(&self) -> IntersectV {
        IntersectV { t: self.t as int, sphere: self.sphere as int }
    }
}

/// The immutable world: spheres and point lights.
pub struct Scene {
    pub spheres: Vec<Sphere>,
    pub lights: Vec<Light>,
}

pub ghost struct SceneV {
    pub spheres: Seq<SphereV>,
    pub lights: Seq<LightV>,
}

impl View for Scene {
    type V = SceneV;

    open spec fn view(&self) -> SceneV {
        SceneV {
            spheres: self.spheres@.map_values(|s: Sphere| s@),
            lights: self.lights@.map_values(|l: Light| l@),
        }
    }
}

impl Scene {
    pub fn new(spheres: Vec<Sphere>, lights: Vec<Light>) -> (r: Scene)
        ensures
            r.spheres@ == spheres@,
            r.lights@ == lights@,
    {
        Scene { spheres, lights }
    }
}

/// A sphere the renderer can work on: bounded coordinates, a positive
/// radius, a reflectance color inside `[0, 1]`, and a non-negative bounded
/// emission.
pub open spec fn sphere_wf(s: SphereV) -> bool {
    &&& v3_bounded(s.center, COORD_MAX as int)
    &&& 1 <= s.radius <= COORD_MAX as int
    &&& 0 <= s.color.x <= SCALE as int
    &&& 0 <= s.color.y <= SCALE as int
    &&& 0 <= s.color.z <= SCALE as int
    &&& 0 <= s.emission.x <= COORD_MAX as int
    &&& 0 <= s.emission.y <= COORD_MAX as int
    &&& 0 <= s.emission.z <= COORD_MAX as int
}

/// A light the renderer can work on: bounded position, non-negative bounded
/// radiant intensity.
pub open spec fn light_wf(l: LightV) -> bool {
    &&& v3_bounded(l.position, COORD_MAX as int)
    &&& 0 <= l.emission.x <= COORD_MAX as int
    &&& 0 <= l.emission.y <= COORD_MAX as int
    &&& 0 <= l.emission.z <= COORD_MAX as int
}

/// A scene the renderer can work on.  Direct lighting always uses the first
/// light, so at least one light must exist.
pub open spec fn scene_wf(sc: SceneV) -> bool {
    &&& forall|i: int| 0 <= i < sc.spheres.len() ==> sphere_wf(#[trigger] sc.spheres[i])
    &&& forall|i: int| 0 <= i < sc.lights.len() ==> light_wf(#[trigger] sc.lights[i])
    &&& sc.lights.len() >= 1
}

/// A ray the integrator can recurse on.
pub open spec fn ray_wf(r: RayV) -> bool {
    v3_bounded(r.origin, POINT_MAX as int) && v3_bounded(r.direction, DIR_MAX as int)
}

/// The point `origin + t * direction` along a ray.
pub open spec fn spec_ray_point(r: RayV, t: int) -> V3 {
    spec_add(r.origin, spec_mulf(r.direction, t))
}

impl Ray {
    /// The point at distance parameter `t` along the ray.
    pub fn get_p(&self, t: i128) -> (r: Vec3)
        requires
            v3_bounded(self@.origin, ORIGIN_MAX as int),
            v3_bounded(self@.direction, DIR_MAX as int),
            0 <= t <= T_MAX,
        ensures
            r@ == spec_ray_point(self@, t as int),
    {
        proof {
            lemma_mul_bound(self@.direction.x, t as int, DIR_MAX as int, T_MAX as int);
            lemma_mul_bound(self@.direction.y, t as int, DIR_MAX as int, T_MAX as int);
            lemma_mul_bound(self@.direction.z, t as int, DIR_MAX as int, T_MAX as int);
            lemma_div_trunc_bound(self@.direction.x * t, SCALE as int);
            lemma_div_trunc_bound(self@.direction.y * t, SCALE as int);
            lemma_div_trunc_bound(self@.direction.z * t, SCALE as int);
        }
        self.origin.add(&self.direction.mulf(t))
    }
}

/// Executable check of `v3_bounded`.
pub fn v3_in_bounds(v: &Vec3, m: i128) -> (r: bool)
    requires
        m >= 0,
    ensures
        r == v3_bounded(v@, m as int),
{
    -m <= v.x && v.x <= m && -m <= v.y && v.y <= m && -m <= v.z && v.z <= m
}

/// Executable check of `sphere_wf`.
pub fn sphere_in_bounds(s: &Sphere) -> (r: bool)
    ensures
        r == sphere_wf(s@),
{
    v3_in_bounds(&s.center, COORD_MAX) && 1 <= s.radius && s.radius <= COORD_MAX
        && 0 <= s.color.x && s.color.x <= SCALE && 0 <= s.color.y && s.color.y <= SCALE
        && 0 <= s.color.z && s.color.z <= SCALE && 0 <= s.emission.x
        && s.emission.x <= COORD_MAX && 0 <= s.emission.y && s.emission.y <= COORD_MAX
        && 0 <= s.emission.z && s.emission.z <= COORD_MAX
}

/// Executable check of `light_wf`.
pub fn light_in_bounds(l: &Light) -> (r: bool)
    ensures
        r == light_wf(l@),
{
    v3_in_bounds(&l.position, COORD_MAX) && 0 <= l.emission.x && l.emission.x <= COORD_MAX
        && 0 <= l.emission.y && l.emission.y <= COORD_MAX && 0 <= l.emission.z
        && l.emission.z <= COORD_MAX
}

/// Executable check of `ray_wf`.
pub fn ray_in_bounds(r: &Ray) -> (res: bool)
    ensures
        res == ray_wf(r@),
{
    v3_in_bounds(&r.origin, POINT_MAX) && v3_in_bounds(&r.direction, DIR_MAX)
}

/// Executable check of `scene_wf`.
pub fn scene_in_bounds(sc: &Scene) -> (r: bool)
    ensures
        r == scene_wf(sc@),
{
    let mut i: usize = 0;
    while i < sc.spheres.len()
        invariant
            0 <= i <= sc.spheres.len(),
            sc@.spheres.len() == sc.spheres@.len(),
            forall|j: int| 0 <= j < i ==> sphere_wf(#[trigger] sc@.spheres[j]),
        decreases sc.spheres.len() - i,
    {
        if !sphere_in_bounds(&sc.spheres[i]) {
            assert(!sphere_wf(sc@.spheres[i as int]));
            return false;
        }
        i = i + 1;
    }
    let mut k: usize = 0;
    while k < sc.lights.len()
        invariant
            0 <= k <= sc.lights.len(),
            sc@.lights.len() == sc.lights@.len(),
            forall|j: int| 0 <= j < k ==> light_wf(#[trigger] sc@.lights[j]),
        decreases sc.lights.len() - k,
    {
        if !light_in_bounds(&sc.lights[k]) {
            assert(!light_wf(sc@.lights[k as int]));
            return false;
        }
        k = k + 1;
    }
    sc.lights.len() >= 1
}

} // verus!
