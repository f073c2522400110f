use pathtrace::fixed::SCALE;
use pathtrace::image::{tonemap, Image};
use pathtrace::intersect::{intersect, intersect_scene};
use pathtrace::radiance::radiance;
use pathtrace::sampling::{
    branchless_onb, flip_normal, sample_cosinus_hemisphere, thread_sample_2d, Prng, Sample2D,
};
use pathtrace::scene::{Light, Material, Ray, Scene, Sphere};
use pathtrace::vec3::Vec3;

const S: i128 = SCALE;

fn plain_sphere(center: Vec3, radius: i128, material: Material) -> Sphere {
    Sphere {
        radius,
        center,
        emission: Vec3::new(0, 0, 0),
        color: Vec3::new(0, 0, 0),
        material,
    }
}

#[test]
pub fn test_basic_ops() {
    assert_eq!(
        Vec3::new(1 * S, 2 * S, 3 * S).add(&Vec3::new(4 * S, 5 * S, 6 * S)),
        Vec3::new(5 * S, 7 * S, 9 * S)
    );
    assert_eq!(
        Vec3::new(1 * S, 2 * S, 3 * S).sub(&Vec3::new(4 * S, 5 * S, 6 * S)),
        Vec3::new(-3 * S, -3 * S, -3 * S)
    );
    assert_eq!(
        Vec3::new(1 * S, 2 * S, 3 * S).mul(&Vec3::new(4 * S, 5 * S, 6 * S)),
        Vec3::new(4 * S, 10 * S, 18 * S)
    );
    assert_eq!(
        Vec3::new(1 * S, 2 * S, 3 * S).mulf(10 * S),
        Vec3::new(10 * S, 20 * S, 30 * S)
    );
}

#[test]
pub fn test_dot() {
    assert_eq!(
        Vec3::new(1 * S, 2 * S, 3 * S).dot(&Vec3::new(4 * S, 5 * S, 6 * S)),
        32 * S
    );
}

#[test]
pub fn test_length() {
    assert_eq!(Vec3::new(3 * S, 2 * S, 1 * S).length2(), 14 * S)
}

#[test]
pub fn test_sphere_it_front() {
    let r = Ray {
        origin: Vec3::new(2 * S, 0, 0),
        direction: Vec3::new(1 * S, 0, 0),
    };
    let sphere = plain_sphere(Vec3::new(10 * S, 0, 0), 3 * S, Material::Diffuse);
    assert_eq!(intersect(&sphere, &r), Some(5 * S));
}

#[test]
pub fn test_sphere_it_in() {
    let r = Ray {
        origin: Vec3::new(10 * S, 0, 0),
        direction: Vec3::new(1 * S, 0, 0),
    };
    let sphere = plain_sphere(Vec3::new(10 * S, 0, 0), 3 * S, Material::Diffuse);
    assert_eq!(intersect(&sphere, &r), Some(3 * S));
}

#[test]
pub fn test_sphere_it_out() {
    let r = Ray {
        origin: Vec3::new(15 * S, 0, 0),
        direction: Vec3::new(1 * S, 0, 0),
    };
    let sphere = plain_sphere(Vec3::new(10 * S, 0, 0), 3 * S, Material::Diffuse);
    assert_eq!(intersect(&sphere, &r), None);
}

#[test]
fn test_normalize_axis_is_unit() {
    let v = Vec3::new(2 * S, 0, 0);
    let n = v.normalize();
    assert_eq!(n, Vec3::new(S, 0, 0));
    assert_eq!(n.length2(), S);
    let w = Vec3::new(0, 0, 7 * S).normalize();
    assert_eq!(w, Vec3::new(0, 0, S));
}

#[test]
fn test_scene_nearest_hit() {
    let lights = vec![Light {
        position: Vec3::new(0, 50 * S, 0),
        emission: Vec3::new(100 * S, 100 * S, 100 * S),
    }];
    let spheres = vec![
        plain_sphere(Vec3::new(12 * S, 0, 0), 3 * S, Material::Diffuse),
        plain_sphere(Vec3::new(10 * S, 0, 0), 3 * S, Material::Diffuse),
    ];
    let scene = Scene::new(spheres, lights);
    let ray = Ray {
        origin: Vec3::new(0, 0, 0),
        direction: Vec3::new(S, 0, 0),
    };
    // the overlapping sphere whose surface is nearer wins
    let hit = intersect_scene(&scene, &ray).unwrap();
    assert_eq!(hit.t, 7 * S);
    assert_eq!(hit.sphere, 1);
}

#[test]
fn test_scene_tie_break_first_wins() {
    let lights = vec![Light {
        position: Vec3::new(0, 50 * S, 0),
        emission: Vec3::new(100 * S, 100 * S, 100 * S),
    }];
    let spheres = vec![
        plain_sphere(Vec3::new(10 * S, 0, 0), 3 * S, Material::Diffuse),
        plain_sphere(Vec3::new(10 * S, 0, 0), 3 * S, Material::Diffuse),
    ];
    let scene = Scene::new(spheres, lights);
    let ray = Ray {
        origin: Vec3::new(0, 0, 0),
        direction: Vec3::new(S, 0, 0),
    };
    let hit = intersect_scene(&scene, &ray).unwrap();
    assert_eq!(hit.t, 7 * S);
    assert_eq!(hit.sphere, 0);
}

#[test]
fn test_tonemap_endpoints_and_clamp() {
    assert_eq!(tonemap(0), 0);
    assert_eq!(tonemap(S), 255);
    assert_eq!(tonemap(-5), 0);
    assert_eq!(tonemap(10 * S), 255);
    // one half, gamma corrected: floor(255 * 0.5^(5/11)) == 186
    assert_eq!(tonemap(S / 2), 186);
}

#[test]
fn test_tonemap_monotone() {
    let mut prev = 0;
    let mut x = 0;
    while x <= S {
        let t = tonemap(x);
        assert!(t >= prev);
        prev = t;
        x += 7;
    }
}

#[test]
fn test_prng_deterministic() {
    let mut a = Prng::new(42);
    let mut b = Prng::new(42);
    for _ in 0..16 {
        assert_eq!(a.sample2d(), b.sample2d());
    }
    let s = a.sample2d();
    assert!(s.u >= 0 && s.u < S && s.v >= 0 && s.v < S);
}

#[test]
fn test_thread_sample_range() {
    for _ in 0..64 {
        let s = thread_sample_2d();
        assert!(s.u >= 0 && s.u < S && s.v >= 0 && s.v < S);
    }
}

#[test]
fn test_cosine_hemisphere_values() {
    // v = 0: the direction lies in the xy plane, phi = 0 points along +x
    let smp = sample_cosinus_hemisphere(&Sample2D::new(0, 0));
    assert_eq!(smp.value, Vec3::new(4096, 0, 0));
    assert_eq!(smp.pdf, 0);
    // v = 1/2: z = sqrt(1/2) in fixed point
    let smp2 = sample_cosinus_hemisphere(&Sample2D::new(0, S / 2));
    assert_eq!(smp2.value.z, 2896);
}

#[test]
fn test_onb_poles() {
    let (b1, b2) = branchless_onb(&Vec3::new(0, 0, S));
    assert_eq!(b1, Vec3::new(S, 0, 0));
    assert_eq!(b2, Vec3::new(0, S, 0));
    let (c1, c2) = branchless_onb(&Vec3::new(0, 0, -S));
    assert_eq!(c1, Vec3::new(S, 0, 0));
    assert_eq!(c2, Vec3::new(0, -S, 0));
}

#[test]
fn test_flip_normal() {
    let n = Vec3::new(0, 0, S);
    let toward = Vec3::new(0, 0, -S);
    let away = Vec3::new(0, 0, S);
    assert_eq!(flip_normal(&toward, &n), n);
    assert_eq!(flip_normal(&away, &n), Vec3::new(0, 0, -S));
}

#[test]
fn test_reflect() {
    let i = Vec3::new(0, 0, -S);
    let n = Vec3::new(0, 0, S);
    assert_eq!(pathtrace::radiance::reflect(&i, &n), Vec3::new(0, 0, S));
}

#[test]
fn test_radiance_miss_is_black() {
    let scene = Scene::new(
        vec![plain_sphere(Vec3::new(100 * S, 0, 0), S, Material::Diffuse)],
        vec![Light {
            position: Vec3::new(0, 50 * S, 0),
            emission: Vec3::new(100 * S, 100 * S, 100 * S),
        }],
    );
    let ray = Ray {
        origin: Vec3::new(0, 0, 0),
        direction: Vec3::new(-S, 0, 0),
    };
    let mut rng = Prng::new(7);
    assert_eq!(radiance(&scene, &ray, 0, &mut rng), Vec3::new(0, 0, 0));
}

#[test]
fn test_radiance_mirror_scene_terminates() {
    // two mirrors facing each other bounce the ray until the depth cap,
    // which must end in finite black, not run forever
    let scene = Scene::new(
        vec![
            plain_sphere(Vec3::new(10 * S, 0, 0), 3 * S, Material::Mirror),
            plain_sphere(Vec3::new(-10 * S, 0, 0), 3 * S, Material::Mirror),
        ],
        vec![Light {
            position: Vec3::new(0, 50 * S, 0),
            emission: Vec3::new(100 * S, 100 * S, 100 * S),
        }],
    );
    let ray = Ray {
        origin: Vec3::new(0, 0, 0),
        direction: Vec3::new(S, 0, 0),
    };
    let mut rng = Prng::new(11);
    let c = radiance(&scene, &ray, 0, &mut rng);
    assert_eq!(c, Vec3::new(0, 0, 0));
}

#[test]
fn test_radiance_deterministic_across_order() {
    let scene = Scene::new(
        vec![
            plain_sphere(Vec3::new(10 * S, 0, 0), 3 * S, Material::Mirror),
            {
                let mut s = plain_sphere(Vec3::new(0, -8 * S, 0), 4 * S, Material::Diffuse);
                s.color = Vec3::new(3000, 2000, 1000);
                s
            },
        ],
        vec![Light {
            position: Vec3::new(0, 50 * S, 0),
            emission: Vec3::new(100 * S, 100 * S, 100 * S),
        }],
    );
    let ray_a = Ray {
        origin: Vec3::new(0, 0, 0),
        direction: Vec3::new(S, 0, 0),
    };
    let ray_b = Ray {
        origin: Vec3::new(0, 0, 0),
        direction: Vec3::new(0, -S, 0),
    };
    // evaluating the two pixels in either order gives the same colors,
    // because each owns its seeded sampler
    let mut r1 = Prng::new(1);
    let mut r2 = Prng::new(2);
    let a_first = radiance(&scene, &ray_a, 0, &mut r1);
    let b_first = radiance(&scene, &ray_b, 0, &mut r2);
    let mut r2b = Prng::new(2);
    let mut r1b = Prng::new(1);
    let b_second = radiance(&scene, &ray_b, 0, &mut r2b);
    let a_second = radiance(&scene, &ray_a, 0, &mut r1b);
    assert_eq!(a_first, a_second);
    assert_eq!(b_first, b_second);
}

#[test]
fn test_image_set_get_and_ppm() {
    let mut im = Image::new(2, 2, Vec3::new(0, 0, 0));
    im.set_pixel(1, 0, Vec3::new(S, S, S));
    assert_eq!(im.get_pixel(1, 0), Vec3::new(S, S, S));
    assert_eq!(im.get_pixel(0, 0), Vec3::new(0, 0, 0));

    let one = Image::new(1, 1, Vec3::new(0, 0, 0));
    let bytes = one.to_ppm();
    assert_eq!(bytes, b"P3\n1 1\n255\n0 0 0 ".to_vec());

    let mut two = Image::new(1, 1, Vec3::new(S, 0, S / 2));
    let _ = &mut two;
    let bytes2 = two.to_ppm();
    assert_eq!(bytes2, b"P3\n1 1\n255\n255 0 186 ".to_vec());
}
