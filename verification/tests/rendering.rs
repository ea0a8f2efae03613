//! Materials, refraction, the camera and the integrator, exercised on
//! concrete fixed-point values; the random draws are checked against the
//! ranges the library promises of them.

use raytrace::camera::Camera;
use raytrace::hittable::HitRecord;
use raytrace::material::{Dielectric, Lambertian, Material, Metal};
use raytrace::ray::Ray;
use raytrace::render::{color, render_pixel, to_byte};
use raytrace::scene::random_scene;
use raytrace::sphere::Sphere;
use raytrace::vec3::{random_in_unit_disk, random_in_unit_sphere, refract, Vec3};

fn hit_at_origin(material: Material) -> HitRecord {
    HitRecord { t: 65536, p: Vec3(0, 0, 0), normal: Vec3(0, 65536, 0), material }
}

#[test]
fn lambertian_never_absorbs() {
    let m = Lambertian::new(Vec3(32768, 16384, 8192));
    let rec = hit_at_origin(Material::Lambertian(m));
    let r_in = Ray::new(Vec3(0, 2 * 65536, 0), Vec3(0, -65536, 0));
    for _ in 0..32 {
        let s = m.scatter(&r_in, &rec).expect("diffuse never absorbs");
        assert_eq!(Vec3(32768, 16384, 8192), s.attenuation);
        assert_eq!(Vec3(0, 0, 0), s.scattered.origin);
        // the direction is the normal plus a point of the open unit ball
        let u = s.scattered.direction.sub(rec.normal);
        assert!(u.squared_length() < 65536);
    }
}

#[test]
fn metal_zero_fuzz_is_exact_mirror() {
    let m = Metal::new(Vec3(45875, 39321, 32768), 0);
    let rec = hit_at_origin(Material::Metal(m));
    // incoming along (1, -1, 0); its unit vector reflects to (1, 1, 0)/sqrt(2)
    let r_in = Ray::new(Vec3(-65536, 65536, 0), Vec3(65536, -65536, 0));
    let s = m.scatter(&r_in, &rec).expect("mirror reflection leaves the surface");
    assert_eq!(Vec3(46341, 46341, 0), s.scattered.direction);
    assert_eq!(Vec3(45875, 39321, 32768), s.attenuation);
    assert_eq!(Vec3(0, 0, 0), s.scattered.origin);
}

#[test]
fn metal_absorbs_grazing_reflection() {
    let m = Metal::new(Vec3(45875, 39321, 32768), 0);
    let rec = hit_at_origin(Material::Metal(m));
    // incoming parallel to the surface: the mirror direction stays in it
    let r_in = Ray::new(Vec3(-65536, 0, 0), Vec3(65536, 0, 0));
    assert!(m.scatter(&r_in, &rec).is_none());
}

#[test]
fn refract_identity_at_unit_ratio() {
    // an index ratio of one transmits the unit direction bit-for-bit
    let refracted = refract(Vec3(0, -131072, 0), Vec3(0, 65536, 0), 65536);
    assert_eq!(Some(Vec3(0, -65536, 0)), refracted);
    let slanted = refract(Vec3(65536, -65536, 0), Vec3(0, 65536, 0), 65536);
    assert_eq!(Some(Vec3(46341, -46341, 0)), slanted);
}

#[test]
fn refract_perpendicular_is_total_reflection() {
    // a direction perpendicular to the normal is the one excluded input
    assert_eq!(None, refract(Vec3(65536, 0, 0), Vec3(0, 65536, 0), 65536));
}

#[test]
fn dielectric_unit_index_refracts_straight_through() {
    let d = Dielectric::new(65536);
    let rec = hit_at_origin(Material::Dielectric(d));
    let r_in = Ray::new(Vec3(0, 2 * 65536, 0), Vec3(0, -65536, 0));
    for _ in 0..32 {
        // reflectance is exactly zero here, so the coin never reflects
        let s = d.scatter(&r_in, &rec).expect("dielectric never absorbs");
        assert_eq!(Vec3(0, -65536, 0), s.scattered.direction);
        assert_eq!(Vec3(65536, 65536, 65536), s.attenuation);
    }
}

#[test]
fn dielectric_always_scatters() {
    let d = Dielectric::new(98304);
    let rec = hit_at_origin(Material::Dielectric(d));
    let r_in = Ray::new(Vec3(0, 2 * 65536, 0), Vec3(13107, -65536, 0));
    for _ in 0..32 {
        let s = d.scatter(&r_in, &rec).expect("dielectric never absorbs");
        assert_eq!(Vec3(65536, 65536, 65536), s.attenuation);
        assert_eq!(Vec3(0, 0, 0), s.scattered.origin);
    }
}

#[test]
fn camera_construction_is_deterministic() {
    let c1 = Camera::new(
        Vec3(13 * 65536, 2 * 65536, 3 * 65536),
        Vec3(0, 0, 0),
        Vec3(0, 65536, 0),
        20 * 65536,
        98304,
        6554,
        10 * 65536,
    );
    let c2 = Camera::new(
        Vec3(13 * 65536, 2 * 65536, 3 * 65536),
        Vec3(0, 0, 0),
        Vec3(0, 65536, 0),
        20 * 65536,
        98304,
        6554,
        10 * 65536,
    );
    assert_eq!(c1, c2);
}

#[test]
fn pinhole_camera_rays_are_deterministic() {
    let cam = Camera::new(
        Vec3(0, 0, 0),
        Vec3(0, 0, -65536),
        Vec3(0, 65536, 0),
        90 * 65536,
        65536,
        0,
        65536,
    );
    let r1 = cam.get_ray(32768, 32768);
    let r2 = cam.get_ray(32768, 32768);
    assert_eq!(r1, r2);
    assert_eq!(Vec3(0, 0, 0), r1.origin);
}

fn isqrt128(n: i128) -> i128 {
    let mut r = (n as f64).sqrt() as i128;
    while r * r > n {
        r -= 1;
    }
    while (r + 1) * (r + 1) <= n {
        r += 1;
    }
    r
}

fn expected_background(d: Vec3) -> Vec3 {
    let unit = if d == Vec3(0, 0, 0) {
        (0i128, 0i128, 0i128)
    } else {
        let raw = (d.0 as i128) * (d.0 as i128) + (d.1 as i128) * (d.1 as i128) + (d.2 as i128)
            * (d.2 as i128);
        let l = isqrt128(raw);
        let q = |x: i128| {
            if x >= 0 {
                x * 65536 / l
            } else {
                -((-x) * 65536 / l)
            }
        };
        (q(d.0 as i128), q(d.1 as i128), q(d.2 as i128))
    };
    let t = 32768 * (unit.1 + 65536) / 65536;
    let mix = |white: i128, sky: i128| (white * (65536 - t) / 65536 + sky * t / 65536) as i64;
    Vec3(mix(65536, 32768), mix(65536, 45875), mix(65536, 65536))
}

#[test]
fn miss_returns_exact_gradient_endpoints() {
    let world: Vec<Sphere> = vec![];
    // straight up: the sky color, exactly
    let up = color(&Ray::new(Vec3(0, 0, 0), Vec3(0, 5 * 65536, 0)), &world, 0);
    assert_eq!(Vec3(32768, 45875, 65536), up);
    // straight down: white, exactly
    let down = color(&Ray::new(Vec3(0, 0, 0), Vec3(0, -5 * 65536, 0)), &world, 0);
    assert_eq!(Vec3(65536, 65536, 65536), down);
}

#[test]
fn empty_scene_always_returns_background() {
    let world: Vec<Sphere> = vec![];
    let dirs = [
        Vec3(65536, 131072, 196608),
        Vec3(-262144, 32768, 65536),
        Vec3(3, -4, 12),
        Vec3(0, 0, 0),
        Vec3(-65536, -65536, -65536),
    ];
    for d in dirs {
        let got = color(&Ray::new(Vec3(65536, 0, -65536), d), &world, 0);
        assert_eq!(expected_background(d), got);
    }
}

#[test]
fn miss_in_populated_scene_returns_background() {
    let world: Vec<Sphere> = vec![
        Sphere::new(
            Vec3(0, -10 * 65536, 0),
            65536,
            Material::Lambertian(Lambertian::new(Vec3(32768, 32768, 32768))),
        ),
    ];
    let d = Vec3(0, 5 * 65536, 0);
    let got = color(&Ray::new(Vec3(0, 0, 0), d), &world, 0);
    assert_eq!(Vec3(32768, 45875, 65536), got);
}

#[test]
fn exhausted_depth_returns_black() {
    let world: Vec<Sphere> = vec![
        Sphere::new(
            Vec3(4 * 65536, 0, 0),
            65536,
            Material::Lambertian(Lambertian::new(Vec3(32768, 32768, 32768))),
        ),
    ];
    let got = color(&Ray::new(Vec3(0, 0, 0), Vec3(65536, 0, 0)), &world, 50);
    assert_eq!(Vec3(0, 0, 0), got);
}

#[test]
fn bounced_color_is_attenuated() {
    let world: Vec<Sphere> = vec![
        Sphere::new(
            Vec3(4 * 65536, 0, 0),
            65536,
            Material::Lambertian(Lambertian::new(Vec3(32768, 32768, 32768))),
        ),
    ];
    for _ in 0..16 {
        let c = color(&Ray::new(Vec3(0, 0, 0), Vec3(65536, 0, 0)), &world, 0);
        assert!(0 <= c.0 && c.0 <= 65536);
        assert!(0 <= c.1 && c.1 <= 65536);
        assert!(0 <= c.2 && c.2 <= 65536);
        // one bounce multiplies by an albedo of one half, so no channel
        // can exceed it
        assert!(c.0 <= 32768 && c.1 <= 32768 && c.2 <= 32768);
    }
}

#[test]
fn gamma_bytes_hit_exact_values() {
    assert_eq!(0, to_byte(0));
    assert_eq!(255, to_byte(65536));
    // 0.25 -> sqrt 0.5 -> 255.99 * 0.5 truncates to 127
    assert_eq!(127, to_byte(16384));
}

#[test]
fn sky_blue_channel_saturates_render() {
    let world: Vec<Sphere> = vec![];
    let cam = Camera::new(
        Vec3(0, 0, 0),
        Vec3(0, 0, -65536),
        Vec3(0, 65536, 0),
        90 * 65536,
        65536,
        0,
        65536,
    );
    let (_r, _g, b) = render_pixel(&world, &cam, 0, 0, 1, 1, 1);
    // every background color has a full blue channel, whatever the jitter
    assert_eq!(255, b);
}

#[test]
fn unit_sphere_samples_stay_inside() {
    let mut seen_distinct = false;
    let first = random_in_unit_sphere();
    for _ in 0..64 {
        let p = random_in_unit_sphere();
        assert!(p.squared_length() < 65536);
        assert!(-65536 <= p.0 && p.0 < 65536);
        if p != first {
            seen_distinct = true;
        }
    }
    assert!(seen_distinct);
}

#[test]
fn unit_disk_samples_stay_inside_and_flat() {
    for _ in 0..64 {
        let p = random_in_unit_disk();
        assert!(p.squared_length() < 65536);
        assert_eq!(0, p.2);
    }
}

#[test]
fn random_scene_is_well_formed() {
    let world = random_scene();
    assert!(world.len() >= 4);
    assert_eq!(65536000, world[0].radius);
    assert_eq!(Vec3(0, -65536000, 0), world[0].center);
    let last = &world[world.len() - 1];
    assert_eq!(Vec3(262144, 65536, 0), last.center);
    match last.material {
        Material::Metal(m) => {
            assert_eq!(Vec3(45875, 39321, 32768), m.albedo);
            assert_eq!(0, m.fuzz);
        },
        _ => panic!("the last sphere is the big metal one"),
    }
    for s in world.iter() {
        assert!(s.radius >= 1);
        match s.material {
            Material::Lambertian(l) => {
                assert!(0 <= l.albedo.0 && l.albedo.0 <= 65536);
            },
            Material::Metal(m) => {
                assert!(0 <= m.fuzz && m.fuzz <= 65536);
            },
            Material::Dielectric(d) => {
                assert_eq!(98304, d.ref_idx);
            },
        }
    }
}
