//! Rays, sphere intersection and the nearest-hit scan, on the scenarios
//! with exactly computable fixed-point answers.

use raytrace::hittable::Hittable;
use raytrace::material::{Lambertian, Material};
use raytrace::ray::Ray;
use raytrace::sphere::Sphere;
use raytrace::vec3::Vec3;

fn gray() -> Material {
    Material::Lambertian(Lambertian::new(Vec3(19661, 19661, 19661)))
}

#[test]
fn point_at_parameter() {
    let o = Vec3(65536, 131072, 196608);
    let d = Vec3(65536, 65536, 0);
    let r = Ray::new(o, d);
    let p = r.point_at_parameter(5 * 65536);
    assert_eq!(6 * 65536, p.x());
    assert_eq!(7 * 65536, p.y());
    assert_eq!(3 * 65536, p.z());
}

#[test]
fn sphere_not_hit() {
    let r = Ray::new(Vec3(0, 0, 0), Vec3(65536, 0, 0));
    let sphere = Sphere::new(Vec3(-3 * 65536, 2 * 65536, 0), 2 * 65536, gray());
    assert!(sphere.hit(&r, 6, i64::MAX).is_none());
}

#[test]
fn sphere_tangent() {
    let r = Ray::new(Vec3(0, 0, 0), Vec3(65536, 0, 0));
    let sphere = Sphere::new(Vec3(2 * 65536, 2 * 65536, 0), 2 * 65536, gray());
    assert!(sphere.hit(&r, 6, i64::MAX).is_none());
}

#[test]
fn sphere_hit() {
    let r = Ray::new(Vec3(0, 0, 0), Vec3(65536, 0, 0));
    let sphere = Sphere::new(Vec3(2 * 65536, 2 * 65536, 0), 3 * 65536, gray());
    let rec = sphere.hit(&r, 6, i64::MAX);
    assert!(rec.is_some());
    // t = 2 + sqrt(5) ~ 4.236068, truncated fixed-point root extraction
    assert_eq!(277614, rec.unwrap().t);
    assert_eq!(Vec3(277614, 0, 0), rec.unwrap().p);
    assert_eq!(Vec3(48847, -43690, 0), rec.unwrap().normal);
}

#[test]
fn nearest_hit() {
    let r = Ray::new(Vec3(0, 0, 0), Vec3(65536, 0, 0));
    let list: Vec<Sphere> = vec![
        Sphere::new(Vec3(8 * 65536, 3 * 65536, 65536), 4 * 65536, gray()),
        Sphere::new(Vec3(2 * 65536, 2 * 65536, 0), 3 * 65536, gray()),
    ];
    let rec = list.hit(&r, 6, i64::MAX);
    assert!(rec.is_some());
    assert_eq!(277614, rec.unwrap().t);
    assert_eq!(Vec3(277614, 0, 0), rec.unwrap().p);
    assert_eq!(Vec3(48847, -43690, 0), rec.unwrap().normal);
}

#[test]
fn hit_parameter_strictly_inside_interval() {
    let r = Ray::new(Vec3(0, 0, 0), Vec3(65536, 0, 0));
    let sphere = Sphere::new(Vec3(2 * 65536, 2 * 65536, 0), 3 * 65536, gray());
    let rec = sphere.hit(&r, 6, i64::MAX).unwrap();
    assert!(6 < rec.t && rec.t < i64::MAX);
    // with the interval closed just past the root, the same sphere misses
    assert!(sphere.hit(&r, 6, 277614).is_none());
    assert!(sphere.hit(&r, 277614, i64::MAX).is_none());
}

#[test]
fn hit_normal_unit_and_outward() {
    let r = Ray::new(Vec3(0, 0, 0), Vec3(65536, 0, 0));
    let center = Vec3(2 * 65536, 2 * 65536, 0);
    let sphere = Sphere::new(center, 3 * 65536, gray());
    let rec = sphere.hit(&r, 6, i64::MAX).unwrap();
    let n = rec.normal;
    // unit length within fixed-point rounding
    let raw: i128 =
        (n.0 as i128) * (n.0 as i128) + (n.1 as i128) * (n.1 as i128) + (n.2 as i128) * (n.2
            as i128);
    let one: i128 = 1i128 << 32;
    assert!((raw - one).abs() < 1 << 20);
    // outward: the normal agrees with the offset from the center
    let offset = rec.p.sub(center);
    assert!(n.dot(offset) > 0);
}

#[test]
fn ray_behind_sphere_misses() {
    let r = Ray::new(Vec3(0, 0, 0), Vec3(-65536, 0, 0));
    let sphere = Sphere::new(Vec3(2 * 65536, 0, 0), 65536, gray());
    assert!(sphere.hit(&r, 6, i64::MAX).is_none());
}

#[test]
fn empty_list_misses() {
    let list: Vec<Sphere> = vec![];
    let r = Ray::new(Vec3(0, 0, 0), Vec3(65536, 65536, 65536));
    assert!(list.hit(&r, 6, i64::MAX).is_none());
}
