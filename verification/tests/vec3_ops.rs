//! Vector algebra over Q47.16 scalars: one unit is 65536, so `2.0` is
//! written `131072` and `0.5` is `32768`.

use raytrace::vec3::{reflect, Vec3};

#[test]
fn dot_vec() {
    let v1 = Vec3(65536, 131072, 196608);
    let v2 = Vec3(262144, 327680, 393216);
    assert_eq!(32 * 65536, v1.dot(v2));
}

#[test]
fn cross_product() {
    let v1 = Vec3(2 * 65536, 3 * 65536, 4 * 65536);
    let v2 = Vec3(5 * 65536, 6 * 65536, 7 * 65536);
    let v3 = v1.cross(v2);
    assert_eq!(-3 * 65536, v3.x());
    assert_eq!(6 * 65536, v3.y());
    assert_eq!(-3 * 65536, v3.z());
}

#[test]
fn vec_squared_length() {
    let v1 = Vec3(65536, 131072, 196608);
    assert_eq!(14 * 65536, v1.squared_length());
}

#[test]
fn vec_length() {
    let v1 = Vec3(2 * 65536, 3 * 65536, 4 * 65536);
    let l = v1.length();
    // floor(sqrt(29) * 65536): the integer square root of 29 << 32
    assert_eq!(352922, l);
    let raw: i128 = 29i128 << 32;
    assert!((l as i128) * (l as i128) <= raw);
    assert!(raw < (l as i128 + 1) * (l as i128 + 1));
}

#[test]
fn unit_vector() {
    let v1 = Vec3(2 * 65536, 4 * 65536, 4 * 65536);
    let v2 = v1.to_unit_vector();
    // exact thirds, truncated toward zero
    assert_eq!(21845, v2.x());
    assert_eq!(43690, v2.y());
    assert_eq!(43690, v2.z());
}

#[test]
fn neg_vec() {
    let v = Vec3(65536, 131072, 196608).neg();
    assert_eq!(-65536, v.x());
    assert_eq!(-131072, v.y());
    assert_eq!(-196608, v.z());
}

#[test]
fn add_vec() {
    let v1 = Vec3(65536, 131072, 196608);
    let v2 = Vec3(262144, 327680, 393216);
    let mut v3 = v1.add(v2);
    assert_eq!(5 * 65536, v3.r());
    assert_eq!(7 * 65536, v3.g());
    assert_eq!(9 * 65536, v3.b());
    v3 = v3.add(v1);
    assert_eq!(6 * 65536, v3.r());
    assert_eq!(9 * 65536, v3.g());
    assert_eq!(12 * 65536, v3.b());
}

#[test]
fn sub_vec() {
    let v1 = Vec3(65536, 131072, 196608);
    let v2 = Vec3(6 * 65536, 5 * 65536, 4 * 65536);
    let mut v3 = v2.sub(v1);
    assert_eq!(5 * 65536, v3.0);
    assert_eq!(3 * 65536, v3.1);
    assert_eq!(65536, v3.2);
    v3 = v3.sub(v1);
    assert_eq!(4 * 65536, v3.0);
    assert_eq!(65536, v3.1);
    assert_eq!(-2 * 65536, v3.2);
}

#[test]
fn mul_vec() {
    let v1 = Vec3(65536, 131072, 196608);
    let v2 = Vec3(262144, 327680, 393216);
    let mut v3 = v1.mul(v2);
    assert_eq!(4 * 65536, v3.x());
    assert_eq!(10 * 65536, v3.y());
    assert_eq!(18 * 65536, v3.z());
    v3 = v3.mul(v1);
    assert_eq!(4 * 65536, v3.x());
    assert_eq!(20 * 65536, v3.y());
    assert_eq!(54 * 65536, v3.z());
}

#[test]
fn mul_vec_with_number() {
    let v1 = Vec3(65536, 131072, 196608);
    let mut v2 = v1.scale(2 * 65536).scale(5 * 65536);
    assert_eq!(10 * 65536, v2.x());
    assert_eq!(20 * 65536, v2.y());
    assert_eq!(30 * 65536, v2.z());
    v2 = v2.scale(3 * 65536);
    assert_eq!(30 * 65536, v2.x());
    assert_eq!(60 * 65536, v2.y());
    assert_eq!(90 * 65536, v2.z());
}

#[test]
fn div_vec() {
    let v1 = Vec3(65536, 131072, 196608);
    let v2 = Vec3(2 * 65536, 6 * 65536, 12 * 65536);
    let mut v3 = v2.div(v1);
    assert_eq!(2 * 65536, v3.x());
    assert_eq!(3 * 65536, v3.y());
    assert_eq!(4 * 65536, v3.z());
    v3 = v3.div(v1);
    assert_eq!(2 * 65536, v3.x());
    assert_eq!(98304, v3.y());
    // 4/3 truncated toward zero at 2^-16 precision
    assert_eq!(87381, v3.z());
}

#[test]
fn div_vec_by_number() {
    let v1 = Vec3(65536, 131072, 196608);
    let mut v2 = v1.div_scalar(2 * 65536);
    assert_eq!(32768, v2.x());
    assert_eq!(65536, v2.y());
    assert_eq!(98304, v2.z());
    v2 = v2.div_scalar(2 * 65536);
    assert_eq!(16384, v2.x());
    assert_eq!(32768, v2.y());
    assert_eq!(49152, v2.z());
}

#[test]
fn reflect_vec() {
    let v = Vec3(-65536, -65536, 0);
    let n = Vec3(0, 65536, 0);
    let r = reflect(v, n);
    assert_eq!(Vec3(-65536, 65536, 0), r);
}
