//! Procedural scene population: a large diffuse ground sphere, a grid of
//! randomly placed and randomly flavored small spheres, and three unit
//! spheres showing off the three materials.

use crate::fixed::{fmul, fx_mul, lemma_fmul_bound, lemma_tdiv_sign, lemma_unit_product};
use crate::material::{Dielectric, Lambertian, Material, Metal};
use crate::render::scene_ok;
use crate::rng::random_unit;
use crate::sphere::Sphere;
use crate::vec3::Vec3;
use vstd::prelude::*;

verus! {

/// One randomly jittered grid coordinate: `g + 0.9 * xi` in fixed point.
fn grid_coord(g: i64) -> (c: i64)
    requires
        -11 <= g <= 10,
    ensures
        -0x4000_0000 <= c <= 0x4000_0000,
{
    let xi = random_unit();
    proof {
        lemma_unit_product(58982, xi as int);
    }
    g * 65536 + fx_mul(58982, xi)
}

/// A random albedo channel in `[0, 1)`: the product of two uniform draws.
fn squared_channel() -> (c: i64)
    ensures
        0 <= c <= 65536,
{
    let x = random_unit();
    let y = random_unit();
    proof {
        lemma_unit_product(x as int, y as int);
    }
    fx_mul(x, y)
}

/// A random metal channel in `[0.5, 1)`: `0.5 * (1 + xi)`.
fn metal_channel() -> (c: i64)
    ensures
        0 <= c <= 65536,
{
    let xi = random_unit();
    proof {
        lemma_fmul_bound(32768, 65536 + xi as int, 32768, 0x2_0000);
        lemma_tdiv_sign(32768 * (65536 + xi as int), 65536);
    }
    fx_mul(32768, 65536 + xi)
}

/// Builds the demonstration scene. Every sphere comes out well formed, so
/// the result can be handed straight to the integrator.
pub fn random_scene() -> (world: Vec<Sphere>)
    ensures
        scene_ok(world@),
{
    let mut world: Vec<Sphere> = Vec::new();
    world.push(
        Sphere::new(
            Vec3(0, -65536000, 0),
            65536000,
            Material::Lambertian(Lambertian::new(Vec3(32768, 32768, 32768))),
        ),
    );
    let mut a: i64 = -11;
    while a < 11
        invariant
            scene_ok(world@),
            -11 <= a <= 11,
        decreases 11 - a,
    {
        let mut b: i64 = -11;
        while b < 11
            invariant
                scene_ok(world@),
                -11 <= a <= 10,
                -11 <= b <= 11,
            decreases 11 - b,
        {
            let choose_material = random_unit();
            let center = Vec3(grid_coord(a), 13107, grid_coord(b));
            if center.sub(Vec3(262144, 13107, 0)).length() > 58982 {
                if choose_material < 52429 {
                    // diffuse
                    world.push(
                        Sphere::new(
                            center,
                            13107,
                            Material::Lambertian(
                                Lambertian::new(
                                    Vec3(squared_channel(), squared_channel(), squared_channel()),
                                ),
                            ),
                        ),
                    );
                } else if choose_material < 62259 {
                    // metal
                    let fz = random_unit();
                    proof {
                        lemma_unit_product(32768, fz as int);
                    }
                    world.push(
                        Sphere::new(
                            center,
                            13107,
                            Material::Metal(
                                Metal::new(
                                    Vec3(metal_channel(), metal_channel(), metal_channel()),
                                    fx_mul(32768, fz),
                                ),
                            ),
                        ),
                    );
                } else {
                    // glass
                    world.push(
                        Sphere::new(center, 13107, Material::Dielectric(Dielectric::new(98304))),
                    );
                }
            }
            b = b + 1;
        }
        a = a + 1;
    }
    world.push(Sphere::new(Vec3(0, 65536, 0), 65536, Material::Dielectric(Dielectric::new(98304))));
    world.push(
        Sphere::new(
            Vec3(-262144, 65536, 0),
            65536,
            Material::Lambertian(Lambertian::new(Vec3(26214, 13107, 6553))),
        ),
    );
    world.push(
        Sphere::new(
            Vec3(262144, 65536, 0),
            65536,
            Material::Metal(Metal::new(Vec3(45875, 39321, 32768), 0)),
        ),
    );
    world
}

} // verus!
