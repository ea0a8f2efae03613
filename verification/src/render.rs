//! The radiance estimator and the per-pixel driver arithmetic: recursive
//! bouncing with a hard depth cap, the sky-gradient background, sample
//! averaging and gamma encoding.

use crate::camera::Camera;
use crate::fixed::{
    fmul, fsqrt, fx_div, fx_mul, fx_sqrt, lemma_mul_abs, lemma_sqrt_floor_bounds,
    lemma_tdiv_bound, lemma_tdiv_sign, lemma_unit_product, tdiv,
};
use crate::hittable::Hittable;
use crate::hittable_list::{lemma_empty_scene_misses, lemma_list_hit_properties, list_hit_model};
use crate::material::color_in_unit;
use crate::ray::Ray;
use crate::rng::random_unit;
use crate::sphere::Sphere;
use crate::vec3::Vec3;
use vstd::prelude::*;

verus! {

/// The self-intersection guard: secondary rays ignore hits nearer than
/// about a thousandth of a unit along the ray.
pub const T_MIN: i64 = 66;

/// The bounce budget: past this depth a surviving ray contributes black.
pub const MAX_DEPTH: i32 = 50;

/// A scene every ray query and bounce is entitled to: geometric bounds and
/// well-formed materials on every sphere.
pub open spec fn scene_ok(s: Seq<Sphere>) -> bool {
    forall|i: int|
        0 <= i < s.len() ==> (#[trigger] s[i]).wf_geom() && s[i].material.wf()
}

/// The environment term: a vertical white-to-sky-blue gradient over the
/// unit direction (a fixed-point zero direction reads as the mid-gradient).
pub open spec fn background_model(d: Vec3) -> Vec3 {
    let unit = if d.is_zero() {
        Vec3(0, 0, 0)
    } else {
        d.unit_spec()
    };
    let t = fmul(32768, unit.1 + 65536);
    Vec3(65536, 65536, 65536).scale_spec(65536 - t).add_spec(
        Vec3(32768, 45875, 65536).scale_spec(t),
    )
}

/// How many bounces remain.
pub open spec fn depth_fuel(depth: int) -> nat {
    if depth < 50 {
        (50 - depth) as nat
    } else {
        0
    }
}

/// The gradient endpoints are met exactly: a unit direction pointing
/// straight up yields the sky color, straight down yields white.
pub proof fn lemma_background_endpoints(d: Vec3)
    requires
        !d.is_zero(),
    ensures
        d.unit_spec().1 == 65536 ==> background_model(d) == Vec3(32768, 45875, 65536),
        d.unit_spec().1 == -65536 ==> background_model(d) == Vec3(65536, 65536, 65536),
{
}

/// The estimated radiance along a ray: the struck material's attenuation
/// times the estimate for the scattered ray, black on absorption or an
/// exhausted depth budget, and the background gradient where nothing is
/// hit. A scattered direction thrown outside the world-scale range by a
/// degenerate normal counts as absorbed; real bounces stay far inside it.
pub fn color(r: &Ray, world: &Vec<Sphere>, depth: i32) -> (res: Vec3)
    requires
        scene_ok(world@),
        r.origin.in_range(0x20_0000_0000),
        r.direction.in_range(0x20_0000_0000),
    ensures
        color_in_unit(res),
        list_hit_model(world@, *r, T_MIN, i64::MAX) is None ==> res == background_model(
            r.direction,
        ),
        world@.len() == 0 ==> res == background_model(r.direction),
        list_hit_model(world@, *r, T_MIN, i64::MAX) is Some && depth >= MAX_DEPTH ==> res == Vec3(
            0,
            0,
            0,
        ),
    decreases depth_fuel(depth as int),
{
    proof {
        if world@.len() == 0 {
            lemma_empty_scene_misses(world@, *r, T_MIN, i64::MAX);
        }
    }
    match world.hit(r, T_MIN, i64::MAX) {
        Option::Some(rec) => {
            if depth < MAX_DEPTH {
                proof {
                    lemma_list_hit_properties(world@, *r, T_MIN, i64::MAX);
                    let i = choose|i: int|
                        0 <= i < world@.len() && rec.material == (#[trigger] world@[i]).material;
                    assert(world@[i].material.wf());
                }
                if let Option::Some(s) = rec.material.scatter(r, &rec) {
                    let d = s.scattered.direction;
                    if -0x20_0000_0000 <= d.0 && d.0 <= 0x20_0000_0000 && -0x20_0000_0000 <= d.1
                        && d.1 <= 0x20_0000_0000 && -0x20_0000_0000 <= d.2 && d.2
                        <= 0x20_0000_0000 {
                        let rec_col = color(&s.scattered, world, depth + 1);
                        proof {
                            lemma_unit_product(s.attenuation.0 as int, rec_col.0 as int);
                            lemma_unit_product(s.attenuation.1 as int, rec_col.1 as int);
                            lemma_unit_product(s.attenuation.2 as int, rec_col.2 as int);
                        }
                        return s.attenuation.mul(rec_col);
                    }
                }
            }
            Vec3(0, 0, 0)
        },
        Option::None => {
            let d = r.direction;
            let unit = if d.x() == 0 && d.y() == 0 && d.z() == 0 {
                Vec3(0, 0, 0)
            } else {
                d.to_unit_vector()
            };
            proof {
                lemma_tdiv_sign(32768 * (unit.1 + 65536), 65536);
                lemma_tdiv_bound(32768 * (unit.1 + 65536), 65536, 0x1_0000_0000);
                let t = fmul(32768, unit.1 + 65536);
                vstd::arithmetic::div_mod::lemma_div_multiples_vanish(65536 - t, 65536);
                vstd::arithmetic::div_mod::lemma_div_multiples_vanish(t, 65536);
                lemma_unit_product(32768, t);
                lemma_unit_product(45875, t);
                lemma_unit_product(65536, t);
                lemma_unit_product(65536, 65536 - t);
            }
            let t = fx_mul(32768, unit.y() + 65536);
            Vec3(65536, 65536, 65536).scale(65536 - t).add(Vec3(32768, 45875, 65536).scale(t))
        },
    }
}

/// The exact gamma-and-quantize step applied to each channel: square root,
/// scale by 255.99, keep the integer part.
pub open spec fn gamma_byte_model(c: int) -> int {
    tdiv(fmul(16776560, fsqrt(c)), 65536)
}

/// One channel of a pixel: gamma-corrects an averaged radiance in `[0, 1]`
/// and quantizes it to a byte.
pub fn to_byte(c: i64) -> (b: u8)
    requires
        0 <= c <= 65536,
    ensures
        b == gamma_byte_model(c as int),
{
    let g = fx_sqrt(c);
    proof {
        lemma_sqrt_floor_bounds(c as int * 65536);
        assert(g <= 65536) by (nonlinear_arith)
            requires
                g as int * g as int <= c as int * 65536,
                c <= 65536,
                g >= 0,
        ;
        lemma_mul_abs(16776560, g as int, 16776560, 65536);
        lemma_tdiv_bound(16776560 * g as int, 65536, 16776560int * 65536int);
        vstd::arithmetic::div_mod::lemma_div_multiples_vanish(16776560, 65536);
        assert(16776560int * 65536int == 65536int * 16776560int) by (nonlinear_arith);
        lemma_tdiv_sign(16776560 * g as int, 65536);
        assert(16776560 * g as int >= 0) by (nonlinear_arith)
            requires
                g >= 0,
        ;
        lemma_tdiv_sign(fmul(16776560, g as int) * 65536, 65536);
        lemma_tdiv_bound(fmul(16776560, g as int), 65536, 16776560);
    }
    let v = fx_mul(16776560, g);
    ((v as u64) / 65536) as u8
}

/// One viewport coordinate, jittered inside its pixel: `(i + xi) / n` for a
/// uniform `xi` in `[0, 1)`.
fn sample_coord(i: usize, n: usize) -> (u: i64)
    requires
        0 < n <= 0x1_0000_0000,
        i < n,
    ensures
        0 <= u < 65536,
{
    let xi = random_unit();
    let num: u64 = (i as u64) * 65536 + (xi as u64);
    proof {
        assert(num < (n as u64) * 65536) by (nonlinear_arith)
            requires
                num == i * 65536 + xi,
                i < n,
                0 <= xi < 65536,
        ;
        vstd::arithmetic::div_mod::lemma_multiply_divide_lt(num as int, n as int, 65536);
        vstd::arithmetic::div_mod::lemma_div_pos_is_pos(num as int, n as int);
    }
    (num / (n as u64)) as i64
}

/// One pixel of the image: `ns` jittered camera rays through pixel `(i, j)`
/// of an `nx` by `ny` image, averaged (by the reciprocal, as a scatter of
/// one division), gamma-corrected and quantized.
pub fn render_pixel(
    world: &Vec<Sphere>,
    cam: &Camera,
    i: usize,
    j: usize,
    nx: usize,
    ny: usize,
    ns: usize,
) -> (rgb: (u8, u8, u8))
    requires
        scene_ok(world@),
        cam.wf(),
        0 < nx <= 0x1_0000_0000,
        0 < ny <= 0x1_0000_0000,
        i < nx,
        j < ny,
        1 <= ns <= 0x8000,
    ensures
        exists|c: Vec3|
            color_in_unit(c) && rgb == (
                gamma_byte_model(c.0 as int) as u8,
                gamma_byte_model(c.1 as int) as u8,
                gamma_byte_model(c.2 as int) as u8,
            ),
{
    let mut col = Vec3(0, 0, 0);
    let mut k: usize = 0;
    while k < ns
        invariant
            scene_ok(world@),
            cam.wf(),
            0 < nx <= 0x1_0000_0000,
            0 < ny <= 0x1_0000_0000,
            i < nx,
            j < ny,
            1 <= ns <= 0x8000,
            k <= ns,
            0 <= col.0 <= k * 65536,
            0 <= col.1 <= k * 65536,
            0 <= col.2 <= k * 65536,
        decreases ns - k,
    {
        let u = sample_coord(i, nx);
        let v = sample_coord(j, ny);
        let ray = cam.get_ray(u, v);
        let c = color(&ray, world, 0);
        col = col.add(c);
        k = k + 1;
    }
    let ns_fx: i64 = (ns as i64) * 65536;
    let recip = fx_div(65536, ns_fx);
    proof {
        lemma_tdiv_sign(65536int * 65536int, ns_fx as int);
        lemma_tdiv_bound(65536int * 65536int, ns_fx as int, 0x1_0000_0000);
        vstd::arithmetic::div_mod::lemma_fundamental_div_mod(0x1_0000_0000, ns_fx as int);
        vstd::arithmetic::div_mod::lemma_mod_division_less_than_divisor(
            0x1_0000_0000,
            ns_fx as int,
        );
        assert(recip <= 65536) by (nonlinear_arith)
            requires
                (ns_fx as int) * (recip as int) <= 0x1_0000_0000,
                recip >= 0,
                ns_fx >= 65536,
        ;
        assert((ns as int) * (recip as int) <= 65536) by (nonlinear_arith)
            requires
                (ns_fx as int) * (recip as int) <= 0x1_0000_0000,
                ns_fx == (ns as int) * 65536,
                recip >= 0,
                ns >= 1,
        ;
        lemma_avg_component(col.0 as int, ns as int, recip as int);
        lemma_avg_component(col.1 as int, ns as int, recip as int);
        lemma_avg_component(col.2 as int, ns as int, recip as int);
    }
    let avg = col.scale(recip);
    let rgb = (to_byte(avg.x()), to_byte(avg.y()), to_byte(avg.z()));
    proof {
        assert(color_in_unit(avg) && rgb == (
            gamma_byte_model(avg.0 as int) as u8,
            gamma_byte_model(avg.1 as int) as u8,
            gamma_byte_model(avg.2 as int) as u8,
        ));
    }
    rgb
}

/// Scaling a sum of at most `ns` unit colors by a reciprocal of `ns` lands
/// back in the unit range.
proof fn lemma_avg_component(c: int, ns: int, recip: int)
    requires
        1 <= ns,
        0 <= recip,
        0 <= c <= ns * 65536,
        ns * recip <= 65536,
    ensures
        0 <= fmul(c, recip) <= 65536,
        fmul(c, recip) <= 0x1_0000_0000,
{
    assert(c * recip <= 65536 * (ns * recip) && c * recip >= 0 && ns * recip >= 0)
        by (nonlinear_arith)
        requires
            0 <= c <= ns * 65536,
            0 <= recip,
            1 <= ns,
    ;
    assert(65536 * (ns * recip) <= 65536 * 65536) by (nonlinear_arith)
        requires
            ns * recip <= 65536,
            ns * recip >= 0,
    ;
    lemma_tdiv_bound(c * recip, 65536, 65536int * (65536int * 65536int));
    lemma_tdiv_bound(c * recip, 65536, 65536 * (ns * recip));
    vstd::arithmetic::div_mod::lemma_div_multiples_vanish(ns * recip, 65536);
    lemma_tdiv_sign(c * recip, 65536);
}

} // verus!
