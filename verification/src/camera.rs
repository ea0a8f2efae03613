//! The thin-lens camera: an orthonormal basis and viewport derived once
//! from the user parameters, and per-call ray generation with a lens-disk
//! jitter for depth of field.
//!
//! The vertical field of view needs a tangent; it is evaluated as the ratio
//! of the two truncated Maclaurin series below, carried at `2^-32`
//! precision. The divisor is floored at one unit and the result clamped to
//! sixty-four, so extreme angles degrade gracefully instead of overflowing.

use crate::fixed::{
    fdiv, fmul, fx_div, fx_mul, lemma_fmul_bound, lemma_mul_abs, lemma_tdiv_bound, tdiv, tdiv128,
};
use crate::ray::Ray;
use crate::vec3::{in_unit_disk, random_in_unit_disk, Vec3};
use vstd::prelude::*;

verus! {

/// The circle constant at `2^-32` precision.
pub const PI32: i64 = 13493037704;

/// One half turn in fixed-point degrees.
pub const HALF_TURN_DEG: i64 = 0xb4_0000;

/// The Maclaurin sine at `2^-32` precision: six alternating terms.
pub open spec fn sin32(x: int) -> int {
    let x2 = tdiv(x * x, 0x1_0000_0000);
    let x3 = tdiv(x2 * x, 0x1_0000_0000);
    let x5 = tdiv(x3 * x2, 0x1_0000_0000);
    let x7 = tdiv(x5 * x2, 0x1_0000_0000);
    let x9 = tdiv(x7 * x2, 0x1_0000_0000);
    let x11 = tdiv(x9 * x2, 0x1_0000_0000);
    x - tdiv(x3, 6) + tdiv(x5, 120) - tdiv(x7, 5040) + tdiv(x9, 362880) - tdiv(x11, 39916800)
}

/// The Maclaurin cosine at `2^-32` precision: seven alternating terms.
pub open spec fn cos32(x: int) -> int {
    let x2 = tdiv(x * x, 0x1_0000_0000);
    let x4 = tdiv(x2 * x2, 0x1_0000_0000);
    let x6 = tdiv(x4 * x2, 0x1_0000_0000);
    let x8 = tdiv(x6 * x2, 0x1_0000_0000);
    let x10 = tdiv(x8 * x2, 0x1_0000_0000);
    let x12 = tdiv(x10 * x2, 0x1_0000_0000);
    0x1_0000_0000 - tdiv(x2, 2) + tdiv(x4, 24) - tdiv(x6, 720) + tdiv(x8, 40320) - tdiv(
        x10,
        3628800,
    ) + tdiv(x12, 479001600)
}

/// The tangent as the series ratio, brought back to Q47.16; the divisor is
/// floored at one unit so the quotient is always defined.
pub open spec fn tan16(x: int) -> int {
    let c = cos32(x);
    tdiv(sin32(x) * 65536, if c < 1 {
        1
    } else {
        c
    })
}

/// Evaluates both series; the power chain is shared.
fn sin_cos32(x: i64) -> (sc: (i64, i64))
    requires
        0 <= x <= 0x2_0000_0000,
    ensures
        sc.0 == sin32(x as int),
        sc.1 == cos32(x as int),
        -0x10_0000_0000 <= sc.0 <= 0x10_0000_0000,
        -0x10_0000_0000 <= sc.1 <= 0x10_0000_0000,
{
    let x: i128 = x as i128;
    proof {
        lemma_mul_abs(x as int, x as int, 0x2_0000_0000, 0x2_0000_0000);
        lemma_tdiv_bound(x as int * x as int, 0x1_0000_0000, 0x4_0000_0000_0000_0000);
    }
    let x2 = tdiv128(x * x, 0x1_0000_0000);
    proof {
        lemma_mul_abs(x2 as int, x as int, 0x4_0000_0000, 0x2_0000_0000);
        lemma_tdiv_bound(x2 as int * x as int, 0x1_0000_0000, 0x8_0000_0000_0000_0000);
    }
    let x3 = tdiv128(x2 * x, 0x1_0000_0000);
    proof {
        lemma_mul_abs(x3 as int, x2 as int, 0x8_0000_0000, 0x4_0000_0000);
        lemma_tdiv_bound(x3 as int * x2 as int, 0x1_0000_0000, 0x20_0000_0000_0000_0000);
    }
    let x5 = tdiv128(x3 * x2, 0x1_0000_0000);
    proof {
        lemma_mul_abs(x5 as int, x2 as int, 0x20_0000_0000, 0x4_0000_0000);
        lemma_tdiv_bound(x5 as int * x2 as int, 0x1_0000_0000, 0x80_0000_0000_0000_0000);
    }
    let x7 = tdiv128(x5 * x2, 0x1_0000_0000);
    proof {
        lemma_mul_abs(x7 as int, x2 as int, 0x80_0000_0000, 0x4_0000_0000);
        lemma_tdiv_bound(x7 as int * x2 as int, 0x1_0000_0000, 0x200_0000_0000_0000_0000);
    }
    let x9 = tdiv128(x7 * x2, 0x1_0000_0000);
    proof {
        lemma_mul_abs(x9 as int, x2 as int, 0x200_0000_0000, 0x4_0000_0000);
        lemma_tdiv_bound(x9 as int * x2 as int, 0x1_0000_0000, 0x800_0000_0000_0000_0000);
    }
    let x11 = tdiv128(x9 * x2, 0x1_0000_0000);
    proof {
        lemma_mul_abs(x2 as int, x2 as int, 0x4_0000_0000, 0x4_0000_0000);
        lemma_tdiv_bound(x2 as int * x2 as int, 0x1_0000_0000, 0x10_0000_0000_0000_0000);
    }
    let x4 = tdiv128(x2 * x2, 0x1_0000_0000);
    proof {
        lemma_mul_abs(x4 as int, x2 as int, 0x10_0000_0000, 0x4_0000_0000);
        lemma_tdiv_bound(x4 as int * x2 as int, 0x1_0000_0000, 0x40_0000_0000_0000_0000);
    }
    let x6 = tdiv128(x4 * x2, 0x1_0000_0000);
    proof {
        lemma_mul_abs(x6 as int, x2 as int, 0x40_0000_0000, 0x4_0000_0000);
        lemma_tdiv_bound(x6 as int * x2 as int, 0x1_0000_0000, 0x100_0000_0000_0000_0000);
    }
    let x8 = tdiv128(x6 * x2, 0x1_0000_0000);
    proof {
        lemma_mul_abs(x8 as int, x2 as int, 0x100_0000_0000, 0x4_0000_0000);
        lemma_tdiv_bound(x8 as int * x2 as int, 0x1_0000_0000, 0x400_0000_0000_0000_0000);
    }
    let x10 = tdiv128(x8 * x2, 0x1_0000_0000);
    proof {
        lemma_mul_abs(x10 as int, x2 as int, 0x400_0000_0000, 0x4_0000_0000);
        lemma_tdiv_bound(x10 as int * x2 as int, 0x1_0000_0000, 0x1000_0000_0000_0000_0000);
    }
    let x12 = tdiv128(x10 * x2, 0x1_0000_0000);
    proof {
        lemma_tdiv_bound(x3 as int, 6, 0x8_0000_0000);
        lemma_tdiv_bound(x5 as int, 120, 0x20_0000_0000);
        lemma_tdiv_bound(x7 as int, 5040, 0x80_0000_0000);
        lemma_tdiv_bound(x9 as int, 362880, 0x200_0000_0000);
        lemma_tdiv_bound(x11 as int, 39916800, 0x800_0000_0000);
        lemma_tdiv_bound(x2 as int, 2, 0x4_0000_0000);
        lemma_tdiv_bound(x4 as int, 24, 0x10_0000_0000);
        lemma_tdiv_bound(x6 as int, 720, 0x40_0000_0000);
        lemma_tdiv_bound(x8 as int, 40320, 0x100_0000_0000);
        lemma_tdiv_bound(x10 as int, 3628800, 0x400_0000_0000);
        lemma_tdiv_bound(x12 as int, 479001600, 0x1000_0000_0000);
    }
    let s = x - tdiv128(x3, 6) + tdiv128(x5, 120) - tdiv128(x7, 5040) + tdiv128(x9, 362880)
        - tdiv128(x11, 39916800);
    let c = 0x1_0000_0000 - tdiv128(x2, 2) + tdiv128(x4, 24) - tdiv128(x6, 720) + tdiv128(
        x8,
        40320,
    ) - tdiv128(x10, 3628800) + tdiv128(x12, 479001600);
    (s as i64, c as i64)
}

#[derive(Clone, Copy, Debug, PartialEq, Eq, Structural)]
pub struct Camera {
    pub origin: Vec3,
    pub lower_left_corner: Vec3,
    pub horizontal: Vec3,
    pub vertical: Vec3,
    pub u: Vec3,
    pub v: Vec3,
    pub w: Vec3,
    pub lens_radius: i64,
}

/// The half-height of the viewport: the tangent of half the vertical field
/// of view, clamped into sixty-four units either way.
pub open spec fn half_height_model(vertical_fov: int) -> int {
    let theta = tdiv(vertical_fov * (PI32 as int), HALF_TURN_DEG as int);
    let t = tan16(tdiv(theta, 2));
    if t > 0x40_0000 {
        0x40_0000
    } else if t < -0x40_0000 {
        -0x40_0000
    } else {
        t
    }
}

/// Everything `Camera::new` derives, as a function of the parameters alone:
/// construction is deterministic, so equal parameters give equal cameras.
pub open spec fn camera_model(
    look_from: Vec3,
    look_at: Vec3,
    view_up: Vec3,
    vertical_fov: int,
    aspect: int,
    aperture: int,
    focus_dist: int,
) -> Camera {
    let half_height = half_height_model(vertical_fov);
    let half_width = fmul(aspect, half_height);
    let w = look_from.sub_spec(look_at).unit_spec();
    let u = view_up.cross_spec(w).unit_spec();
    let v = w.cross_spec(u);
    let hwf = fmul(half_width, focus_dist);
    let hhf = fmul(half_height, focus_dist);
    Camera {
        origin: look_from,
        lower_left_corner: look_from.sub_spec(u.scale_spec(hwf)).sub_spec(
            v.scale_spec(hhf),
        ).sub_spec(w.scale_spec(focus_dist)),
        horizontal: u.scale_spec(fmul(fmul(0x2_0000, half_width), focus_dist)),
        vertical: v.scale_spec(fmul(fmul(0x2_0000, half_height), focus_dist)),
        u,
        v,
        w,
        lens_radius: fmul(aperture, 32768) as i64,
    }
}

impl Camera {
    /// The bounds ray generation needs of a camera; `Camera::new`
    /// establishes them for every admissible parameter set.
    pub open spec fn wf(self) -> bool {
        &&& self.origin.in_range(0x400_0000)
        &&& self.lower_left_corner.in_range(0x8_0000_0000)
        &&& self.horizontal.in_range(0x8_0000_0000)
        &&& self.vertical.in_range(0x8_0000_0000)
        &&& self.u.in_range(0x1_0000)
        &&& self.v.in_range(0x2_0000)
        &&& self.w.in_range(0x1_0000)
        &&& 0 <= self.lens_radius <= 0x80_0000
    }

    /// Derives the viewing basis once. The field of view is in fixed-point
    /// degrees, top to bottom. Degenerate configurations (coincident
    /// look-from and look-at, an up vector parallel to the view axis) are
    /// the caller's responsibility, as are the world-scale bounds.
    #[verifier::rlimit(100)]
    pub fn new(
        look_from: Vec3,
        look_at: Vec3,
        view_up: Vec3,
        vertical_fov: i64,
        aspect: i64,
        aperture: i64,
        focus_dist: i64,
    ) -> (cam: Camera)
        requires
            look_from.in_range(0x400_0000),
            look_at.in_range(0x400_0000),
            view_up.in_range(0x400_0000),
            0 < vertical_fov < 0xb4_0000,
            0 < aspect <= 0x10_0000,
            0 <= aperture <= 0x100_0000,
            0 < focus_dist <= 0x100_0000,
            !look_from.sub_spec(look_at).is_zero(),
            !view_up.cross_spec(look_from.sub_spec(look_at).unit_spec()).is_zero(),
        ensures
            cam == camera_model(
                look_from,
                look_at,
                view_up,
                vertical_fov as int,
                aspect as int,
                aperture as int,
                focus_dist as int,
            ),
            cam.wf(),
    {
        proof {
            lemma_mul_abs(vertical_fov as int, PI32 as int, HALF_TURN_DEG as int, PI32 as int);
            lemma_tdiv_bound(
                vertical_fov as int * (PI32 as int),
                HALF_TURN_DEG as int,
                (HALF_TURN_DEG as int) * (PI32 as int),
            );
            vstd::arithmetic::div_mod::lemma_div_multiples_vanish(PI32 as int, HALF_TURN_DEG as int);
            lemma_tdiv_bound(
                tdiv(vertical_fov as int * (PI32 as int), HALF_TURN_DEG as int),
                2,
                PI32 as int,
            );
        }
        let theta = tdiv128((vertical_fov as i128) * (PI32 as i128), HALF_TURN_DEG as i128) as i64;
        let half_angle = tdiv128(theta as i128, 2) as i64;
        let sc = sin_cos32(half_angle);
        let cdiv: i64 = if sc.1 < 1 {
            1
        } else {
            sc.1
        };
        proof {
            lemma_mul_abs(sc.0 as int, 65536, 0x10_0000_0000, 65536);
            lemma_tdiv_bound(sc.0 as int * 65536, cdiv as int, 0x10_0000_0000_0000);
        }
        let tan_t = tdiv128((sc.0 as i128) * 65536, cdiv as i128) as i64;
        let half_height: i64 = if tan_t > 0x40_0000 {
            0x40_0000
        } else if tan_t < -0x40_0000 {
            -0x40_0000
        } else {
            tan_t
        };
        proof {
            lemma_fmul_bound(aspect as int, half_height as int, 0x10_0000, 0x40_0000);
        }
        let half_width = fx_mul(aspect, half_height);
        let w = look_from.sub(look_at).to_unit_vector();
        proof {
            lemma_fmul_bound(view_up.1 as int, w.2 as int, 0x400_0000, 0x1_0000);
            lemma_fmul_bound(view_up.2 as int, w.1 as int, 0x400_0000, 0x1_0000);
            lemma_fmul_bound(view_up.0 as int, w.2 as int, 0x400_0000, 0x1_0000);
            lemma_fmul_bound(view_up.2 as int, w.0 as int, 0x400_0000, 0x1_0000);
            lemma_fmul_bound(view_up.0 as int, w.1 as int, 0x400_0000, 0x1_0000);
            lemma_fmul_bound(view_up.1 as int, w.0 as int, 0x400_0000, 0x1_0000);
        }
        let u = view_up.cross(w).to_unit_vector();
        let v = w.cross(u);
        proof {
            lemma_fmul_bound(half_width as int, focus_dist as int, 0x400_0000, 0x100_0000);
            lemma_fmul_bound(half_height as int, focus_dist as int, 0x40_0000, 0x100_0000);
        }
        let hwf = fx_mul(half_width, focus_dist);
        let hhf = fx_mul(half_height, focus_dist);
        proof {
            let uu = look_from.sub_spec(look_at).unit_spec();
            let cu = view_up.cross_spec(uu).unit_spec();
            let cv = uu.cross_spec(cu);
            lemma_fmul_bound(uu.1 as int, cu.2 as int, 0x1_0000, 0x1_0000);
            lemma_fmul_bound(uu.2 as int, cu.1 as int, 0x1_0000, 0x1_0000);
            lemma_fmul_bound(uu.0 as int, cu.2 as int, 0x1_0000, 0x1_0000);
            lemma_fmul_bound(uu.2 as int, cu.0 as int, 0x1_0000, 0x1_0000);
            lemma_fmul_bound(uu.0 as int, cu.1 as int, 0x1_0000, 0x1_0000);
            lemma_fmul_bound(uu.1 as int, cu.0 as int, 0x1_0000, 0x1_0000);
            assert(cv.in_range(0x2_0000));
            lemma_fmul_bound(cu.0 as int, hwf as int, 0x1_0000, 0x4_0000_0000);
            lemma_fmul_bound(cu.1 as int, hwf as int, 0x1_0000, 0x4_0000_0000);
            lemma_fmul_bound(cu.2 as int, hwf as int, 0x1_0000, 0x4_0000_0000);
            lemma_fmul_bound(cv.0 as int, hhf as int, 0x2_0000, 0x4000_0000);
            lemma_fmul_bound(cv.1 as int, hhf as int, 0x2_0000, 0x4000_0000);
            lemma_fmul_bound(cv.2 as int, hhf as int, 0x2_0000, 0x4000_0000);
            lemma_fmul_bound(uu.0 as int, focus_dist as int, 0x1_0000, 0x100_0000);
            lemma_fmul_bound(uu.1 as int, focus_dist as int, 0x1_0000, 0x100_0000);
            lemma_fmul_bound(uu.2 as int, focus_dist as int, 0x1_0000, 0x100_0000);
            lemma_fmul_bound(0x2_0000, half_width as int, 0x2_0000, 0x400_0000);
            lemma_fmul_bound(fmul(0x2_0000, half_width as int), focus_dist as int, 0x800_0000, 0x100_0000);
            lemma_fmul_bound(0x2_0000, half_height as int, 0x2_0000, 0x40_0000);
            lemma_fmul_bound(fmul(0x2_0000, half_height as int), focus_dist as int, 0x80_0000, 0x100_0000);
            let dw = fmul(fmul(0x2_0000, half_width as int), focus_dist as int);
            let dh = fmul(fmul(0x2_0000, half_height as int), focus_dist as int);
            lemma_fmul_bound(cu.0 as int, dw, 0x1_0000, 0x8_0000_0000);
            lemma_fmul_bound(cu.1 as int, dw, 0x1_0000, 0x8_0000_0000);
            lemma_fmul_bound(cu.2 as int, dw, 0x1_0000, 0x8_0000_0000);
            lemma_fmul_bound(cv.0 as int, dh, 0x2_0000, 0x8000_0000);
            lemma_fmul_bound(cv.1 as int, dh, 0x2_0000, 0x8000_0000);
            lemma_fmul_bound(cv.2 as int, dh, 0x2_0000, 0x8000_0000);
            lemma_fmul_bound(aperture as int, 32768, 0x100_0000, 32768);
        }
        let lower_left_corner = look_from.sub(u.scale(hwf)).sub(v.scale(hhf)).sub(
            w.scale(focus_dist),
        );
        let horizontal = u.scale(fx_mul(fx_mul(0x2_0000, half_width), focus_dist));
        let vertical = v.scale(fx_mul(fx_mul(0x2_0000, half_height), focus_dist));
        Camera {
            origin: look_from,
            lower_left_corner,
            horizontal,
            vertical,
            u,
            v,
            w,
            lens_radius: fx_mul(aperture, 32768),
        }
    }

    /// The ray through normalized viewport coordinates `(s, t)`, for a
    /// given lens-disk sample.
    pub open spec fn ray_model(self, s: int, t: int, disk: Vec3) -> Ray {
        let rd = disk.scale_spec(self.lens_radius as int);
        let offset = self.u.scale_spec(rd.0 as int).add_spec(self.v.scale_spec(rd.1 as int));
        Ray {
            origin: self.origin.add_spec(offset),
            direction: self.lower_left_corner.add_spec(self.horizontal.scale_spec(s)).add_spec(
                self.vertical.scale_spec(t),
            ).sub_spec(self.origin).sub_spec(offset),
        }
    }

    /// One camera ray: deterministic up to the lens-disk sample, and
    /// exactly deterministic for a pinhole camera (zero lens radius).
    pub fn get_ray(&self, s: i64, t: i64) -> (r: Ray)
        requires
            self.wf(),
            0 <= s <= 65536,
            0 <= t <= 65536,
        ensures
            exists|p: Vec3| in_unit_disk(p) && r == self.ray_model(s as int, t as int, p),
            self.lens_radius == 0 ==> r == self.ray_model(s as int, t as int, Vec3(0, 0, 0)),
            r.origin.in_range(0x800_0000),
            r.direction.in_range(0x20_0000_0000),
    {
        let p = random_in_unit_disk();
        proof {
            lemma_fmul_bound(p.0 as int, self.lens_radius as int, 0x1_0000, 0x80_0000);
            lemma_fmul_bound(p.1 as int, self.lens_radius as int, 0x1_0000, 0x80_0000);
            lemma_fmul_bound(p.2 as int, self.lens_radius as int, 0x1_0000, 0x80_0000);
        }
        let rd = p.scale(self.lens_radius);
        proof {
            lemma_fmul_bound(self.u.0 as int, rd.0 as int, 0x1_0000, 0x80_0000);
            lemma_fmul_bound(self.u.1 as int, rd.0 as int, 0x1_0000, 0x80_0000);
            lemma_fmul_bound(self.u.2 as int, rd.0 as int, 0x1_0000, 0x80_0000);
            lemma_fmul_bound(self.v.0 as int, rd.1 as int, 0x2_0000, 0x80_0000);
            lemma_fmul_bound(self.v.1 as int, rd.1 as int, 0x2_0000, 0x80_0000);
            lemma_fmul_bound(self.v.2 as int, rd.1 as int, 0x2_0000, 0x80_0000);
            lemma_fmul_bound(self.horizontal.0 as int, s as int, 0x8_0000_0000, 0x1_0000);
            lemma_fmul_bound(self.horizontal.1 as int, s as int, 0x8_0000_0000, 0x1_0000);
            lemma_fmul_bound(self.horizontal.2 as int, s as int, 0x8_0000_0000, 0x1_0000);
            lemma_fmul_bound(self.vertical.0 as int, t as int, 0x8_0000_0000, 0x1_0000);
            lemma_fmul_bound(self.vertical.1 as int, t as int, 0x8_0000_0000, 0x1_0000);
            lemma_fmul_bound(self.vertical.2 as int, t as int, 0x8_0000_0000, 0x1_0000);
        }
        let offset = self.u.scale(rd.x()).add(self.v.scale(rd.y()));
        let r = Ray::new(
            self.origin.add(offset),
            self.lower_left_corner.add(self.horizontal.scale(s)).add(
                self.vertical.scale(t),
            ).sub(self.origin).sub(offset),
        );
        proof {
            assert(in_unit_disk(p) && r == self.ray_model(s as int, t as int, p));
            if self.lens_radius == 0 {
                vstd::arithmetic::mul::lemma_mul_basics(p.0 as int);
                vstd::arithmetic::mul::lemma_mul_basics(p.1 as int);
                vstd::arithmetic::mul::lemma_mul_basics(p.2 as int);
                vstd::arithmetic::mul::lemma_mul_basics(self.lens_radius as int);
                assert(p.scale_spec(0) == Vec3(0, 0, 0));
                assert(Vec3(0, 0, 0).scale_spec(0) == Vec3(0, 0, 0));
                assert(self.ray_model(s as int, t as int, p) == self.ray_model(
                    s as int,
                    t as int,
                    Vec3(0, 0, 0),
                ));
            }
        }
        r
    }
}

/// Camera construction is a pure function of its parameters: built twice
/// from the same parameters, the derived basis is identical.
pub proof fn lemma_camera_deterministic(
    c1: Camera,
    c2: Camera,
    look_from: Vec3,
    look_at: Vec3,
    view_up: Vec3,
    vertical_fov: int,
    aspect: int,
    aperture: int,
    focus_dist: int,
)
    requires
        c1 == camera_model(look_from, look_at, view_up, vertical_fov, aspect, aperture, focus_dist),
        c2 == camera_model(look_from, look_at, view_up, vertical_fov, aspect, aperture, focus_dist),
    ensures
        c1 == c2,
{
}

} // verus!
