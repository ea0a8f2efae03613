//! Ray-sphere intersection by the half-coefficient quadratic, with exact
//! fixed-point contracts: the returned parameter, point and normal are
//! pinned bit-for-bit by `hit_model`.

use crate::fixed::{
    fdiv, fmul, fx_mul, lemma_fmul_bound, lemma_mul_abs, lemma_tdiv_bound, lemma_tdiv_mono,
    lemma_tdiv_sign, sqrt_floor, tdiv, tdiv128,
};
use crate::hittable::{HitRecord, Hittable};
use crate::material::Material;
use crate::ray::Ray;
use crate::vec3::{lemma_raw_dot_bound, lemma_raw_dot_self_nonneg, Vec3};
use vstd::prelude::*;

verus! {

pub struct Sphere {
    pub center: Vec3,
    pub radius: i64,
    pub material: Material,
}

impl Sphere {
    /// Geometric well-formedness: a positive radius and world-scale bounds.
    /// Callers are responsible for it; `hit` demands rather than checks it.
    pub open spec fn wf_geom(self) -> bool {
        &&& 1 <= self.radius <= 0x4000_0000
        &&& self.center.in_range(0x4000_0000)
    }

    pub fn new(center: Vec3, radius: i64, material: Material) -> (s: Sphere)
        ensures
            s.center == center,
            s.radius == radius,
            s.material == material,
    {
        Sphere { center, radius, material }
    }

    /// The quadratic coefficient `a = d . d`.
    pub open spec fn a_spec(self, r: Ray) -> int {
        r.direction.dot_spec(r.direction)
    }

    /// The half-coefficient `b = (origin - center) . d`, over the exact
    /// component differences.
    pub open spec fn b_spec(self, r: Ray) -> int {
        tdiv(
            (r.origin.0 - self.center.0) * r.direction.0 + (r.origin.1 - self.center.1)
                * r.direction.1 + (r.origin.2 - self.center.2) * r.direction.2,
            65536,
        )
    }

    /// The constant coefficient `c = (origin - center) . (origin - center) - radius^2`.
    pub open spec fn c_spec(self, r: Ray) -> int {
        tdiv(
            (r.origin.0 - self.center.0) * (r.origin.0 - self.center.0) + (r.origin.1
                - self.center.1) * (r.origin.1 - self.center.1) + (r.origin.2 - self.center.2) * (
            r.origin.2 - self.center.2),
            65536,
        ) - fmul(self.radius as int, self.radius as int)
    }

    /// The half-form discriminant `b^2 - a c`, formed exactly (no rounding).
    pub open spec fn disc_spec(self, r: Ray) -> int {
        self.b_spec(r) * self.b_spec(r) - self.a_spec(r) * self.c_spec(r)
    }

    /// The record a root `t` yields: the point along the ray and the normal
    /// `(p - center) / radius`. A point that roundoff has thrown further
    /// than four radii from the center is dismissed as a miss instead of
    /// producing an absurd normal; geometrically the point lies within one
    /// rounding step of the surface, so the guard never fires there.
    pub open spec fn root_hit(self, r: Ray, t: int) -> Option<HitRecord> {
        let px = r.origin.0 + fmul(t, r.direction.0 as int);
        let py = r.origin.1 + fmul(t, r.direction.1 as int);
        let pz = r.origin.2 + fmul(t, r.direction.2 as int);
        let dx = px - self.center.0;
        let dy = py - self.center.1;
        let dz = pz - self.center.2;
        if -4 * self.radius <= dx <= 4 * self.radius && -4 * self.radius <= dy <= 4 * self.radius
            && -4 * self.radius <= dz <= 4 * self.radius {
            Some(
                HitRecord {
                    t: t as i64,
                    p: Vec3(px as i64, py as i64, pz as i64),
                    normal: Vec3(
                        fdiv(dx, self.radius as int) as i64,
                        fdiv(dy, self.radius as int) as i64,
                        fdiv(dz, self.radius as int) as i64,
                    ),
                    material: self.material,
                },
            )
        } else {
            None
        }
    }

    /// The whole intersection: a positive discriminant (a tangency counts
    /// as a miss) and a nondegenerate direction admit the two roots in
    /// ascending order; the first whose parameter lies strictly inside
    /// `(t_min, t_max)` decides.
    pub open spec fn hit_model_spec(self, r: Ray, t_min: i64, t_max: i64) -> Option<HitRecord> {
        let a = self.a_spec(r);
        let b = self.b_spec(r);
        let disc = self.disc_spec(r);
        if disc > 0 && a >= 1 {
            let s = sqrt_floor(disc);
            let t1 = tdiv((-b - s) * 65536, a);
            let t2 = tdiv((-b + s) * 65536, a);
            if t_min < t1 < t_max {
                self.root_hit(r, t1)
            } else if t_min < t2 < t_max {
                self.root_hit(r, t2)
            } else {
                None
            }
        } else {
            None
        }
    }

    /// Evaluates `root_hit` for a parameter already known to be in range.
    fn hit_root(&self, r: &Ray, t: i64) -> (res: Option<HitRecord>)
        requires
            self.wf_geom(),
            r.origin.in_range(0x20_0000_0000),
            r.direction.in_range(0x20_0000_0000),
        ensures
            res == self.root_hit(*r, t as int),
            res matches Some(h) ==> h.t == t && h.normal.in_range(0x4_0000) && h.p.in_range(
                0x2_0000_0000,
            ) && h.material == self.material,
    {
        proof {
            lemma_mul_abs(t as int, r.direction.0 as int, 0x8000_0000_0000_0000, 0x20_0000_0000);
            lemma_mul_abs(t as int, r.direction.1 as int, 0x8000_0000_0000_0000, 0x20_0000_0000);
            lemma_mul_abs(t as int, r.direction.2 as int, 0x8000_0000_0000_0000, 0x20_0000_0000);
        }
        let rad: i128 = self.radius as i128;
        let px: i128 = (r.origin.0 as i128) + tdiv128(
            (t as i128) * (r.direction.0 as i128),
            65536,
        );
        let py: i128 = (r.origin.1 as i128) + tdiv128(
            (t as i128) * (r.direction.1 as i128),
            65536,
        );
        let pz: i128 = (r.origin.2 as i128) + tdiv128(
            (t as i128) * (r.direction.2 as i128),
            65536,
        );
        let dx: i128 = px - (self.center.0 as i128);
        let dy: i128 = py - (self.center.1 as i128);
        let dz: i128 = pz - (self.center.2 as i128);
        let r4: i128 = 4 * rad;
        if -r4 <= dx && dx <= r4 && -r4 <= dy && dy <= r4 && -r4 <= dz && dz <= r4 {
            proof {
                lemma_normal_component(dx as int, self.radius as int);
                lemma_normal_component(dy as int, self.radius as int);
                lemma_normal_component(dz as int, self.radius as int);
            }
            let nx = tdiv128(dx * 65536, rad);
            let ny = tdiv128(dy * 65536, rad);
            let nz = tdiv128(dz * 65536, rad);
            Some(
                HitRecord {
                    t,
                    p: Vec3(px as i64, py as i64, pz as i64),
                    normal: Vec3(nx as i64, ny as i64, nz as i64),
                    material: self.material,
                },
            )
        } else {
            None
        }
    }
}

/// A point within four radii of the center yields a normal component within
/// four units.
proof fn lemma_normal_component(d: int, rad: int)
    requires
        rad >= 1,
        -4 * rad <= d <= 4 * rad,
    ensures
        -0x4_0000 <= fdiv(d, rad) <= 0x4_0000,
{
    lemma_tdiv_bound(d * 65536, rad, rad * 262144);
    vstd::arithmetic::div_mod::lemma_div_multiples_vanish(262144, rad);
}

impl Hittable for Sphere {
    open spec fn hit_ok(&self, r: Ray, t_min: i64, t_max: i64) -> bool {
        &&& self.wf_geom()
        &&& r.origin.in_range(0x20_0000_0000)
        &&& r.direction.in_range(0x20_0000_0000)
    }

    open spec fn hit_model(&self, r: Ray, t_min: i64, t_max: i64) -> Option<HitRecord> {
        self.hit_model_spec(r, t_min, t_max)
    }

    fn hit(&self, r: &Ray, t_min: i64, t_max: i64) -> (res: Option<HitRecord>) {
        let oc = r.origin.sub(self.center);
        proof {
            lemma_raw_dot_bound(r.direction, r.direction, 0x20_0000_0000, 0x20_0000_0000);
            lemma_tdiv_bound(
                r.direction.raw_dot(r.direction),
                65536,
                0x3000_0000_0000_0000_0000,
            );
            lemma_raw_dot_self_nonneg(r.direction);
            lemma_tdiv_sign(r.direction.raw_dot(r.direction), 65536);
            lemma_raw_dot_bound(oc, r.direction, 0x40_0000_0000, 0x40_0000_0000);
            lemma_tdiv_bound(oc.raw_dot(r.direction), 65536, 0x3000_0000_0000_0000_0000);
            lemma_raw_dot_bound(oc, oc, 0x40_0000_0000, 0x40_0000_0000);
            lemma_tdiv_bound(oc.raw_dot(oc), 65536, 0x3000_0000_0000_0000_0000);
            lemma_fmul_bound(self.radius as int, self.radius as int, 0x4000_0000, 0x4000_0000);
        }
        let a = r.direction.dot(r.direction);
        let b = oc.dot(r.direction);
        let c = oc.dot(oc) - fx_mul(self.radius, self.radius);
        proof {
            lemma_mul_abs(b as int, b as int, 0x4000_0000_0000_0000, 0x4000_0000_0000_0000);
            lemma_mul_abs(a as int, c as int, 0x4000_0000_0000_0000, 0x4000_0000_0000_0000);
        }
        let disc: i128 = (b as i128) * (b as i128) - (a as i128) * (c as i128);
        if disc > 0 && a >= 1 {
            let s128 = crate::fixed::isqrt_u128(disc as u128);
            proof {
                assert(s128 <= 0x8000_0000_0000_0000) by (nonlinear_arith)
                    requires
                        (s128 as int) * (s128 as int) <= 0x4000_0000_0000_0000_0000_0000_0000_0000int,
                ;
            }
            let s: i128 = s128 as i128;
            let t1 = tdiv128((-(b as i128) - s) * 65536, a as i128);
            if (t_min as i128) < t1 && t1 < (t_max as i128) {
                return self.hit_root(r, t1 as i64);
            }
            let t2 = tdiv128((-(b as i128) + s) * 65536, a as i128);
            if (t_min as i128) < t2 && t2 < (t_max as i128) {
                return self.hit_root(r, t2 as i64);
            }
            None
        } else {
            None
        }
    }
}

/// Every hit parameter lies strictly inside the query interval.
pub proof fn lemma_sphere_hit_interval(s: Sphere, r: Ray, t_min: i64, t_max: i64)
    ensures
        s.hit_model_spec(r, t_min, t_max) matches Some(h) ==> t_min < h.t < t_max,
{
}

/// A vanishing or negative discriminant - tangency included - is a miss.
pub proof fn lemma_sphere_tangent_misses(s: Sphere, r: Ray, t_min: i64, t_max: i64)
    requires
        s.disc_spec(r) <= 0,
    ensures
        s.hit_model_spec(r, t_min, t_max) is None,
{
}

/// The returned parameter is one of the quadratic's two roots, taken in
/// ascending order: the far root is accepted only after the near root has
/// fallen outside the interval.
pub proof fn lemma_sphere_hit_roots(s: Sphere, r: Ray, t_min: i64, t_max: i64)
    ensures
        s.hit_model_spec(r, t_min, t_max) matches Some(h) ==> {
            let a = s.a_spec(r);
            let b = s.b_spec(r);
            let sq = sqrt_floor(s.disc_spec(r));
            let t1 = tdiv((-b - sq) * 65536, a);
            let t2 = tdiv((-b + sq) * 65536, a);
            &&& t1 <= t2
            &&& (h.t == t1 && t_min < t1 < t_max) || (h.t == t2 && t_min < t2 < t_max && !(t_min
                < t1 < t_max))
        },
{
    let res = s.hit_model_spec(r, t_min, t_max);
    if res is Some {
        let a = s.a_spec(r);
        let b = s.b_spec(r);
        let sq = sqrt_floor(s.disc_spec(r));
        crate::fixed::lemma_sqrt_floor_bounds(s.disc_spec(r));
        lemma_tdiv_mono((-b - sq) * 65536, (-b + sq) * 65536, a);
    }
}

/// A hit cannot come from a degenerate (fixed-point zero) direction.
pub proof fn lemma_sphere_hit_direction(s: Sphere, r: Ray, t_min: i64, t_max: i64)
    ensures
        s.hit_model_spec(r, t_min, t_max) is Some ==> !r.direction.is_zero(),
{
    if r.direction.is_zero() {
        assert(r.direction.raw_dot(r.direction) == 0);
        assert(s.a_spec(r) == tdiv(0, 65536));
    }
}

/// The returned normal is exactly the offset from the center scaled by the
/// inverse radius, and it never points against that offset: its dot product
/// with `p - center` is nonnegative.
pub proof fn lemma_sphere_hit_normal(s: Sphere, r: Ray, t_min: i64, t_max: i64)
    requires
        s.wf_geom(),
    ensures
        s.hit_model_spec(r, t_min, t_max) matches Some(h) ==> {
            &&& h.normal == Vec3(
                fdiv(h.p.0 - s.center.0, s.radius as int) as i64,
                fdiv(h.p.1 - s.center.1, s.radius as int) as i64,
                fdiv(h.p.2 - s.center.2, s.radius as int) as i64,
            )
            &&& h.normal.in_range(0x4_0000)
            &&& h.p.in_range(0x2_0000_0000)
            &&& h.material == s.material
            &&& h.normal.dot_spec(h.p.sub_spec(s.center)) >= 0
        },
{
    let res = s.hit_model_spec(r, t_min, t_max);
    if res is Some {
        let h = res->Some_0;
        let t = h.t as int;
        let px = r.origin.0 + fmul(t, r.direction.0 as int);
        let py = r.origin.1 + fmul(t, r.direction.1 as int);
        let pz = r.origin.2 + fmul(t, r.direction.2 as int);
        let dx = px - s.center.0;
        let dy = py - s.center.1;
        let dz = pz - s.center.2;
        lemma_normal_component(dx, s.radius as int);
        lemma_normal_component(dy, s.radius as int);
        lemma_normal_component(dz, s.radius as int);
        lemma_outward_component(dx, s.radius as int);
        lemma_outward_component(dy, s.radius as int);
        lemma_outward_component(dz, s.radius as int);
        lemma_tdiv_sign(
            fdiv(dx, s.radius as int) * dx + fdiv(dy, s.radius as int) * dy + fdiv(
                dz,
                s.radius as int,
            ) * dz,
            65536,
        );
    }
}

/// Each term of the outwardness dot product is nonnegative: dividing by the
/// (positive) radius keeps the sign of the offset.
proof fn lemma_outward_component(d: int, rad: int)
    requires
        rad >= 1,
    ensures
        fdiv(d, rad) * d >= 0,
{
    lemma_tdiv_sign(d * 65536, rad);
    if d >= 0 {
        assert(fdiv(d, rad) * d >= 0) by (nonlinear_arith)
            requires
                fdiv(d, rad) >= 0,
                d >= 0,
        ;
    } else {
        assert(fdiv(d, rad) * d >= 0) by (nonlinear_arith)
            requires
                fdiv(d, rad) <= 0,
                d <= 0,
        ;
    }
}

} // verus!
