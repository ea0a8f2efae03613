//! Surface response models: ideal diffuse (Lambertian), fuzzed specular
//! (Metal) and Fresnel-weighted refractive (Dielectric), dispatched through
//! one closed `Material` choice.

use crate::fixed::{
    fdiv, fmul, fx_div, fx_mul, lemma_fmul_bound, lemma_mul_abs, lemma_sqrt_floor_bounds,
    lemma_tdiv_bound, lemma_tdiv_sign, lemma_unit_quotient,
};
use crate::hittable::HitRecord;
use crate::ray::Ray;
use crate::vec3::{
    in_unit_ball, lemma_length_dominates_components, lemma_raw_dot_bound,
    lemma_raw_dot_self_nonneg, random_in_unit_sphere, reflect, reflect_spec, refract,
    refract_spec, Vec3,
};
use crate::rng::random_unit;
use vstd::prelude::*;

verus! {

/// An albedo is a per-channel attenuation factor, expected in `[0, 1]`.
pub open spec fn color_in_unit(v: Vec3) -> bool {
    &&& 0 <= v.0 <= 65536
    &&& 0 <= v.1 <= 65536
    &&& 0 <= v.2 <= 65536
}

/// An outgoing ray and the color attenuation to apply at this bounce.
#[derive(Clone, Copy, Debug, PartialEq, Eq, Structural)]
pub struct Scatter {
    pub scattered: Ray,
    pub attenuation: Vec3,
}

#[derive(Clone, Copy, Debug, PartialEq, Eq, Structural)]
pub struct Lambertian {
    pub albedo: Vec3,
}

impl Lambertian {
    pub fn new(albedo: Vec3) -> (m: Lambertian)
        ensures
            m.albedo == albedo,
    {
        Lambertian { albedo }
    }
}

#[derive(Clone, Copy, Debug, PartialEq, Eq, Structural)]
pub struct Metal {
    pub albedo: Vec3,
    pub fuzz: i64,
}

impl Metal {
    /// The fuzz radius is clamped into `[0, 1]` at construction.
    pub fn new(albedo: Vec3, fuzz: i64) -> (m: Metal)
        ensures
            m.albedo == albedo,
            m.fuzz == if fuzz < 0 {
                0
            } else if fuzz > 65536 {
                65536int
            } else {
                fuzz as int
            },
            0 <= m.fuzz <= 65536,
    {
        Metal {
            albedo,
            fuzz: if fuzz < 0 {
                0
            } else if fuzz > 65536 {
                65536
            } else {
                fuzz
            },
        }
    }
}

#[derive(Clone, Copy, Debug, PartialEq, Eq, Structural)]
pub struct Dielectric {
    pub ref_idx: i64,
}

impl Dielectric {
    pub fn new(ref_idx: i64) -> (m: Dielectric)
        ensures
            m.ref_idx == ref_idx,
    {
        Dielectric { ref_idx }
    }
}

/// The closed set of surface responses; a tagged choice in place of an open
/// class, dispatched by `Material::scatter`.
#[derive(Clone, Copy, Debug, PartialEq, Eq, Structural)]
pub enum Material {
    Lambertian(Lambertian),
    Metal(Metal),
    Dielectric(Dielectric),
}

impl Material {
    /// What every scatter computation needs of its material: attenuations in
    /// `[0, 1]`, a clamped fuzz, and a physical (at least one) refractive
    /// index of world scale.
    pub open spec fn wf(self) -> bool {
        match self {
            Material::Lambertian(l) => color_in_unit(l.albedo),
            Material::Metal(m) => color_in_unit(m.albedo) && 0 <= m.fuzz <= 65536,
            Material::Dielectric(d) => 65536 <= d.ref_idx <= 0x10_0000,
        }
    }
}

/// What a hit record must offer a scatter computation: the bounds that
/// `Sphere::hit` guarantees of every record it returns.
pub open spec fn rec_ok(rec: HitRecord) -> bool {
    &&& rec.p.in_range(0x2_0000_0000)
    &&& rec.normal.in_range(0x4_0000)
}

/// Diffuse response: always scatters from the hit point toward the normal
/// plus a uniform point of the unit ball, attenuated by the albedo.
pub open spec fn lambertian_post(l: Lambertian, rec: HitRecord, res: Option<Scatter>) -> bool {
    &&& res is Some
    &&& res->Some_0.attenuation == l.albedo
    &&& res->Some_0.scattered.origin == rec.p
    &&& res->Some_0.scattered.direction.in_range(0x8_0000)
    &&& exists|u: Vec3|
        in_unit_ball(u) && res->Some_0.scattered.direction == rec.normal.add_spec(u)
}

impl Lambertian {
    /// Never absorbs: the result is always a scatter (the incoming ray is
    /// not even consulted).
    pub fn scatter(&self, _r_in: &Ray, rec: &HitRecord) -> (res: Option<Scatter>)
        requires
            rec_ok(*rec),
        ensures
            lambertian_post(*self, *rec, res),
    {
        let u = random_in_unit_sphere();
        let target = rec.p.add(rec.normal).add(u);
        let scattered = Ray::new(rec.p, target.sub(rec.p));
        proof {
            assert(target.sub_spec(rec.p) == rec.normal.add_spec(u));
        }
        Some(Scatter { scattered, attenuation: self.albedo })
    }
}

/// The fuzzed mirror direction: the reflection of the unit incoming
/// direction, perturbed by `fuzz` times a point of the unit ball.
pub open spec fn metal_dir(v_unit: Vec3, n: Vec3, fuzz: int, u: Vec3) -> Vec3 {
    reflect_spec(v_unit, n).add_spec(u.scale_spec(fuzz))
}

/// Specular response: reflect, fuzz, and absorb whenever the perturbed
/// direction would re-enter the surface. With `fuzz == 0` the response is
/// the exact mirror reflection, deterministically.
pub open spec fn metal_post(m: Metal, r_in: Ray, rec: HitRecord, res: Option<Scatter>) -> bool {
    let refl = reflect_spec(r_in.direction.unit_spec(), rec.normal);
    &&& (res matches Some(sc) ==> {
        &&& sc.attenuation == m.albedo
        &&& sc.scattered.origin == rec.p
        &&& sc.scattered.direction.in_range(0x100_0000)
        &&& sc.scattered.direction.dot_spec(rec.normal) > 0
        &&& exists|u: Vec3|
            in_unit_ball(u) && sc.scattered.direction == metal_dir(
                r_in.direction.unit_spec(),
                rec.normal,
                m.fuzz as int,
                u,
            )
    })
    &&& (res is None ==> exists|u: Vec3|
        in_unit_ball(u) && metal_dir(
            r_in.direction.unit_spec(),
            rec.normal,
            m.fuzz as int,
            u,
        ).dot_spec(rec.normal) <= 0)
    &&& (m.fuzz == 0 ==> res == if refl.dot_spec(rec.normal) > 0 {
        Some(
            Scatter {
                scattered: Ray { origin: rec.p, direction: refl },
                attenuation: m.albedo,
            },
        )
    } else {
        Option::<Scatter>::None
    })
}

impl Metal {
    pub fn scatter(&self, r_in: &Ray, rec: &HitRecord) -> (res: Option<Scatter>)
        requires
            rec_ok(*rec),
            0 <= self.fuzz <= 65536,
            r_in.direction.in_range(0x4000_0000_0000),
            !r_in.direction.is_zero(),
        ensures
            metal_post(*self, *r_in, *rec, res),
    {
        let unit = r_in.direction.to_unit_vector();
        proof {
            lemma_reflect_unit_bound(unit, rec.normal);
        }
        let reflected = reflect(unit, rec.normal);
        let u = random_in_unit_sphere();
        proof {
            lemma_fmul_bound(u.0 as int, self.fuzz as int, 65536, 65536);
            lemma_fmul_bound(u.1 as int, self.fuzz as int, 65536, 65536);
            lemma_fmul_bound(u.2 as int, self.fuzz as int, 65536, 65536);
        }
        let fuzzed = reflected.add(u.scale(self.fuzz));
        proof {
            if self.fuzz == 0 {
                vstd::arithmetic::mul::lemma_mul_basics(u.0 as int);
                vstd::arithmetic::mul::lemma_mul_basics(u.1 as int);
                vstd::arithmetic::mul::lemma_mul_basics(u.2 as int);
                assert(u.scale_spec(0) == Vec3(0, 0, 0));
                assert(fuzzed == reflect_spec(unit, rec.normal));
            }
        }
        let d = fuzzed.dot(rec.normal);
        if d > 0 {
            Some(Scatter { scattered: Ray::new(rec.p, fuzzed), attenuation: self.albedo })
        } else {
            None
        }
    }
}

/// The flipped-or-kept normal the refraction sees: against the incoming
/// direction.
pub open spec fn outward_normal(d: Vec3, n: Vec3) -> Vec3 {
    if d.dot_spec(n) > 0 {
        n.neg_spec()
    } else {
        n
    }
}

/// The index ratio the refraction sees: the index itself when exiting, its
/// reciprocal when entering.
pub open spec fn index_ratio(ref_idx: int, d: Vec3, n: Vec3) -> int {
    if d.dot_spec(n) > 0 {
        ref_idx
    } else {
        fdiv(65536, ref_idx)
    }
}

/// Refractive response: never absorbs; the outgoing direction is either the
/// mirror reflection of the (unnormalized) incoming direction, or, when
/// refraction is geometrically possible, possibly the refracted direction -
/// the choice between the two is the Fresnel coin flip. Attenuation is
/// always white.
pub open spec fn dielectric_post(m: Dielectric, r_in: Ray, rec: HitRecord, res: Option<
    Scatter,
>) -> bool {
    let refl = reflect_spec(r_in.direction, rec.normal);
    let refr = refract_spec(
        r_in.direction,
        outward_normal(r_in.direction, rec.normal),
        index_ratio(m.ref_idx as int, r_in.direction, rec.normal),
    );
    &&& res is Some
    &&& res->Some_0.attenuation == Vec3(65536, 65536, 65536)
    &&& res->Some_0.scattered.origin == rec.p
    &&& res->Some_0.scattered.direction.in_range(0x1_0000_0000_0000)
    &&& (refr is None ==> res->Some_0.scattered.direction == refl)
    &&& (refr matches Some(rd) ==> res->Some_0.scattered.direction == refl
        || res->Some_0.scattered.direction == rd)
}

impl Dielectric {
    pub fn scatter(&self, r_in: &Ray, rec: &HitRecord) -> (res: Option<Scatter>)
        requires
            rec_ok(*rec),
            65536 <= self.ref_idx <= 0x10_0000,
            r_in.direction.in_range(0x20_0000_0000),
            !r_in.direction.is_zero(),
        ensures
            dielectric_post(*self, *r_in, *rec, res),
    {
        let attenuation = Vec3(65536, 65536, 65536);
        let d_dot_n = r_in.direction.dot(rec.normal);
        let len = r_in.direction.length();
        proof {
            lemma_cosine_bounds(r_in.direction, rec.normal, self.ref_idx as int);
        }
        let (outward, ni_over_nt, cosine): (Vec3, i64, i64) = if d_dot_n > 0 {
            let cosine = fx_div(fx_mul(self.ref_idx, d_dot_n), len);
            (rec.normal.neg(), self.ref_idx, cosine)
        } else {
            proof {
                lemma_unit_quotient(65536, self.ref_idx as int);
                lemma_tdiv_sign(65536int * 65536int, self.ref_idx as int);
            }
            let cosine = -fx_div(d_dot_n, len);
            (rec.normal, fx_div(65536, self.ref_idx), cosine)
        };
        let reflected = Ray::new(rec.p, reflect(r_in.direction, rec.normal));
        let scattered = match refract(r_in.direction, outward, ni_over_nt) {
            Some(refracted_dir) => {
                let reflect_prob = schlick(cosine, self.ref_idx);
                if random_unit() < reflect_prob {
                    reflected
                } else {
                    Ray::new(rec.p, refracted_dir)
                }
            },
            None => reflected,
        };
        Some(Scatter { scattered, attenuation })
    }
}

impl Material {
    /// One interface over the three responses; each variant's contract says
    /// exactly what it returns.
    pub fn scatter(&self, r_in: &Ray, rec: &HitRecord) -> (res: Option<Scatter>)
        requires
            self.wf(),
            rec_ok(*rec),
            r_in.direction.in_range(0x20_0000_0000),
            !r_in.direction.is_zero(),
        ensures
            match *self {
                Material::Lambertian(l) => lambertian_post(l, *rec, res),
                Material::Metal(m) => metal_post(m, *r_in, *rec, res),
                Material::Dielectric(d) => dielectric_post(d, *r_in, *rec, res),
            },
            res matches Some(sc) ==> {
                &&& color_in_unit(sc.attenuation)
                &&& sc.scattered.origin == rec.p
                &&& sc.scattered.direction.in_range(0x1_0000_0000_0000)
            },
    {
        match self {
            Material::Lambertian(l) => l.scatter(r_in, rec),
            Material::Metal(m) => m.scatter(r_in, rec),
            Material::Dielectric(d) => d.scatter(r_in, rec),
        }
    }
}

/// Schlick's closed-form approximation of the Fresnel reflectance, with the
/// fifth power evaluated as `((e^2)^2) * e`.
pub open spec fn schlick_spec(cosine: int, ref_idx: int) -> int {
    let r0p = fdiv(65536 - ref_idx, 65536 + ref_idx);
    let r0 = fmul(r0p, r0p);
    let e = 65536 - cosine;
    let e5 = fmul(fmul(fmul(e, e), fmul(e, e)), e);
    r0 + fmul(65536 - r0, e5)
}

pub fn schlick(cosine: i64, ref_idx: i64) -> (r: i64)
    requires
        1 <= ref_idx <= 0x10_0000,
        -0x200_0000 <= cosine <= 0x200_0000,
    ensures
        r == schlick_spec(cosine as int, ref_idx as int),
{
    proof {
        lemma_schlick_bound_consts();
        lemma_unit_quotient(65536 - ref_idx, 65536 + ref_idx);
        let r0p = fdiv(65536 - ref_idx, 65536 + ref_idx);
        lemma_fmul_bound(r0p, r0p, 65536, 65536);
        let r0 = fmul(r0p, r0p);
        let e = 65536 - cosine;
        lemma_fmul_bound(e, e, 0x201_0000, 0x201_0000);
        lemma_fmul_bound(fmul(e, e), fmul(e, e), 0x4_0401_0000, 0x4_0401_0000);
        lemma_fmul_bound(fmul(fmul(e, e), fmul(e, e)), e, 0x11_0000_0000_0000, 0x201_0000);
        lemma_fmul_bound(
            65536 - r0,
            fmul(fmul(fmul(e, e), fmul(e, e)), e),
            0x2_0000,
            0x2300_0000_0000_0000,
        );
    }
    let r0p = fx_div(65536 - ref_idx, 65536 + ref_idx);
    let r0 = fx_mul(r0p, r0p);
    let e = 65536 - cosine;
    let e2 = fx_mul(e, e);
    let e5 = fx_mul(fx_mul(e2, e2), e);
    r0 + fx_mul(65536 - r0, e5)
}

/// Constant arithmetic for the fifth-power bound chain in `schlick`,
/// evaluated here in an otherwise empty context.
proof fn lemma_schlick_bound_consts()
    ensures
        (0x201_0000int * 0x201_0000int) / 65536 == 0x4_0401_0000int,
        (0x4_0401_0000int * 0x4_0401_0000int) / 65536 <= 0x11_0000_0000_0000int,
        (0x11_0000_0000_0000int * 0x201_0000int) / 65536 <= 0x2300_0000_0000_0000int,
        (0x2_0000int * 0x2300_0000_0000_0000int) / 65536 <= 0x4600_0000_0000_0000int,
{
}

/// Reflecting a unit direction about a bounded normal stays small.
proof fn lemma_reflect_unit_bound(v: Vec3, n: Vec3)
    requires
        v.in_range(65536),
        n.in_range(0x4_0000),
    ensures
        reflect_spec(v, n).in_range(0x80_0000),
{
    lemma_raw_dot_bound(v, n, 65536, 0x4_0000);
    lemma_tdiv_bound(v.raw_dot(n), 65536, 0xc_0000_0000);
    let d = v.dot_spec(n);
    lemma_fmul_bound(2 * d, n.0 as int, 0x18_0000, 0x4_0000);
    lemma_fmul_bound(2 * d, n.1 as int, 0x18_0000, 0x4_0000);
    lemma_fmul_bound(2 * d, n.2 as int, 0x18_0000, 0x4_0000);
}

/// The Fresnel cosine is bounded: no component of a vector exceeds its
/// length, so a dot product with a four-unit normal is at most twelve
/// lengths - whence sixteen units after the division by the length, and
/// 2^24 once scaled by an index of at most sixteen.
proof fn lemma_cosine_bounds(d: Vec3, n: Vec3, ref_idx: int)
    requires
        !d.is_zero(),
        d.in_range(0x20_0000_0000),
        n.in_range(0x4_0000),
        0 <= ref_idx <= 0x10_0000,
    ensures
        -0x10_0000 <= fdiv(d.dot_spec(n), d.length_spec()) <= 0x10_0000,
        -0x100_0000 <= fdiv(fmul(ref_idx, d.dot_spec(n)), d.length_spec()) <= 0x100_0000,
        -0x40_0000_0000_0000 <= fmul(ref_idx, d.dot_spec(n)) <= 0x40_0000_0000_0000,
        d.length_spec() >= 1,
{
    let raw = d.raw_dot(n);
    let aa = d.raw_dot(d);
    let ll = d.length_spec();
    lemma_raw_dot_self_nonneg(d);
    lemma_raw_dot_bound(d, d, 0x20_0000_0000, 0x20_0000_0000);
    lemma_sqrt_floor_bounds(aa);
    lemma_length_dominates_components(d);
    assert(ll <= 0x80_0000_0000) by (nonlinear_arith)
        requires
            ll * ll <= aa,
            aa <= 3 * (0x20_0000_0000int * 0x20_0000_0000int),
            ll >= 0,
    ;
    lemma_mul_abs(d.0 as int, n.0 as int, ll, 0x4_0000);
    lemma_mul_abs(d.1 as int, n.1 as int, ll, 0x4_0000);
    lemma_mul_abs(d.2 as int, n.2 as int, ll, 0x4_0000);
    let dot = d.dot_spec(n);
    lemma_tdiv_bound(raw, 65536, 65536 * (16 * ll));
    vstd::arithmetic::div_mod::lemma_div_multiples_vanish(16 * ll, 65536);
    assert(-(16 * ll) <= dot <= 16 * ll);
    lemma_tdiv_bound(dot * 65536, ll, ll * 0x10_0000);
    vstd::arithmetic::div_mod::lemma_div_multiples_vanish(0x10_0000, ll);
    lemma_mul_abs(ref_idx, dot, 0x10_0000, 16 * ll);
    lemma_tdiv_bound(ref_idx * dot, 65536, 65536 * (256 * ll));
    vstd::arithmetic::div_mod::lemma_div_multiples_vanish(256 * ll, 65536);
    let fm = fmul(ref_idx, dot);
    assert(-(256 * ll) <= fm <= 256 * ll);
    lemma_tdiv_bound(fm * 65536, ll, ll * 0x100_0000);
    vstd::arithmetic::div_mod::lemma_div_multiples_vanish(0x100_0000, ll);
}

} // verus!
