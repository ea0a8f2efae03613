//! Three-component fixed-point vectors, used interchangeably as points,
//! directions and RGB colors, together with the sampling and optics helpers
//! built on them.

use crate::fixed::{
    fdiv, fits_i64, fmul, fx_div, fx_mul, isqrt_u128, lemma_fmul_bound, lemma_mul_abs,
    lemma_tdiv_bound, lemma_tdiv_exact, lemma_unit_quotient, sqrt_floor, tdiv, tdiv128, ONE,
};
use crate::rng::random_unit;
use vstd::prelude::*;

verus! {

/// A triple of Q47.16 scalars.
#[derive(Clone, Copy, Debug, PartialEq, Eq, Structural)]
pub struct Vec3(pub i64, pub i64, pub i64);

impl Vec3 {
    /// All three components lie within `[-m, m]`.
    pub open spec fn in_range(self, m: int) -> bool {
        &&& -m <= self.0 <= m
        &&& -m <= self.1 <= m
        &&& -m <= self.2 <= m
    }

    pub open spec fn is_zero(self) -> bool {
        self.0 == 0 && self.1 == 0 && self.2 == 0
    }

    /// The exact sum of raw component products; twice-scaled (`2^-32` units).
    pub open spec fn raw_dot(self, other: Vec3) -> int {
        self.0 * other.0 + self.1 * other.1 + self.2 * other.2
    }

    /// The fixed-point dot product: the exact sum rescaled once.
    pub open spec fn dot_spec(self, other: Vec3) -> int {
        tdiv(self.raw_dot(other), 65536)
    }

    pub open spec fn add_spec(self, other: Vec3) -> Vec3 {
        Vec3(
            (self.0 + other.0) as i64,
            (self.1 + other.1) as i64,
            (self.2 + other.2) as i64,
        )
    }

    pub open spec fn sub_spec(self, other: Vec3) -> Vec3 {
        Vec3(
            (self.0 - other.0) as i64,
            (self.1 - other.1) as i64,
            (self.2 - other.2) as i64,
        )
    }

    pub open spec fn neg_spec(self) -> Vec3 {
        Vec3((-self.0) as i64, (-self.1) as i64, (-self.2) as i64)
    }

    /// Component-wise fixed-point product.
    pub open spec fn mul_spec(self, other: Vec3) -> Vec3 {
        Vec3(
            fmul(self.0 as int, other.0 as int) as i64,
            fmul(self.1 as int, other.1 as int) as i64,
            fmul(self.2 as int, other.2 as int) as i64,
        )
    }

    /// Scaling by a fixed-point scalar.
    pub open spec fn scale_spec(self, t: int) -> Vec3 {
        Vec3(
            fmul(self.0 as int, t) as i64,
            fmul(self.1 as int, t) as i64,
            fmul(self.2 as int, t) as i64,
        )
    }

    /// Component-wise fixed-point quotient (for a divisor free of zeros).
    pub open spec fn div_spec(self, other: Vec3) -> Vec3 {
        Vec3(
            sdiv(self.0 as int, other.0 as int) as i64,
            sdiv(self.1 as int, other.1 as int) as i64,
            sdiv(self.2 as int, other.2 as int) as i64,
        )
    }

    /// Division of each component by one positive fixed-point scalar.
    pub open spec fn div_scalar_spec(self, t: int) -> Vec3 {
        Vec3(
            fdiv(self.0 as int, t) as i64,
            fdiv(self.1 as int, t) as i64,
            fdiv(self.2 as int, t) as i64,
        )
    }

    pub open spec fn cross_spec(self, other: Vec3) -> Vec3 {
        Vec3(
            (fmul(self.1 as int, other.2 as int) - fmul(self.2 as int, other.1 as int)) as i64,
            (-(fmul(self.0 as int, other.2 as int) - fmul(self.2 as int, other.0 as int))) as i64,
            (fmul(self.0 as int, other.1 as int) - fmul(self.1 as int, other.0 as int)) as i64,
        )
    }

    pub fn x(&self) -> (r: i64)
        ensures
            r == self.0,
    {
        self.0
    }

    pub fn y(&self) -> (r: i64)
        ensures
            r == self.1,
    {
        self.1
    }

    pub fn z(&self) -> (r: i64)
        ensures
            r == self.2,
    {
        self.2
    }

    pub fn r(&self) -> (r: i64)
        ensures
            r == self.0,
    {
        self.0
    }

    pub fn g(&self) -> (r: i64)
        ensures
            r == self.1,
    {
        self.1
    }

    pub fn b(&self) -> (r: i64)
        ensures
            r == self.2,
    {
        self.2
    }

    pub fn neg(self) -> (r: Vec3)
        requires
            self.0 > i64::MIN,
            self.1 > i64::MIN,
            self.2 > i64::MIN,
        ensures
            r == self.neg_spec(),
    {
        Vec3(-self.0, -self.1, -self.2)
    }

    pub fn add(self, other: Vec3) -> (r: Vec3)
        requires
            fits_i64(self.0 + other.0),
            fits_i64(self.1 + other.1),
            fits_i64(self.2 + other.2),
        ensures
            r == self.add_spec(other),
    {
        Vec3(self.0 + other.0, self.1 + other.1, self.2 + other.2)
    }

    pub fn sub(self, other: Vec3) -> (r: Vec3)
        requires
            fits_i64(self.0 - other.0),
            fits_i64(self.1 - other.1),
            fits_i64(self.2 - other.2),
        ensures
            r == self.sub_spec(other),
    {
        Vec3(self.0 - other.0, self.1 - other.1, self.2 - other.2)
    }

    pub fn mul(self, other: Vec3) -> (r: Vec3)
        requires
            fits_i64(fmul(self.0 as int, other.0 as int)),
            fits_i64(fmul(self.1 as int, other.1 as int)),
            fits_i64(fmul(self.2 as int, other.2 as int)),
        ensures
            r == self.mul_spec(other),
    {
        Vec3(fx_mul(self.0, other.0), fx_mul(self.1, other.1), fx_mul(self.2, other.2))
    }

    pub fn scale(self, t: i64) -> (r: Vec3)
        requires
            fits_i64(fmul(self.0 as int, t as int)),
            fits_i64(fmul(self.1 as int, t as int)),
            fits_i64(fmul(self.2 as int, t as int)),
        ensures
            r == self.scale_spec(t as int),
    {
        Vec3(fx_mul(self.0, t), fx_mul(self.1, t), fx_mul(self.2, t))
    }

    pub fn div(self, other: Vec3) -> (r: Vec3)
        requires
            other.0 != 0 && other.0 > i64::MIN,
            other.1 != 0 && other.1 > i64::MIN,
            other.2 != 0 && other.2 > i64::MIN,
            fits_i64(sdiv(self.0 as int, other.0 as int)),
            fits_i64(sdiv(self.1 as int, other.1 as int)),
            fits_i64(sdiv(self.2 as int, other.2 as int)),
        ensures
            r == self.div_spec(other),
    {
        Vec3(
            fx_sdiv(self.0, other.0),
            fx_sdiv(self.1, other.1),
            fx_sdiv(self.2, other.2),
        )
    }

    pub fn div_scalar(self, t: i64) -> (r: Vec3)
        requires
            t >= 1,
            fits_i64(fdiv(self.0 as int, t as int)),
            fits_i64(fdiv(self.1 as int, t as int)),
            fits_i64(fdiv(self.2 as int, t as int)),
        ensures
            r == self.div_scalar_spec(t as int),
    {
        Vec3(fx_div(self.0, t), fx_div(self.1, t), fx_div(self.2, t))
    }

    pub fn dot(&self, other: Vec3) -> (r: i64)
        requires
            self.in_range(0x40_0000_0000),
            other.in_range(0x40_0000_0000),
        ensures
            r == self.dot_spec(other),
    {
        proof {
            lemma_mul_abs(self.0 as int, other.0 as int, 0x40_0000_0000, 0x40_0000_0000);
            lemma_mul_abs(self.1 as int, other.1 as int, 0x40_0000_0000, 0x40_0000_0000);
            lemma_mul_abs(self.2 as int, other.2 as int, 0x40_0000_0000, 0x40_0000_0000);
            lemma_tdiv_bound(self.raw_dot(other), 65536, 0x3000_0000_0000_0000_0000);
        }
        let s: i128 = (self.0 as i128) * (other.0 as i128) + (self.1 as i128) * (other.1 as i128)
            + (self.2 as i128) * (other.2 as i128);
        tdiv128(s, 65536) as i64
    }

    pub fn cross(&self, other: Vec3) -> (r: Vec3)
        requires
            self.in_range(0x40_0000_0000),
            other.in_range(0x40_0000_0000),
        ensures
            r == self.cross_spec(other),
    {
        proof {
            lemma_fmul_bound(self.1 as int, other.2 as int, 0x40_0000_0000, 0x40_0000_0000);
            lemma_fmul_bound(self.2 as int, other.1 as int, 0x40_0000_0000, 0x40_0000_0000);
            lemma_fmul_bound(self.0 as int, other.2 as int, 0x40_0000_0000, 0x40_0000_0000);
            lemma_fmul_bound(self.2 as int, other.0 as int, 0x40_0000_0000, 0x40_0000_0000);
            lemma_fmul_bound(self.0 as int, other.1 as int, 0x40_0000_0000, 0x40_0000_0000);
            lemma_fmul_bound(self.1 as int, other.0 as int, 0x40_0000_0000, 0x40_0000_0000);
        }
        Vec3(
            fx_mul(self.1, other.2) - fx_mul(self.2, other.1),
            -(fx_mul(self.0, other.2) - fx_mul(self.2, other.0)),
            fx_mul(self.0, other.1) - fx_mul(self.1, other.0),
        )
    }

    pub fn squared_length(self) -> (r: i64)
        requires
            self.in_range(0x40_0000_0000),
        ensures
            r == self.dot_spec(self),
            r >= 0,
    {
        proof {
            lemma_raw_dot_self_nonneg(self);
            lemma_raw_dot_bound(self, self, 0x40_0000_0000, 0x40_0000_0000);
            lemma_tdiv_bound(self.raw_dot(self), 65536, 0x3000_0000_0000_0000_0000);
        }
        self.dot(self)
    }

    /// The fixed-point Euclidean length: because the component squares carry
    /// two scale factors, their integer square root is again Q47.16.
    pub open spec fn length_spec(self) -> int {
        sqrt_floor(self.raw_dot(self))
    }

    pub fn length(self) -> (r: i64)
        requires
            self.in_range(0x4000_0000_0000),
        ensures
            r == self.length_spec(),
            r >= 0,
            r == 0 <==> self.is_zero(),
    {
        proof {
            lemma_raw_dot_self_nonneg(self);
            lemma_mul_abs(self.0 as int, self.0 as int, 0x4000_0000_0000, 0x4000_0000_0000);
            lemma_mul_abs(self.1 as int, self.1 as int, 0x4000_0000_0000, 0x4000_0000_0000);
            lemma_mul_abs(self.2 as int, self.2 as int, 0x4000_0000_0000, 0x4000_0000_0000);
        }
        let s: i128 = (self.0 as i128) * (self.0 as i128) + (self.1 as i128) * (self.1 as i128)
            + (self.2 as i128) * (self.2 as i128);
        let r = isqrt_u128(s as u128);
        proof {
            assert(r <= 0x2_0000_0000_0000) by (nonlinear_arith)
                requires
                    (r as int) * (r as int) <= 0x3000_0000_0000_0000_0000_0000int,
            ;
            assert((r == 0 <==> s == 0)) by (nonlinear_arith)
                requires
                    (r as int) * (r as int) <= s as int,
                    (s as int) < ((r as int) + 1) * ((r as int) + 1),
                    s >= 0,
            ;
        }
        r as i64
    }

    /// Each component divided by the length; components stay within one unit
    /// because no component exceeds the length.
    pub open spec fn unit_spec(self) -> Vec3 {
        let l = self.length_spec();
        Vec3(
            fdiv(self.0 as int, l) as i64,
            fdiv(self.1 as int, l) as i64,
            fdiv(self.2 as int, l) as i64,
        )
    }

    pub fn to_unit_vector(&self) -> (r: Vec3)
        requires
            self.in_range(0x4000_0000_0000),
            !self.is_zero(),
        ensures
            r == self.unit_spec(),
            r.in_range(65536),
    {
        let l = self.length();
        proof {
            lemma_length_dominates_components(*self);
            lemma_unit_quotient(self.0 as int, l as int);
            lemma_unit_quotient(self.1 as int, l as int);
            lemma_unit_quotient(self.2 as int, l as int);
        }
        Vec3(fx_div(self.0, l), fx_div(self.1, l), fx_div(self.2, l))
    }
}

/// No component of a nonzero vector exceeds the vector's length.
pub proof fn lemma_length_dominates_components(v: Vec3)
    requires
        !v.is_zero(),
    ensures
        v.length_spec() >= 1,
        -v.length_spec() <= v.0 <= v.length_spec(),
        -v.length_spec() <= v.1 <= v.length_spec(),
        -v.length_spec() <= v.2 <= v.length_spec(),
{
    lemma_raw_dot_self_nonneg(v);
    let n = v.raw_dot(v);
    let l = v.length_spec();
    crate::fixed::lemma_sqrt_floor_bounds(n);
    assert(l >= 1) by (nonlinear_arith)
        requires
            n >= 1,
            l >= 0,
            n < (l + 1) * (l + 1),
    ;
    assert(v.0 as int * v.0 as int <= n && v.1 as int * v.1 as int <= n && v.2 as int * v.2
        as int <= n) by (nonlinear_arith)
        requires
            n == v.0 as int * v.0 as int + v.1 as int * v.1 as int + v.2 as int * v.2 as int,
    ;
    assert(-l <= v.0 <= l) by (nonlinear_arith)
        requires
            v.0 as int * v.0 as int <= n,
            n < (l + 1) * (l + 1),
            l >= 0,
    ;
    assert(-l <= v.1 <= l) by (nonlinear_arith)
        requires
            v.1 as int * v.1 as int <= n,
            n < (l + 1) * (l + 1),
            l >= 0,
    ;
    assert(-l <= v.2 <= l) by (nonlinear_arith)
        requires
            v.2 as int * v.2 as int <= n,
            n < (l + 1) * (l + 1),
            l >= 0,
    ;
}

/// Truncating fixed-point division extended to negative divisors.
pub open spec fn sdiv(a: int, b: int) -> int
    recommends
        b != 0,
{
    if b >= 1 {
        fdiv(a, b)
    } else {
        -fdiv(a, -b)
    }
}

fn fx_sdiv(a: i64, b: i64) -> (r: i64)
    requires
        b != 0,
        b > i64::MIN,
        fits_i64(sdiv(a as int, b as int)),
    ensures
        r == sdiv(a as int, b as int),
{
    if b >= 1 {
        fx_div(a, b)
    } else {
        proof {
            lemma_tdiv_bound(
                (a as int) * 65536,
                -(b as int),
                if a >= 0 {
                    (a as int) * 65536
                } else {
                    -(a as int) * 65536
                },
            );
        }
        let q: i128 = tdiv128((a as i128) * 65536, -(b as i128));
        (-q) as i64
    }
}

/// Component bounds on two vectors bound their raw dot product.
pub proof fn lemma_raw_dot_bound(u: Vec3, v: Vec3, mu: int, mv: int)
    requires
        mu >= 0,
        mv >= 0,
        u.in_range(mu),
        v.in_range(mv),
    ensures
        -3 * (mu * mv) <= u.raw_dot(v) <= 3 * (mu * mv),
{
    lemma_mul_abs(u.0 as int, v.0 as int, mu, mv);
    lemma_mul_abs(u.1 as int, v.1 as int, mu, mv);
    lemma_mul_abs(u.2 as int, v.2 as int, mu, mv);
}

/// Strictly inside the unit ball, with every component within one unit.
pub open spec fn in_unit_ball(p: Vec3) -> bool {
    p.in_range(65536) && p.dot_spec(p) < 65536
}

/// Inside the unit disk of the xy-plane.
pub open spec fn in_unit_disk(p: Vec3) -> bool {
    in_unit_ball(p) && p.2 == 0
}

/// A uniform point of the open unit ball, by rejection sampling. A draw
/// lands inside the ball about half the time, so the attempt bound is never
/// reached in practice; the center keeps the function total if it is.
pub fn random_in_unit_sphere() -> (p: Vec3)
    ensures
        in_unit_ball(p),
{
    let mut tries: u8 = 0;
    while tries < 64
        decreases 64 - tries,
    {
        let p = Vec3(
            2 * random_unit() - ONE,
            2 * random_unit() - ONE,
            2 * random_unit() - ONE,
        );
        if p.squared_length() < ONE {
            return p;
        }
        tries = tries + 1;
    }
    Vec3(0, 0, 0)
}

/// A uniform point of the open unit disk, by rejection sampling; the same
/// attempt bound and fallback as `random_in_unit_sphere`.
pub fn random_in_unit_disk() -> (p: Vec3)
    ensures
        in_unit_disk(p),
{
    let mut tries: u8 = 0;
    while tries < 64
        decreases 64 - tries,
    {
        let p = Vec3(2 * random_unit() - ONE, 2 * random_unit() - ONE, 0);
        if p.squared_length() < ONE {
            return p;
        }
        tries = tries + 1;
    }
    Vec3(0, 0, 0)
}

/// Mirror reflection about a normal: `v - 2 (v . n) n`.
pub open spec fn reflect_spec(v: Vec3, n: Vec3) -> Vec3 {
    let d = v.dot_spec(n);
    Vec3(
        (v.0 - fmul(2 * d, n.0 as int)) as i64,
        (v.1 - fmul(2 * d, n.1 as int)) as i64,
        (v.2 - fmul(2 * d, n.2 as int)) as i64,
    )
}

pub fn reflect(v: Vec3, n: Vec3) -> (r: Vec3)
    requires
        v.in_range(0x20_0000_0000),
        n.in_range(0x4_0000),
    ensures
        r == reflect_spec(v, n),
        r.in_range(0x1_0000_0000_0000),
{
    proof {
        lemma_raw_dot_bound(v, n, 0x20_0000_0000, 0x4_0000);
        lemma_tdiv_bound(v.raw_dot(n), 65536, 0x180_0000_0000_0000);
        let d = v.dot_spec(n);
        lemma_fmul_bound(2 * d, n.0 as int, 0x3000_0000_0000, 0x4_0000);
        lemma_fmul_bound(2 * d, n.1 as int, 0x3000_0000_0000, 0x4_0000);
        lemma_fmul_bound(2 * d, n.2 as int, 0x3000_0000_0000, 0x4_0000);
    }
    let d = v.dot(n);
    let t = 2 * d;
    Vec3(v.0 - fx_mul(t, n.0), v.1 - fx_mul(t, n.1), v.2 - fx_mul(t, n.2))
}

/// Snell refraction, or `None` on total internal reflection. The
/// discriminant `1 - r^2 (1 - dt^2)` and the output are evaluated at
/// doubled internal precision (`2^-48`-unit intermediate scalars), so an
/// index ratio of one transmits the unit direction bit-for-bit.
pub open spec fn refract_spec(v: Vec3, n: Vec3, ni_over_nt: int) -> Option<Vec3>
    recommends
        !v.is_zero(),
        ni_over_nt >= 0,
{
    let uv = v.unit_spec();
    let dt = uv.raw_dot(n);
    let m = 0x1_0000_0000_0000_0000 - dt * dt;
    let disc = 0x1_0000_0000_0000_0000_0000_0000 - (ni_over_nt * ni_over_nt) * m;
    if disc > 0 {
        let s = sqrt_floor(disc);
        Some(
            Vec3(
                tdiv(
                    ni_over_nt * (uv.0 * 0x1_0000_0000 - n.0 * dt) - n.0 * s,
                    0x1_0000_0000_0000,
                ) as i64,
                tdiv(
                    ni_over_nt * (uv.1 * 0x1_0000_0000 - n.1 * dt) - n.1 * s,
                    0x1_0000_0000_0000,
                ) as i64,
                tdiv(
                    ni_over_nt * (uv.2 * 0x1_0000_0000 - n.2 * dt) - n.2 * s,
                    0x1_0000_0000_0000,
                ) as i64,
            ),
        )
    } else {
        None
    }
}

pub fn refract(v: Vec3, n: Vec3, ni_over_nt: i64) -> (r: Option<Vec3>)
    requires
        v.in_range(0x4000_0000_0000),
        !v.is_zero(),
        n.in_range(0x4_0000),
        0 <= ni_over_nt <= 0x10_0000,
    ensures
        r == refract_spec(v, n, ni_over_nt as int),
        r matches Some(d) ==> d.in_range(0x1000_0000),
{
    let uv = v.to_unit_vector();
    proof {
        lemma_mul_abs(uv.0 as int, n.0 as int, 65536, 0x4_0000);
        lemma_mul_abs(uv.1 as int, n.1 as int, 65536, 0x4_0000);
        lemma_mul_abs(uv.2 as int, n.2 as int, 65536, 0x4_0000);
    }
    let dt: i128 = (uv.0 as i128) * (n.0 as i128) + (uv.1 as i128) * (n.1 as i128) + (uv.2
        as i128) * (n.2 as i128);
    proof {
        lemma_mul_abs(dt as int, dt as int, 0xc_0000_0000, 0xc_0000_0000);
    }
    let m: i128 = 0x1_0000_0000_0000_0000 - dt * dt;
    proof {
        lemma_mul_abs(ni_over_nt as int, ni_over_nt as int, 0x10_0000, 0x10_0000);
    }
    let nn: i128 = (ni_over_nt as i128) * (ni_over_nt as i128);
    proof {
        lemma_mul_abs(nn as int, m as int, 0x100_0000_0000, 0xa0_0000_0000_0000_0000);
    }
    let disc: i128 = 0x1_0000_0000_0000_0000_0000_0000 - nn * m;
    if disc > 0 {
        let s128 = isqrt_u128(disc as u128);
        proof {
            assert(s128 <= 0x100_0000_0000_0000) by (nonlinear_arith)
                requires
                    (s128 as int) * (s128 as int) <= 0x1_0000_0000_0000_0000_0000_0000int
                        + 0x100_0000_0000int * 0xa0_0000_0000_0000_0000int,
            ;
        }
        let s: i128 = s128 as i128;
        let q0 = refract_component(uv.0, n.0, dt, s, ni_over_nt);
        let q1 = refract_component(uv.1, n.1, dt, s, ni_over_nt);
        let q2 = refract_component(uv.2, n.2, dt, s, ni_over_nt);
        Some(Vec3(q0, q1, q2))
    } else {
        None
    }
}

/// One component of the refracted direction, brought back from the doubled
/// internal precision to Q47.16.
fn refract_component(u: i64, nc: i64, dt: i128, s: i128, ni: i64) -> (q: i64)
    requires
        -65536 <= u <= 65536,
        -0x4_0000 <= nc <= 0x4_0000,
        -0xc_0000_0000 <= dt <= 0xc_0000_0000,
        0 <= s <= 0x100_0000_0000_0000,
        0 <= ni <= 0x10_0000,
    ensures
        q == tdiv((ni as int) * ((u as int) * 0x1_0000_0000 - (nc as int) * (dt as int)) - (nc
            as int) * (s as int), 0x1_0000_0000_0000),
        -0x1000_0000 <= q <= 0x1000_0000,
{
    proof {
        lemma_mul_abs(nc as int, dt as int, 0x4_0000, 0xc_0000_0000);
        lemma_mul_abs(
            ni as int,
            (u as int) * 0x1_0000_0000 - (nc as int) * (dt as int),
            0x10_0000,
            0x31_0000_0000_0000,
        );
        lemma_mul_abs(nc as int, s as int, 0x4_0000, 0x100_0000_0000_0000);
        lemma_tdiv_bound(
            (ni as int) * ((u as int) * 0x1_0000_0000 - (nc as int) * (dt as int)) - (nc
                as int) * (s as int),
            0x1_0000_0000_0000,
            0x1000_0000_0000_0000_0000,
        );
    }
    let num: i128 = (ni as i128) * ((u as i128) * 0x1_0000_0000 - (nc as i128) * dt) - (nc
        as i128) * s;
    tdiv128(num, 0x1_0000_0000_0000) as i64
}

/// With an index ratio of one the refraction discriminant collapses to the
/// squared cosine, rescaled.
proof fn lemma_unit_ratio_discriminant(x: int, d: int)
    requires
        d == 0x1_0000_0000_0000_0000_0000_0000 - (65536 * 65536) * (0x1_0000_0000_0000_0000 - x),
    ensures
        d == 0x1_0000_0000 * x,
{
    assert(65536int * 65536int == 0x1_0000_0000int) by (nonlinear_arith);
    assert((65536int * 65536int) * (0x1_0000_0000_0000_0000int - x) == 0x1_0000_0000int * (
    0x1_0000_0000_0000_0000int - x));
    vstd::arithmetic::mul::lemma_mul_is_distributive_sub(
        0x1_0000_0000int,
        0x1_0000_0000_0000_0000int,
        x,
    );
    assert(0x1_0000_0000_0000_0000int * 0x1_0000_0000int == 0x1_0000_0000_0000_0000_0000_0000int);
    vstd::arithmetic::mul::lemma_mul_is_commutative(
        0x1_0000_0000int,
        0x1_0000_0000_0000_0000int,
    );
}

/// With an index ratio of exactly one, refraction bends nothing: whenever
/// the unit incoming direction points against the normal, the refracted
/// direction is that unit direction, bit for bit.
pub proof fn lemma_refract_identity(v: Vec3, n: Vec3)
    requires
        !v.is_zero(),
        v.unit_spec().raw_dot(n) < 0,
    ensures
        refract_spec(v, n, 65536) == Some(v.unit_spec()),
{
    let uv = v.unit_spec();
    let dt = uv.raw_dot(n);
    let m = 0x1_0000_0000_0000_0000 - dt * dt;
    let disc = 0x1_0000_0000_0000_0000_0000_0000 - (65536 * 65536) * m;
    lemma_unit_ratio_discriminant(dt * dt, disc);
    assert(dt * dt >= 1) by (nonlinear_arith)
        requires
            dt <= -1,
    ;
    let s = -65536 * dt;
    assert(s * s == disc && s >= 65536) by (nonlinear_arith)
        requires
            s == -65536 * dt,
            dt <= -1,
            disc == 0x1_0000_0000 * (dt * dt),
    ;
    assert(disc < (s + 1) * (s + 1)) by (nonlinear_arith)
        requires
            s * s == disc,
            s >= 0,
    ;
    crate::fixed::lemma_sqrt_floor_unique(disc, s);
    assert(65536 * (uv.0 * 0x1_0000_0000 - n.0 * dt) - n.0 * s == 0x1_0000_0000_0000 * uv.0)
        by (nonlinear_arith)
        requires
            s == -65536 * dt,
    ;
    assert(65536 * (uv.1 * 0x1_0000_0000 - n.1 * dt) - n.1 * s == 0x1_0000_0000_0000 * uv.1)
        by (nonlinear_arith)
        requires
            s == -65536 * dt,
    ;
    assert(65536 * (uv.2 * 0x1_0000_0000 - n.2 * dt) - n.2 * s == 0x1_0000_0000_0000 * uv.2)
        by (nonlinear_arith)
        requires
            s == -65536 * dt,
    ;
    lemma_tdiv_exact(uv.0 as int, 0x1_0000_0000_0000);
    lemma_tdiv_exact(uv.1 as int, 0x1_0000_0000_0000);
    lemma_tdiv_exact(uv.2 as int, 0x1_0000_0000_0000);
}

/// A vector's raw dot product with itself is a sum of squares.
pub proof fn lemma_raw_dot_self_nonneg(v: Vec3)
    ensures
        v.raw_dot(v) >= 0,
        v.raw_dot(v) == 0 <==> v.is_zero(),
{
    assert(v.0 as int * v.0 as int >= 0 && (v.0 != 0 ==> v.0 as int * v.0 as int >= 1))
        by (nonlinear_arith);
    assert(v.1 as int * v.1 as int >= 0 && (v.1 != 0 ==> v.1 as int * v.1 as int >= 1))
        by (nonlinear_arith);
    assert(v.2 as int * v.2 as int >= 0 && (v.2 != 0 ==> v.2 as int * v.2 as int >= 1))
        by (nonlinear_arith);
}

} // verus!
