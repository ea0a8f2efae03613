//! Rays: an origin plus a direction. The direction need not be unit length;
//! everything downstream tolerates unnormalized directions by construction.

use crate::fixed::{fmul, fx_mul, lemma_fmul_bound, tdiv, tdiv128};
use crate::vec3::Vec3;
use vstd::prelude::*;

verus! {

#[derive(Clone, Copy, Debug, PartialEq, Eq, Structural)]
pub struct Ray {
    pub origin: Vec3,
    pub direction: Vec3,
}

impl Ray {
    /// The point `origin + t * direction`.
    pub open spec fn point_at_spec(self, t: int) -> Vec3 {
        Vec3(
            (self.origin.0 + fmul(t, self.direction.0 as int)) as i64,
            (self.origin.1 + fmul(t, self.direction.1 as int)) as i64,
            (self.origin.2 + fmul(t, self.direction.2 as int)) as i64,
        )
    }

    pub fn new(o: Vec3, d: Vec3) -> (r: Ray)
        ensures
            r.origin == o,
            r.direction == d,
    {
        Ray { origin: o, direction: d }
    }

    pub fn point_at_parameter(&self, t: i64) -> (p: Vec3)
        requires
            self.origin.in_range(0x20_0000_0000),
            self.direction.in_range(0x20_0000_0000),
            -0x100_0000_0000 <= t <= 0x100_0000_0000,
        ensures
            p == self.point_at_spec(t as int),
            p.in_range(0x4000_0000_0000_0000),
    {
        proof {
            lemma_fmul_bound(t as int, self.direction.0 as int, 0x100_0000_0000, 0x20_0000_0000);
            lemma_fmul_bound(t as int, self.direction.1 as int, 0x100_0000_0000, 0x20_0000_0000);
            lemma_fmul_bound(t as int, self.direction.2 as int, 0x100_0000_0000, 0x20_0000_0000);
        }
        Vec3(
            self.origin.0 + fx_mul(t, self.direction.0),
            self.origin.1 + fx_mul(t, self.direction.1),
            self.origin.2 + fx_mul(t, self.direction.2),
        )
    }
}

} // verus!
