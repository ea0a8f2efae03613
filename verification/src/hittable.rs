//! One ray-surface intersection event, and the capability of being hit.

use crate::material::Material;
use crate::ray::Ray;
use crate::vec3::Vec3;
use vstd::prelude::*;

verus! {

/// One intersection: the ray parameter, the point, the outward surface
/// normal there, and the struck surface's material (copied out, so the
/// record does not borrow from the surface across a bounce).
#[derive(Clone, Copy, Debug, PartialEq, Eq, Structural)]
pub struct HitRecord {
    pub t: i64,
    pub p: Vec3,
    pub normal: Vec3,
    pub material: Material,
}

/// A surface a ray can strike: `hit` returns the nearest intersection whose
/// parameter lies strictly inside `(t_min, t_max)`, or nothing. Each
/// implementor fixes its result by `hit_model` and its input demands by
/// `hit_ok`.
pub trait Hittable {
    spec fn hit_ok(&self, r: Ray, t_min: i64, t_max: i64) -> bool;

    spec fn hit_model(&self, r: Ray, t_min: i64, t_max: i64) -> Option<HitRecord>;

    fn hit(&self, r: &Ray, t_min: i64, t_max: i64) -> (res: Option<HitRecord>)
        requires
            self.hit_ok(*r, t_min, t_max),
        ensures
            res == self.hit_model(*r, t_min, t_max),
    ;
}

} // verus!
