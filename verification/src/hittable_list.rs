//! A scene is an ordered list of spheres; its hit is the linear scan that
//! keeps the closest record seen so far (the earlier surface wins a tie).

use crate::hittable::{HitRecord, Hittable};
use crate::ray::Ray;
use crate::sphere::{
    lemma_sphere_hit_direction, lemma_sphere_hit_interval, lemma_sphere_hit_normal, Sphere,
};
use vstd::prelude::*;

verus! {

/// The scan step: a later hit replaces the best one only when strictly
/// nearer.
pub open spec fn nearer_of(best: Option<HitRecord>, cur: Option<HitRecord>) -> Option<HitRecord> {
    match cur {
        Option::None => best,
        Option::Some(c) => match best {
            Option::None => Option::Some(c),
            Option::Some(b) => if c.t < b.t {
                Option::Some(c)
            } else {
                Option::Some(b)
            },
        },
    }
}

/// The nearest hit over a list of spheres, folded in scan order.
pub open spec fn list_hit_model(s: Seq<Sphere>, r: Ray, t_min: i64, t_max: i64) -> Option<
    HitRecord,
>
    decreases s.len(),
{
    if s.len() == 0 {
        Option::None
    } else {
        nearer_of(
            list_hit_model(s.drop_last(), r, t_min, t_max),
            s.last().hit_model_spec(r, t_min, t_max),
        )
    }
}

impl Hittable for Vec<Sphere> {
    open spec fn hit_ok(&self, r: Ray, t_min: i64, t_max: i64) -> bool {
        &&& r.origin.in_range(0x20_0000_0000)
        &&& r.direction.in_range(0x20_0000_0000)
        &&& forall|i: int| 0 <= i < self.len() ==> (#[trigger] self[i]).wf_geom()
    }

    open spec fn hit_model(&self, r: Ray, t_min: i64, t_max: i64) -> Option<HitRecord> {
        list_hit_model(self@, r, t_min, t_max)
    }

    fn hit(&self, r: &Ray, t_min: i64, t_max: i64) -> (res: Option<HitRecord>) {
        let mut best: Option<HitRecord> = None;
        let mut i: usize = 0;
        while i < self.len()
            invariant
                i <= self.len(),
                r.origin.in_range(0x20_0000_0000),
                r.direction.in_range(0x20_0000_0000),
                forall|j: int| 0 <= j < self.len() ==> (#[trigger] self[j]).wf_geom(),
                best == list_hit_model(self@.take(i as int), *r, t_min, t_max),
            decreases self.len() - i,
        {
            let child = &self[i];
            let hit = child.hit(r, t_min, t_max);
            proof {
                assert(self@.take(i as int + 1).drop_last() =~= self@.take(i as int));
                assert(self@.take(i as int + 1).last() == self@[i as int]);
            }
            match hit {
                Option::Some(h) => {
                    match best {
                        Option::None => {
                            best = Some(h);
                        },
                        Option::Some(prev) => {
                            if h.t < prev.t {
                                best = Some(h);
                            }
                        },
                    }
                },
                Option::None => {},
            }
            i = i + 1;
        }
        proof {
            assert(self@.take(self.len() as int) =~= self@);
        }
        best
    }
}

/// What every record coming out of a well-formed scene satisfies: the
/// parameter is strictly inside the interval, the normal and point are
/// bounded, the material is one of the scene's, and the ray direction was
/// not degenerate.
pub proof fn lemma_list_hit_properties(s: Seq<Sphere>, r: Ray, t_min: i64, t_max: i64)
    requires
        forall|i: int| 0 <= i < s.len() ==> (#[trigger] s[i]).wf_geom(),
    ensures
        list_hit_model(s, r, t_min, t_max) matches Some(h) ==> {
            &&& t_min < h.t < t_max
            &&& h.normal.in_range(0x4_0000)
            &&& h.p.in_range(0x2_0000_0000)
            &&& exists|i: int| 0 <= i < s.len() && h.material == (#[trigger] s[i]).material
            &&& !r.direction.is_zero()
        },
    decreases s.len(),
{
    if s.len() > 0 {
        assert(forall|i: int|
            0 <= i < s.drop_last().len() ==> (#[trigger] s.drop_last()[i]).wf_geom());
        lemma_list_hit_properties(s.drop_last(), r, t_min, t_max);
        let last = s.last();
        lemma_sphere_hit_interval(last, r, t_min, t_max);
        lemma_sphere_hit_normal(last, r, t_min, t_max);
        lemma_sphere_hit_direction(last, r, t_min, t_max);
        let res = list_hit_model(s, r, t_min, t_max);
        if res is Some {
            let h = res->Some_0;
            if res == last.hit_model_spec(r, t_min, t_max) {
                assert(h.material == s[s.len() - 1].material);
            } else {
                let prev = list_hit_model(s.drop_last(), r, t_min, t_max);
                let j = choose|j: int|
                    0 <= j < s.drop_last().len() && prev->Some_0.material == (#[trigger] s.drop_last()[j]).material;
                assert(h.material == s[j].material);
            }
        }
    }
}

/// The scan really resolves the nearest hit: the returned record is one of
/// the members' own hits, no member reports a strictly nearer one, and a
/// miss means every member missed.
pub proof fn lemma_list_hit_nearest(s: Seq<Sphere>, r: Ray, t_min: i64, t_max: i64)
    ensures
        list_hit_model(s, r, t_min, t_max) matches Some(h) ==> {
            &&& exists|i: int|
                0 <= i < s.len() && Some(h) == (#[trigger] s[i]).hit_model_spec(r, t_min, t_max)
            &&& forall|i: int|
                0 <= i < s.len() && (#[trigger] s[i]).hit_model_spec(r, t_min, t_max) is Some
                    ==> h.t <= s[i].hit_model_spec(r, t_min, t_max)->Some_0.t
        },
        list_hit_model(s, r, t_min, t_max) is None ==> forall|i: int|
            0 <= i < s.len() ==> (#[trigger] s[i]).hit_model_spec(r, t_min, t_max) is None,
    decreases s.len(),
{
    if s.len() > 0 {
        lemma_list_hit_nearest(s.drop_last(), r, t_min, t_max);
        assert(forall|i: int| 0 <= i < s.len() - 1 ==> s.drop_last()[i] == s[i]);
        let prev = list_hit_model(s.drop_last(), r, t_min, t_max);
        let cur = s.last().hit_model_spec(r, t_min, t_max);
        let res = list_hit_model(s, r, t_min, t_max);
        if res is Some {
            let h = res->Some_0;
            if prev is Some && res == prev {
                let b = prev->Some_0;
                assert(exists|i: int|
                    0 <= i < s.drop_last().len() && Some(b) == (#[trigger] s.drop_last()[i]).hit_model_spec(
                        r,
                        t_min,
                        t_max,
                    ));
                let j = choose|i: int|
                    0 <= i < s.drop_last().len() && Some(b) == (#[trigger] s.drop_last()[i]).hit_model_spec(
                        r,
                        t_min,
                        t_max,
                    );
                assert(Some(h) == s[j].hit_model_spec(r, t_min, t_max));
            } else {
                assert(res == cur);
                assert(Some(h) == s[s.len() - 1].hit_model_spec(r, t_min, t_max));
            }
        }
    }
}

/// An empty scene never reports a hit.
pub proof fn lemma_empty_scene_misses(s: Seq<Sphere>, r: Ray, t_min: i64, t_max: i64)
    requires
        s.len() == 0,
    ensures
        list_hit_model(s, r, t_min, t_max) is None,
{
}

} // verus!
