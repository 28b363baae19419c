//! The scene: an ordered collection of primitives, traversed in full for
//! every ray, keeping the nearest accepted hit.

use vstd::prelude::*;

use crate::hittable::{HitRecord, Hittable, T_LIMIT};
use crate::ray::Ray;
use crate::sphere::Sphere;

verus! {

/// Some primitive of `objs` reports a hit in the range.
pub open spec fn some_hit(objs: Seq<Sphere>, ray: Ray, t_min: int, t_max: int) -> bool {
    exists|i: int|
        0 <= i < objs.len() && objs[i].hit_spec(ray, t_min, t_max) is Some
}

/// `t` is an accepted hit distance and no primitive reports a smaller one.
/// The predicate mentions no order among the primitives, only membership.
pub open spec fn is_nearest_hit_t(
    objs: Seq<Sphere>,
    ray: Ray,
    t_min: int,
    t_max: int,
    t: int,
) -> bool {
    &&& exists|i: int|
        0 <= i < objs.len() && objs[i].hit_spec(ray, t_min, t_max) == Some(t)
    &&& forall|j: int|
        0 <= j < objs.len() ==> match #[trigger] objs[j].hit_spec(ray, t_min, t_max) {
            Option::Some(u) => t <= u,
            Option::None => true,
        }
}

/// The record a hit on `s` at distance `t` fills in.
pub open spec fn record_matches(s: Sphere, ray: Ray, t: int, rec: HitRecord) -> bool {
    &&& rec.t == t
    &&& rec.point@ == ray.at_spec(t)
    &&& rec.is_front_face == (ray.direction@.dotv(s.outward_normal_spec(ray, t)) < 0)
    &&& rec.normal@ == (if rec.is_front_face {
        s.outward_normal_spec(ray, t)
    } else {
        s.outward_normal_spec(ray, t).negv()
    })
    &&& rec.material == s.material
}

pub struct HittableList {
    pub objects: Vec<Sphere>,
}

impl HittableList {
    pub open spec fn wf(self) -> bool {
        forall|i: int| 0 <= i < self.objects@.len() ==> (#[trigger] self.objects@[i]).wf()
    }

    pub fn new() -> (l: Self)
        ensures
            l.objects@.len() == 0,
            l.wf(),
    {
        HittableList { objects: Vec::new() }
    }

    pub fn clear(&mut self)
        ensures
            final(self).objects@.len() == 0,
            final(self).wf(),
    {
        self.objects.clear();
    }

    pub fn add(&mut self, object: Sphere)
        requires
            object.wf(),
        ensures
            final(self).objects@ == old(self).objects@.push(object),
            old(self).wf() ==> final(self).wf(),
    {
        self.objects.push(object);
    }

    /// The nearest accepted intersection across all primitives: every
    /// candidate test narrows the upper bound to the best distance so far,
    /// so the reported hit is the minimum over the whole collection,
    /// whatever order the primitives stand in.
    pub fn hit(&self, ray: Ray, t_min: i128, t_max: i128, record: &mut HitRecord) -> (did: bool)
        requires
            self.wf(),
            ray.wf(),
            0 <= t_min <= t_max <= T_LIMIT,
            old(record).wf(),
        ensures
            did == some_hit(self.objects@, ray, t_min as int, t_max as int),
            did ==> is_nearest_hit_t(
                self.objects@,
                ray,
                t_min as int,
                t_max as int,
                final(record).t as int,
            ),
            did ==> exists|j: int|
                0 <= j < self.objects@.len() && record_matches(
                    #[trigger] self.objects@[j],
                    ray,
                    final(record).t as int,
                    *final(record),
                ) && self.objects@[j].hit_spec(ray, t_min as int, t_max as int) == Some(
                    final(record).t as int,
                ),
            did ==> t_min <= final(record).t <= t_max,
            !did ==> *final(record) == *old(record),
            final(record).wf(),
    {
        let ghost objs = self.objects@;
        let mut was_anything_hit = false;
        let mut closest_so_far = t_max;
        let n = self.objects.len();
        let mut i: usize = 0;
        while i < n
            invariant
                n == objs.len(),
                objs == self.objects@,
                self.wf(),
                ray.wf(),
                0 <= t_min <= closest_so_far <= t_max <= T_LIMIT,
                0 <= i <= n,
                record.wf(),
                was_anything_hit == exists|j: int|
                    0 <= j < i && (#[trigger] objs[j]).hit_spec(ray, t_min as int, t_max as int)
                        is Some,
                was_anything_hit ==> closest_so_far == record.t,
                was_anything_hit ==> exists|j: int|
                    0 <= j < i && record_matches(
                        #[trigger] objs[j],
                        ray,
                        record.t as int,
                        *record,
                    ) && objs[j].hit_spec(ray, t_min as int, t_max as int) == Some(
                        record.t as int,
                    ),
                forall|j: int|
                    0 <= j < i ==> match #[trigger] objs[j].hit_spec(
                        ray,
                        t_min as int,
                        t_max as int,
                    ) {
                        Option::Some(u) => closest_so_far <= u,
                        Option::None => true,
                    },
                !was_anything_hit ==> *record == *old(record) && closest_so_far == t_max,
            decreases n - i,
        {
            let s = self.objects[i];
            let ghost prev = *record;
            let ghost prev_closest = closest_so_far;
            let did = s.hit(ray, t_min, closest_so_far, record);
            proof {
                crate::sphere::lemma_hit_spec_narrow(
                    s,
                    ray,
                    t_min as int,
                    prev_closest as int,
                    t_max as int,
                );
            }
            if did {
                was_anything_hit = true;
                closest_so_far = record.t;
            }
            i = i + 1;
        }
        was_anything_hit
    }
}

/// If one collection has a hit, so does any rearrangement of it.
proof fn lemma_hit_transfer(objs1: Seq<Sphere>, objs2: Seq<Sphere>, ray: Ray, t_min: int, t_max: int)
    requires
        objs1.to_multiset() == objs2.to_multiset(),
        some_hit(objs1, ray, t_min, t_max),
    ensures
        some_hit(objs2, ray, t_min, t_max),
{
    let i = choose|i: int|
        0 <= i < objs1.len() && objs1[i].hit_spec(ray, t_min, t_max) is Some;
    let s = objs1[i];
    assert(objs1.contains(s));
    vstd::seq_lib::to_multiset_contains(objs1, s);
    vstd::seq_lib::to_multiset_contains(objs2, s);
    assert(objs2.contains(s));
    let j = choose|j: int| 0 <= j < objs2.len() && objs2[j] == s;
    assert(objs2[j].hit_spec(ray, t_min, t_max) is Some);
}

/// A nearest hit distance of one collection is a nearest hit distance of
/// any rearrangement of it.
proof fn lemma_nearest_transfer(
    objs1: Seq<Sphere>,
    objs2: Seq<Sphere>,
    ray: Ray,
    t_min: int,
    t_max: int,
    t: int,
)
    requires
        objs1.to_multiset() == objs2.to_multiset(),
        is_nearest_hit_t(objs1, ray, t_min, t_max, t),
    ensures
        is_nearest_hit_t(objs2, ray, t_min, t_max, t),
{
    let i = choose|i: int|
        0 <= i < objs1.len() && objs1[i].hit_spec(ray, t_min, t_max) == Some(t);
    let s = objs1[i];
    assert(objs1.contains(s));
    vstd::seq_lib::to_multiset_contains(objs1, s);
    vstd::seq_lib::to_multiset_contains(objs2, s);
    assert(objs2.contains(s));
    let j = choose|j: int| 0 <= j < objs2.len() && objs2[j] == s;
    assert(objs2[j].hit_spec(ray, t_min, t_max) == Some(t));
    assert forall|j2: int| 0 <= j2 < objs2.len() implies match #[trigger] objs2[j2].hit_spec(
        ray,
        t_min,
        t_max,
    ) {
        Option::Some(u) => t <= u,
        Option::None => true,
    } by {
        let s2 = objs2[j2];
        assert(objs2.contains(s2));
        vstd::seq_lib::to_multiset_contains(objs2, s2);
        vstd::seq_lib::to_multiset_contains(objs1, s2);
        assert(objs1.contains(s2));
        let k = choose|k: int| 0 <= k < objs1.len() && objs1[k] == s2;
        assert(match objs1[k].hit_spec(ray, t_min, t_max) {
            Option::Some(u) => t <= u,
            Option::None => true,
        });
    }
}

/// Traversal order does not matter: two scenes holding the same primitives,
/// in any order, agree on whether a ray hits and on the nearest hit
/// distance.
pub proof fn lemma_nearest_hit_order_invariant(
    objs1: Seq<Sphere>,
    objs2: Seq<Sphere>,
    ray: Ray,
    t_min: int,
    t_max: int,
)
    requires
        objs1.to_multiset() == objs2.to_multiset(),
    ensures
        some_hit(objs1, ray, t_min, t_max) == some_hit(objs2, ray, t_min, t_max),
        forall|t: int|
            is_nearest_hit_t(objs1, ray, t_min, t_max, t) <==> is_nearest_hit_t(
                objs2,
                ray,
                t_min,
                t_max,
                t,
            ),
{
    if some_hit(objs1, ray, t_min, t_max) {
        lemma_hit_transfer(objs1, objs2, ray, t_min, t_max);
    }
    if some_hit(objs2, ray, t_min, t_max) {
        lemma_hit_transfer(objs2, objs1, ray, t_min, t_max);
    }
    assert forall|t: int|
        is_nearest_hit_t(objs1, ray, t_min, t_max, t) <==> is_nearest_hit_t(
            objs2,
            ray,
            t_min,
            t_max,
            t,
        ) by {
        if is_nearest_hit_t(objs1, ray, t_min, t_max, t) {
            lemma_nearest_transfer(objs1, objs2, ray, t_min, t_max, t);
        }
        if is_nearest_hit_t(objs2, ray, t_min, t_max, t) {
            lemma_nearest_transfer(objs2, objs1, ray, t_min, t_max, t);
        }
    }
}

impl Hittable for HittableList {
    open spec fn wf_spec(&self) -> bool {
        self.wf()
    }

    fn hit(&self, ray: Ray, t_min: i128, t_max: i128, record: &mut HitRecord) -> (did: bool) {
        HittableList::hit(self, ray, t_min, t_max, record)
    }
}

} // verus!
