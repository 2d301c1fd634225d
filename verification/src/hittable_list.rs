use crate::hittable::{rec_wf, HitRecG, HitRecord};
use crate::math::{abs_i, T_MAX};
use crate::ray::{ray_wf, Ray, RayV};
use crate::sphere::{sphere_hit_g, sphere_wf, Sphere};
use vstd::prelude::*;

verus! {

/// The scene aggregate: an ordered list of spheres that is itself
/// intersectable, reporting the closest member hit.
pub struct HittableList {
    pub objects: Vec<Sphere>,
}

impl View for HittableList {
    type V = Seq<Sphere>;

    open spec fn view(&self) -> Seq<Sphere> {
        self.objects@
    }
}

/// Every member is within the intersection arithmetic's bounds.
pub open spec fn list_wf(objs: Seq<Sphere>) -> bool {
    forall|i: int| 0 <= i < objs.len() ==> sphere_wf(#[trigger] objs[i])
}

/// The single-pass closest-hit scan from member `i` on, with the best hit
/// so far and the narrowed upper interval end `closest`.
pub open spec fn list_hit_from(
    objs: Seq<Sphere>,
    r: RayV,
    t_min: int,
    closest: int,
    i: int,
    best: Option<HitRecG>,
) -> Option<HitRecG>
    decreases objs.len() - i,
{
    if i < 0 || i >= objs.len() {
        best
    } else {
        match sphere_hit_g(objs[i], r, t_min, closest) {
            Some(rec) => list_hit_from(objs, r, t_min, rec.t, i + 1, Some(rec)),
            None => list_hit_from(objs, r, t_min, closest, i + 1, best),
        }
    }
}

/// The closest hit of the ray against the whole scene in `(t_min, t_max)`.
pub open spec fn list_hit(objs: Seq<Sphere>, r: RayV, t_min: int, t_max: int) -> Option<
    HitRecG,
> {
    list_hit_from(objs, r, t_min, t_max, 0, None)
}

/// A scene with no primitives intersects nothing: every ray misses.
pub proof fn lemma_empty_scene_misses(r: RayV, t_min: int, t_max: int)
    ensures
        list_hit(Seq::<Sphere>::empty(), r, t_min, t_max) is None,
{
}

impl HittableList {
    /// An empty scene.
    pub fn new() -> (r: HittableList)
        ensures
            r@ =~= Seq::<Sphere>::empty(),
            list_wf(r@),
    {
        HittableList { objects: Vec::new() }
    }

    /// Appends a primitive; insertion order does not affect which hit is
    /// reported, only the scan order.
    pub fn add(&mut self, object: Sphere)
        requires
            sphere_wf(object),
        ensures
            final(self)@ =~= old(self)@.push(object),
            list_wf(old(self)@) ==> list_wf(final(self)@),
    {
        self.objects.push(object);
    }

    /// Removes every primitive.
    pub fn clear(&mut self)
        ensures
            final(self)@ =~= Seq::<Sphere>::empty(),
    {
        self.objects.clear();
    }

    /// The closest intersection among all members: scans once, narrowing
    /// the upper interval end to the best parameter found so far, so later
    /// members can only report closer hits.
    pub fn hit(&self, ray: &Ray, t_min: i64, t_max: i64) -> (res: Option<HitRecord>)
        requires
            list_wf(self@),
            ray_wf(ray@),
            0 <= t_min,
            abs_i(t_max as int) <= T_MAX as int,
        ensures
            match res {
                Some(rec) => {
                    &&& list_hit(self@, ray@, t_min as int, t_max as int) == Some(rec@)
                    &&& rec_wf(rec@)
                    &&& t_min < rec.t < t_max
                },
                None => {
                    &&& list_hit(self@, ray@, t_min as int, t_max as int) is None
                    &&& forall|k: int|
                        0 <= k < self@.len() ==> sphere_hit_g(
                            #[trigger] self@[k],
                            ray@,
                            t_min as int,
                            t_max as int,
                        ) is None
                },
            },
    {
        let mut hit_anything: Option<HitRecord> = None;
        let mut closest_so_far: i64 = t_max;
        let n = self.objects.len();
        let mut i: usize = 0;
        while i < n
            invariant
                n == self@.len(),
                0 <= i <= n,
                list_wf(self@),
                ray_wf(ray@),
                0 <= t_min,
                abs_i(t_max as int) <= T_MAX as int,
                abs_i(closest_so_far as int) <= T_MAX as int,
                match hit_anything {
                    Some(rec) => {
                        &&& rec_wf(rec@)
                        &&& t_min < rec.t < t_max
                        &&& closest_so_far == rec.t
                    },
                    None => {
                        &&& closest_so_far == t_max
                        &&& forall|k: int|
                            0 <= k < i ==> sphere_hit_g(
                                #[trigger] self@[k],
                                ray@,
                                t_min as int,
                                t_max as int,
                            ) is None
                    },
                },
                list_hit(self@, ray@, t_min as int, t_max as int) == list_hit_from(
                    self@,
                    ray@,
                    t_min as int,
                    closest_so_far as int,
                    i as int,
                    match hit_anything {
                        Some(rec) => Some(rec@),
                        None => None,
                    },
                ),
            decreases n - i,
        {
            let object = &self.objects[i];
            if let Some(rec) = object.hit(ray, t_min, closest_so_far) {
                closest_so_far = rec.t;
                hit_anything = Some(rec);
            }
            i = i + 1;
        }
        hit_anything
    }
}

} // verus!
