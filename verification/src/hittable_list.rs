//! The scene: an ordered collection of spheres and its nearest-hit query.

use vstd::prelude::*;
use crate::hittable::{HitRecord, hit_wf};
use crate::ray::{Ray, ray_wf};
use crate::sphere::{Sphere, sphere_wf, sphere_hit_spec, lemma_sphere_hit_range, lemma_sphere_hit_mono};

verus! {

pub struct HittableList {
    pub objects: Vec<Sphere>,
}

pub open spec fn list_wf(l: HittableList) -> bool {
    forall|i: int| 0 <= i < l.objects@.len() ==> sphere_wf(#[trigger] l.objects@[i])
}

/// The nearest-hit scan over the remaining shapes: each accepted hit narrows
/// the upper end of the valid interval to its own `t`, so the accumulated
/// record is the nearest intersection seen so far. A later hit at exactly
/// the held record's `t` is not accepted: the first shape wins exact ties.
pub open spec fn scan_hit(
    objs: Seq<Sphere>,
    r: Ray,
    t_min: int,
    closest: int,
    best: Option<HitRecord>,
) -> Option<HitRecord>
    decreases objs.len(),
{
    if objs.len() == 0 {
        best
    } else {
        match sphere_hit_spec(objs[0], r, t_min, closest) {
            Some(rec) => if best is None || rec.t < closest {
                scan_hit(objs.subrange(1, objs.len() as int), r, t_min, rec.t as int, Some(rec))
            } else {
                scan_hit(objs.subrange(1, objs.len() as int), r, t_min, closest, best)
            },
            None => scan_hit(objs.subrange(1, objs.len() as int), r, t_min, closest, best),
        }
    }
}

/// The scene's answer for a ray: the nearest hit in `[t_min, t_max]`, if any.
pub open spec fn list_hit_spec(l: HittableList, r: Ray, t_min: int, t_max: int) -> Option<
    HitRecord,
> {
    scan_hit(l.objects@, r, t_min, t_max, None)
}

/// A scene miss is a miss for every shape: when the scan over `objs` finds
/// nothing, each sphere individually misses the full interval. This is what
/// lets a caller treat a miss as "the ray escaped to the background".
pub proof fn lemma_scan_miss(objs: Seq<Sphere>, r: Ray, t_min: int, t_max: int)
    requires
        scan_hit(objs, r, t_min, t_max, None) is None,
    ensures
        forall|i: int|
            0 <= i < objs.len() ==> sphere_hit_spec(#[trigger] objs[i], r, t_min, t_max) is None,
    decreases objs.len(),
{
    if objs.len() > 0 {
        let rest = objs.subrange(1, objs.len() as int);
        match sphere_hit_spec(objs[0], r, t_min, t_max) {
            Some(h) => {
                lemma_scan_some_stays(rest, r, t_min, h.t as int, h);
                assert(false);
            },
            None => {
                lemma_scan_miss(rest, r, t_min, t_max);
                assert forall|i: int| 0 <= i < objs.len() implies sphere_hit_spec(
                    #[trigger] objs[i],
                    r,
                    t_min,
                    t_max,
                ) is None by {
                    if i > 0 {
                        assert(rest[i - 1] == objs[i]);
                    }
                }
            },
        }
    }
}

/// The scan's record is the nearest intersection: no sphere in the scene
/// hits anywhere strictly before it.
pub proof fn lemma_scan_nearest(objs: Seq<Sphere>, r: Ray, t_min: int, t_max: int, rec: HitRecord)
    requires
        0 <= t_min,
        t_max <= 1099511627776,
        scan_hit(objs, r, t_min, t_max, None) == Some(rec),
    ensures
        rec.t <= t_max,
        forall|i: int|
            0 <= i < objs.len() ==> sphere_hit_spec(
                #[trigger] objs[i],
                r,
                t_min,
                rec.t - 1,
            ) is None,
{
    lemma_scan_nearest_gen(objs, r, t_min, t_max, None, rec);
}

/// Induction form of `lemma_scan_nearest`, carrying the narrowed interval
/// and the record found so far.
proof fn lemma_scan_nearest_gen(
    objs: Seq<Sphere>,
    r: Ray,
    t_min: int,
    closest: int,
    best: Option<HitRecord>,
    rec: HitRecord,
)
    requires
        0 <= t_min,
        closest <= 1099511627776,
        scan_hit(objs, r, t_min, closest, best) == Some(rec),
        best matches Some(b) ==> b.t <= closest,
    ensures
        rec.t <= closest,
        forall|i: int|
            0 <= i < objs.len() ==> sphere_hit_spec(
                #[trigger] objs[i],
                r,
                t_min,
                rec.t - 1,
            ) is None,
    decreases objs.len(),
{
    if objs.len() > 0 {
        let rest = objs.subrange(1, objs.len() as int);
        match sphere_hit_spec(objs[0], r, t_min, closest) {
            Some(h) => {
                lemma_sphere_hit_range(objs[0], r, t_min, closest, h);
                if best is None || h.t < closest {
                    lemma_scan_nearest_gen(rest, r, t_min, h.t as int, Some(h), rec);
                } else {
                    lemma_scan_nearest_gen(rest, r, t_min, closest, best, rec);
                }
                lemma_sphere_hit_mono(objs[0], r, t_min, closest, rec.t - 1);
            },
            None => {
                lemma_scan_nearest_gen(rest, r, t_min, closest, best, rec);
                lemma_sphere_hit_mono(objs[0], r, t_min, closest, rec.t - 1);
            },
        }
        assert forall|i: int| 0 <= i < objs.len() implies sphere_hit_spec(
            #[trigger] objs[i],
            r,
            t_min,
            rec.t - 1,
        ) is None by {
            if i > 0 {
                assert(rest[i - 1] == objs[i]);
            }
        }
    }
}

/// Once the scan holds a record, it never returns to `None`.
proof fn lemma_scan_some_stays(objs: Seq<Sphere>, r: Ray, t_min: int, closest: int, rec: HitRecord)
    ensures
        scan_hit(objs, r, t_min, closest, Some(rec)) is Some,
    decreases objs.len(),
{
    if objs.len() > 0 {
        let rest = objs.subrange(1, objs.len() as int);
        match sphere_hit_spec(objs[0], r, t_min, closest) {
            Some(h) => if h.t < closest {
                lemma_scan_some_stays(rest, r, t_min, h.t as int, h)
            } else {
                lemma_scan_some_stays(rest, r, t_min, closest, rec)
            },
            None => lemma_scan_some_stays(rest, r, t_min, closest, rec),
        }
    }
}

impl HittableList {
    pub fn new() -> (l: HittableList)
        ensures
            l.objects@.len() == 0,
    {
        HittableList { objects: Vec::new() }
    }

    pub fn add(&mut self, obj: Sphere)
        ensures
            final(self).objects@ == old(self).objects@.push(obj),
    {
        self.objects.push(obj);
    }

    pub fn clear(&mut self)
        ensures
            final(self).objects@.len() == 0,
    {
        self.objects.clear();
    }

    /// Scan all shapes, narrowing the valid interval as hits are found, and
    /// return the nearest intersection across the whole scene, or none; the
    /// first shape encountered wins exact ties.
    pub fn hit(&self, r: &Ray, t_min: i64, t_max: i64) -> (res: Option<HitRecord>)
        requires
            list_wf(*self),
            ray_wf(*r),
            0 <= t_min <= t_max <= 1099511627776,
        ensures
            res == list_hit_spec(*self, *r, t_min as int, t_max as int),
            res matches Some(rec) ==> hit_wf(rec) && t_min <= rec.t <= t_max,
    {
        let mut best: Option<HitRecord> = None;
        let mut closest_so_far: i64 = t_max;
        let n = self.objects.len();
        let mut i: usize = 0;
        proof {
            assert(self.objects@.subrange(0, n as int) =~= self.objects@);
        }
        while i < n
            invariant
                list_wf(*self),
                ray_wf(*r),
                0 <= t_min <= closest_so_far <= t_max <= 1099511627776,
                n == self.objects@.len(),
                0 <= i <= n,
                scan_hit(
                    self.objects@.subrange(i as int, n as int),
                    *r,
                    t_min as int,
                    closest_so_far as int,
                    best,
                ) == scan_hit(self.objects@, *r, t_min as int, t_max as int, None),
                best matches Some(rec) ==> hit_wf(rec) && t_min <= rec.t <= t_max && rec.t
                    == closest_so_far,
            decreases n - i,
        {
            let ghost pre = self.objects@.subrange(i as int, n as int);
            proof {
                assert(pre[0] == self.objects@[i as int]);
                assert(pre.subrange(1, pre.len() as int) =~= self.objects@.subrange(
                    i as int + 1,
                    n as int,
                ));
            }
            match self.objects[i].hit(r, t_min, closest_so_far) {
                Some(rec) => {
                    if best.is_none() || rec.t < closest_so_far {
                        closest_so_far = rec.t;
                        best = Some(rec);
                    }
                },
                None => {},
            }
            i = i + 1;
        }
        proof {
            assert(self.objects@.subrange(n as int, n as int) =~= Seq::<Sphere>::empty());
        }
        best
    }
}

} // verus!
