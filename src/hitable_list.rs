//! The scene aggregate: an ordered list of spheres and its nearest hit.
use vstd::prelude::*;
use crate::hitable::{HitRecord, Hitable};
use crate::ray::Ray;
use crate::vec3::ONE;
use crate::sphere::{lemma_sphere_hit_inside, lemma_sphere_hit_shrink, record_at, sphere_hit_t, Sphere};

verus! {

/// The scene: spheres in the order they were added.
pub struct HitableList {
    pub list: Vec<Sphere>,
}

/// The hit that a scan of `objs` in order finds, each member being tested on
/// the interval shrunk to the closest hit so far.
pub open spec fn scan_hit(objs: Seq<Sphere>, r: Ray, t_min: int, t_max: int) -> Option<
    HitRecord,
>
    decreases objs.len(),
{
    if objs.len() == 0 {
        None
    } else {
        let prev = scan_hit(objs.drop_last(), r, t_min, t_max);
        let bound = match prev {
            Some(h) => h.t as int,
            None => t_max,
        };
        match sphere_hit_t(objs.last(), r, t_min, bound) {
            Some(t) => Some(record_at(objs.last(), r, t)),
            None => prev,
        }
    }
}

pub open spec fn all_wf(objs: Seq<Sphere>) -> bool {
    forall|i: int| 0 <= i < objs.len() ==> (#[trigger] objs[i]).wf()
}

/// A scan's hit lies strictly inside the interval, with its parameter kept
/// exactly, a point in range, a bounded normal and a well-formed material.
pub proof fn lemma_scan_inside(objs: Seq<Sphere>, r: Ray, t_min: int, t_max: int)
    requires
        i64::MIN <= t_min,
        t_max <= i64::MAX,
        all_wf(objs),
    ensures
        scan_hit(objs, r, t_min, t_max).is_some() ==> {
            let h = scan_hit(objs, r, t_min, t_max).unwrap();
            &&& t_min < h.t < t_max
            &&& h.p.in_range()
            &&& h.normal.within(2 * ONE)
            &&& h.material.wf()
        },
    decreases objs.len(),
{
    if objs.len() > 0 {
        let prev = scan_hit(objs.drop_last(), r, t_min, t_max);
        assert(all_wf(objs.drop_last())) by {
            assert forall|i: int| 0 <= i < objs.drop_last().len() implies (
            #[trigger] objs.drop_last()[i]).wf() by {
                assert(objs.drop_last()[i] == objs[i]);
            }
        }
        assert(objs.last() == objs[objs.len() - 1]);
        lemma_scan_inside(objs.drop_last(), r, t_min, t_max);
        let bound = match prev {
            Some(h) => h.t as int,
            None => t_max,
        };
        if sphere_hit_t(objs.last(), r, t_min, bound).is_some() {
            lemma_sphere_hit_inside(objs.last(), r, t_min, bound);
        }
    }
}

/// Nearest hit: when member `i` alone is hit at `t` on the interval, the
/// scene is hit, at a parameter no larger than `t`.
pub proof fn lemma_nearest_hit(objs: Seq<Sphere>, r: Ray, t_min: i64, t_max: i64, i: int)
    requires
        0 <= i < objs.len(),
        all_wf(objs),
        sphere_hit_t(objs[i], r, t_min as int, t_max as int).is_some(),
    ensures
        scan_hit(objs, r, t_min as int, t_max as int).is_some(),
        scan_hit(objs, r, t_min as int, t_max as int).unwrap().t <= sphere_hit_t(
            objs[i],
            r,
            t_min as int,
            t_max as int,
        ).unwrap(),
    decreases objs.len(),
{
    let tmin = t_min as int;
    let tmax = t_max as int;
    let ti = sphere_hit_t(objs[i], r, tmin, tmax).unwrap();
    let prefix = objs.drop_last();
    let prev = scan_hit(prefix, r, tmin, tmax);
    assert(all_wf(prefix)) by {
        assert forall|k: int| 0 <= k < prefix.len() implies (#[trigger] prefix[k]).wf() by {
            assert(prefix[k] == objs[k]);
        }
    }
    lemma_scan_inside(prefix, r, tmin, tmax);
    lemma_sphere_hit_inside(objs[i], r, tmin, tmax);
    let bound = match prev {
        Some(h) => h.t as int,
        None => tmax,
    };
    if sphere_hit_t(objs.last(), r, tmin, bound).is_some() {
        lemma_sphere_hit_inside(objs.last(), r, tmin, bound);
    }
    if i < objs.len() - 1 {
        assert(prefix[i] == objs[i]);
        lemma_nearest_hit(prefix, r, t_min, t_max, i);
    } else {
        assert(objs.last() == objs[i]);
        if ti < bound {
            lemma_sphere_hit_shrink(objs[i], r, tmin, tmax, bound);
        }
    }
}

/// The scene's hit is never farther than the hit of any one of its members
/// on the same interval.
pub proof fn lemma_scene_hit_is_nearest(
    world: HitableList,
    r: Ray,
    t_min: i64,
    t_max: i64,
    i: int,
)
    requires
        world.wf(),
        0 <= i < world.list@.len(),
        world.list@[i].hit_spec(r, t_min, t_max).is_some(),
    ensures
        world.hit_spec(r, t_min, t_max).is_some(),
        world.hit_spec(r, t_min, t_max).unwrap().t <= world.list@[i].hit_spec(
            r,
            t_min,
            t_max,
        ).unwrap().t,
{
    let s = world.list@[i];
    lemma_nearest_hit(world.list@, r, t_min, t_max, i);
    lemma_sphere_hit_inside(s, r, t_min as int, t_max as int);
}

impl HitableList {
    /// An empty scene; `capacity` only reserves room.
    pub fn new(capacity: usize) -> (l: HitableList)
        ensures
            l.list@ == Seq::<Sphere>::empty(),
    {
        HitableList { list: Vec::with_capacity(capacity) }
    }

    /// Appends a sphere.
    pub fn add(&mut self, s: Sphere)
        ensures
            final(self).list@ == old(self).list@.push(s),
    {
        self.list.push(s);
    }
}

impl Hitable for HitableList {
    open spec fn wf(&self) -> bool {
        all_wf(self.list@)
    }

    open spec fn hit_spec(&self, r: Ray, t_min: i64, t_max: i64) -> Option<HitRecord> {
        scan_hit(self.list@, r, t_min as int, t_max as int)
    }

    fn hit(&self, r: Ray, t_min: i64, t_max: i64, rec: &mut HitRecord) -> (res: bool) {
        let mut found = false;
        let mut closest: i64 = t_max;
        let mut i: usize = 0;
        while i < self.list.len()
            invariant
                all_wf(self.list@),
                r.wf(),
                0 <= i <= self.list@.len(),
                found == scan_hit(self.list@.take(i as int), r, t_min as int, t_max as int).is_some(),
                found ==> *rec == scan_hit(self.list@.take(i as int), r, t_min as int, t_max as int).unwrap(),
                found ==> closest == rec.t,
                !found ==> closest == t_max,
                !found ==> *rec == *old(rec),
            decreases self.list.len() - i,
        {
            let s = self.list[i];
            assert(self.list@.take(i as int + 1).drop_last() == self.list@.take(i as int));
            assert(self.list@.take(i as int + 1).last() == s);
            assert(s.wf());
            if s.hit(r, t_min, closest, rec) {
                found = true;
                closest = rec.t;
            }
            i = i + 1;
        }
        assert(self.list@.take(self.list@.len() as int) == self.list@);
        proof {
            lemma_scan_inside(self.list@, r, t_min as int, t_max as int);
        }
        found
    }
}

} // verus!
