use vstd::prelude::*;
use crate::interval::Interval;
use crate::aabb::{AABB, box_union, empty_box};
use crate::query::{object_hit, object_query_ok, query_object};

verus! {

/// The closest hit among the first `n` objects of `objects`, scanned in order:
/// each object is asked for a hit between `iv.min` and the closest hit found so
/// far (or `iv.max`), and a hit it reports replaces the one before.
pub open spec fn list_hit_spec<F: Fn(usize, Interval) -> Option<i64>>(
    objects: Seq<usize>,
    iv: Interval,
    f: F,
    n: nat,
) -> Option<(i64, usize)>
    decreases n,
{
    if n == 0 {
        None
    } else {
        let prev = list_hit_spec(objects, iv, f, (n - 1) as nat);
        let limit = match prev {
            Some((t, _)) => t,
            None => iv.max,
        };
        match object_hit(f, objects[n - 1], Interval { min: iv.min, max: limit }) {
            Some(t) => Some((t, objects[n - 1])),
            None => prev,
        }
    }
}

/// A flat collection of scene objects, by index, with the box around all of
/// them.
pub struct HitList {
    pub objects: Vec<usize>,
    pub bbox: AABB,
}

impl HitList {
    /// An empty list, whose box is the empty box.
    pub fn new() -> (r: HitList)
        ensures
            r.objects@ == Seq::<usize>::empty(),
            r.bbox == empty_box(),
    {
        HitList { objects: Vec::new(), bbox: AABB::default() }
    }

    /// Appends `object`, whose box is `object_box`, and widens the list's box
    /// to enclose it.
    pub fn add(&mut self, object: usize, object_box: AABB)
        ensures
            final(self).objects@ == old(self).objects@.push(object),
            final(self).bbox == box_union(old(self).bbox, object_box),
    {
        self.bbox = AABB::from_aabb(self.bbox, object_box);
        self.objects.push(object);
    }

    pub fn bounding_box(&self) -> (r: AABB)
        ensures
            r == self.bbox,
    {
        self.bbox
    }

    /// The closest hit of any object of the list strictly inside `ray_t`, as
    /// the object's parameter and index, where `hit_object(o, iv)` reports where
    /// the ray meets object `o` inside `iv`. On equal parameters the earlier
    /// object wins.
    pub fn hit<F: Fn(usize, Interval) -> Option<i64>>(&self, ray_t: Interval, hit_object: &F) -> (r:
        Option<(i64, usize)>)
        requires
            object_query_ok(*hit_object),
        ensures
            r == list_hit_spec(self.objects@, ray_t, *hit_object, self.objects@.len()),
    {
        let mut best: Option<(i64, usize)> = None;
        let mut closest_so_far = ray_t.max;
        let mut i: usize = 0;
        while i < self.objects.len()
            invariant
                i <= self.objects@.len(),
                object_query_ok(*hit_object),
                best == list_hit_spec(self.objects@, ray_t, *hit_object, i as nat),
                closest_so_far == match best {
                    Some((t, _)) => t,
                    None => ray_t.max,
                },
            decreases self.objects@.len() - i,
        {
            let o = self.objects[i];
            match query_object(hit_object, o, Interval::new(ray_t.min, closest_so_far)) {
                Some(t) => {
                    best = Some((t, o));
                    closest_so_far = t;
                },
                None => {},
            }
            i = i + 1;
        }
        best
    }
}

} // verus!
