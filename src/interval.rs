use vstd::prelude::*;

verus! {

/// The smaller of two keys.
pub open spec fn min_key(a: i64, b: i64) -> i64 {
    if a <= b { a } else { b }
}

/// The larger of two keys.
pub open spec fn max_key(a: i64, b: i64) -> i64 {
    if a <= b { b } else { a }
}

/// A closed range `[min, max]` of scalar keys.
///
/// An interval whose `min` exceeds its `max` holds nothing; `Interval::empty`
/// is the one whose bounds are the extreme keys, so that a union with it
/// changes nothing.
#[derive(Clone, Copy, Debug, PartialEq, Eq, Structural)]
pub struct Interval {
    pub min: i64,
    pub max: i64,
}

/// The smallest interval that holds both operands' bounds.
pub open spec fn union_spec(a: Interval, b: Interval) -> Interval {
    Interval { min: min_key(a.min, b.min), max: max_key(a.max, b.max) }
}

/// The part of `iv` that also lies in `s`.
pub open spec fn clip_spec(iv: Interval, s: Interval) -> Interval {
    Interval { min: max_key(iv.min, s.min), max: min_key(iv.max, s.max) }
}

/// The interval between two crossing parameters, whichever comes first.
pub open spec fn span_spec(t0: i64, t1: i64) -> Interval {
    if t0 < t1 {
        Interval { min: t0, max: t1 }
    } else {
        Interval { min: t1, max: t0 }
    }
}

pub open spec fn empty_spec() -> Interval {
    Interval { min: i64::MAX, max: i64::MIN }
}

impl Interval {
    pub open spec fn contains_spec(self, x: i64) -> bool {
        self.min <= x && x <= self.max
    }

    pub open spec fn surrounds_spec(self, x: i64) -> bool {
        self.min < x && x < self.max
    }

    pub fn new(min: i64, max: i64) -> (r: Interval)
        ensures
            r == (Interval { min, max }),
    {
        Interval { min, max }
    }

    /// The interval that holds nothing.
    pub fn empty() -> (r: Interval)
        ensures
            r == empty_spec(),
    {
        Interval { min: i64::MAX, max: i64::MIN }
    }

    /// The interval that holds every key.
    pub fn universe() -> (r: Interval)
        ensures
            r == (Interval { min: i64::MIN, max: i64::MAX }),
            forall|x: i64| r.contains_spec(x),
    {
        Interval { min: i64::MIN, max: i64::MAX }
    }

    /// The union of two intervals: the smaller of the minima and the larger of
    /// the maxima.
    pub fn from_interval(interval1: Interval, interval2: Interval) -> (r: Interval)
        ensures
            r == union_spec(interval1, interval2),
    {
        Interval {
            min: if interval1.min <= interval2.min { interval1.min } else { interval2.min },
            max: if interval1.max <= interval2.max { interval2.max } else { interval1.max },
        }
    }

    pub fn contains(&self, x: i64) -> (r: bool)
        ensures
            r == self.contains_spec(x),
    {
        self.min <= x && x <= self.max
    }

    /// Whether `x` lies strictly inside the interval.
    pub fn surrounds(&self, x: i64) -> (r: bool)
        ensures
            r == self.surrounds_spec(x),
    {
        self.min < x && x < self.max
    }
}

impl Default for Interval {
    fn default() -> (r: Interval)
        ensures
            r == empty_spec(),
    {
        Interval::empty()
    }
}

/// Union is commutative.
pub proof fn lemma_union_commutative(a: Interval, b: Interval)
    ensures
        union_spec(a, b) == union_spec(b, a),
{
}

/// The empty interval is an identity of union, on either side.
pub proof fn lemma_union_empty(a: Interval)
    ensures
        union_spec(a, empty_spec()) == a,
        union_spec(empty_spec(), a) == a,
{
}

/// A union holds every key that either operand holds.
pub proof fn lemma_union_contains(a: Interval, b: Interval, x: i64)
    requires
        a.contains_spec(x) || b.contains_spec(x),
    ensures
        union_spec(a, b).contains_spec(x),
{
}

/// Whether an interval still has room between its bounds, as the slab test
/// requires (`max <= min` ends it).
pub open spec fn is_open(iv: Interval) -> bool {
    iv.min < iv.max
}

/// `iv` clipped, in order, to the first `n` slabs of `spans`.
pub open spec fn clip_axes(iv: Interval, spans: Seq<(i64, i64)>, n: nat) -> Interval
    decreases n,
{
    if n == 0 {
        iv
    } else {
        let prev = clip_axes(iv, spans, (n - 1) as nat);
        clip_spec(prev, span_spec(spans[n - 1].0, spans[n - 1].1))
    }
}

/// The number of slabs the test looks at before it stops: it stops at the
/// first slab after which the interval is no longer open.
pub open spec fn slab_stop(iv: Interval, spans: Seq<(i64, i64)>) -> nat {
    if !is_open(clip_axes(iv, spans, 1)) {
        1
    } else if !is_open(clip_axes(iv, spans, 2)) {
        2
    } else {
        3
    }
}

/// The intersection of `iv` with the three slabs, each computed on its own.
pub open spec fn slabs_meet(iv: Interval, spans: Seq<(i64, i64)>) -> Interval {
    let a = span_spec(spans[0].0, spans[0].1);
    let b = span_spec(spans[1].0, spans[1].1);
    let c = span_spec(spans[2].0, spans[2].1);
    Interval {
        min: max_key(max_key(iv.min, a.min), max_key(b.min, c.min)),
        max: min_key(min_key(iv.max, a.max), min_key(b.max, c.max)),
    }
}

/// Clips the ray-parameter interval to the slab of each axis in turn (the slab
/// test). `spans[axis]` holds the parameters at which the ray crosses the two
/// planes that bound the box on that axis, in either order. Returns whether an
/// open interval remains; it stops at the first axis after which none does,
/// and leaves `ray_t` as it stood then.
pub fn clip_to_slabs(ray_t: &mut Interval, spans: &[(i64, i64); 3]) -> (r: bool)
    ensures
        r == is_open(clip_axes(*old(ray_t), spans@, 3)),
        *final(ray_t) == clip_axes(*old(ray_t), spans@, slab_stop(*old(ray_t), spans@)),
{
    let ghost start = *ray_t;
    let mut axis: usize = 0;
    while axis < 3
        invariant
            axis <= 3,
            start == *old(ray_t),
            *ray_t == clip_axes(start, spans@, axis as nat),
            forall|k: nat| 1 <= k <= axis ==> #[trigger] is_open(clip_axes(start, spans@, k)),
        decreases 3 - axis,
    {
        let (t0, t1) = spans[axis];
        assert(clip_axes(start, spans@, (axis + 1) as nat) == clip_spec(
            clip_axes(start, spans@, axis as nat),
            span_spec(t0, t1),
        ));
        if t0 < t1 {
            if t0 > ray_t.min {
                ray_t.min = t0;
            }
            if t1 < ray_t.max {
                ray_t.max = t1;
            }
        } else {
            if t1 > ray_t.min {
                ray_t.min = t1;
            }
            if t0 < ray_t.max {
                ray_t.max = t0;
            }
        }
        axis = axis + 1;
        assert(*ray_t == clip_axes(start, spans@, axis as nat));
        if ray_t.max <= ray_t.min {
            proof {
                lemma_clip_stays_closed(start, spans@, axis as nat);
                if axis >= 2 {
                    assert(is_open(clip_axes(start, spans@, 1)));
                }
                if axis >= 3 {
                    assert(is_open(clip_axes(start, spans@, 2)));
                }
            }
            return false;
        }
    }
    true
}

/// Once the clipped interval is closed, clipping it further keeps it closed.
pub proof fn lemma_clip_stays_closed(iv: Interval, spans: Seq<(i64, i64)>, k: nat)
    requires
        1 <= k <= 3,
        !is_open(clip_axes(iv, spans, k)),
    ensures
        !is_open(clip_axes(iv, spans, 3)),
    decreases 3 - k,
{
    if k < 3 {
        lemma_clip_stays_closed(iv, spans, k + 1);
    }
}

/// The slab test agrees with the intersection of the three slabs computed
/// independently: it succeeds exactly when that intersection is open, and
/// then leaves the ray interval equal to it.
pub proof fn lemma_slab_test_agrees(iv: Interval, spans: Seq<(i64, i64)>)
    requires
        spans.len() == 3,
    ensures
        is_open(clip_axes(iv, spans, 3)) == is_open(slabs_meet(iv, spans)),
        is_open(slabs_meet(iv, spans)) ==> clip_axes(iv, spans, slab_stop(iv, spans))
            == slabs_meet(iv, spans),
{
    reveal_with_fuel(clip_axes, 4);
}

} // verus!
