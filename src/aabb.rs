use vstd::prelude::*;
use crate::interval::{
    Interval, empty_spec, union_spec, min_key, max_key, lemma_union_commutative,
    lemma_union_empty, clip_to_slabs, clip_axes, is_open, slab_stop,
};
use crate::query::{box_spans, box_query_ok, query_box};

verus! {

/// An axis-aligned bounding box: one interval of keys per axis.
///
/// Boxes made from real geometry are padded to a minimum thickness where they
/// are made; a union of padded boxes is at least as thick on each axis as
/// either operand, so it needs no further padding.
#[derive(Clone, Copy, Debug, PartialEq, Eq, Structural)]
pub struct AABB {
    pub x: Interval,
    pub y: Interval,
    pub z: Interval,
}

/// The box with no extent on any axis.
pub open spec fn empty_box() -> AABB {
    AABB { x: empty_spec(), y: empty_spec(), z: empty_spec() }
}

/// The per-axis union of two boxes: the smallest box around both.
pub open spec fn box_union(a: AABB, b: AABB) -> AABB {
    AABB { x: union_spec(a.x, b.x), y: union_spec(a.y, b.y), z: union_spec(a.z, b.z) }
}

/// The interval between two keys, in order.
pub open spec fn ordered(a: i64, b: i64) -> Interval {
    Interval { min: min_key(a, b), max: max_key(a, b) }
}

/// Whether `outer` reaches at least as far as `inner` on both ends.
pub open spec fn interval_encloses(outer: Interval, inner: Interval) -> bool {
    outer.min <= inner.min && inner.max <= outer.max
}

impl AABB {
    /// The interval of axis `n`: 1 is y, 2 is z, and any other value is x.
    pub open spec fn axis_spec(self, n: int) -> Interval {
        if n == 1 {
            self.y
        } else if n == 2 {
            self.z
        } else {
            self.x
        }
    }

    /// Whether this box reaches at least as far as `other` on every axis.
    pub open spec fn encloses(self, other: AABB) -> bool {
        interval_encloses(self.x, other.x) && interval_encloses(self.y, other.y)
            && interval_encloses(self.z, other.z)
    }

    /// The empty box, an identity of union.
    pub fn default() -> (r: AABB)
        ensures
            r == empty_box(),
    {
        AABB { x: Interval::empty(), y: Interval::empty(), z: Interval::empty() }
    }

    pub fn from_intervals(x: Interval, y: Interval, z: Interval) -> (r: AABB)
        ensures
            r == (AABB { x, y, z }),
    {
        AABB { x, y, z }
    }

    /// The box with two opposite corners `point1` and `point2`, given as
    /// `[x, y, z]`.
    pub fn from_points(point1: [i64; 3], point2: [i64; 3]) -> (r: AABB)
        ensures
            r.x == ordered(point1[0], point2[0]),
            r.y == ordered(point1[1], point2[1]),
            r.z == ordered(point1[2], point2[2]),
    {
        AABB {
            x: if point1[0] <= point2[0] {
                Interval::new(point1[0], point2[0])
            } else {
                Interval::new(point2[0], point1[0])
            },
            y: if point1[1] <= point2[1] {
                Interval::new(point1[1], point2[1])
            } else {
                Interval::new(point2[1], point1[1])
            },
            z: if point1[2] <= point2[2] {
                Interval::new(point1[2], point2[2])
            } else {
                Interval::new(point2[2], point1[2])
            },
        }
    }

    /// The union of two boxes.
    pub fn from_aabb(box1: AABB, box2: AABB) -> (r: AABB)
        ensures
            r == box_union(box1, box2),
    {
        AABB {
            x: Interval::from_interval(box1.x, box2.x),
            y: Interval::from_interval(box1.y, box2.y),
            z: Interval::from_interval(box1.z, box2.z),
        }
    }

    /// The slab test of this box against the ray that `slabs` describes:
    /// `slabs(b)` gives the parameters at which the ray crosses the two
    /// bounding planes of box `b` on each axis. Clips `ray_t` to the box's slab
    /// on each axis in turn and returns whether an open interval remains.
    pub fn hit<G: Fn(AABB) -> [(i64, i64); 3]>(&self, slabs: &G, ray_t: &mut Interval) -> (r: bool)
        requires
            box_query_ok(*slabs),
        ensures
            r == is_open(clip_axes(*old(ray_t), box_spans(*slabs, *self), 3)),
            *final(ray_t) == clip_axes(
                *old(ray_t),
                box_spans(*slabs, *self),
                slab_stop(*old(ray_t), box_spans(*slabs, *self)),
            ),
    {
        let spans = query_box(slabs, *self);
        clip_to_slabs(ray_t, &spans)
    }

    pub fn get_axis_interval(&self, n: i32) -> (r: Interval)
        ensures
            r == self.axis_spec(n as int),
    {
        match n {
            1 => self.y,
            2 => self.z,
            _ => self.x,
        }
    }
}

/// Box union is commutative.
pub proof fn lemma_box_union_commutative(a: AABB, b: AABB)
    ensures
        box_union(a, b) == box_union(b, a),
{
    lemma_union_commutative(a.x, b.x);
    lemma_union_commutative(a.y, b.y);
    lemma_union_commutative(a.z, b.z);
}

/// The empty box is an identity of box union, on either side.
pub proof fn lemma_box_union_empty(a: AABB)
    ensures
        box_union(a, empty_box()) == a,
        box_union(empty_box(), a) == a,
{
    lemma_union_empty(a.x);
    lemma_union_empty(a.y);
    lemma_union_empty(a.z);
}

/// A union encloses both operands.
pub proof fn lemma_box_union_encloses(a: AABB, b: AABB)
    ensures
        box_union(a, b).encloses(a),
        box_union(a, b).encloses(b),
{
}

/// Enclosure is transitive.
pub proof fn lemma_encloses_transitive(a: AABB, b: AABB, c: AABB)
    requires
        a.encloses(b),
        b.encloses(c),
    ensures
        a.encloses(c),
{
}

} // verus!
