use vstd::prelude::*;
use crate::interval::Interval;
use crate::aabb::AABB;

verus! {

/// What the ray under test hits of object `o` strictly inside `iv`, as the
/// caller's intersection routine `f` reports it: the parameter of the nearest
/// hit, or `None`.
pub open spec fn object_hit<F: Fn(usize, Interval) -> Option<i64>>(
    f: F,
    o: usize,
    iv: Interval,
) -> Option<i64> {
    choose|r: Option<i64>| call_ensures(f, (o, iv), r)
}

/// The parameters at which the ray under test crosses the two bounding planes
/// of box `b` on each axis, as the caller's routine `g` reports them.
pub open spec fn box_spans<G: Fn(AABB) -> [(i64, i64); 3]>(g: G, b: AABB) -> Seq<(i64, i64)> {
    (choose|s: [(i64, i64); 3]| call_ensures(g, (b,), s))@
}

/// The object routine `f` may be called on any object and interval, and gives
/// one answer for each.
pub open spec fn object_query_ok<F: Fn(usize, Interval) -> Option<i64>>(f: F) -> bool {
    &&& forall|o: usize, iv: Interval| call_requires(f, (o, iv))
    &&& forall|o: usize, iv: Interval, r1: Option<i64>, r2: Option<i64>|
        call_ensures(f, (o, iv), r1) && call_ensures(f, (o, iv), r2) ==> r1 == r2
}

/// The box routine `g` may be called on any box, and gives one answer for
/// each.
pub open spec fn box_query_ok<G: Fn(AABB) -> [(i64, i64); 3]>(g: G) -> bool {
    &&& forall|b: AABB| call_requires(g, (b,))
    &&& forall|b: AABB, s1: [(i64, i64); 3], s2: [(i64, i64); 3]|
        call_ensures(g, (b,), s1) && call_ensures(g, (b,), s2) ==> s1 == s2
}

/// Calls `f` on object `o` and interval `iv`.
pub(crate) fn query_object<F: Fn(usize, Interval) -> Option<i64>>(f: &F, o: usize, iv: Interval) -> (r:
    Option<i64>)
    requires
        object_query_ok(*f),
    ensures
        r == object_hit(*f, o, iv),
{
    let r = f(o, iv);
    r
}

/// Calls `g` on box `b`.
pub(crate) fn query_box<G: Fn(AABB) -> [(i64, i64); 3]>(g: &G, b: AABB) -> (r: [(i64, i64); 3])
    requires
        box_query_ok(*g),
    ensures
        r@ == box_spans(*g, b),
{
    let r = g(b);
    r
}

} // verus!
