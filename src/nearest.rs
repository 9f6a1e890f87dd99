use vstd::prelude::*;
use crate::interval::{Interval, clip_axes, is_open};
use crate::aabb::AABB;
use crate::query::{object_hit, box_spans};
use crate::bvh::{
    Bvh, BvhChild, BvhNode, node_hit_spec, child_hit_spec, node_leaves, child_leaves, nodes_wf,
    node_wf, child_ok, tightened, lemma_node_encloses_leaves, range_set,
};
use crate::hit_list::{HitList, list_hit_spec};

verus! {

/// The object routine `f` reports, for each object, the nearest of a fixed set
/// of hits strictly inside the interval asked: a hit lies inside the interval;
/// a narrower interval that still holds the hit reports it too; a narrower
/// interval reports nothing where the wider one did, or where it ends at or
/// before the wider one's hit.
pub open spec fn reports_nearest<F: Fn(usize, Interval) -> Option<i64>>(f: F) -> bool {
    &&& forall|o: usize, iv: Interval|
        match #[trigger] object_hit(f, o, iv) {
            Some(t) => iv.min < t < iv.max,
            None => true,
        }
    &&& forall|o: usize, iv: Interval, iv2: Interval|
        #![trigger object_hit(f, o, iv), object_hit(f, o, iv2)]
        match object_hit(f, o, iv) {
            Some(t) => {
                &&& iv.min <= iv2.min && iv2.max <= iv.max && iv2.min < t < iv2.max ==> object_hit(
                    f,
                    o,
                    iv2,
                ) == Some(t)
                &&& iv.min <= iv2.min && iv2.max <= t ==> object_hit(f, o, iv2) is None
            },
            None => iv.min <= iv2.min && iv2.max <= iv.max ==> object_hit(f, o, iv2) is None,
        }
}

/// The boxes bound the hits: every hit of an object lies strictly inside the
/// part of the interval that the object's box lets through, and a box that
/// encloses another lets through at least as much.
pub open spec fn boxes_bound_hits<F: Fn(usize, Interval) -> Option<i64>, G: Fn(AABB) -> [(
    i64,
    i64,
); 3]>(f: F, g: G, boxes: Seq<AABB>) -> bool {
    &&& forall|o: usize, iv: Interval|
        o < boxes.len() ==> match #[trigger] object_hit(f, o, iv) {
            Some(t) => {
                let c = clip_axes(iv, box_spans(g, boxes[o as int]), 3);
                c.min < t < c.max
            },
            None => true,
        }
    &&& forall|a: AABB, b: AABB, iv: Interval|
        #![trigger clip_axes(iv, box_spans(g, a), 3), clip_axes(iv, box_spans(g, b), 3)]
        a.encloses(b) ==> clip_axes(iv, box_spans(g, a), 3).min <= clip_axes(
            iv,
            box_spans(g, b),
            3,
        ).min && clip_axes(iv, box_spans(g, b), 3).max <= clip_axes(iv, box_spans(g, a), 3).max
}

/// `r` is a nearest hit among the objects `s` inside `iv`: a hit that one of
/// them reports, with no object of `s` reporting a nearer one; or nothing,
/// where none of them reports a hit.
pub open spec fn is_nearest<F: Fn(usize, Interval) -> Option<i64>>(
    f: F,
    r: Option<(i64, usize)>,
    s: Set<usize>,
    iv: Interval,
) -> bool {
    match r {
        Some((t, o)) => s.contains(o) && object_hit(f, o, iv) == Some(t) && forall|o2: usize|
            #[trigger] s.contains(o2) ==> match object_hit(f, o2, iv) {
                Some(t2) => t <= t2,
                None => true,
            },
        None => forall|o2: usize| #[trigger] s.contains(o2) ==> object_hit(f, o2, iv) is None,
    }
}

/// The parameter of a hit, if any.
pub open spec fn hit_param(r: Option<(i64, usize)>) -> Option<i64> {
    match r {
        Some((t, _)) => Some(t),
        None => None,
    }
}

/// Two nearest hits over the same objects lie at the same parameter.
proof fn lemma_nearest_unique<F: Fn(usize, Interval) -> Option<i64>>(
    f: F,
    r1: Option<(i64, usize)>,
    r2: Option<(i64, usize)>,
    s: Set<usize>,
    iv: Interval,
)
    requires
        is_nearest(f, r1, s, iv),
        is_nearest(f, r2, s, iv),
    ensures
        hit_param(r1) == hit_param(r2),
{
    match r1 {
        Some((t1, o1)) => {
            assert(s.contains(o1));
            match r2 {
                Some((t2, o2)) => {
                    assert(s.contains(o2));
                },
                None => {},
            }
        },
        None => {
            match r2 {
                Some((t2, o2)) => {
                    assert(s.contains(o2));
                },
                None => {},
            }
        },
    }
}

/// Scanning the first `n` objects of a list finds a nearest hit among them.
proof fn lemma_list_nearest<F: Fn(usize, Interval) -> Option<i64>>(
    objects: Seq<usize>,
    iv: Interval,
    f: F,
    n: nat,
)
    requires
        n <= objects.len(),
        reports_nearest(f),
    ensures
        is_nearest(f, list_hit_spec(objects, iv, f, n), range_set(objects, 0, n as int), iv),
    decreases n,
{
    let s = range_set(objects, 0, n as int);
    if n == 0 {
        assert(s =~= Set::<usize>::empty());
    } else {
        lemma_list_nearest(objects, iv, f, (n - 1) as nat);
        let prev = list_hit_spec(objects, iv, f, (n - 1) as nat);
        let sp = range_set(objects, 0, n - 1);
        assert(s =~= sp.insert(objects[n - 1])) by {
            assert forall|v: usize| s.contains(v) implies sp.insert(objects[n - 1]).contains(v) by {
                let k = choose|k: int| 0 <= k < n && #[trigger] objects[k] == v;
                if k < n - 1 {
                    assert(sp.contains(v));
                }
            }
            assert forall|v: usize| sp.insert(objects[n - 1]).contains(v) implies s.contains(v) by {
                if v != objects[n - 1] {
                    let k = choose|k: int| 0 <= k < n - 1 && #[trigger] objects[k] == v;
                    assert(0 <= k < n);
                }
            }
        }
        let o = objects[n - 1];
        let limit = match prev {
            Some((t, _)) => t,
            None => iv.max,
        };
        let small = Interval { min: iv.min, max: limit };
        let cur = object_hit(f, o, small);
        assert(limit <= iv.max) by {
            match prev {
                Some((t, po)) => {
                    assert(sp.contains(po));
                    assert(object_hit(f, po, iv) == Some(t));
                },
                None => {},
            }
        }
        match cur {
            Some(t) => {
                assert(small.min < t < small.max);
                match object_hit(f, o, iv) {
                    Some(t0) => {
                        if t0 < limit {
                            assert(object_hit(f, o, small) == Some(t0));
                        } else {
                            assert(object_hit(f, o, small) is None);
                        }
                    },
                    None => {
                        assert(object_hit(f, o, small) is None);
                    },
                }
                assert(object_hit(f, o, iv) == Some(t));
            },
            None => {
                match object_hit(f, o, iv) {
                    Some(t0) => {
                        if t0 < limit {
                            assert(object_hit(f, o, small) == Some(t0));
                        }
                    },
                    None => {},
                }
                match prev {
                    Some((tp, po)) => {},
                    None => {
                        assert(small == iv);
                    },
                }
            },
        }
    }
}

/// Clipping never widens an interval.
proof fn lemma_clip_shrinks(iv: Interval, spans: Seq<(i64, i64)>, n: nat)
    ensures
        iv.min <= clip_axes(iv, spans, n).min,
        clip_axes(iv, spans, n).max <= iv.max,
    decreases n,
{
    if n > 0 {
        lemma_clip_shrinks(iv, spans, (n - 1) as nat);
    }
}

/// The leaves of a well-formed node are objects of the scene.
proof fn lemma_leaves_valid(nodes: Seq<BvhNode>, boxes: Seq<AABB>, j: int, o: usize)
    requires
        nodes_wf(nodes, boxes),
        0 <= j < nodes.len(),
        node_leaves(nodes, j).contains(o),
    ensures
        o < boxes.len(),
    decreases j,
{
    assert(node_wf(nodes, boxes, j));
    let n = nodes[j];
    if child_leaves(nodes, n.left, j).contains(o) {
        match n.left {
            BvhChild::Node(m) => lemma_leaves_valid(nodes, boxes, m as int, o),
            _ => {},
        }
    } else {
        match n.right {
            BvhChild::Node(m) => lemma_leaves_valid(nodes, boxes, m as int, o),
            _ => {},
        }
    }
}

proof fn lemma_child_nearest<F: Fn(usize, Interval) -> Option<i64>, G: Fn(AABB) -> [(
    i64,
    i64,
); 3]>(nodes: Seq<BvhNode>, boxes: Seq<AABB>, c: BvhChild, j: int, iv: Interval, f: F, g: G)
    requires
        nodes_wf(nodes, boxes),
        0 <= j < nodes.len(),
        child_ok(c, j, boxes.len() as int),
        reports_nearest(f),
        boxes_bound_hits(f, g, boxes),
    ensures
        is_nearest(f, child_hit_spec(nodes, c, j, iv, f, g), child_leaves(nodes, c, j), iv),
    decreases j, 0int,
{
    match c {
        BvhChild::Object(o) => {
            let s = child_leaves(nodes, c, j);
            assert(s =~= Set::empty().insert(o));
        },
        BvhChild::Node(m) => {
            lemma_node_nearest(nodes, boxes, m as int, iv, f, g);
        },
    }
}

/// The hierarchy's answer below node `j` is a nearest hit among the objects
/// below it.
proof fn lemma_node_nearest<F: Fn(usize, Interval) -> Option<i64>, G: Fn(AABB) -> [(
    i64,
    i64,
); 3]>(nodes: Seq<BvhNode>, boxes: Seq<AABB>, j: int, iv: Interval, f: F, g: G)
    requires
        nodes_wf(nodes, boxes),
        0 <= j < nodes.len(),
        reports_nearest(f),
        boxes_bound_hits(f, g, boxes),
    ensures
        is_nearest(f, node_hit_spec(nodes, j, iv, f, g), node_leaves(nodes, j), iv),
    decreases j, 1int,
{
    assert(node_wf(nodes, boxes, j));
    let n = nodes[j];
    let spans = box_spans(g, n.bbox);
    let inner = clip_axes(iv, spans, 3);
    lemma_clip_shrinks(iv, spans, 3);
    let s = node_leaves(nodes, j);
    let sl = child_leaves(nodes, n.left, j);
    let sr = child_leaves(nodes, n.right, j);
    assert(s == sl.union(sr));
    // Inside the node's box every object below it reports what it reports
    // inside the whole interval.
    assert forall|o: usize| #[trigger] s.contains(o) implies object_hit(f, o, inner) == object_hit(
        f,
        o,
        iv,
    ) && match object_hit(f, o, iv) {
        Some(t) => inner.min < t < inner.max,
        None => true,
    } by {
        lemma_leaves_valid(nodes, boxes, j, o);
        lemma_node_encloses_leaves(nodes, boxes, j, o);
        let ob = boxes[o as int];
        let oc = clip_axes(iv, box_spans(g, ob), 3);
        assert(clip_axes(iv, box_spans(g, n.bbox), 3).min <= oc.min && oc.max <= clip_axes(
            iv,
            box_spans(g, n.bbox),
            3,
        ).max);
        match object_hit(f, o, iv) {
            Some(t) => {
                assert(oc.min < t < oc.max);
                assert(object_hit(f, o, inner) == Some(t));
            },
            None => {
                assert(object_hit(f, o, inner) is None);
            },
        }
    }
    if !is_open(inner) {
        assert forall|o: usize| #[trigger] s.contains(o) implies object_hit(f, o, iv) is None by {
            match object_hit(f, o, iv) {
                Some(t) => {
                    assert(inner.min < t < inner.max);
                },
                None => {},
            }
        }
    } else {
        let l = child_hit_spec(nodes, n.left, j, inner, f, g);
        lemma_child_nearest(nodes, boxes, n.left, j, inner, f, g);
        let riv = tightened(inner, l);
        let r = child_hit_spec(nodes, n.right, j, riv, f, g);
        lemma_child_nearest(nodes, boxes, n.right, j, riv, f, g);
        assert(riv.min == inner.min);
        assert(riv.max <= inner.max) by {
            match l {
                Some((tl, ol)) => {
                    assert(sl.contains(ol));
                    assert(object_hit(f, ol, inner) == Some(tl));
                },
                None => {},
            }
        }
        // What an object on the right reports inside the cut interval.
        assert forall|o: usize| #[trigger] sr.contains(o) implies match object_hit(f, o, inner) {
            Some(t) => if t < riv.max {
                object_hit(f, o, riv) == Some(t)
            } else {
                object_hit(f, o, riv) is None
            },
            None => object_hit(f, o, riv) is None,
        } by {
            match object_hit(f, o, inner) {
                Some(t) => {
                    if t < riv.max {
                        assert(object_hit(f, o, riv) == Some(t));
                    } else {
                        assert(object_hit(f, o, riv) is None);
                    }
                },
                None => {
                    assert(object_hit(f, o, riv) is None);
                },
            }
        }
        match r {
            Some((tr, or)) => {
                assert(sr.contains(or));
                assert(s.contains(or));
                assert(object_hit(f, or, iv) == Some(tr)) by {
                    match object_hit(f, or, inner) {
                        Some(t) => {},
                        None => {},
                    }
                }
                assert forall|o2: usize| #[trigger] s.contains(o2) implies match object_hit(
                    f,
                    o2,
                    iv,
                ) {
                    Some(t2) => tr <= t2,
                    None => true,
                } by {
                    assert(object_hit(f, o2, inner) == object_hit(f, o2, iv));
                    if sl.contains(o2) {
                        match l {
                            Some((tl, ol)) => {
                                assert(tr < riv.max);
                            },
                            None => {},
                        }
                    }
                    if sr.contains(o2) {
                        match object_hit(f, o2, inner) {
                            Some(t2) => {
                                if t2 < riv.max {
                                    assert(object_hit(f, o2, riv) == Some(t2));
                                } else {
                                    assert(tr < riv.max);
                                }
                            },
                            None => {},
                        }
                    }
                }
            },
            None => {
                match l {
                    Some((tl, ol)) => {
                        assert(s.contains(ol));
                        assert(object_hit(f, ol, iv) == Some(tl));
                        assert forall|o2: usize| #[trigger] s.contains(o2) implies match object_hit(
                            f,
                            o2,
                            iv,
                        ) {
                            Some(t2) => tl <= t2,
                            None => true,
                        } by {
                            assert(object_hit(f, o2, inner) == object_hit(f, o2, iv));
                            if sr.contains(o2) {
                                match object_hit(f, o2, inner) {
                                    Some(t2) => {
                                        if t2 < riv.max {
                                            assert(object_hit(f, o2, riv) == Some(t2));
                                        }
                                    },
                                    None => {},
                                }
                            }
                        }
                    },
                    None => {
                        assert forall|o2: usize| #[trigger] s.contains(o2) implies object_hit(
                            f,
                            o2,
                            iv,
                        ) is None by {
                            assert(object_hit(f, o2, inner) == object_hit(f, o2, iv));
                            if sr.contains(o2) {
                                match object_hit(f, o2, inner) {
                                    Some(t2) => {
                                        assert(object_hit(f, o2, riv) == Some(t2));
                                    },
                                    None => {},
                                }
                            }
                        }
                    },
                }
            },
        }
    }
}

/// A hierarchy finds the same nearest hit as a flat list over the same
/// objects: for any interval, the parameters they report agree (both report
/// none, or both report a hit at the same parameter), and the hierarchy's hit
/// is one that its object really reports. This holds when the object routine
/// reports nearest hits and the boxes bound the hits.
pub proof fn lemma_bvh_matches_list<F: Fn(usize, Interval) -> Option<i64>, G: Fn(AABB) -> [(
    i64,
    i64,
); 3]>(bvh: &Bvh, list: &HitList, boxes: Seq<AABB>, iv: Interval, f: F, g: G)
    requires
        bvh.wf(boxes),
        forall|o: usize| bvh.leaves().contains(o) <==> list.objects@.contains(o),
        reports_nearest(f),
        boxes_bound_hits(f, g, boxes),
    ensures
        hit_param(node_hit_spec(bvh.nodes@, bvh.root as int, iv, f, g)) == hit_param(
            list_hit_spec(list.objects@, iv, f, list.objects@.len()),
        ),
        match node_hit_spec(bvh.nodes@, bvh.root as int, iv, f, g) {
            Some((t, o)) => object_hit(f, o, iv) == Some(t),
            None => true,
        },
{
    let objects = list.objects@;
    lemma_node_nearest(bvh.nodes@, boxes, bvh.root as int, iv, f, g);
    lemma_list_nearest(objects, iv, f, objects.len());
    assert(range_set(objects, 0, objects.len() as int) =~= bvh.leaves()) by {
        assert forall|o: usize| #[trigger] bvh.leaves().contains(o) implies range_set(
            objects,
            0,
            objects.len() as int,
        ).contains(o) by {
            assert(objects.contains(o));
            let k = choose|k: int| 0 <= k < objects.len() && objects[k] == o;
            assert(0 <= k < objects.len() && objects[k] == o);
        }
        assert forall|o: usize| #[trigger] range_set(objects, 0, objects.len() as int).contains(
            o,
        ) implies bvh.leaves().contains(o) by {
            let k = choose|k: int| 0 <= k < objects.len() && objects[k] == o;
            assert(objects.contains(o));
        }
    }
    lemma_nearest_unique(
        f,
        node_hit_spec(bvh.nodes@, bvh.root as int, iv, f, g),
        list_hit_spec(objects, iv, f, objects.len()),
        bvh.leaves(),
        iv,
    );
}

} // verus!
