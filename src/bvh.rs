use vstd::prelude::*;
use rand::rngs::StdRng;
use crate::random::random_below;
use crate::aabb::{AABB, box_union};
use crate::interval::{
    Interval, clip_axes, is_open, slab_stop, lemma_clip_stays_closed,
};
use crate::query::{object_hit, box_spans, object_query_ok, box_query_ok, query_object};

verus! {

/// One child of a hierarchy node: an object of the scene, by its index, or an
/// inner node, by its index in the node arena.
#[derive(Clone, Copy, Debug, PartialEq, Eq, Structural)]
pub enum BvhChild {
    Object(usize),
    Node(usize),
}

/// An inner node of a bounding volume hierarchy, with the box around both of
/// its children.
#[derive(Clone, Copy, Debug, PartialEq, Eq, Structural)]
pub struct BvhNode {
    pub left: BvhChild,
    pub right: BvhChild,
    pub bbox: AABB,
}

/// A bounding volume hierarchy over a scene's objects, held as an arena of
/// nodes: a node refers only to nodes before it, and `root` is the last.
pub struct Bvh {
    pub nodes: Vec<BvhNode>,
    pub root: usize,
}

/// The sort key of an object on an axis: the lower end of its box there.
pub open spec fn axis_key(boxes: Seq<AABB>, axis: int, o: usize) -> i64 {
    boxes[o as int].axis_spec(axis).min
}

/// The objects that positions `lo..hi` of `s` name.
pub open spec fn range_set(s: Seq<usize>, lo: int, hi: int) -> Set<usize> {
    Set::new(|v: usize| exists|k: int| lo <= k < hi && s[k] == v)
}

/// Whether positions `lo..hi` of `s` are ordered by their objects' keys.
pub open spec fn sorted_by_key(boxes: Seq<AABB>, axis: int, s: Seq<usize>, lo: int, hi: int) -> bool {
    forall|a: int, b: int|
        lo <= a < b < hi ==> axis_key(boxes, axis, #[trigger] s[a]) <= axis_key(
            boxes,
            axis,
            #[trigger] s[b],
        )
}

/// Every entry of `s` names one of `n` objects.
pub open spec fn all_below(s: Seq<usize>, n: int) -> bool {
    forall|k: int| 0 <= k < s.len() ==> #[trigger] s[k] < n
}

/// The box of a child: the object's own box, or the inner node's.
pub open spec fn child_box(nodes: Seq<BvhNode>, boxes: Seq<AABB>, c: BvhChild) -> AABB {
    match c {
        BvhChild::Object(i) => boxes[i as int],
        BvhChild::Node(j) => nodes[j as int].bbox,
    }
}

/// A child of node `k` names an object of the scene or a node before `k`.
pub open spec fn child_ok(c: BvhChild, k: int, n_objects: int) -> bool {
    match c {
        BvhChild::Object(i) => i < n_objects,
        BvhChild::Node(j) => j < k,
    }
}

/// Node `k` refers only to objects and earlier nodes, and its box is the union
/// of its children's boxes.
pub open spec fn node_wf(nodes: Seq<BvhNode>, boxes: Seq<AABB>, k: int) -> bool {
    let n = nodes[k];
    child_ok(n.left, k, boxes.len() as int) && child_ok(n.right, k, boxes.len() as int)
        && n.bbox == box_union(child_box(nodes, boxes, n.left), child_box(nodes, boxes, n.right))
}

/// Every node of the arena is well formed.
pub open spec fn nodes_wf(nodes: Seq<BvhNode>, boxes: Seq<AABB>) -> bool {
    forall|k: int| 0 <= k < nodes.len() ==> #[trigger] node_wf(nodes, boxes, k)
}

/// The objects at the leaves below child `c` of node `j`.
pub open spec fn child_leaves(nodes: Seq<BvhNode>, c: BvhChild, j: int) -> Set<usize>
    decreases j, 0int,
{
    match c {
        BvhChild::Object(i) => Set::empty().insert(i),
        BvhChild::Node(m) => if 0 <= m < j {
            node_leaves(nodes, m as int)
        } else {
            Set::empty()
        },
    }
}

/// The objects at the leaves below node `j`.
pub open spec fn node_leaves(nodes: Seq<BvhNode>, j: int) -> Set<usize>
    decreases j, 1int,
{
    if 0 <= j < nodes.len() {
        child_leaves(nodes, nodes[j].left, j).union(child_leaves(nodes, nodes[j].right, j))
    } else {
        Set::empty()
    }
}

/// Every object of `left` has a key on `axis` no larger than every object of
/// `right`.
pub open spec fn sorted_split(boxes: Seq<AABB>, axis: int, left: Set<usize>, right: Set<usize>) -> bool {
    forall|x: usize, y: usize|
        left.contains(x) && right.contains(y) ==> #[trigger] axis_key(boxes, axis, x) <= #[trigger] axis_key(
            boxes,
            axis,
            y,
        )
}

/// Node `j` has two inner nodes as children, the left one over `left_objects`,
/// and on some axis the keys of the left child's objects are no larger than
/// those of the right child's.
pub open spec fn split_by_axis(boxes: Seq<AABB>, nodes: Seq<BvhNode>, j: int, left_objects: Set<usize>) -> bool {
    match (nodes[j].left, nodes[j].right) {
        (BvhChild::Node(l), BvhChild::Node(r)) => {
            &&& node_leaves(nodes, l as int) == left_objects
            &&& exists|axis: int|
                0 <= axis < 3 && sorted_split(
                    boxes,
                    axis,
                    node_leaves(nodes, l as int),
                    node_leaves(nodes, r as int),
                )
        },
        _ => false,
    }
}

impl Bvh {
    /// The hierarchy is well formed over the object boxes `boxes`.
    pub open spec fn wf(&self, boxes: Seq<AABB>) -> bool {
        &&& nodes_wf(self.nodes@, boxes)
        &&& links_ok(self.nodes@)
        &&& self.root < self.nodes@.len()
    }

    /// The objects at the leaves of the whole hierarchy.
    pub open spec fn leaves(&self) -> Set<usize> {
        node_leaves(self.nodes@, self.root as int)
    }

    /// The box around the whole hierarchy.
    pub open spec fn bbox_spec(&self) -> AABB {
        self.nodes@[self.root as int].bbox
    }
}

/// Appending nodes changes neither the well-formedness nor the leaves of the
/// nodes already there.
proof fn lemma_prefix_stable(short: Seq<BvhNode>, long: Seq<BvhNode>, boxes: Seq<AABB>, j: int)
    requires
        short.len() <= long.len(),
        long.subrange(0, short.len() as int) == short,
        nodes_wf(short, boxes),
        0 <= j < short.len(),
    ensures
        node_wf(long, boxes, j),
        node_leaves(long, j) == node_leaves(short, j),
    decreases j,
{
    assert(short[j] == long[j]);
    assert(node_wf(short, boxes, j));
    let n = short[j];
    match n.left {
        BvhChild::Node(m) => {
            assert(short[m as int] == long[m as int]);
            lemma_prefix_stable(short, long, boxes, m as int);
        },
        _ => {},
    }
    match n.right {
        BvhChild::Node(m) => {
            assert(short[m as int] == long[m as int]);
            lemma_prefix_stable(short, long, boxes, m as int);
        },
        _ => {},
    }
}

/// The box of a well-formed node encloses the box of every object below it.
pub proof fn lemma_node_encloses_leaves(nodes: Seq<BvhNode>, boxes: Seq<AABB>, j: int, o: usize)
    requires
        nodes_wf(nodes, boxes),
        0 <= j < nodes.len(),
        node_leaves(nodes, j).contains(o),
    ensures
        nodes[j].bbox.encloses(boxes[o as int]),
    decreases j,
{
    assert(node_wf(nodes, boxes, j));
    let n = nodes[j];
    let lb = child_box(nodes, boxes, n.left);
    let rb = child_box(nodes, boxes, n.right);
    crate::aabb::lemma_box_union_encloses(lb, rb);
    let in_left = match n.left {
        BvhChild::Object(i) => i == o,
        BvhChild::Node(m) => node_leaves(nodes, m as int).contains(o),
    };
    if in_left {
        match n.left {
            BvhChild::Node(m) => {
                lemma_node_encloses_leaves(nodes, boxes, m as int, o);
                crate::aabb::lemma_encloses_transitive(n.bbox, lb, boxes[o as int]);
            },
            _ => {},
        }
    } else {
        match n.right {
            BvhChild::Node(m) => {
                lemma_node_encloses_leaves(nodes, boxes, m as int, o);
                crate::aabb::lemma_encloses_transitive(n.bbox, rb, boxes[o as int]);
            },
            _ => {},
        }
    }
}

/// The box around a hierarchy encloses the box of every object at its leaves.
pub proof fn lemma_bvh_encloses_leaves(bvh: &Bvh, boxes: Seq<AABB>, o: usize)
    requires
        bvh.wf(boxes),
        bvh.leaves().contains(o),
    ensures
        bvh.bbox_spec().encloses(boxes[o as int]),
{
    lemma_node_encloses_leaves(bvh.nodes@, boxes, bvh.root as int, o);
}

/// Exchanging two positions inside `lo..hi` keeps the objects that range names.
proof fn lemma_swap_keeps_range(s: Seq<usize>, a: int, b: int, lo: int, hi: int)
    requires
        lo <= a < hi,
        lo <= b < hi,
        hi <= s.len(),
        0 <= lo,
    ensures
        range_set(s.update(a, s[b]).update(b, s[a]), lo, hi) == range_set(s, lo, hi),
{
    let t = s.update(a, s[b]).update(b, s[a]);
    assert forall|v: usize| range_set(t, lo, hi).contains(v) implies range_set(s, lo, hi).contains(v) by {
        let k = choose|k: int| lo <= k < hi && t[k] == v;
        if k == a {
            assert(s[b] == v || s[a] == v);
        } else if k == b {
            assert(s[a] == v);
        } else {
            assert(s[k] == v);
        }
    }
    assert forall|v: usize| range_set(s, lo, hi).contains(v) implies range_set(t, lo, hi).contains(v) by {
        let k = choose|k: int| lo <= k < hi && s[k] == v;
        if k == a {
            assert(t[b] == v);
        } else if k == b {
            if a == b {
                assert(t[b] == v);
            } else {
                assert(t[a] == v);
            }
        } else {
            assert(t[k] == v);
        }
    }
    assert(range_set(t, lo, hi) =~= range_set(s, lo, hi));
}

/// Stable insertion sort of positions `start..end` of `order` by the lower end
/// of each object's box on `axis`.
fn sort_range(order: &mut Vec<usize>, boxes: &Vec<AABB>, start: usize, end: usize, axis: usize)
    requires
        start <= end <= old(order).len(),
        axis < 3,
        all_below(old(order)@, boxes@.len() as int),
    ensures
        final(order).len() == old(order).len(),
        all_below(final(order)@, boxes@.len() as int),
        forall|k: int|
            0 <= k < old(order).len() && !(start <= k < end) ==> #[trigger] final(order)@[k]
                == old(order)@[k],
        range_set(final(order)@, start as int, end as int) == range_set(
            old(order)@,
            start as int,
            end as int,
        ),
        sorted_by_key(boxes@, axis as int, final(order)@, start as int, end as int),
{
    if start == end {
        return;
    }
    let ghost first = order@;
    let ghost ax = axis as int;
    let mut i: usize = start + 1;
    while i < end
        invariant
            start < i <= end,
            end <= order.len(),
            order.len() == first.len(),
            first == old(order)@,
            ax == axis as int,
            axis < 3,
            all_below(order@, boxes@.len() as int),
            forall|k: int|
                0 <= k < first.len() && !(start <= k < end) ==> #[trigger] order@[k] == first[k],
            range_set(order@, start as int, end as int) == range_set(first, start as int, end as int),
            sorted_by_key(boxes@, ax, order@, start as int, i as int),
        decreases end - i,
    {
        let mut j: usize = i;
        let mut moving = true;
        while moving && j > start
            invariant
                start <= j <= i < end,
                end <= order.len(),
                order.len() == first.len(),
                ax == axis as int,
                axis < 3,
            axis < 3,
                all_below(order@, boxes@.len() as int),
                forall|k: int|
                    0 <= k < first.len() && !(start <= k < end) ==> #[trigger] order@[k] == first[k],
                range_set(order@, start as int, end as int) == range_set(
                    first,
                    start as int,
                    end as int,
                ),
                sorted_by_key(boxes@, ax, order@, start as int, j as int),
                sorted_by_key(boxes@, ax, order@, j as int, i + 1),
                forall|a: int, b: int|
                    start <= a < j && j < b <= i ==> axis_key(boxes@, ax, #[trigger] order@[a])
                        <= axis_key(boxes@, ax, #[trigger] order@[b]),
                !moving ==> (j == start || axis_key(boxes@, ax, order@[j - 1]) <= axis_key(
                    boxes@,
                    ax,
                    order@[j as int],
                )),
            decreases 2 * j + (if moving { 1int } else { 0int }),
        {
            let a = order[j - 1];
            let b = order[j];
            if boxes[a].get_axis_interval(axis as i32).min > boxes[b].get_axis_interval(
                axis as i32,
            ).min {
                proof {
                    lemma_swap_keeps_range(order@, j - 1, j as int, start as int, end as int);
                }
                order.set(j - 1, b);
                order.set(j, a);
                j = j - 1;
            } else {
                moving = false;
            }
        }
        assert(sorted_by_key(boxes@, ax, order@, start as int, i + 1)) by {
            assert forall|x: int, y: int| start <= x < y < i + 1 implies axis_key(
                boxes@,
                ax,
                #[trigger] order@[x],
            ) <= axis_key(boxes@, ax, #[trigger] order@[y]) by {
                if x < j && y == j {
                    if x < j - 1 {
                        assert(axis_key(boxes@, ax, order@[x]) <= axis_key(
                            boxes@,
                            ax,
                            order@[j - 1],
                        ));
                    }
                }
            }
        }
        i = i + 1;
    }
}

fn child_bbox(nodes: &Vec<BvhNode>, boxes: &Vec<AABB>, c: BvhChild) -> (r: AABB)
    requires
        child_ok(c, nodes.len() as int, boxes.len() as int),
    ensures
        r == child_box(nodes@, boxes@, c),
{
    match c {
        BvhChild::Object(i) => boxes[i],
        BvhChild::Node(j) => nodes[j].bbox,
    }
}

impl BvhNode {
    /// Builds the hierarchy over the objects named at positions `start..end`
    /// of `order`, appends its nodes to `nodes` and returns the index of its
    /// top node. One object gives a node whose two children are that object;
    /// two give a node over both, in the order given; more are sorted by the
    /// lower end of their boxes on a randomly chosen axis, then split at the
    /// middle position and built on each half.
    pub fn bvh_new_node(
        nodes: &mut Vec<BvhNode>,
        order: &mut Vec<usize>,
        boxes: &Vec<AABB>,
        start: usize,
        end: usize,
        rng: &mut StdRng,
    ) -> (r: usize)
        requires
            start < end <= old(order).len(),
            all_below(old(order)@, boxes@.len() as int),
            nodes_wf(old(nodes)@, boxes@),
        ensures
            nodes_wf(final(nodes)@, boxes@),
            old(nodes)@.len() <= r < final(nodes)@.len(),
            final(nodes)@.subrange(0, old(nodes)@.len() as int) == old(nodes)@,
            final(order).len() == old(order).len(),
            all_below(final(order)@, boxes@.len() as int),
            forall|k: int|
                0 <= k < old(order).len() && !(start <= k < end) ==> #[trigger] final(order)@[k]
                    == old(order)@[k],
            range_set(final(order)@, start as int, end as int) == range_set(
                old(order)@,
                start as int,
                end as int,
            ),
            node_leaves(final(nodes)@, r as int) == range_set(
                old(order)@,
                start as int,
                end as int,
            ),
            end - start == 1 ==> final(nodes)@[r as int].left == BvhChild::Object(
                old(order)@[start as int],
            ) && final(nodes)@[r as int].right == BvhChild::Object(old(order)@[start as int]),
            end - start == 2 ==> final(nodes)@[r as int].left == BvhChild::Object(
                old(order)@[start as int],
            ) && final(nodes)@[r as int].right == BvhChild::Object(old(order)@[start + 1]),
            end - start > 2 ==> split_by_axis(
                boxes@,
                final(nodes)@,
                r as int,
                range_set(final(order)@, start as int, start + (end - start) / 2),
            ),
        decreases end - start,
    {
        let ghost nodes0 = nodes@;
        let ghost order0 = order@;
        let axis = random_below(rng, 3);
        let span = end - start;
        let left;
        let right;
        if span == 1 {
            left = BvhChild::Object(order[start]);
            right = BvhChild::Object(order[start]);
            proof {
                assert(range_set(order0, start as int, end as int) =~= Set::empty().insert(
                    order0[start as int],
                ));
            }
        } else if span == 2 {
            left = BvhChild::Object(order[start]);
            right = BvhChild::Object(order[start + 1]);
            proof {
                assert(range_set(order0, start as int, end as int) =~= Set::empty().insert(
                    order0[start as int],
                ).insert(order0[start + 1]));
            }
        } else {
            sort_range(order, boxes, start, end, axis);
            let ghost order1 = order@;
            let mid = start + span / 2;
            let l = BvhNode::bvh_new_node(nodes, order, boxes, start, mid, rng);
            let ghost nodes1 = nodes@;
            let ghost order2 = order@;
            let r = BvhNode::bvh_new_node(nodes, order, boxes, mid, end, rng);
            let ghost order3 = order@;
            let ghost lset = range_set(order1, start as int, mid as int);
            let ghost rset = range_set(order1, mid as int, end as int);
            proof {
                assert forall|x: usize, y: usize|
                    lset.contains(x) && rset.contains(y) implies axis_key(boxes@, axis as int, x)
                    <= axis_key(boxes@, axis as int, y) by {
                    let a = choose|a: int| start <= a < mid && order1[a] == x;
                    let b = choose|b: int| mid <= b < end && order1[b] == y;
                    assert(axis_key(boxes@, axis as int, order1[a]) <= axis_key(
                        boxes@,
                        axis as int,
                        order1[b],
                    ));
                }
                lemma_prefix_stable(nodes1, nodes@, boxes@, l as int);
                assert(range_set(order2, start as int, mid as int) =~= range_set(
                    order1,
                    start as int,
                    mid as int,
                ));
                lemma_range_same(order3, order2, start as int, mid as int);
                lemma_range_same(order2, order1, mid as int, end as int);
                lemma_range_split(order1, start as int, mid as int, end as int);
                lemma_range_split(order3, start as int, mid as int, end as int);
            }
            left = BvhChild::Node(l);
            right = BvhChild::Node(r);
            proof {
                assert(node_leaves(nodes@, l as int) == lset);
                assert(node_leaves(nodes@, r as int) == rset);
                assert(range_set(order3, start as int, mid as int) == lset);
                assert(sorted_split(boxes@, axis as int, lset, rset));
            }
        }
        let ghost before_push = nodes@;
        let bbox = AABB::from_aabb(
            child_bbox(nodes, boxes, left),
            child_bbox(nodes, boxes, right),
        );
        nodes.push(BvhNode { left, right, bbox });
        let idx = nodes.len() - 1;
        proof {
            assert(nodes@.subrange(0, before_push.len() as int) =~= before_push);
            assert forall|k: int| 0 <= k < nodes@.len() implies #[trigger] node_wf(
                nodes@,
                boxes@,
                k,
            ) by {
                if k < before_push.len() {
                    lemma_prefix_stable(before_push, nodes@, boxes@, k);
                }
            }
            match left {
                BvhChild::Node(m) => {
                    lemma_prefix_stable(before_push, nodes@, boxes@, m as int);
                },
                _ => {},
            }
            match right {
                BvhChild::Node(m) => {
                    lemma_prefix_stable(before_push, nodes@, boxes@, m as int);
                },
                _ => {},
            }
            assert(nodes@.subrange(0, nodes0.len() as int) =~= nodes0);
            if span > 2 {
                match left {
                    BvhChild::Node(m) => {
                        match right {
                            BvhChild::Node(m2) => {
                                assert(node_leaves(nodes@, m as int) == node_leaves(before_push, m as int));
                                assert(node_leaves(nodes@, m2 as int) == node_leaves(before_push, m2 as int));
                                assert(sorted_split(boxes@, axis as int, node_leaves(nodes@, m as int), node_leaves(nodes@, m2 as int)));
                            },
                            _ => {},
                        }
                    },
                    _ => {},
                }
            }
            assert(node_leaves(nodes@, idx as int) =~= range_set(order0, start as int, end as int));
        }
        idx
    }

    /// Builds the hierarchy over all objects of a scene, given the box of each.
    pub fn from_world(boxes: &Vec<AABB>, rng: &mut StdRng) -> (r: Bvh)
        requires
            boxes.len() > 0,
        ensures
            r.wf(boxes@),
            r.leaves() == Set::new(|o: usize| o < boxes.len()),
            boxes.len() == 1 ==> r.nodes@[r.root as int].left == BvhChild::Object(0) && r.nodes@[r.root as int].right == BvhChild::Object(0),
            boxes.len() == 2 ==> r.nodes@[r.root as int].left == BvhChild::Object(0) && r.nodes@[r.root as int].right == BvhChild::Object(1),
            boxes.len() > 2 ==> exists|left_objects: Set<usize>| split_by_axis(boxes@, r.nodes@, r.root as int, left_objects),
    {
        let mut order: Vec<usize> = Vec::new();
        let mut i: usize = 0;
        while i < boxes.len()
            invariant
                i <= boxes.len(),
                order@.len() == i,
                forall|k: int| 0 <= k < i ==> #[trigger] order@[k] == k,
            decreases boxes.len() - i,
        {
            order.push(i);
            i = i + 1;
        }
        let mut nodes: Vec<BvhNode> = Vec::new();
        let ghost order0 = order@;
        let root = BvhNode::bvh_new_node(&mut nodes, &mut order, boxes, 0, boxes.len(), rng);
        proof {
            assert forall|o: usize| range_set(order0, 0, boxes.len() as int).contains(o) <==> o
                < boxes.len() by {
                if o < boxes.len() {
                    assert(order0[o as int] == o);
                }
            }
            assert(range_set(order0, 0, boxes.len() as int) =~= Set::new(
                |o: usize| o < boxes.len(),
            ));
            assert forall|k: int| 0 <= k < nodes@.len() implies child_ok(
                #[trigger] nodes@[k].left,
                k,
                usize::MAX as int,
            ) && child_ok(nodes@[k].right, k, usize::MAX as int) by {
                assert(node_wf(nodes@, boxes@, k));
            }
        }
        Bvh { nodes, root }
    }
}

/// Two sequences that agree on `lo..hi` name the same objects there.
proof fn lemma_range_same(s: Seq<usize>, t: Seq<usize>, lo: int, hi: int)
    requires
        0 <= lo <= hi <= s.len(),
        hi <= t.len(),
        forall|k: int| lo <= k < hi ==> s[k] == t[k],
    ensures
        range_set(s, lo, hi) == range_set(t, lo, hi),
{
    assert forall|v: usize| range_set(s, lo, hi).contains(v) implies range_set(t, lo, hi).contains(v) by {
        let k = choose|k: int| lo <= k < hi && s[k] == v;
        assert(t[k] == v);
    }
    assert forall|v: usize| range_set(t, lo, hi).contains(v) implies range_set(s, lo, hi).contains(v) by {
        let k = choose|k: int| lo <= k < hi && t[k] == v;
        assert(s[k] == v);
    }
    assert(range_set(s, lo, hi) =~= range_set(t, lo, hi));
}

/// The objects a range names are those of its two halves.
proof fn lemma_range_split(s: Seq<usize>, lo: int, mid: int, hi: int)
    requires
        0 <= lo <= mid <= hi <= s.len(),
    ensures
        range_set(s, lo, hi) == range_set(s, lo, mid).union(range_set(s, mid, hi)),
{
    assert(range_set(s, lo, hi) =~= range_set(s, lo, mid).union(range_set(s, mid, hi)));
}

/// Every node refers only to nodes before it.
pub open spec fn links_ok(nodes: Seq<BvhNode>) -> bool {
    forall|k: int|
        0 <= k < nodes.len() ==> child_ok(#[trigger] nodes[k].left, k, usize::MAX as int)
            && child_ok(nodes[k].right, k, usize::MAX as int)
}

/// A hit on object `o`, paired with the object.
pub open spec fn object_pair<F: Fn(usize, Interval) -> Option<i64>>(
    f: F,
    o: usize,
    iv: Interval,
) -> Option<(i64, usize)> {
    match object_hit(f, o, iv) {
        Some(t) => Some((t, o)),
        None => None,
    }
}

/// The upper bound left for the right child once the left one reported `l`.
pub open spec fn tightened(iv: Interval, l: Option<(i64, usize)>) -> Interval {
    Interval {
        min: iv.min,
        max: match l {
            Some((t, _)) => t,
            None => iv.max,
        },
    }
}

/// The closest hit below child `c` of node `j` inside `iv`.
pub open spec fn child_hit_spec<F: Fn(usize, Interval) -> Option<i64>, G: Fn(AABB) -> [(
    i64,
    i64,
); 3]>(nodes: Seq<BvhNode>, c: BvhChild, j: int, iv: Interval, f: F, g: G) -> Option<(i64, usize)>
    decreases j, 0int,
{
    match c {
        BvhChild::Object(o) => object_pair(f, o, iv),
        BvhChild::Node(m) => if 0 <= m < j {
            node_hit_spec(nodes, m as int, iv, f, g)
        } else {
            None
        },
    }
}

/// The closest hit below node `j` inside `iv`: nothing where the ray misses the
/// node's box; otherwise the left child is asked inside the box's part of
/// `iv`, the right child inside that part cut at the left child's hit, and
/// the right child's hit, being closer, wins.
pub open spec fn node_hit_spec<F: Fn(usize, Interval) -> Option<i64>, G: Fn(AABB) -> [(
    i64,
    i64,
); 3]>(nodes: Seq<BvhNode>, j: int, iv: Interval, f: F, g: G) -> Option<(i64, usize)>
    decreases j, 1int,
{
    if 0 <= j < nodes.len() {
        let inner = clip_axes(iv, box_spans(g, nodes[j].bbox), 3);
        if !is_open(inner) {
            None
        } else {
            let l = child_hit_spec(nodes, nodes[j].left, j, inner, f, g);
            let r = child_hit_spec(nodes, nodes[j].right, j, tightened(inner, l), f, g);
            if r is Some {
                r
            } else {
                l
            }
        }
    } else {
        None
    }
}

impl Bvh {
    fn child_hit<F: Fn(usize, Interval) -> Option<i64>, G: Fn(AABB) -> [(i64, i64); 3]>(
        &self,
        c: BvhChild,
        below: usize,
        ray_t: Interval,
        hit_object: &F,
        slabs: &G,
    ) -> (r: Option<(i64, usize)>)
        requires
            links_ok(self.nodes@),
            below <= self.nodes@.len(),
            child_ok(c, below as int, usize::MAX as int),
            object_query_ok(*hit_object),
            box_query_ok(*slabs),
        ensures
            r == child_hit_spec(self.nodes@, c, below as int, ray_t, *hit_object, *slabs),
        decreases below, 2int,
    {
        match c {
            BvhChild::Object(o) => match query_object(hit_object, o, ray_t) {
                Some(t) => Some((t, o)),
                None => None,
            },
            BvhChild::Node(m) => self.node_hit(m, ray_t, hit_object, slabs),
        }
    }

    fn node_hit<F: Fn(usize, Interval) -> Option<i64>, G: Fn(AABB) -> [(i64, i64); 3]>(
        &self,
        j: usize,
        ray_t: Interval,
        hit_object: &F,
        slabs: &G,
    ) -> (r: Option<(i64, usize)>)
        requires
            links_ok(self.nodes@),
            j < self.nodes@.len(),
            object_query_ok(*hit_object),
            box_query_ok(*slabs),
        ensures
            r == node_hit_spec(self.nodes@, j as int, ray_t, *hit_object, *slabs),
        decreases j + 1, 1int,
    {
        let n = self.nodes[j];
        let ghost spans = box_spans(*slabs, n.bbox);
        let mut inner = ray_t;
        let open = n.bbox.hit(slabs, &mut inner);
        if !open {
            return None;
        }
        proof {
            if slab_stop(ray_t, spans) < 3 {
                assert(!is_open(clip_axes(ray_t, spans, slab_stop(ray_t, spans))));
                lemma_clip_stays_closed(ray_t, spans, slab_stop(ray_t, spans));
            }
        }
        let l = self.child_hit(n.left, j, inner, hit_object, slabs);
        let right_iv = Interval::new(
            inner.min,
            match l {
                Some((t, _)) => t,
                None => inner.max,
            },
        );
        let r = self.child_hit(n.right, j, right_iv, hit_object, slabs);
        if r.is_some() {
            r
        } else {
            l
        }
    }

    /// The closest hit below the root strictly inside `ray_t`, as a parameter
    /// and an object index. `hit_object(o, iv)` reports where the ray meets
    /// object `o` inside `iv`, and `slabs(b)` where it crosses the bounding
    /// planes of box `b` on each axis. A subtree whose box the ray misses is
    /// never asked; the right child is asked only for hits closer than the
    /// left child's.
    pub fn hit<F: Fn(usize, Interval) -> Option<i64>, G: Fn(AABB) -> [(i64, i64); 3]>(
        &self,
        ray_t: Interval,
        hit_object: &F,
        slabs: &G,
    ) -> (r: Option<(i64, usize)>)
        requires
            links_ok(self.nodes@),
            self.root < self.nodes@.len(),
            object_query_ok(*hit_object),
            box_query_ok(*slabs),
        ensures
            r == node_hit_spec(self.nodes@, self.root as int, ray_t, *hit_object, *slabs),
    {
        self.node_hit(self.root, ray_t, hit_object, slabs)
    }
}

} // verus!
