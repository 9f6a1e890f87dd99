use rand::rngs::StdRng;
use rand::{Rng, SeedableRng};
use riven::aabb::AABB;
use riven::bvh::{Bvh, BvhChild, BvhNode};
use riven::hit_list::HitList;
use riven::interval::Interval;

/// Objects on the x axis: object `o` is met by a ray running along the axis
/// at `x = segs[o].0` and `x = segs[o].1`; its box is padded by one on each side.
fn scene(rng: &mut StdRng, n: usize) -> (Vec<(i64, i64)>, Vec<AABB>) {
    let mut segs = Vec::new();
    let mut boxes = Vec::new();
    for _ in 0..n {
        let a: i64 = rng.random_range(-1000..1000);
        let len: i64 = rng.random_range(1..50);
        segs.push((a, a + len));
        boxes.push(AABB::from_points([a - 1, -3, -3], [a + len + 1, 3, 3]));
    }
    (segs, boxes)
}

fn nearest(segs: &[(i64, i64)], o: usize, iv: Interval) -> Option<i64> {
    let (a, b) = segs[o];
    if iv.surrounds(a) {
        Some(a)
    } else if iv.surrounds(b) {
        Some(b)
    } else {
        None
    }
}

/// Where a ray along the x axis, with parameter equal to x, crosses a box's planes.
fn spans(b: AABB) -> [(i64, i64); 3] {
    let across = |i: Interval| {
        if i.min < 0 && 0 < i.max { (i64::MIN, i64::MAX) } else { (i64::MAX, i64::MAX) }
    };
    [(b.x.min, b.x.max), across(b.y), across(b.z)]
}

fn child_box(bvh: &Bvh, boxes: &[AABB], c: BvhChild) -> AABB {
    match c {
        BvhChild::Object(o) => boxes[o],
        BvhChild::Node(j) => bvh.nodes[j].bbox,
    }
}

fn collect_leaves(bvh: &Bvh, c: BvhChild, out: &mut Vec<usize>) {
    match c {
        BvhChild::Object(o) => out.push(o),
        BvhChild::Node(j) => {
            let n: BvhNode = bvh.nodes[j];
            collect_leaves(bvh, n.left, out);
            collect_leaves(bvh, n.right, out);
        }
    }
}

#[test]
fn build_covers_every_object_and_unions_boxes() {
    let mut rng = StdRng::seed_from_u64(11);
    let (_, boxes) = scene(&mut rng, 37);
    let bvh = BvhNode::from_world(&boxes, &mut rng);
    assert_eq!(bvh.root, bvh.nodes.len() - 1);
    for (k, n) in bvh.nodes.iter().enumerate() {
        if let BvhChild::Node(m) = n.left {
            assert!(m < k);
        }
        if let BvhChild::Node(m) = n.right {
            assert!(m < k);
        }
        let u = AABB::from_aabb(child_box(&bvh, &boxes, n.left), child_box(&bvh, &boxes, n.right));
        assert_eq!(n.bbox, u);
    }
    let mut leaves = Vec::new();
    collect_leaves(&bvh, BvhChild::Node(bvh.root), &mut leaves);
    leaves.sort();
    leaves.dedup();
    assert_eq!(leaves, (0..37).collect::<Vec<usize>>());
}

#[test]
fn single_object_duplicates_the_leaf() {
    let mut rng = StdRng::seed_from_u64(1);
    let boxes = vec![AABB::from_points([0, 0, 0], [1, 1, 1])];
    let bvh = BvhNode::from_world(&boxes, &mut rng);
    assert_eq!(bvh.nodes.len(), 1);
    assert_eq!(bvh.nodes[0].left, BvhChild::Object(0));
    assert_eq!(bvh.nodes[0].right, BvhChild::Object(0));
    assert_eq!(bvh.nodes[0].bbox, boxes[0]);
}

#[test]
fn two_objects_keep_their_order() {
    let mut rng = StdRng::seed_from_u64(2);
    let boxes = vec![
        AABB::from_points([5, 0, 0], [6, 1, 1]),
        AABB::from_points([0, 0, 0], [1, 1, 1]),
    ];
    let bvh = BvhNode::from_world(&boxes, &mut rng);
    assert_eq!(bvh.nodes.len(), 1);
    assert_eq!(bvh.nodes[0].left, BvhChild::Object(0));
    assert_eq!(bvh.nodes[0].right, BvhChild::Object(1));
    assert_eq!(bvh.nodes[0].bbox, AABB::from_points([0, 0, 0], [6, 1, 1]));
}

#[test]
fn same_seed_builds_the_same_tree() {
    let mut rng = StdRng::seed_from_u64(5);
    let (_, boxes) = scene(&mut rng, 60);
    let a = BvhNode::from_world(&boxes, &mut StdRng::seed_from_u64(42));
    let b = BvhNode::from_world(&boxes, &mut StdRng::seed_from_u64(42));
    assert_eq!(a.nodes, b.nodes);
    assert_eq!(a.root, b.root);
}

#[test]
fn list_hit_keeps_the_closest_and_the_first_on_ties() {
    let segs = vec![(30, 40), (10, 20), (10, 25), (-5, 5)];
    let hit = |o: usize, iv: Interval| nearest(&segs, o, iv);
    let mut list = HitList::new();
    for o in 0..segs.len() {
        list.add(o, AABB::from_points([segs[o].0, -1, -1], [segs[o].1, 1, 1]));
    }
    assert_eq!(list.bounding_box().x, Interval::new(-5, 40));
    assert_eq!(list.hit(Interval::new(0, 100), &hit), Some((5, 3)));
    assert_eq!(list.hit(Interval::new(6, 100), &hit), Some((10, 1)));
    assert_eq!(list.hit(Interval::new(21, 100), &hit), Some((25, 2)));
    assert_eq!(list.hit(Interval::new(41, 100), &hit), None);
    assert_eq!(HitList::new().hit(Interval::new(0, 100), &hit), None);
}

#[test]
fn bvh_hit_never_asks_below_a_missed_box() {
    let mut rng = StdRng::seed_from_u64(3);
    let boxes = vec![
        AABB::from_points([0, 5, 5], [10, 6, 6]),
        AABB::from_points([20, 5, 5], [30, 6, 6]),
        AABB::from_points([40, 5, 5], [50, 6, 6]),
    ];
    let bvh = BvhNode::from_world(&boxes, &mut rng);
    let asked = std::cell::RefCell::new(Vec::new());
    let hit = |o: usize, _iv: Interval| {
        asked.borrow_mut().push(o);
        Some(1)
    };
    assert_eq!(bvh.hit(Interval::new(0, 100), &hit, &spans), None);
    assert!(asked.borrow().is_empty());
}

#[test]
fn bvh_hit_finds_the_one_object_on_the_ray() {
    let mut rng = StdRng::seed_from_u64(4);
    let boxes = vec![
        AABB::from_points([0, 5, 5], [10, 6, 6]),
        AABB::from_points([20, -1, -1], [30, 1, 1]),
        AABB::from_points([40, 5, 5], [50, 6, 6]),
    ];
    let bvh = BvhNode::from_world(&boxes, &mut rng);
    let hit = |o: usize, iv: Interval| if o == 1 && iv.surrounds(21) { Some(21) } else { None };
    assert_eq!(bvh.hit(Interval::new(0, 100), &hit, &spans), Some((21, 1)));
    assert_eq!(bvh.hit(Interval::new(22, 100), &hit, &spans), None);
}

#[test]
fn bvh_hit_matches_list_hit_on_random_rays() {
    let mut rng = StdRng::seed_from_u64(2024);
    let (segs, boxes) = scene(&mut rng, 64);
    let bvh = BvhNode::from_world(&boxes, &mut rng);
    let mut list = HitList::new();
    for (o, b) in boxes.iter().enumerate() {
        list.add(o, *b);
    }
    let hit = |o: usize, iv: Interval| nearest(&segs, o, iv);
    for _ in 0..1000 {
        let lo: i64 = rng.random_range(-1200..1200);
        let hi: i64 = rng.random_range(lo..1300);
        let ray_t = Interval::new(lo, hi);
        let from_tree = bvh.hit(ray_t, &hit, &spans);
        let from_list = list.hit(ray_t, &hit);
        assert_eq!(from_tree.map(|h| h.0), from_list.map(|h| h.0));
        if let Some((t, o)) = from_tree {
            assert_eq!(nearest(&segs, o, ray_t), Some(t));
        }
    }
}
