use riven::aabb::AABB;
use riven::interval::{Interval, clip_to_slabs};

fn iv(min: i64, max: i64) -> Interval {
    Interval::new(min, max)
}

#[test]
fn union_takes_min_of_mins_and_max_of_maxes() {
    let u = Interval::from_interval(iv(1, 5), iv(3, 9));
    assert_eq!(u, iv(1, 9));
    let u = Interval::from_interval(iv(3, 9), iv(1, 5));
    assert_eq!(u, iv(1, 9));
}

#[test]
fn union_is_commutative_and_absorbs_empty() {
    let a = iv(-4, 2);
    let b = iv(7, 8);
    assert_eq!(Interval::from_interval(a, b), Interval::from_interval(b, a));
    assert_eq!(Interval::from_interval(a, Interval::empty()), a);
    assert_eq!(Interval::from_interval(Interval::empty(), a), a);
    assert_eq!(Interval::default(), Interval::empty());
}

#[test]
fn contains_and_surrounds_differ_on_bounds() {
    let a = iv(0, 10);
    assert!(a.contains(0) && a.contains(10) && a.contains(5));
    assert!(!a.surrounds(0) && !a.surrounds(10) && a.surrounds(5));
    assert!(!a.contains(11) && !a.contains(-1));
    assert!(!Interval::empty().contains(0));
    assert!(Interval::universe().contains(i64::MIN));
}

#[test]
fn box_union_is_commutative_and_absorbs_empty() {
    let a = AABB::from_points([0, 5, -2], [3, 1, 4]);
    let b = AABB::from_points([-1, 0, 0], [1, 9, 1]);
    assert_eq!(AABB::from_aabb(a, b), AABB::from_aabb(b, a));
    assert_eq!(AABB::from_aabb(a, AABB::default()), a);
    assert_eq!(AABB::from_aabb(AABB::default(), a), a);
    let u = AABB::from_aabb(a, b);
    assert_eq!(u.x, iv(-1, 3));
    assert_eq!(u.y, iv(0, 9));
    assert_eq!(u.z, iv(-2, 4));
}

#[test]
fn from_points_orders_each_axis() {
    let a = AABB::from_points([3, 1, 4], [0, 5, -2]);
    assert_eq!(a.x, iv(0, 3));
    assert_eq!(a.y, iv(1, 5));
    assert_eq!(a.z, iv(-2, 4));
    assert_eq!(a.get_axis_interval(0), a.x);
    assert_eq!(a.get_axis_interval(1), a.y);
    assert_eq!(a.get_axis_interval(2), a.z);
    assert_eq!(a.get_axis_interval(7), a.x);
}

/// The slab test against an intersection of the three slabs computed on its own.
fn brute_force(ray_t: Interval, spans: &[(i64, i64); 3]) -> Option<Interval> {
    let mut lo = ray_t.min;
    let mut hi = ray_t.max;
    for (a, b) in spans.iter() {
        lo = lo.max(*a.min(b));
        hi = hi.min(*a.max(b));
    }
    if lo < hi { Some(iv(lo, hi)) } else { None }
}

#[test]
fn slab_test_hits_and_narrows() {
    let mut t = iv(0, 100);
    assert!(clip_to_slabs(&mut t, &[(10, 20), (25, 5), (i64::MIN, i64::MAX)]));
    assert_eq!(t, iv(10, 20));
}

#[test]
fn slab_test_misses_and_stops_early() {
    let mut t = iv(0, 100);
    assert!(!clip_to_slabs(&mut t, &[(10, 20), (30, 40), (0, 1)]));
    assert_eq!(t, iv(30, 20));
}

#[test]
fn slab_test_touching_slabs_is_a_miss() {
    let mut t = iv(0, 100);
    assert!(!clip_to_slabs(&mut t, &[(10, 20), (20, 30), (0, 100)]));
}

#[test]
fn slab_test_agrees_with_brute_force() {
    let mut seed: u64 = 0x2545_f491_4f6c_dd1d;
    let mut next = || {
        seed ^= seed << 13;
        seed ^= seed >> 7;
        seed ^= seed << 17;
        (seed % 201) as i64 - 100
    };
    for _ in 0..2000 {
        let ray_t = iv(next(), next());
        let spans = [(next(), next()), (next(), next()), (next(), next())];
        let mut t = ray_t;
        let hit = clip_to_slabs(&mut t, &spans);
        match brute_force(ray_t, &spans) {
            Some(expected) => {
                assert!(hit);
                assert_eq!(t, expected);
            }
            None => assert!(!hit),
        }
    }
}

/// Where a ray along the x axis, with parameter equal to x, crosses a box's planes.
fn along_x(b: AABB) -> [(i64, i64); 3] {
    let across = |i: Interval| {
        if i.min < 0 && 0 < i.max { (i64::MIN, i64::MAX) } else { (i64::MAX, i64::MAX) }
    };
    [(b.x.min, b.x.max), across(b.y), across(b.z)]
}

#[test]
fn box_hit_clips_to_the_box() {
    let b = AABB::from_points([10, -1, -1], [20, 1, 1]);
    let mut t = iv(0, 100);
    assert!(b.hit(&along_x, &mut t));
    assert_eq!(t, iv(10, 20));
    let mut t = iv(12, 15);
    assert!(b.hit(&along_x, &mut t));
    assert_eq!(t, iv(12, 15));
    let mut t = iv(0, 5);
    assert!(!b.hit(&along_x, &mut t));
    let off = AABB::from_points([10, 2, -1], [20, 3, 1]);
    let mut t = iv(0, 100);
    assert!(!off.hit(&along_x, &mut t));
}
