use pathtracer::aabb::AABB;
use pathtracer::bvh::{
    build, closer, get_leaves, merge_hits, recursive_build, sort_leaves, BVHTree, BuildError,
    OwnedBVH, BVH,
};
use pathtracer::hittable::{HitRecord, Hittable};
use pathtracer::ray::Ray;
use pathtracer::scalar::{bits_of_rank, rank_of_bits, INFINITY};
use pathtracer::vec3::Vec3;

fn rank(x: f64) -> i64 {
    rank_of_bits(x.to_bits()).unwrap()
}

fn number(rank: i64) -> f64 {
    f64::from_bits(bits_of_rank(rank))
}

struct Line {
    origin: [f64; 3],
    direction: [f64; 3],
}

impl Ray for Line {
    fn crossing(&self, plane: i64, axis: usize) -> Option<i64> {
        let t = (number(plane) - self.origin[axis]) / self.direction[axis];
        rank_of_bits(t.to_bits())
    }
}

struct Ball {
    center: [f64; 3],
    radius: f64,
    id: usize,
    bounded: bool,
}

fn ball(center: [f64; 3], radius: f64, id: usize) -> Ball {
    Ball { center, radius, id, bounded: true }
}

impl Hittable for Ball {
    type Ray = Line;
    type Detail = usize;

    fn hit(&self, ray: &Line, t_min: i64, t_max: i64) -> Option<HitRecord<usize>> {
        let low = number(t_min);
        let high = number(t_max);
        let mut a = 0.0;
        let mut half_b = 0.0;
        let mut c = -self.radius * self.radius;
        for axis in 0..3 {
            let oc = ray.origin[axis] - self.center[axis];
            a += ray.direction[axis] * ray.direction[axis];
            half_b += oc * ray.direction[axis];
            c += oc * oc;
        }
        let discriminant = half_b * half_b - a * c;
        if discriminant < 0.0 {
            return None;
        }
        let root = discriminant.sqrt();
        let mut t = (-half_b - root) / a;
        if t < low || t > high {
            t = (-half_b + root) / a;
            if t < low || t > high {
                return None;
            }
        }
        Some(HitRecord::new(rank(t), self.id, true))
    }

    fn bounding_box(&self, _time0: i64, _time1: i64) -> Option<AABB> {
        if !self.bounded {
            return None;
        }
        let r = self.radius;
        Some(AABB::new(
            Vec3::new(rank(self.center[0] - r), rank(self.center[1] - r), rank(self.center[2] - r)),
            Vec3::new(rank(self.center[0] + r), rank(self.center[1] + r), rank(self.center[2] + r)),
        ))
    }
}

struct Dice {
    state: u64,
}

impl Dice {
    fn next(&mut self) -> f64 {
        self.state = self.state.wrapping_mul(6364136223846793005).wrapping_add(1442695040888963407);
        ((self.state >> 11) as f64) / ((1u64 << 53) as f64)
    }

    fn between(&mut self, low: f64, high: f64) -> f64 {
        low + (high - low) * self.next()
    }
}

fn cloud(dice: &mut Dice, count: usize) -> Vec<Ball> {
    let mut balls = Vec::new();
    for id in 0..count {
        let center = [dice.between(-10.0, 10.0), dice.between(-10.0, 10.0), dice.between(-10.0, 10.0)];
        let radius = dice.between(0.2, 1.5);
        balls.push(ball(center, radius, id));
    }
    balls
}

fn depth(tree: &BVHTree) -> usize {
    match tree {
        BVHTree::Leaf(..) => 0,
        BVHTree::Branch { left, right, .. } => 1 + depth(left).max(depth(right)),
    }
}

fn leaves(tree: &BVHTree, out: &mut Vec<(AABB, usize)>) {
    match tree {
        BVHTree::Leaf(bounds, index) => out.push((*bounds, *index)),
        BVHTree::Branch { left, right, .. } => {
            leaves(left, out);
            leaves(right, out);
        }
    }
}

fn boxes_nest(tree: &BVHTree) -> bool {
    match tree {
        BVHTree::Leaf(..) => true,
        BVHTree::Branch { bounds, left, right } => {
            let around = left.bounds().surround_with(right.bounds());
            around.minimum == bounds.minimum
                && around.maximum == bounds.maximum
                && boxes_nest(left)
                && boxes_nest(right)
        }
    }
}

fn ceil_log2(n: usize) -> usize {
    let mut k = 0;
    while (1usize << k) < n {
        k += 1;
    }
    k
}

fn unit_leaf(index: usize, low: f64) -> (AABB, usize) {
    (AABB::new(Vec3::only(rank(low)), Vec3::only(rank(low + 1.0))), index)
}

fn nearest_of_all(balls: &[Ball], line: &Line, t_min: i64, t_max: i64) -> Option<HitRecord<usize>> {
    let mut best: Option<HitRecord<usize>> = None;
    for b in balls {
        best = closer(best, b.hit(line, t_min, t_max));
    }
    best
}

#[test]
fn tree_depth_is_the_rounded_up_logarithm() {
    for n in 1..=70usize {
        let list: Vec<(AABB, usize)> = (0..n).map(|i| unit_leaf(i, i as f64)).collect();
        let tree = recursive_build(&list);
        assert_eq!(depth(&tree), ceil_log2(n), "n = {}", n);
    }
}

#[test]
fn tree_over_one_leaf_is_that_leaf() {
    let list = vec![unit_leaf(7, 3.0)];
    let tree = recursive_build(&list);
    match *tree {
        BVHTree::Leaf(bounds, index) => {
            assert_eq!(index, 7);
            assert_eq!(bounds.minimum, Vec3::only(rank(3.0)));
        }
        BVHTree::Branch { .. } => panic!("a branch over a single leaf"),
    }
}

#[test]
fn tree_keeps_the_leaves_in_order_and_splits_in_halves() {
    let list: Vec<(AABB, usize)> = (0..5).map(|i| unit_leaf(10 + i, i as f64)).collect();
    let tree = recursive_build(&list);
    let mut found = Vec::new();
    leaves(&tree, &mut found);
    let indices: Vec<usize> = found.iter().map(|leaf| leaf.1).collect();
    assert_eq!(indices, vec![10, 11, 12, 13, 14]);
    match &*tree {
        BVHTree::Branch { left, right, bounds } => {
            let mut l = Vec::new();
            leaves(left, &mut l);
            let mut r = Vec::new();
            leaves(right, &mut r);
            assert_eq!(l.len(), 2);
            assert_eq!(r.len(), 3);
            assert_eq!(bounds.minimum, Vec3::only(rank(0.0)));
            assert_eq!(bounds.maximum, Vec3::only(rank(5.0)));
        }
        BVHTree::Leaf(..) => panic!("a leaf over five leaves"),
    }
    assert!(boxes_nest(&tree));
}

#[test]
fn sort_orders_the_leaves_on_the_axis() {
    let mut list = vec![
        (AABB::new(Vec3::new(rank(3.0), rank(0.0), rank(9.0)), Vec3::only(rank(10.0))), 0),
        (AABB::new(Vec3::new(rank(1.0), rank(2.0), rank(8.0)), Vec3::only(rank(10.0))), 1),
        (AABB::new(Vec3::new(rank(2.0), rank(1.0), rank(7.0)), Vec3::only(rank(10.0))), 2),
        (AABB::new(Vec3::new(rank(-1.0), rank(5.0), rank(6.0)), Vec3::only(rank(10.0))), 3),
    ];
    sort_leaves(&mut list, 0);
    assert_eq!(list.iter().map(|l| l.1).collect::<Vec<_>>(), vec![3, 1, 2, 0]);
    sort_leaves(&mut list, 1);
    assert_eq!(list.iter().map(|l| l.1).collect::<Vec<_>>(), vec![0, 2, 1, 3]);
    sort_leaves(&mut list, 2);
    assert_eq!(list.iter().map(|l| l.1).collect::<Vec<_>>(), vec![3, 2, 1, 0]);
}

#[test]
fn leaves_are_the_primitives_ordered_on_one_axis() {
    let mut dice = Dice { state: 11 };
    let balls = cloud(&mut dice, 37);
    let list = get_leaves(&balls, rank(0.0), rank(1.0)).unwrap();
    assert_eq!(list.len(), 37);
    let mut seen = vec![false; 37];
    for (bounds, index) in &list {
        assert!(!seen[*index]);
        seen[*index] = true;
        let own = balls[*index].bounding_box(rank(0.0), rank(1.0)).unwrap();
        assert_eq!(own.minimum, bounds.minimum);
        assert_eq!(own.maximum, bounds.maximum);
    }
    let ordered_on = |axis: usize| {
        list.windows(2).all(|pair| pair[0].0.minimum.index(axis) <= pair[1].0.minimum.index(axis))
    };
    assert!(ordered_on(0) || ordered_on(1) || ordered_on(2));
}

#[test]
fn the_axis_is_drawn_anew_for_each_build() {
    let mut dice = Dice { state: 5 };
    let balls = cloud(&mut dice, 25);
    let mut on = [false; 3];
    for _ in 0..200 {
        let list = get_leaves(&balls, rank(0.0), rank(1.0)).unwrap();
        for axis in 0..3 {
            let ordered = list
                .windows(2)
                .all(|pair| pair[0].0.minimum.index(axis) <= pair[1].0.minimum.index(axis));
            if ordered {
                on[axis] = true;
            }
        }
    }
    assert_eq!(on, [true, true, true]);
}

#[test]
fn build_rejects_an_empty_list() {
    let none: Vec<Ball> = Vec::new();
    assert_eq!(build(&none, rank(0.0), rank(1.0)).err(), Some(BuildError::Empty));
    assert!(matches!(BVH::new(&none, rank(0.0), rank(1.0)), Err(BuildError::Empty)));
    assert!(matches!(OwnedBVH::new(none, rank(0.0), rank(1.0)), Err(BuildError::Empty)));
}

#[test]
fn build_rejects_a_primitive_without_a_box() {
    let mut balls = vec![ball([0.0; 3], 1.0, 0), ball([3.0; 3], 1.0, 1), ball([6.0; 3], 1.0, 2)];
    balls[1].bounded = false;
    balls[2].bounded = false;
    assert_eq!(build(&balls, rank(0.0), rank(1.0)).err(), Some(BuildError::Unbounded(1)));
    assert!(matches!(BVH::new(&balls, rank(0.0), rank(1.0)), Err(BuildError::Unbounded(1))));
    assert!(matches!(OwnedBVH::new(balls, rank(0.0), rank(1.0)), Err(BuildError::Unbounded(1))));
}

#[test]
fn hierarchy_finds_the_nearest_hit_of_the_whole_list() {
    let mut dice = Dice { state: 2024 };
    for count in [1usize, 2, 3, 8, 33, 200] {
        let balls = cloud(&mut dice, count);
        let bvh = BVH::new(&balls, rank(0.0), rank(1.0)).unwrap();
        let mut hits = 0;
        for _ in 0..300 {
            let line = Line {
                origin: [dice.between(-15.0, 15.0), dice.between(-15.0, 15.0), -20.0],
                direction: [dice.between(-0.6, 0.6), dice.between(-0.6, 0.6), 1.0],
            };
            let expected = nearest_of_all(&balls, &line, rank(0.001), INFINITY);
            let got = bvh.hit(&line, rank(0.001), INFINITY);
            assert_eq!(got.is_some(), expected.is_some());
            if let (Some(g), Some(e)) = (got, expected) {
                assert_eq!(g.t, e.t);
                hits += 1;
            }
        }
        if count >= 200 {
            assert!(hits > 20);
        }
    }
}

#[test]
fn owned_hierarchy_finds_the_nearest_hit() {
    let balls = vec![ball([0.0, 0.0, 5.0], 1.0, 0), ball([0.0, 0.0, 2.0], 0.5, 1), ball([4.0, 0.0, 2.0], 0.5, 2)];
    let bvh = OwnedBVH::new(balls, rank(0.0), rank(1.0)).unwrap();
    let line = Line { origin: [0.0, 0.0, 0.0], direction: [0.0, 0.0, 1.0] };
    let hit = bvh.hit(&line, rank(0.001), INFINITY).unwrap();
    assert_eq!(hit.detail, 1);
    assert_eq!(number(hit.t), 1.5);
    let far = bvh.hit(&line, rank(3.0), INFINITY).unwrap();
    assert_eq!(far.detail, 0);
    assert_eq!(number(far.t), 4.0);
    let away = Line { origin: [0.0, 0.0, 0.0], direction: [0.0, 1.0, 0.0] };
    assert!(bvh.hit(&away, rank(0.001), INFINITY).is_none());
}

#[test]
fn hierarchy_is_bounded_by_the_box_around_all() {
    let balls = vec![ball([0.0, 0.0, 5.0], 1.0, 0), ball([0.0, 0.0, 2.0], 0.5, 1), ball([4.0, -3.0, 2.0], 0.5, 2)];
    let bvh = BVH::new(&balls, rank(0.0), rank(1.0)).unwrap();
    let bounds = bvh.bounding_box(rank(7.0), rank(9.0)).unwrap();
    assert_eq!(bounds.minimum, Vec3::new(rank(-1.0), rank(-3.5), rank(1.5)));
    assert_eq!(bounds.maximum, Vec3::new(rank(4.5), rank(1.0), rank(6.0)));
}

#[test]
fn search_skips_what_lies_in_boxes_that_are_missed() {
    let list: Vec<(AABB, usize)> = (0..6).map(|i| unit_leaf(i, 2.0 * i as f64)).collect();
    let tree = recursive_build(&list);
    let line = Line { origin: [1.5, 1.5, -3.0], direction: [0.0, 0.0, 1.0] };
    let mut candidates = vec![99];
    tree.get_intersect_candidates(&line, rank(0.001), INFINITY, &mut candidates);
    assert_eq!(candidates, vec![99]);
    let diagonal = Line { origin: [-1.0, -1.0, -1.0], direction: [1.0, 1.0, 1.0] };
    tree.get_intersect_candidates(&diagonal, rank(0.001), INFINITY, &mut candidates);
    assert_eq!(candidates, vec![99, 0, 1, 2, 3, 4, 5]);
    let mut late = Vec::new();
    tree.get_intersect_candidates(&diagonal, rank(7.5), INFINITY, &mut late);
    assert_eq!(late, vec![3, 4, 5]);
}

#[test]
fn merge_keeps_the_first_of_the_nearest() {
    let balls = vec![
        ball([0.0, 0.0, 5.0], 1.0, 0),
        ball([0.0, 0.0, 3.0], 1.0, 1),
        ball([0.0, 0.0, 3.0], 1.0, 2),
        ball([9.0, 9.0, 9.0], 1.0, 3),
    ];
    let line = Line { origin: [0.0, 0.0, 0.0], direction: [0.0, 0.0, 1.0] };
    let hit = merge_hits(&line, &balls, &[0, 2, 1, 3], rank(0.001), INFINITY).unwrap();
    assert_eq!(hit.detail, 2);
    assert_eq!(number(hit.t), 2.0);
    let other = merge_hits(&line, &balls, &[3, 1, 2, 0], rank(0.001), INFINITY).unwrap();
    assert_eq!(other.detail, 1);
    assert!(merge_hits(&line, &balls, &[3], rank(0.001), INFINITY).is_none());
    assert!(merge_hits(&line, &balls, &[], rank(0.001), INFINITY).is_none());
}

#[test]
fn closer_prefers_the_smaller_distance_and_the_first_on_a_tie() {
    let a = || Some(HitRecord::new(rank(2.0), 'a', true));
    let b = || Some(HitRecord::new(rank(1.0), 'b', true));
    let c = || Some(HitRecord::new(rank(2.0), 'c', false));
    assert_eq!(closer(a(), b()).unwrap().detail, 'b');
    assert_eq!(closer(b(), a()).unwrap().detail, 'b');
    assert_eq!(closer(a(), c()).unwrap().detail, 'a');
    assert_eq!(closer(c(), a()).unwrap().detail, 'c');
    assert_eq!(closer(None, a()).unwrap().detail, 'a');
    assert_eq!(closer(a(), None).unwrap().detail, 'a');
    assert!(closer::<char>(None, None).is_none());
}

#[test]
fn hierarchy_over_the_primitives_is_as_shallow_as_can_be() {
    let mut dice = Dice { state: 77 };
    for count in [1usize, 2, 3, 4, 5, 7, 8, 9, 31, 32, 33, 100] {
        let balls = cloud(&mut dice, count);
        let bvh = BVH::new(&balls, rank(0.0), rank(1.0)).unwrap();
        assert_eq!(depth(bvh.root()), ceil_log2(count));
        assert!(boxes_nest(bvh.root()));
        let mut found = Vec::new();
        leaves(bvh.root(), &mut found);
        let mut indices: Vec<usize> = found.iter().map(|leaf| leaf.1).collect();
        indices.sort();
        assert_eq!(indices, (0..count).collect::<Vec<_>>());
        let owned = OwnedBVH::new(balls, rank(0.0), rank(1.0)).unwrap();
        assert_eq!(depth(owned.root()), ceil_log2(count));
    }
}
