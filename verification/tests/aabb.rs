use pathtracer::aabb::AABB;
use pathtracer::ray::{Ray, StillRay};
use pathtracer::scalar::{bits_of_rank, rank_of_bits, INFINITY, NEG_INFINITY};
use pathtracer::vec3::Vec3;

fn rank(x: f64) -> i64 {
    rank_of_bits(x.to_bits()).unwrap()
}

fn number(rank: i64) -> f64 {
    f64::from_bits(bits_of_rank(rank))
}

struct Line {
    origin: [f64; 3],
    direction: [f64; 3],
}

impl Ray for Line {
    fn crossing(&self, plane: i64, axis: usize) -> Option<i64> {
        let t = (number(plane) - self.origin[axis]) / self.direction[axis];
        rank_of_bits(t.to_bits())
    }
}

fn cube(min: [f64; 3], max: [f64; 3]) -> AABB {
    AABB::new(
        Vec3::new(rank(min[0]), rank(min[1]), rank(min[2])),
        Vec3::new(rank(max[0]), rank(max[1]), rank(max[2])),
    )
}

fn reference_hit(min: [f64; 3], max: [f64; 3], line: &Line, t_min: f64, t_max: f64) -> bool {
    let mut low = t_min;
    let mut high = t_max;
    for axis in 0..3 {
        let c0 = (min[axis] - line.origin[axis]) / line.direction[axis];
        let c1 = (max[axis] - line.origin[axis]) / line.direction[axis];
        low = low.max(c0.min(c1));
        high = high.min(c0.max(c1));
    }
    low < high
}

#[test]
fn hit_agrees_with_interval_reference() {
    let boxes = [
        ([0.0, 0.0, 0.0], [1.0, 1.0, 1.0]),
        ([-2.0, 1.0, 3.0], [-1.0, 4.0, 3.5]),
        ([0.0, 0.0, 5.0], [10.0, 10.0, 5.0002]),
    ];
    let origins = [[0.5, 0.5, -1.0], [0.5, 0.5, 0.5], [-3.0, 2.0, 3.25], [5.0, 5.0, 0.0], [2.0, 2.0, 2.0]];
    let directions = [
        [0.0, 0.0, 1.0],
        [1.0, 0.0, 0.0],
        [1.0, 1.0, 1.0],
        [-1.0, -0.5, -0.25],
        [0.0, 1.0, 0.0],
        [0.3, -0.2, 0.9],
        [0.0, 0.0, -1.0],
    ];
    let mut hits = 0;
    for (min, max) in boxes {
        for origin in origins {
            for direction in directions {
                let line = Line { origin, direction };
                let expected = reference_hit(min, max, &line, 0.001, f64::INFINITY);
                let got = cube(min, max).hit(&line, rank(0.001), INFINITY);
                assert_eq!(got, expected, "{:?} {:?} {:?} {:?}", min, max, origin, direction);
                if got {
                    hits += 1;
                }
            }
        }
    }
    assert!(hits > 10);
}

#[test]
fn ray_parallel_to_a_face_hits_only_between_the_faces() {
    let unit = cube([0.0, 0.0, 0.0], [1.0, 1.0, 1.0]);
    let inside = Line { origin: [0.5, 0.5, -1.0], direction: [0.0, 0.0, 1.0] };
    let beside = Line { origin: [1.5, 0.5, -1.0], direction: [0.0, 0.0, 1.0] };
    let on_face = Line { origin: [1.0, 0.5, -1.0], direction: [0.0, 0.0, 1.0] };
    assert!(unit.hit(&inside, rank(0.001), INFINITY));
    assert!(!unit.hit(&beside, rank(0.001), INFINITY));
    assert!(!unit.hit(&on_face, rank(0.001), INFINITY));
}

#[test]
fn ray_starting_inside_the_box_hits() {
    let unit = cube([0.0, 0.0, 0.0], [1.0, 1.0, 1.0]);
    let line = Line { origin: [0.5, 0.5, 0.5], direction: [0.3, -0.4, 0.8] };
    assert!(unit.hit(&line, rank(0.001), INFINITY));
    assert!(!unit.hit(&line, rank(5.0), INFINITY));
}

#[test]
fn ray_pointing_away_misses() {
    let unit = cube([0.0, 0.0, 0.0], [1.0, 1.0, 1.0]);
    let line = Line { origin: [0.5, 0.5, -1.0], direction: [0.0, 0.0, -1.0] };
    assert!(!unit.hit(&line, rank(0.001), INFINITY));
    assert!(unit.hit(&line, NEG_INFINITY, INFINITY));
}

#[test]
fn empty_interval_misses() {
    let unit = cube([0.0, 0.0, 0.0], [1.0, 1.0, 1.0]);
    let line = Line { origin: [0.5, 0.5, -1.0], direction: [0.0, 0.0, 1.0] };
    assert!(!unit.hit(&line, rank(1.5), rank(1.5)));
    assert!(!unit.hit(&line, rank(3.0), rank(2.0)));
    assert!(unit.hit(&line, rank(1.5), rank(1.6)));
}

#[test]
fn still_ray_hits_the_boxes_it_lies_in() {
    let unit = cube([0.0, 0.0, 0.0], [1.0, 1.0, 1.0]);
    let inside = StillRay::new(Vec3::new(rank(0.5), rank(0.5), rank(0.5)));
    let outside = StillRay::new(Vec3::new(rank(0.5), rank(1.5), rank(0.5)));
    let on_face = StillRay::new(Vec3::new(rank(0.0), rank(0.5), rank(0.5)));
    assert!(unit.hit(&inside, rank(0.0), INFINITY));
    assert!(!unit.hit(&outside, rank(0.0), INFINITY));
    assert!(!unit.hit(&on_face, rank(0.0), INFINITY));
    assert_eq!(inside.crossing(rank(0.75), 0), Some(INFINITY));
    assert_eq!(inside.crossing(rank(0.25), 0), Some(NEG_INFINITY));
    assert_eq!(inside.crossing(rank(0.5), 0), None);
}

#[test]
fn surround_takes_the_extremes() {
    let a = cube([0.0, 1.0, 2.0], [1.0, 2.0, 3.0]);
    let b = cube([-1.0, 1.5, 2.5], [0.5, 4.0, 2.75]);
    let around = AABB::surround(a, b);
    assert_eq!(number(around.minimum.x), -1.0);
    assert_eq!(number(around.minimum.y), 1.0);
    assert_eq!(number(around.minimum.z), 2.0);
    assert_eq!(number(around.maximum.x), 1.0);
    assert_eq!(number(around.maximum.y), 4.0);
    assert_eq!(number(around.maximum.z), 3.0);
}

#[test]
fn surround_is_commutative_and_associative() {
    let a = cube([0.0, 1.0, 2.0], [1.0, 2.0, 3.0]);
    let b = cube([-1.0, 1.5, 2.5], [0.5, 4.0, 2.75]);
    let c = cube([7.0, -3.0, 0.0], [8.0, -2.0, 9.0]);
    assert_eq!(a.surround_with(&b).minimum, b.surround_with(&a).minimum);
    assert_eq!(a.surround_with(&b).maximum, b.surround_with(&a).maximum);
    let left = a.surround_with(&b).surround_with(&c);
    let right = a.surround_with(&b.surround_with(&c));
    assert_eq!(left.minimum, right.minimum);
    assert_eq!(left.maximum, right.maximum);
}

#[test]
fn infinity_holds_everything() {
    let all = AABB::infinity();
    assert_eq!(all.minimum, Vec3::only(NEG_INFINITY));
    assert_eq!(all.maximum, Vec3::only(INFINITY));
    let line = Line { origin: [3.0, -4.0, 5.0], direction: [1.0, 2.0, -3.0] };
    assert!(all.hit(&line, rank(0.001), INFINITY));
}

#[test]
fn box_without_thickness_is_hit_only_when_padded() {
    let flat = cube([0.0, 0.0, 5.0], [1.0, 1.0, 5.0]);
    let padded = cube([0.0, 0.0, 5.0 - 0.0001], [1.0, 1.0, 5.0 + 0.0001]);
    let across = Line { origin: [0.5, 0.5, 0.0], direction: [0.0, 0.0, 1.0] };
    assert!(!flat.hit(&across, rank(0.001), INFINITY));
    assert!(padded.hit(&across, rank(0.001), INFINITY));
    let along = Line { origin: [0.5, -1.0, 5.0], direction: [0.0, 1.0, 0.0] };
    assert!(flat.hit(&along, rank(0.001), INFINITY));
    assert!(padded.hit(&along, rank(0.001), INFINITY));
}
