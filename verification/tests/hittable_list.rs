use pathtracer::aabb::AABB;
use pathtracer::hittable::{HitRecord, Hittable};
use pathtracer::hittable_list::{HittableList, LightedWorld};
use pathtracer::ray::Ray;
use pathtracer::scalar::{bits_of_rank, rank_of_bits, INFINITY};
use pathtracer::transformations::FlipFace;
use pathtracer::vec3::Vec3;

fn rank(x: f64) -> i64 {
    rank_of_bits(x.to_bits()).unwrap()
}

fn number(rank: i64) -> f64 {
    f64::from_bits(bits_of_rank(rank))
}

struct Beam {
    height: f64,
}

impl Ray for Beam {
    fn crossing(&self, plane: i64, axis: usize) -> Option<i64> {
        let origin = if axis == 1 { self.height } else { 0.0 };
        let direction = if axis == 2 { 1.0 } else { 0.0 };
        rank_of_bits(((number(plane) - origin) / direction).to_bits())
    }
}

/// A wall across the z axis at `z`, from height `low` to height `high`.
struct Wall {
    z: f64,
    low: f64,
    high: f64,
    name: &'static str,
    boxed: bool,
}

fn wall(z: f64, low: f64, high: f64, name: &'static str) -> Wall {
    Wall { z, low, high, name, boxed: true }
}

impl Hittable for Wall {
    type Ray = Beam;
    type Detail = &'static str;

    fn hit(&self, ray: &Beam, t_min: i64, t_max: i64) -> Option<HitRecord<&'static str>> {
        if self.z < number(t_min) || self.z > number(t_max) {
            return None;
        }
        if ray.height < self.low || ray.height > self.high {
            return None;
        }
        Some(HitRecord::new(rank(self.z), self.name, true))
    }

    fn bounding_box(&self, _time0: i64, _time1: i64) -> Option<AABB> {
        if !self.boxed {
            return None;
        }
        Some(AABB::new(
            Vec3::new(rank(-1.0), rank(self.low), rank(self.z - 0.0001)),
            Vec3::new(rank(1.0), rank(self.high), rank(self.z + 0.0001)),
        ))
    }
}

#[test]
fn list_keeps_the_nearest_hit() {
    let mut list = HittableList::new();
    list.add(wall(5.0, 0.0, 1.0, "far"));
    list.add(wall(2.0, 0.0, 1.0, "near"));
    list.add(wall(3.0, 0.0, 1.0, "middle"));
    list.add(wall(1.0, 4.0, 5.0, "above"));
    let hit = list.hit(&Beam { height: 0.5 }, rank(0.001), INFINITY).unwrap();
    assert_eq!(hit.detail, "near");
    assert_eq!(number(hit.t), 2.0);
    let later = list.hit(&Beam { height: 0.5 }, rank(2.5), INFINITY).unwrap();
    assert_eq!(later.detail, "middle");
    let high = list.hit(&Beam { height: 4.5 }, rank(0.001), INFINITY).unwrap();
    assert_eq!(high.detail, "above");
    assert!(list.hit(&Beam { height: 2.0 }, rank(0.001), INFINITY).is_none());
    assert!(list.hit(&Beam { height: 0.5 }, rank(0.001), rank(1.5)).is_none());
}

#[test]
fn list_keeps_the_later_of_two_equally_near_hits() {
    let mut list = HittableList::new();
    list.add(wall(2.0, 0.0, 1.0, "first"));
    list.add(wall(2.0, 0.0, 1.0, "second"));
    let hit = list.hit(&Beam { height: 0.5 }, rank(0.001), INFINITY).unwrap();
    assert_eq!(hit.detail, "second");
}

#[test]
fn empty_list_is_never_hit_and_has_no_box() {
    let mut list: HittableList<Wall> = HittableList::new();
    assert!(list.hit(&Beam { height: 0.5 }, rank(0.001), INFINITY).is_none());
    assert!(list.bounding_box(rank(0.0), rank(1.0)).is_none());
    list.add(wall(2.0, 0.0, 1.0, "only"));
    assert_eq!(list.objects.len(), 1);
    list.clear();
    assert_eq!(list.objects.len(), 0);
    assert!(list.hit(&Beam { height: 0.5 }, rank(0.001), INFINITY).is_none());
}

#[test]
fn list_is_bounded_by_the_box_around_all() {
    let mut list = HittableList::new();
    list.add(wall(5.0, 0.0, 1.0, "a"));
    list.add(wall(2.0, -3.0, 0.5, "b"));
    list.add(wall(3.0, 0.0, 7.0, "c"));
    let bounds = list.bounding_box(rank(0.0), rank(1.0)).unwrap();
    assert_eq!(bounds.minimum, Vec3::new(rank(-1.0), rank(-3.0), rank(2.0 - 0.0001)));
    assert_eq!(bounds.maximum, Vec3::new(rank(1.0), rank(7.0), rank(5.0 + 0.0001)));
}

#[test]
fn list_with_an_unbounded_primitive_has_no_box() {
    let mut list = HittableList::new();
    list.add(wall(5.0, 0.0, 1.0, "a"));
    let mut open = wall(2.0, -3.0, 0.5, "b");
    open.boxed = false;
    list.add(open);
    list.add(wall(3.0, 0.0, 7.0, "c"));
    assert!(list.bounding_box(rank(0.0), rank(1.0)).is_none());
}

#[test]
fn world_is_hit_where_its_objects_are() {
    let mut world = LightedWorld::new();
    assert!(!world.has_lights());
    world.add(wall(5.0, 0.0, 1.0, "object"));
    assert!(!world.has_lights());
    world.add_light(wall(1.0, 0.0, 1.0, "light"));
    assert!(world.has_lights());
    assert_eq!(world.objects.objects.len(), 1);
    assert_eq!(world.lights.objects.len(), 1);
    let hit = world.hit(&Beam { height: 0.5 }, rank(0.001), INFINITY).unwrap();
    assert_eq!(hit.detail, "object");
    let bounds = world.bounding_box(rank(0.0), rank(1.0)).unwrap();
    assert_eq!(bounds.minimum.z, rank(5.0 - 0.0001));
}

#[test]
fn world_from_a_list_has_no_lights() {
    let mut list = HittableList::new();
    list.add(wall(5.0, 0.0, 1.0, "a"));
    list.add(wall(2.0, 0.0, 1.0, "b"));
    let world = LightedWorld::from(list);
    assert_eq!(world.objects.objects.len(), 2);
    assert_eq!(world.lights.objects.len(), 0);
    assert!(!world.has_lights());
}

#[test]
fn flipped_primitive_turns_the_face_of_every_hit() {
    let flipped = FlipFace::new(wall(2.0, 0.0, 1.0, "wall"));
    let hit = flipped.hit(&Beam { height: 0.5 }, rank(0.001), INFINITY).unwrap();
    assert!(!hit.front_face());
    assert_eq!(hit.detail, "wall");
    assert_eq!(number(hit.t), 2.0);
    assert!(flipped.hit(&Beam { height: 3.0 }, rank(0.001), INFINITY).is_none());
    let twice = FlipFace::new(flipped);
    assert!(twice.hit(&Beam { height: 0.5 }, rank(0.001), INFINITY).unwrap().front_face());
    let bounds = twice.bounding_box(rank(0.0), rank(1.0)).unwrap();
    assert_eq!(bounds.maximum.y, rank(1.0));
}

#[test]
fn boxed_and_borrowed_primitives_answer_as_the_primitive_does() {
    let plain = wall(2.0, 0.0, 1.0, "wall");
    let borrowed = &plain;
    assert_eq!(borrowed.hit(&Beam { height: 0.5 }, rank(0.001), INFINITY).unwrap().detail, "wall");
    assert!(Hittable::bounding_box(&borrowed, rank(0.0), rank(1.0)).is_some());
    let boxed: Box<dyn Hittable<Ray = Beam, Detail = &'static str>> = Box::new(wall(4.0, 0.0, 1.0, "boxed"));
    let mut list = HittableList::new();
    list.add(boxed);
    list.add(Box::new(FlipFace::new(wall(3.0, 0.0, 1.0, "turned"))));
    let hit = list.hit(&Beam { height: 0.5 }, rank(0.001), INFINITY).unwrap();
    assert_eq!(hit.detail, "turned");
    assert!(!hit.front_face());
}

#[test]
fn record_remembers_what_it_was_made_of() {
    let record = HitRecord::new(rank(1.25), 7u8, false);
    assert_eq!(number(record.t), 1.25);
    assert_eq!(record.detail, 7);
    assert!(!record.front_face());
    let turned = record.flipped();
    assert!(turned.front_face());
    assert_eq!(number(turned.t), 1.25);
    assert_eq!(turned.detail, 7);
}
