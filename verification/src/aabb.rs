use vstd::prelude::*;
use crate::ray::{Ray, StillRay};
use crate::scalar::{is_rank, INFINITY, NEG_INFINITY};
use crate::vec3::Vec3;

verus! {

/// The smaller of two ranks.
pub open spec fn min_rank(a: i64, b: i64) -> i64 {
    if a <= b {
        a
    } else {
        b
    }
}

/// The larger of two ranks.
pub open spec fn max_rank(a: i64, b: i64) -> i64 {
    if a >= b {
        a
    } else {
        b
    }
}

/// The smaller of two parameters, passing over one that is undefined.
pub open spec fn spec_lesser(a: Option<i64>, b: Option<i64>) -> Option<i64> {
    match (a, b) {
        (Some(x), Some(y)) => Some(min_rank(x, y)),
        (Some(x), None) => Some(x),
        (None, _) => b,
    }
}

/// The larger of two parameters, passing over one that is undefined.
pub open spec fn spec_greater(a: Option<i64>, b: Option<i64>) -> Option<i64> {
    match (a, b) {
        (Some(x), Some(y)) => Some(max_rank(x, y)),
        (Some(x), None) => Some(x),
        (None, _) => b,
    }
}

/// The smaller of two parameters, passing over one that is undefined.
pub fn lesser(a: Option<i64>, b: Option<i64>) -> (r: Option<i64>)
    ensures
        r == spec_lesser(a, b),
{
    match (a, b) {
        (Some(x), Some(y)) => Some(if x <= y { x } else { y }),
        (Some(x), None) => Some(x),
        (None, _) => b,
    }
}

/// The larger of two parameters, passing over one that is undefined.
pub fn greater(a: Option<i64>, b: Option<i64>) -> (r: Option<i64>)
    ensures
        r == spec_greater(a, b),
{
    match (a, b) {
        (Some(x), Some(y)) => Some(if x >= y { x } else { y }),
        (Some(x), None) => Some(x),
        (None, _) => b,
    }
}

/// The stretch of a ray between the two planes that bound a box on one axis,
/// given by the parameters at which the ray meets the two planes.
pub struct Slab {
    pub c0: Option<i64>,
    pub c1: Option<i64>,
}

impl Slab {
    /// Where the ray enters the slab, if anywhere.
    pub open spec fn low(self) -> Option<i64> {
        spec_lesser(self.c0, self.c1)
    }

    /// Where the ray leaves the slab, if anywhere.
    pub open spec fn high(self) -> Option<i64> {
        spec_greater(self.c0, self.c1)
    }

    /// `t_min` moved up to the slab's entry.
    pub open spec fn raise(self, t_min: i64) -> i64 {
        match self.low() {
            Some(l) => max_rank(l, t_min),
            None => t_min,
        }
    }

    /// `t_max` moved down to the slab's exit.
    pub open spec fn lower(self, t_max: i64) -> i64 {
        match self.high() {
            Some(h) => min_rank(h, t_max),
            None => t_max,
        }
    }

    /// `t_min` moved up to the slab's entry.
    pub fn raised(&self, t_min: i64) -> (r: i64)
        ensures
            r == self.raise(t_min),
    {
        match lesser(self.c0, self.c1) {
            Some(l) => if l >= t_min { l } else { t_min },
            None => t_min,
        }
    }

    /// `t_max` moved down to the slab's exit.
    pub fn lowered(&self, t_max: i64) -> (r: i64)
        ensures
            r == self.lower(t_max),
    {
        match greater(self.c0, self.c1) {
            Some(h) => if h <= t_max { h } else { t_max },
            None => t_max,
        }
    }
}

/// An axis-aligned box, given by its two extreme corners in ranks.
#[derive(Clone, Copy, Debug)]
pub struct AABB {
    pub minimum: Vec3<i64>,
    pub maximum: Vec3<i64>,
}

impl AABB {
    /// Whether the minimum corner is at or below the maximum corner on every axis.
    pub open spec fn well_formed(self) -> bool {
        &&& self.minimum.x <= self.maximum.x
        &&& self.minimum.y <= self.maximum.y
        &&& self.minimum.z <= self.maximum.z
    }

    /// The box with the given corners. Nothing is asked of the corners: a
    /// box whose minimum lies above its maximum on some axis is not well
    /// formed, and what the box test says of it follows from the slabs.
    pub fn new(minimum: Vec3<i64>, maximum: Vec3<i64>) -> (r: Self)
        ensures
            r.minimum == minimum,
            r.maximum == maximum,
    {
        Self { minimum, maximum }
    }

    /// The box that holds everything.
    pub fn infinity() -> (r: Self)
        ensures
            r.minimum == (Vec3 { x: NEG_INFINITY, y: NEG_INFINITY, z: NEG_INFINITY }),
            r.maximum == (Vec3 { x: INFINITY, y: INFINITY, z: INFINITY }),
    {
        Self::new(Vec3::only(NEG_INFINITY), Vec3::only(INFINITY))
    }

    /// The slab of this box on `axis`, as `ray` meets it.
    pub open spec fn slab<R: Ray>(self, ray: &R, axis: usize) -> Slab {
        Slab {
            c0: ray.crossing_spec(self.minimum.spec_index(axis), axis),
            c1: ray.crossing_spec(self.maximum.spec_index(axis), axis),
        }
    }

    /// Where the ray has entered all three slabs, starting from `t_min`.
    pub open spec fn entry<R: Ray>(self, ray: &R, t_min: i64) -> i64 {
        self.slab(ray, 2).raise(self.slab(ray, 1).raise(self.slab(ray, 0).raise(t_min)))
    }

    /// Where the ray has left the first of the three slabs, ending at `t_max`.
    pub open spec fn exit<R: Ray>(self, ray: &R, t_max: i64) -> i64 {
        self.slab(ray, 2).lower(self.slab(ray, 1).lower(self.slab(ray, 0).lower(t_max)))
    }

    /// Whether some stretch of the ray between `t_min` and `t_max` lies in all
    /// three slabs of the box.
    pub open spec fn spec_hit<R: Ray>(self, ray: &R, t_min: i64, t_max: i64) -> bool {
        self.entry(ray, t_min) < self.exit(ray, t_max)
    }

    /// The slab of this box on `axis`, as `ray` meets it.
    fn slab_on<R: Ray>(&self, ray: &R, axis: usize) -> (r: Slab)
        requires
            axis < 3,
        ensures
            r == self.slab(ray, axis),
    {
        Slab {
            c0: ray.crossing(*self.minimum.index(axis), axis),
            c1: ray.crossing(*self.maximum.index(axis), axis),
        }
    }

    /// Tests whether `ray` passes through the box somewhere between `t_min`
    /// and `t_max`.
    ///
    /// The interval from `t_min` to `t_max` is cut down to each slab in turn,
    /// and the ray misses as soon as nothing is left of it. A slab bound that
    /// is undefined cuts nothing off.
    pub fn hit<R: Ray>(&self, ray: &R, t_min: i64, t_max: i64) -> (r: bool)
        ensures
            r == self.spec_hit(ray, t_min, t_max),
    {
        let sx = self.slab_on(ray, 0);
        let t_min = sx.raised(t_min);
        let t_max = sx.lowered(t_max);
        if t_max <= t_min {
            return false;
        }
        let sy = self.slab_on(ray, 1);
        let t_min = sy.raised(t_min);
        let t_max = sy.lowered(t_max);
        if t_max <= t_min {
            return false;
        }
        let sz = self.slab_on(ray, 2);
        let t_min = sz.raised(t_min);
        let t_max = sz.lowered(t_max);
        if t_max <= t_min {
            return false;
        }
        true
    }

    /// Whether `other` lies inside this box, faces included.
    pub open spec fn contains(self, other: AABB) -> bool {
        &&& self.minimum.x <= other.minimum.x && other.maximum.x <= self.maximum.x
        &&& self.minimum.y <= other.minimum.y && other.maximum.y <= self.maximum.y
        &&& self.minimum.z <= other.minimum.z && other.maximum.z <= self.maximum.z
    }

    /// The smallest box that holds both `self` and `other`.
    pub open spec fn spec_surround(self, other: AABB) -> AABB {
        AABB {
            minimum: Vec3::spec_element_wise_min(self.minimum, other.minimum),
            maximum: Vec3::spec_element_wise_max(self.maximum, other.maximum),
        }
    }

    /// The smallest box that holds both boxes.
    pub fn surround(box0: Self, box1: Self) -> (r: Self)
        ensures
            r == box0.spec_surround(box1),
    {
        box0.surround_with(&box1)
    }

    /// The smallest box that holds both this box and `box1`.
    pub fn surround_with(&self, box1: &Self) -> (r: Self)
        ensures
            r == self.spec_surround(*box1),
    {
        let small = Vec3::element_wise_min(self.minimum, box1.minimum);
        let big = Vec3::element_wise_max(self.maximum, box1.maximum);
        Self::new(small, big)
    }
}

/// Whether every defined bound in `lows` lies strictly below every defined
/// bound in `highs`: the intervals that the bounds describe have a stretch in
/// common.
pub open spec fn bounds_overlap(lows: Seq<Option<i64>>, highs: Seq<Option<i64>>) -> bool {
    forall|i: int, j: int|
        0 <= i < lows.len() && 0 <= j < highs.len() && lows[i].is_some() && highs[j].is_some()
            ==> lows[i].unwrap() < highs[j].unwrap()
}

/// The box test is the intersection of four intervals: the one from `t_min` to
/// `t_max` and the ray's stretch in each of the three slabs. The ray hits when
/// every interval starts before every interval ends. A slab in which the ray
/// has no defined bound restricts nothing.
pub proof fn lemma_hit_is_interval_intersection<R: Ray>(b: AABB, ray: &R, t_min: i64, t_max: i64)
    ensures
        b.spec_hit(ray, t_min, t_max) <==> bounds_overlap(
            seq![Some(t_min), b.slab(ray, 0).low(), b.slab(ray, 1).low(), b.slab(ray, 2).low()],
            seq![Some(t_max), b.slab(ray, 0).high(), b.slab(ray, 1).high(), b.slab(ray, 2).high()],
        ),
{
    let lows = seq![Some(t_min), b.slab(ray, 0).low(), b.slab(ray, 1).low(), b.slab(ray, 2).low()];
    let highs = seq![Some(t_max), b.slab(ray, 0).high(), b.slab(ray, 1).high(), b.slab(ray, 2).high()];
    if b.spec_hit(ray, t_min, t_max) {
        assert forall|i: int, j: int|
            0 <= i < lows.len() && 0 <= j < highs.len() && lows[i].is_some()
                && highs[j].is_some() implies lows[i].unwrap() < highs[j].unwrap() by {
            assert(lows[i].unwrap() <= b.entry(ray, t_min));
            assert(b.exit(ray, t_max) <= highs[j].unwrap());
        }
    }
    if bounds_overlap(lows, highs) {
        let e = b.entry(ray, t_min);
        let x = b.exit(ray, t_max);
        let i = choose|i: int| 0 <= i < 4 && lows[i] == Some(e);
        let j = choose|j: int| 0 <= j < 4 && highs[j] == Some(x);
        assert(lows[0] == Some(e) || lows[1] == Some(e) || lows[2] == Some(e) || lows[3] == Some(e));
        assert(highs[0] == Some(x) || highs[1] == Some(x) || highs[2] == Some(x) || highs[3] == Some(
            x,
        ));
        assert(lows[i].unwrap() < highs[j].unwrap());
    }
}

/// Whether `o` lies strictly between `low` and `high`, or the three coincide.
pub open spec fn strictly_between(low: i64, o: i64, high: i64) -> bool {
    low < o < high || (low == o && o == high)
}

/// A ray that goes nowhere hits a box exactly when the interval from `t_min`
/// to `t_max` is not empty and, on every axis, its origin lies strictly
/// between the two faces of the box, or the box has no thickness there and
/// the origin lies in it.
pub proof fn lemma_still_ray_hits_inside(b: AABB, ray: &StillRay, t_min: i64, t_max: i64)
    requires
        b.well_formed(),
        is_rank(t_min as int),
        is_rank(t_max as int),
    ensures
        b.spec_hit(ray, t_min, t_max) <==> {
            &&& t_min < t_max
            &&& strictly_between(b.minimum.x, ray.origin.x, b.maximum.x)
            &&& strictly_between(b.minimum.y, ray.origin.y, b.maximum.y)
            &&& strictly_between(b.minimum.z, ray.origin.z, b.maximum.z)
        },
{
}

/// Surrounding is commutative.
pub proof fn lemma_surround_commutative(a: AABB, b: AABB)
    ensures
        a.spec_surround(b) == b.spec_surround(a),
{
}

/// Surrounding is associative.
pub proof fn lemma_surround_associative(a: AABB, b: AABB, c: AABB)
    ensures
        a.spec_surround(b).spec_surround(c) == a.spec_surround(b.spec_surround(c)),
{
}

/// The surrounding box holds both boxes entirely, is well formed when they
/// are, and lies inside every box that holds both.
pub proof fn lemma_surround_contains(a: AABB, b: AABB)
    ensures
        a.spec_surround(b).contains(a),
        a.spec_surround(b).contains(b),
        a.well_formed() && b.well_formed() ==> a.spec_surround(b).well_formed(),
        forall|c: AABB| c.contains(a) && c.contains(b) ==> #[trigger] c.contains(a.spec_surround(b)),
{
}

/// Holding is reflexive and transitive.
pub proof fn lemma_contains_transitive(a: AABB, b: AABB, c: AABB)
    ensures
        a.contains(a),
        a.contains(b) && b.contains(c) ==> a.contains(c),
{
}

/// Whether `ray` hits every box that holds `bounds`.
pub open spec fn hit_all_around<R: Ray>(bounds: AABB, ray: &R, t_min: i64, t_max: i64) -> bool {
    forall|around: AABB| #[trigger] around.contains(bounds) ==> around.spec_hit(ray, t_min, t_max)
}

/// Whether `ray` meets every plane of `axis` at some parameter, and meets
/// the planes in their order or all in the opposite order: it runs across
/// the axis, one way or the other.
pub open spec fn runs_across<R: Ray>(ray: &R, axis: usize) -> bool {
    &&& forall|plane: i64| (#[trigger] ray.crossing_spec(plane, axis)).is_some()
    &&& {
        ||| forall|p: i64, q: i64|
            p <= q ==> (#[trigger] ray.crossing_spec(p, axis)).unwrap() <= (#[trigger] ray.crossing_spec(
                q,
                axis,
            )).unwrap()
        ||| forall|p: i64, q: i64|
            p <= q ==> (#[trigger] ray.crossing_spec(p, axis)).unwrap() >= (#[trigger] ray.crossing_spec(
                q,
                axis,
            )).unwrap()
    }
}

/// A ray that runs across all three axes and hits a well-formed box hits
/// every box around it: a larger box is never missed where a smaller one is
/// hit.
pub proof fn lemma_hit_grows_with_box<R: Ray>(bounds: AABB, ray: &R, t_min: i64, t_max: i64)
    requires
        bounds.well_formed(),
        runs_across(ray, 0),
        runs_across(ray, 1),
        runs_across(ray, 2),
        bounds.spec_hit(ray, t_min, t_max),
    ensures
        hit_all_around(bounds, ray, t_min, t_max),
{
    assert forall|around: AABB| #[trigger] around.contains(bounds) implies around.spec_hit(
        ray,
        t_min,
        t_max,
    ) by {
        lemma_hit_is_interval_intersection(bounds, ray, t_min, t_max);
        lemma_hit_is_interval_intersection(around, ray, t_min, t_max);
        let lows = seq![
            Some(t_min),
            bounds.slab(ray, 0).low(),
            bounds.slab(ray, 1).low(),
            bounds.slab(ray, 2).low(),
        ];
        let highs = seq![
            Some(t_max),
            bounds.slab(ray, 0).high(),
            bounds.slab(ray, 1).high(),
            bounds.slab(ray, 2).high(),
        ];
        let wide_lows = seq![
            Some(t_min),
            around.slab(ray, 0).low(),
            around.slab(ray, 1).low(),
            around.slab(ray, 2).low(),
        ];
        let wide_highs = seq![
            Some(t_max),
            around.slab(ray, 0).high(),
            around.slab(ray, 1).high(),
            around.slab(ray, 2).high(),
        ];
        lemma_slab_grows(bounds, around, ray, 0);
        lemma_slab_grows(bounds, around, ray, 1);
        lemma_slab_grows(bounds, around, ray, 2);
        assert forall|i: int, j: int|
            0 <= i < wide_lows.len() && 0 <= j < wide_highs.len() && wide_lows[i].is_some()
                && wide_highs[j].is_some() implies wide_lows[i].unwrap() < wide_highs[j].unwrap() by {
            assert(lows[i].is_some() && highs[j].is_some());
            assert(wide_lows[i].unwrap() <= lows[i].unwrap());
            assert(highs[j].unwrap() <= wide_highs[j].unwrap());
            assert(lows[i].unwrap() < highs[j].unwrap());
        }
    }
}

/// On an axis that the ray runs across, the slab of a box lies within the
/// slab of every box around it.
pub proof fn lemma_slab_grows<R: Ray>(bounds: AABB, around: AABB, ray: &R, axis: usize)
    requires
        bounds.well_formed(),
        around.contains(bounds),
        runs_across(ray, axis),
        axis < 3,
    ensures
        bounds.slab(ray, axis).low().is_some(),
        bounds.slab(ray, axis).high().is_some(),
        around.slab(ray, axis).low().is_some(),
        around.slab(ray, axis).high().is_some(),
        around.slab(ray, axis).low().unwrap() <= bounds.slab(ray, axis).low().unwrap(),
        bounds.slab(ray, axis).high().unwrap() <= around.slab(ray, axis).high().unwrap(),
{
    let a = bounds.minimum.spec_index(axis);
    let b = bounds.maximum.spec_index(axis);
    let wide_a = around.minimum.spec_index(axis);
    let wide_b = around.maximum.spec_index(axis);
    assert(wide_a <= a <= b <= wide_b);
    assert(ray.crossing_spec(a, axis).is_some());
    assert(ray.crossing_spec(b, axis).is_some());
    assert(ray.crossing_spec(wide_a, axis).is_some());
    assert(ray.crossing_spec(wide_b, axis).is_some());
}

} // verus!
