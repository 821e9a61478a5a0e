use vstd::prelude::*;
use crate::aabb::AABB;
use crate::ray::Ray;

verus! {

/// One intersection of a ray with a primitive.
///
/// `t` is the rank of the ray parameter at which the ray meets the surface.
/// `detail` is whatever else the primitive reports of the place: this crate
/// carries it along and never looks inside.
pub struct HitRecord<D> {
    pub t: i64,
    pub detail: D,
    pub front_face: bool,
}

impl<D> HitRecord<D> {
    /// A hit at `t`, on the front face of the surface or on its back.
    pub fn new(t: i64, detail: D, front_face: bool) -> (r: Self)
        ensures
            r.t == t,
            r.detail == detail,
            r.front_face == front_face,
    {
        HitRecord { t, detail, front_face }
    }

    /// Whether the ray met the surface from outside.
    pub fn front_face(&self) -> (r: bool)
        ensures
            r == self.front_face,
    {
        self.front_face
    }

    /// The same intersection seen from the other side of the surface.
    pub fn flipped(self) -> (r: Self)
        ensures
            r.t == self.t,
            r.detail == self.detail,
            r.front_face == !self.front_face,
    {
        let HitRecord { t, detail, front_face } = self;
        HitRecord { t, detail, front_face: !front_face }
    }
}

/// Something a ray can hit.
///
/// `hit` reports an intersection of `ray` with parameter between `t_min` and
/// `t_max`, if the primitive finds one. A primitive may answer differently
/// each time it is asked (a volume of fog does), so its specification is a
/// relation: `hit_outcome` says which answers are possible.
///
/// `bounding_box` reports a box that holds the primitive during the time
/// interval from `time0` to `time1`, or `None` if no box holds it.
pub trait Hittable {
    type Ray: Ray;

    type Detail;

    /// Whether `hit` may answer with `out`. A primitive that does not say
    /// may answer with anything.
    open spec fn hit_outcome(
        &self,
        ray: &Self::Ray,
        t_min: i64,
        t_max: i64,
        out: Option<HitRecord<Self::Detail>>,
    ) -> bool {
        true
    }

    fn hit(&self, ray: &Self::Ray, t_min: i64, t_max: i64) -> (out: Option<
        HitRecord<Self::Detail>,
    >)
        ensures
            self.hit_outcome(ray, t_min, t_max, out),
    ;

    /// What `bounding_box` answers. A primitive that does not say is taken
    /// to have some answer that is not known.
    open spec fn bounds(&self, time0: i64, time1: i64) -> Option<AABB> {
        arbitrary()
    }

    fn bounding_box(&self, time0: i64, time1: i64) -> (r: Option<AABB>)
        ensures
            r == self.bounds(time0, time1),
    ;
}

impl<H: Hittable + ?Sized> Hittable for Box<H> {
    type Ray = H::Ray;

    type Detail = H::Detail;

    open spec fn hit_outcome(
        &self,
        ray: &Self::Ray,
        t_min: i64,
        t_max: i64,
        out: Option<HitRecord<Self::Detail>>,
    ) -> bool {
        (**self).hit_outcome(ray, t_min, t_max, out)
    }

    fn hit(&self, ray: &Self::Ray, t_min: i64, t_max: i64) -> (out: Option<
        HitRecord<Self::Detail>,
    >) {
        (**self).hit(ray, t_min, t_max)
    }

    open spec fn bounds(&self, time0: i64, time1: i64) -> Option<AABB> {
        (**self).bounds(time0, time1)
    }

    fn bounding_box(&self, time0: i64, time1: i64) -> (r: Option<AABB>) {
        (**self).bounding_box(time0, time1)
    }
}

impl<H: Hittable> Hittable for &H {
    type Ray = H::Ray;

    type Detail = H::Detail;

    open spec fn hit_outcome(
        &self,
        ray: &Self::Ray,
        t_min: i64,
        t_max: i64,
        out: Option<HitRecord<Self::Detail>>,
    ) -> bool {
        (**self).hit_outcome(ray, t_min, t_max, out)
    }

    fn hit(&self, ray: &Self::Ray, t_min: i64, t_max: i64) -> (out: Option<
        HitRecord<Self::Detail>,
    >) {
        (**self).hit(ray, t_min, t_max)
    }

    open spec fn bounds(&self, time0: i64, time1: i64) -> Option<AABB> {
        (**self).bounds(time0, time1)
    }

    fn bounding_box(&self, time0: i64, time1: i64) -> (r: Option<AABB>) {
        (**self).bounding_box(time0, time1)
    }
}

} // verus!
