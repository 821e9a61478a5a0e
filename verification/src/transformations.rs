use vstd::prelude::*;
use crate::aabb::AABB;
use crate::hittable::{HitRecord, Hittable};

verus! {

/// A primitive seen from the other side: every hit of it has its face turned.
pub struct FlipFace<H> {
    object: H,
}

/// An answer with the face of the hit turned.
pub open spec fn turned<D>(inner: Option<HitRecord<D>>) -> Option<HitRecord<D>> {
    match inner {
        Some(hit) => Some(HitRecord { t: hit.t, detail: hit.detail, front_face: !hit.front_face }),
        None => None,
    }
}

impl<H> FlipFace<H> {
    /// The primitive that is seen from the other side.
    pub closed spec fn object(self) -> H {
        self.object
    }

    /// The primitive `object` seen from the other side.
    pub fn new(object: H) -> (r: Self)
        ensures
            r.object() == object,
    {
        FlipFace { object }
    }
}

impl<H: Hittable> Hittable for FlipFace<H> {
    type Ray = H::Ray;

    type Detail = H::Detail;

    open spec fn hit_outcome(
        &self,
        ray: &Self::Ray,
        t_min: i64,
        t_max: i64,
        out: Option<HitRecord<Self::Detail>>,
    ) -> bool {
        exists|inner: Option<HitRecord<H::Detail>>|
            self.object().hit_outcome(ray, t_min, t_max, inner) && out == turned(inner)
    }

    fn hit(&self, ray: &Self::Ray, t_min: i64, t_max: i64) -> (out: Option<
        HitRecord<Self::Detail>,
    >) {
        let inner = self.object.hit(ray, t_min, t_max);
        let ghost answer = inner;
        let out = match inner {
            Some(hit) => Some(hit.flipped()),
            None => None,
        };
        assert(out == turned(answer));
        out
    }

    open spec fn bounds(&self, time0: i64, time1: i64) -> Option<AABB> {
        self.object().bounds(time0, time1)
    }

    fn bounding_box(&self, time0: i64, time1: i64) -> (r: Option<AABB>) {
        self.object.bounding_box(time0, time1)
    }
}

} // verus!
