use vstd::prelude::*;
use crate::scalar::{INFINITY, NEG_INFINITY};
use crate::vec3::Vec3;

verus! {

/// What a box test needs to know of a ray: where it meets an axis-aligned
/// plane.
///
/// The answer is the rank of the ray parameter at which the ray reaches the
/// plane `plane` of axis `axis` (0, 1 or 2), or `None` where that parameter is
/// undefined: a ray that runs inside the plane meets it at no single parameter.
/// A ray that runs beside the plane answers with an infinity.
pub trait Ray {
    /// What `crossing` answers. A ray that does not say is taken to have
    /// some answer that is not known.
    open spec fn crossing_spec(&self, plane: i64, axis: usize) -> Option<i64> {
        arbitrary()
    }

    fn crossing(&self, plane: i64, axis: usize) -> (r: Option<i64>)
        requires
            axis < 3,
        ensures
            r == self.crossing_spec(plane, axis),
    ;
}

/// A ray that goes nowhere: its direction is zero on every axis.
///
/// Such a ray is beside every plane that does not hold its origin, so it
/// meets a plane above the origin at positive infinity, a plane below it at
/// negative infinity, and has no parameter for a plane through the origin.
#[derive(Clone, Copy, Debug)]
pub struct StillRay {
    pub origin: Vec3<i64>,
}

impl StillRay {
    /// The ray that stays at `origin`.
    pub fn new(origin: Vec3<i64>) -> (r: Self)
        ensures
            r.origin == origin,
    {
        StillRay { origin }
    }
}

impl Ray for StillRay {
    open spec fn crossing_spec(&self, plane: i64, axis: usize) -> Option<i64> {
        let o = self.origin.spec_index(axis);
        if plane < o {
            Some(NEG_INFINITY)
        } else if plane > o {
            Some(INFINITY)
        } else {
            None
        }
    }

    fn crossing(&self, plane: i64, axis: usize) -> (r: Option<i64>) {
        let o = *self.origin.index(axis);
        if plane < o {
            Some(NEG_INFINITY)
        } else if plane > o {
            Some(INFINITY)
        } else {
            None
        }
    }
}

} // verus!
