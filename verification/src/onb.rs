use vstd::prelude::*;
use vstd::std_specs::ops::{AddSpec, MulSpec};
use std::ops::{Add, Mul};
use crate::vec3::{always_add, always_mul, Vec3};

verus! {

/// A frame of three axes, `u`, `v` and `w`, each given in the coordinates of
/// the world.
pub struct OrthonormalBasis<T> {
    pub axis: Vec3<Vec3<T>>,
}

impl<T: Copy> OrthonormalBasis<T> {
    /// The first axis.
    pub fn u(&self) -> (r: Vec3<T>)
        ensures
            r == self.axis.x,
    {
        self.axis.x
    }

    /// The second axis.
    pub fn v(&self) -> (r: Vec3<T>)
        ensures
            r == self.axis.y,
    {
        self.axis.y
    }

    /// The third axis, about which the frame is built.
    pub fn w(&self) -> (r: Vec3<T>)
        ensures
            r == self.axis.z,
    {
        self.axis.z
    }
}

/// `u` times `a`, plus `v` times `b`, plus `w` times `c`.
pub open spec fn combined<T: Mul<Output = T> + Add<Output = T>>(
    u: T,
    a: T,
    v: T,
    b: T,
    w: T,
    c: T,
) -> T {
    u.mul_spec(a).add_spec(v.mul_spec(b)).add_spec(w.mul_spec(c))
}

/// Whether the products and sums in `combined` can be taken.
pub open spec fn can_combine<T: Mul<Output = T> + Add<Output = T>>(
    u: T,
    a: T,
    v: T,
    b: T,
    w: T,
    c: T,
) -> bool {
    &&& u.mul_req(a)
    &&& v.mul_req(b)
    &&& w.mul_req(c)
    &&& u.mul_spec(a).add_req(v.mul_spec(b))
    &&& u.mul_spec(a).add_spec(v.mul_spec(b)).add_req(w.mul_spec(c))
}

impl<T: Mul<Output = T> + Add<Output = T> + Copy> OrthonormalBasis<T> {
    /// The vector that has the coordinates `a` in this frame, in the
    /// coordinates of the world: `u` times `a.x`, plus `v` times `a.y`, plus
    /// `w` times `a.z`.
    pub open spec fn spec_local(self, a: Vec3<T>) -> Vec3<T> {
        Vec3 {
            x: combined(self.axis.x.x, a.x, self.axis.y.x, a.y, self.axis.z.x, a.z),
            y: combined(self.axis.x.y, a.x, self.axis.y.y, a.y, self.axis.z.y, a.z),
            z: combined(self.axis.x.z, a.x, self.axis.y.z, a.y, self.axis.z.z, a.z),
        }
    }

    /// Whether every product and sum in `spec_local` can be taken: either
    /// the scalars can always be multiplied and added, or their operators
    /// are specified and each step is allowed.
    pub open spec fn local_defined(self, a: Vec3<T>) -> bool {
        ||| always_mul::<T>() && always_add::<T>()
        ||| {
            &&& T::obeys_mul_spec()
            &&& T::obeys_add_spec()
            &&& can_combine(self.axis.x.x, a.x, self.axis.y.x, a.y, self.axis.z.x, a.z)
            &&& can_combine(self.axis.x.y, a.x, self.axis.y.y, a.y, self.axis.z.y, a.z)
            &&& can_combine(self.axis.x.z, a.x, self.axis.y.z, a.y, self.axis.z.z, a.z)
        }
    }

    /// The vector that has the coordinates `a` in this frame, in the
    /// coordinates of the world, as far as the operators of the scalars are
    /// specified.
    pub fn local(&self, a: Vec3<T>) -> (r: Vec3<T>)
        requires
            self.local_defined(a),
        ensures
            T::obeys_mul_spec() && T::obeys_add_spec() ==> r == self.spec_local(a),
    {
        self.u() * a.x + self.v() * a.y + self.w() * a.z
    }
}

} // verus!
