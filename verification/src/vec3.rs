use vstd::prelude::*;
use vstd::std_specs::ops::{
    AddSpec, AddSpecImpl, MulSpec, MulSpecImpl, NegSpec, NegSpecImpl, SubSpec, SubSpecImpl,
};
use std::ops::{Add, Mul, Neg, Sub};

verus! {

/// A triple of components addressed as `x`, `y` and `z`.
#[derive(Debug, PartialEq, Copy, Clone)]
pub struct Vec3<T> {
    pub x: T,
    pub y: T,
    pub z: T,
}

impl<T> Vec3<T> {
    /// The vector with the given components.
    pub fn new(x: T, y: T, z: T) -> (r: Self)
        ensures
            r.x == x,
            r.y == y,
            r.z == z,
    {
        Self { x, y, z }
    }

    /// The three components by reference, in the order x, y, z.
    pub fn iter(&self) -> (r: [&T; 3])
        ensures
            *r[0] == self.x,
            *r[1] == self.y,
            *r[2] == self.z,
    {
        [&self.x, &self.y, &self.z]
    }
}

impl<T> Vec3<T> {
    /// The component on `axis`: x for 0, y for 1, z for anything else.
    pub open spec fn spec_index(self, axis: usize) -> T {
        if axis == 0 {
            self.x
        } else if axis == 1 {
            self.y
        } else {
            self.z
        }
    }

    /// The component on `axis`, which is 0, 1 or 2.
    pub fn index(&self, axis: usize) -> (r: &T)
        requires
            axis < 3,
        ensures
            *r == self.spec_index(axis),
    {
        if axis == 0 {
            &self.x
        } else if axis == 1 {
            &self.y
        } else {
            &self.z
        }
    }

    /// The component on `axis`, which is 0, 1 or 2, for writing.
    pub fn index_mut(&mut self, axis: usize) -> (r: &mut T)
        requires
            axis < 3,
        ensures
            *r == old(self).spec_index(axis),
            axis == 0 ==> *final(self) == (Vec3 { x: *final(r), ..*old(self) }),
            axis == 1 ==> *final(self) == (Vec3 { y: *final(r), ..*old(self) }),
            axis == 2 ==> *final(self) == (Vec3 { z: *final(r), ..*old(self) }),
    {
        if axis == 0 {
            &mut self.x
        } else if axis == 1 {
            &mut self.y
        } else {
            &mut self.z
        }
    }
}

impl<T: Copy> Vec3<T> {
    /// The vector whose components are all `value`.
    pub fn only(value: T) -> (r: Self)
        ensures
            r.x == value,
            r.y == value,
            r.z == value,
    {
        Self::new(value, value, value)
    }

    /// The three components by value, in the order x, y, z.
    pub fn values(&self) -> (r: [T; 3])
        ensures
            r[0] == self.x,
            r[1] == self.y,
            r[2] == self.z,
    {
        [self.x, self.y, self.z]
    }
}

/// Whether any two scalars can be multiplied: their product asks nothing of
/// them.
pub open spec fn always_mul<T: Mul<Output = T>>() -> bool {
    forall|a: T, b: T| #[trigger] a.mul_req(b)
}

/// Whether any two scalars can be added: their sum asks nothing of them.
pub open spec fn always_add<T: Add<Output = T>>() -> bool {
    forall|a: T, b: T| #[trigger] a.add_req(b)
}

/// Whether any scalar can be subtracted from any other: their difference
/// asks nothing of them.
pub open spec fn always_sub<T: Sub<Output = T>>() -> bool {
    forall|a: T, b: T| #[trigger] a.sub_req(b)
}

impl<T: Mul<Output = T> + Add<Output = T> + Copy> Vec3<T> {
    /// The sum of the products of the components of the two vectors, taken
    /// in the order x, y, z.
    pub open spec fn spec_dot(self, rhs: Self) -> T {
        self.x.mul_spec(rhs.x).add_spec(self.y.mul_spec(rhs.y)).add_spec(self.z.mul_spec(rhs.z))
    }

    /// Whether every product and sum in `spec_dot` can be taken: either the
    /// scalars can always be multiplied and added, or their operators are
    /// specified and each step is allowed (with integers, none overflows).
    pub open spec fn dot_defined(self, rhs: Self) -> bool {
        ||| always_mul::<T>() && always_add::<T>()
        ||| {
            &&& T::obeys_mul_spec()
            &&& T::obeys_add_spec()
            &&& self.x.mul_req(rhs.x)
            &&& self.y.mul_req(rhs.y)
            &&& self.z.mul_req(rhs.z)
            &&& self.x.mul_spec(rhs.x).add_req(self.y.mul_spec(rhs.y))
            &&& self.x.mul_spec(rhs.x).add_spec(self.y.mul_spec(rhs.y)).add_req(
                self.z.mul_spec(rhs.z),
            )
        }
    }

    /// The sum of the squares of the components, as far as the operators of
    /// the scalars are specified.
    pub fn norm_squared(&self) -> (r: T)
        requires
            self.dot_defined(*self),
        ensures
            T::obeys_mul_spec() && T::obeys_add_spec() ==> r == self.spec_dot(*self),
    {
        self.x * self.x + self.y * self.y + self.z * self.z
    }

    /// The sum of the products of the components of the two vectors, as far
    /// as the operators of the scalars are specified.
    pub fn dot(&self, rhs: &Self) -> (r: T)
        requires
            self.dot_defined(*rhs),
        ensures
            T::obeys_mul_spec() && T::obeys_add_spec() ==> r == self.spec_dot(*rhs),
    {
        self.x * rhs.x + self.y * rhs.y + self.z * rhs.z
    }
}

impl<T: Mul<Output = T> + Sub<Output = T> + Copy> Vec3<T> {
    /// The vector at right angles to both vectors: on each axis the
    /// difference of the two cross products of the other two axes.
    pub open spec fn spec_cross(self, rhs: Self) -> Self {
        Vec3 {
            x: self.y.mul_spec(rhs.z).sub_spec(self.z.mul_spec(rhs.y)),
            y: self.z.mul_spec(rhs.x).sub_spec(self.x.mul_spec(rhs.z)),
            z: self.x.mul_spec(rhs.y).sub_spec(self.y.mul_spec(rhs.x)),
        }
    }

    /// Whether every product and difference in `spec_cross` can be taken:
    /// either the scalars can always be multiplied and subtracted, or their
    /// operators are specified and each step is allowed.
    pub open spec fn cross_defined(self, rhs: Self) -> bool {
        ||| always_mul::<T>() && always_sub::<T>()
        ||| {
            &&& T::obeys_mul_spec()
            &&& T::obeys_sub_spec()
            &&& self.y.mul_req(rhs.z)
            &&& self.z.mul_req(rhs.y)
            &&& self.z.mul_req(rhs.x)
            &&& self.x.mul_req(rhs.z)
            &&& self.x.mul_req(rhs.y)
            &&& self.y.mul_req(rhs.x)
            &&& self.y.mul_spec(rhs.z).sub_req(self.z.mul_spec(rhs.y))
            &&& self.z.mul_spec(rhs.x).sub_req(self.x.mul_spec(rhs.z))
            &&& self.x.mul_spec(rhs.y).sub_req(self.y.mul_spec(rhs.x))
        }
    }

    /// The vector at right angles to both vectors, as far as the operators
    /// of the scalars are specified.
    pub fn cross(&self, rhs: &Self) -> (r: Self)
        requires
            self.cross_defined(*rhs),
        ensures
            T::obeys_mul_spec() && T::obeys_sub_spec() ==> r == self.spec_cross(*rhs),
    {
        Self::new(
            self.y * rhs.z - self.z * rhs.y,
            self.z * rhs.x - self.x * rhs.z,
            self.x * rhs.y - self.y * rhs.x,
        )
    }
}

impl<T: Add<Output = T>> Add for Vec3<T> {
    type Output = Self;

    /// The sum of the two vectors, axis by axis.
    fn add(self, rhs: Self) -> (r: Self) {
        Self { x: self.x.add(rhs.x), y: self.y.add(rhs.y), z: self.z.add(rhs.z) }
    }
}

impl<T: Add<Output = T>> AddSpecImpl for Vec3<T> {
    open spec fn obeys_add_spec() -> bool {
        T::obeys_add_spec()
    }

    open spec fn add_req(self, rhs: Self) -> bool {
        self.x.add_req(rhs.x) && self.y.add_req(rhs.y) && self.z.add_req(rhs.z)
    }

    open spec fn add_spec(self, rhs: Self) -> Self {
        Vec3 { x: self.x.add_spec(rhs.x), y: self.y.add_spec(rhs.y), z: self.z.add_spec(rhs.z) }
    }
}

impl<T: Add<Output = T> + Copy> Add<T> for Vec3<T> {
    type Output = Vec3<T>;

    /// The sum of each component and the scalar.
    fn add(self, rhs: T) -> (r: Vec3<T>) {
        Vec3 { x: self.x.add(rhs), y: self.y.add(rhs), z: self.z.add(rhs) }
    }
}

impl<T: Add<Output = T> + Copy> AddSpecImpl<T> for Vec3<T> {
    open spec fn obeys_add_spec() -> bool {
        T::obeys_add_spec()
    }

    open spec fn add_req(self, rhs: T) -> bool {
        self.x.add_req(rhs) && self.y.add_req(rhs) && self.z.add_req(rhs)
    }

    open spec fn add_spec(self, rhs: T) -> Vec3<T> {
        Vec3 { x: self.x.add_spec(rhs), y: self.y.add_spec(rhs), z: self.z.add_spec(rhs) }
    }
}

impl<T: Sub<Output = T>> Sub for Vec3<T> {
    type Output = Self;

    /// The difference of the two vectors, axis by axis.
    fn sub(self, rhs: Self) -> (r: Self) {
        Self { x: self.x.sub(rhs.x), y: self.y.sub(rhs.y), z: self.z.sub(rhs.z) }
    }
}

impl<T: Sub<Output = T>> SubSpecImpl for Vec3<T> {
    open spec fn obeys_sub_spec() -> bool {
        T::obeys_sub_spec()
    }

    open spec fn sub_req(self, rhs: Self) -> bool {
        self.x.sub_req(rhs.x) && self.y.sub_req(rhs.y) && self.z.sub_req(rhs.z)
    }

    open spec fn sub_spec(self, rhs: Self) -> Self {
        Vec3 { x: self.x.sub_spec(rhs.x), y: self.y.sub_spec(rhs.y), z: self.z.sub_spec(rhs.z) }
    }
}

impl<T: Sub<Output = T> + Copy> Sub<T> for Vec3<T> {
    type Output = Vec3<T>;

    /// The difference of each component and the scalar.
    fn sub(self, rhs: T) -> (r: Vec3<T>) {
        Vec3 { x: self.x.sub(rhs), y: self.y.sub(rhs), z: self.z.sub(rhs) }
    }
}

impl<T: Sub<Output = T> + Copy> SubSpecImpl<T> for Vec3<T> {
    open spec fn obeys_sub_spec() -> bool {
        T::obeys_sub_spec()
    }

    open spec fn sub_req(self, rhs: T) -> bool {
        self.x.sub_req(rhs) && self.y.sub_req(rhs) && self.z.sub_req(rhs)
    }

    open spec fn sub_spec(self, rhs: T) -> Vec3<T> {
        Vec3 { x: self.x.sub_spec(rhs), y: self.y.sub_spec(rhs), z: self.z.sub_spec(rhs) }
    }
}

impl<T: Mul<Output = T>> Mul for Vec3<T> {
    type Output = Self;

    /// The product of the two vectors, axis by axis.
    fn mul(self, rhs: Self) -> (r: Self) {
        Self { x: self.x.mul(rhs.x), y: self.y.mul(rhs.y), z: self.z.mul(rhs.z) }
    }
}

impl<T: Mul<Output = T>> MulSpecImpl for Vec3<T> {
    open spec fn obeys_mul_spec() -> bool {
        T::obeys_mul_spec()
    }

    open spec fn mul_req(self, rhs: Self) -> bool {
        self.x.mul_req(rhs.x) && self.y.mul_req(rhs.y) && self.z.mul_req(rhs.z)
    }

    open spec fn mul_spec(self, rhs: Self) -> Self {
        Vec3 { x: self.x.mul_spec(rhs.x), y: self.y.mul_spec(rhs.y), z: self.z.mul_spec(rhs.z) }
    }
}

impl<T: Mul<Output = T> + Copy> Mul<T> for Vec3<T> {
    type Output = Vec3<T>;

    /// The product of each component and the scalar.
    fn mul(self, rhs: T) -> (r: Vec3<T>) {
        Vec3 { x: self.x.mul(rhs), y: self.y.mul(rhs), z: self.z.mul(rhs) }
    }
}

impl<T: Mul<Output = T> + Copy> MulSpecImpl<T> for Vec3<T> {
    open spec fn obeys_mul_spec() -> bool {
        T::obeys_mul_spec()
    }

    open spec fn mul_req(self, rhs: T) -> bool {
        self.x.mul_req(rhs) && self.y.mul_req(rhs) && self.z.mul_req(rhs)
    }

    open spec fn mul_spec(self, rhs: T) -> Vec3<T> {
        Vec3 { x: self.x.mul_spec(rhs), y: self.y.mul_spec(rhs), z: self.z.mul_spec(rhs) }
    }
}

impl<T: Neg<Output = T>> Neg for Vec3<T> {
    type Output = Self;

    /// The vector with every component negated.
    fn neg(self) -> (r: Self) {
        Self { x: self.x.neg(), y: self.y.neg(), z: self.z.neg() }
    }
}

impl<T: Neg<Output = T>> NegSpecImpl for Vec3<T> {
    open spec fn obeys_neg_spec() -> bool {
        T::obeys_neg_spec()
    }

    open spec fn neg_req(self) -> bool {
        self.x.neg_req() && self.y.neg_req() && self.z.neg_req()
    }

    open spec fn neg_spec(self) -> Self {
        Vec3 { x: self.x.neg_spec(), y: self.y.neg_spec(), z: self.z.neg_spec() }
    }
}

impl Vec3<i64> {
    /// On each axis the smaller of the two components.
    pub open spec fn spec_element_wise_min(a: Self, b: Self) -> Self {
        Vec3 {
            x: if a.x <= b.x { a.x } else { b.x },
            y: if a.y <= b.y { a.y } else { b.y },
            z: if a.z <= b.z { a.z } else { b.z },
        }
    }

    /// On each axis the larger of the two components.
    pub open spec fn spec_element_wise_max(a: Self, b: Self) -> Self {
        Vec3 {
            x: if a.x >= b.x { a.x } else { b.x },
            y: if a.y >= b.y { a.y } else { b.y },
            z: if a.z >= b.z { a.z } else { b.z },
        }
    }

    /// On each axis the smaller of the two components.
    pub fn element_wise_min(a: Self, b: Self) -> (r: Self)
        ensures
            r == Self::spec_element_wise_min(a, b),
    {
        Vec3 {
            x: if a.x <= b.x { a.x } else { b.x },
            y: if a.y <= b.y { a.y } else { b.y },
            z: if a.z <= b.z { a.z } else { b.z },
        }
    }

    /// On each axis the larger of the two components.
    pub fn element_wise_max(a: Self, b: Self) -> (r: Self)
        ensures
            r == Self::spec_element_wise_max(a, b),
    {
        Vec3 {
            x: if a.x >= b.x { a.x } else { b.x },
            y: if a.y >= b.y { a.y } else { b.y },
            z: if a.z >= b.z { a.z } else { b.z },
        }
    }
}

} // verus!
