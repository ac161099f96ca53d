use vstd::prelude::*;
use crate::scalar::Scalar;
use crate::vec3::Vec3;

verus! {

/// A ray: where it starts, where it heads, and the moment at which it is cast.
/// The moment places moving primitives.
#[derive(Debug, Clone, Copy)]
pub struct Ray {
    pub origin: Vec3,
    pub direction: Vec3,
    pub time: Scalar,
}

impl Ray {
    /// Origin, direction and time are equal as numbers.
    pub open spec fn same(self, other: Ray) -> bool {
        self.origin.same(other.origin) && self.direction.same(other.direction) && self.time.same(
            other.time,
        )
    }

    /// A ray cast at time zero.
    pub fn new(origin: Vec3, direction: Vec3) -> (r: Ray)
        ensures
            r == (Ray { origin, direction, time: Scalar { bits: 0 } }),
    {
        Ray { origin, direction, time: Scalar::zero() }
    }

    pub fn new_with_time(origin: Vec3, direction: Vec3, time: Scalar) -> (r: Ray)
        ensures
            r == (Ray { origin, direction, time }),
    {
        Ray { origin, direction, time }
    }

    pub fn origin(&self) -> (r: &Vec3)
        ensures
            *r == self.origin,
    {
        &self.origin
    }

    pub fn direction(&self) -> (r: &Vec3)
        ensures
            *r == self.direction,
    {
        &self.direction
    }

    pub fn time(&self) -> (r: Scalar)
        ensures
            r == self.time,
    {
        self.time
    }
}

impl PartialEq for Ray {
    /// Equality of origin, direction and time as numbers.
    fn eq(&self, other: &Ray) -> (r: bool) {
        self.origin == other.origin && self.direction == other.direction && self.time == other.time
    }
}

impl vstd::std_specs::cmp::PartialEqSpecImpl for Ray {
    open spec fn obeys_eq_spec() -> bool {
        true
    }

    open spec fn eq_spec(&self, other: &Ray) -> bool {
        self.same(*other)
    }
}

} // verus!
