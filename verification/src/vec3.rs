use vstd::prelude::*;
use crate::scalar::Scalar;

verus! {

/// The pattern of `1e-8`, below which a component counts as vanished.
pub const NEAR_ZERO_BITS: u64 = 0x3e45_798e_e230_8c3a;

/// The pattern of `1e-160`, the least squared length that can still be normalised.
pub const LEAST_SQUARED_LENGTH_BITS: u64 = 0x1eb6_7e9c_127b_6e74;

/// Three scalars: a direction, a point or a colour.
#[derive(Debug, Copy, Clone)]
pub struct Vec3 {
    pub x: Scalar,
    pub y: Scalar,
    pub z: Scalar,
}

/// A position in space.
pub type Point3 = Vec3;

impl Vec3 {
    /// The component on axis `n`: `y` for 1, `z` for 2, `x` for anything else.
    pub open spec fn spec_axis(&self, n: usize) -> Scalar {
        if n == 1 {
            self.y
        } else if n == 2 {
            self.z
        } else {
            self.x
        }
    }

    /// The vector of the negated components.
    pub open spec fn spec_neg(self) -> Vec3 {
        Vec3 { x: self.x.spec_neg(), y: self.y.spec_neg(), z: self.z.spec_neg() }
    }

    /// Whether every component is smaller than `1e-8` in magnitude.
    pub open spec fn spec_near_zero(&self) -> bool {
        let s = Scalar { bits: NEAR_ZERO_BITS };
        self.x.spec_abs().spec_lt(s) && self.y.spec_abs().spec_lt(s) && self.z.spec_abs().spec_lt(s)
    }

    /// Whether the two vectors are equal component by component, as numbers.
    pub open spec fn same(self, other: Vec3) -> bool {
        self.x.same(other.x) && self.y.same(other.y) && self.z.same(other.z)
    }

    /// Whether a squared length lies in `(1e-160, 1]`: inside the unit ball and
    /// far enough from the origin to be normalised.
    pub open spec fn normalisable(length_squared: Scalar) -> bool {
        length_squared.spec_le(Scalar { bits: crate::scalar::ONE_BITS })
            && (Scalar { bits: LEAST_SQUARED_LENGTH_BITS }).spec_lt(length_squared)
    }

    pub fn new(x: Scalar, y: Scalar, z: Scalar) -> (r: Vec3)
        ensures
            r == (Vec3 { x, y, z }),
    {
        Vec3 { x, y, z }
    }

    pub fn x(&self) -> (r: Scalar)
        ensures
            r == self.x,
    {
        self.x
    }

    pub fn y(&self) -> (r: Scalar)
        ensures
            r == self.y,
    {
        self.y
    }

    pub fn z(&self) -> (r: Scalar)
        ensures
            r == self.z,
    {
        self.z
    }

    /// The component on axis `n`.
    #[verifier::when_used_as_spec(spec_axis)]
    pub fn axis(&self, n: usize) -> (r: Scalar)
        ensures
            r == self.spec_axis(n),
    {
        if n == 1 {
            self.y
        } else if n == 2 {
            self.z
        } else {
            self.x
        }
    }

    /// The opposite vector.
    #[verifier::when_used_as_spec(spec_neg)]
    pub fn neg(self) -> (r: Vec3)
        ensures
            r == self.spec_neg(),
    {
        Vec3 { x: self.x.neg(), y: self.y.neg(), z: self.z.neg() }
    }

    /// Whether the vector has all but vanished, so that it gives no direction.
    #[verifier::when_used_as_spec(spec_near_zero)]
    pub fn near_zero(&self) -> (r: bool)
        ensures
            r == self.spec_near_zero(),
    {
        let s = Scalar::from_bits(NEAR_ZERO_BITS);
        self.x.abs().lt(s) && self.y.abs().lt(s) && self.z.abs().lt(s)
    }

    /// One round of sampling a direction uniformly: a point drawn from the
    /// unit cube, with squared length `length_squared`, is kept when it lies
    /// in the unit ball and can be normalised. `unit` is the point scaled to
    /// length one; the caller draws again on `None`.
    pub fn random_unit_vector(length_squared: Scalar, unit: Vec3) -> (r: Option<Vec3>)
        ensures
            r == (if Vec3::normalisable(length_squared) {
                Some(unit)
            } else {
                None
            }),
    {
        if length_squared.le(Scalar::one()) && Scalar::from_bits(LEAST_SQUARED_LENGTH_BITS).lt(
            length_squared,
        ) {
            Some(unit)
        } else {
            None
        }
    }

    /// One round of sampling a point of the unit disk: a point `p` drawn from
    /// the square, with squared length `length_squared`, is kept when it lies
    /// strictly inside the unit circle; the caller draws again on `None`.
    pub fn random_in_unit_disk(p: Vec3, length_squared: Scalar) -> (r: Option<Vec3>)
        ensures
            r == (if length_squared.spec_lt(Scalar { bits: crate::scalar::ONE_BITS }) {
                Some(p)
            } else {
                None
            }),
    {
        if length_squared.lt(Scalar::one()) {
            Some(p)
        } else {
            None
        }
    }

    /// Turns a unit vector into the hemisphere of a normal: `facing` is their
    /// dot product, and the vector is reversed unless that is positive.
    pub fn random_on_hemisphere(unit: Vec3, facing: Scalar) -> (r: Vec3)
        ensures
            r == (if facing.spec_gt(Scalar { bits: 0 }) {
                unit
            } else {
                unit.spec_neg()
            }),
    {
        if facing.gt(Scalar::zero()) {
            unit
        } else {
            unit.neg()
        }
    }
}

impl PartialEq for Vec3 {
    /// Equality of the components as numbers.
    fn eq(&self, other: &Vec3) -> (r: bool) {
        self.x == other.x && self.y == other.y && self.z == other.z
    }
}

impl vstd::std_specs::cmp::PartialEqSpecImpl for Vec3 {
    open spec fn obeys_eq_spec() -> bool {
        true
    }

    open spec fn eq_spec(&self, other: &Vec3) -> bool {
        self.same(*other)
    }
}

} // verus!
