use vstd::prelude::*;
use crate::scalar::{Scalar, INFINITY_BITS, NEG_INFINITY_BITS};

verus! {

/// A closed range of scalars, `min` to `max`. With `min > max` it is empty.
#[derive(Clone, Copy, Debug)]
pub struct Interval {
    pub min: Scalar,
    pub max: Scalar,
}

impl Interval {
    /// Neither bound is a NaN.
    pub open spec fn numeric(self) -> bool {
        !self.min.nan() && !self.max.nan()
    }

    /// `min <= x <= max`.
    pub open spec fn spec_contains(&self, x: Scalar) -> bool {
        self.min.spec_le(x) && x.spec_le(self.max)
    }

    /// Both bounds are equal as numbers.
    pub open spec fn same(self, other: Interval) -> bool {
        self.min.same(other.min) && self.max.same(other.max)
    }

    /// `inner` reaches no further than `self` on either side: each bound of
    /// `inner` is the very bound of `self` or lies strictly inside it.
    pub open spec fn encloses(self, inner: Interval) -> bool {
        (inner.min == self.min || self.min.spec_lt(inner.min)) && (inner.max == self.max
            || inner.max.spec_lt(self.max))
    }

    /// The smallest interval that holds both: the lesser `min`, the greater `max`.
    pub open spec fn spec_union(a: Interval, b: Interval) -> Interval {
        Interval {
            min: if a.min.spec_lt(b.min) {
                a.min
            } else {
                b.min
            },
            max: if a.max.spec_gt(b.max) {
                a.max
            } else {
                b.max
            },
        }
    }

    /// The interval from positive to negative infinity, which holds nothing.
    pub open spec fn spec_empty() -> Interval {
        Interval { min: Scalar { bits: INFINITY_BITS }, max: Scalar { bits: NEG_INFINITY_BITS } }
    }

    /// The interval from negative to positive infinity, which holds every number.
    pub open spec fn spec_universe() -> Interval {
        Interval { min: Scalar { bits: NEG_INFINITY_BITS }, max: Scalar { bits: INFINITY_BITS } }
    }

    /// `x` moved to the nearer bound when it lies outside.
    pub open spec fn spec_clamp(&self, x: Scalar) -> Scalar {
        if x.spec_lt(self.min) {
            self.min
        } else if x.spec_gt(self.max) {
            self.max
        } else {
            x
        }
    }

    pub fn new(min: Scalar, max: Scalar) -> (r: Interval)
        ensures
            r == (Interval { min, max }),
    {
        Interval { min, max }
    }

    /// The union of two intervals.
    pub fn from(a: &Interval, b: &Interval) -> (r: Interval)
        ensures
            r == Interval::spec_union(*a, *b),
    {
        Interval::new(
            if a.min.lt(b.min) {
                a.min
            } else {
                b.min
            },
            if a.max.gt(b.max) {
                a.max
            } else {
                b.max
            },
        )
    }

    /// Whether `x` lies in the closed range.
    #[verifier::when_used_as_spec(spec_contains)]
    pub fn contains(&self, x: Scalar) -> (r: bool)
        ensures
            r == self.spec_contains(x),
    {
        self.min.le(x) && x.le(self.max)
    }

    /// Whether `x` lies in the closed range; the same test as `contains`.
    pub fn surrounds(&self, x: Scalar) -> (r: bool)
        ensures
            r == self.spec_contains(x),
    {
        self.min.le(x) && x.le(self.max)
    }

    /// The empty interval, which leaves every interval it is united with unchanged.
    pub fn empty() -> (r: Interval)
        ensures
            r == Interval::spec_empty(),
            forall|x: Scalar| !r.spec_contains(x),
    {
        Interval::new(Scalar::infinity(), Scalar::neg_infinity())
    }

    /// The interval of all numbers.
    pub fn universe() -> (r: Interval)
        ensures
            r == Interval::spec_universe(),
            forall|x: Scalar| !x.nan() ==> r.spec_contains(x),
    {
        Interval::new(Scalar::neg_infinity(), Scalar::infinity())
    }

    /// `x` moved into the range.
    #[verifier::when_used_as_spec(spec_clamp)]
    pub fn clamp(&self, x: Scalar) -> (r: Scalar)
        ensures
            r == self.spec_clamp(x),
            self.numeric() && !x.nan() && self.min.spec_le(self.max) ==> self.spec_contains(r),
            self.spec_contains(x) ==> r == x,
    {
        if x.lt(self.min) {
            self.min
        } else if x.gt(self.max) {
            self.max
        } else {
            x
        }
    }
}

/// A union with itself is the interval itself, bit for bit.
pub proof fn lemma_union_idempotent(a: Interval)
    ensures
        Interval::spec_union(a, a) == a,
{
}

/// The union of two intervals without NaN bounds does not depend on their
/// order: both bounds come out as the same numbers.
pub proof fn lemma_union_commutes(a: Interval, b: Interval)
    requires
        a.numeric(),
        b.numeric(),
    ensures
        Interval::spec_union(a, b).same(Interval::spec_union(b, a)),
{
}

/// The union of two intervals without NaN bounds holds whatever either holds.
pub proof fn lemma_union_covers(a: Interval, b: Interval, x: Scalar)
    requires
        a.numeric(),
        b.numeric(),
    ensures
        a.spec_contains(x) ==> Interval::spec_union(a, b).spec_contains(x),
        b.spec_contains(x) ==> Interval::spec_union(a, b).spec_contains(x),
        Interval::spec_union(a, b).numeric(),
{
}

/// The empty interval is the identity of the union: on the left for every
/// interval, on the right for every interval without NaN bounds.
pub proof fn lemma_union_empty(a: Interval)
    ensures
        Interval::spec_union(Interval::spec_empty(), a) == a,
        a.numeric() ==> Interval::spec_union(a, Interval::spec_empty()) == a,
{
}

} // verus!
