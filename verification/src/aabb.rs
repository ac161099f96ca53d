use vstd::prelude::*;
use crate::interval::Interval;
use crate::scalar::Scalar;
use crate::vec3::Point3;

verus! {

/// The two ray parameters at which a ray meets the two bounding planes of one
/// axis, in the order of the planes. Either may be infinite, or a NaN where
/// the ray runs inside a plane.
#[derive(Clone, Copy, Debug)]
pub struct AxisTimes {
    pub t0: Scalar,
    pub t1: Scalar,
}

/// The plane crossings of one ray with one box, axis by axis.
#[derive(Clone, Copy, Debug)]
pub struct BoxTimes {
    pub x: AxisTimes,
    pub y: AxisTimes,
    pub z: AxisTimes,
}

/// An axis-aligned bounding box: one interval per axis.
#[derive(Clone, Copy, Debug)]
pub struct AABB {
    pub x: Interval,
    pub y: Interval,
    pub z: Interval,
}

impl AxisTimes {
    pub fn new(t0: Scalar, t1: Scalar) -> (r: AxisTimes)
        ensures
            r == (AxisTimes { t0, t1 }),
    {
        AxisTimes { t0, t1 }
    }

    /// The crossing that the ray reaches first.
    pub open spec fn entry(self) -> Scalar {
        if self.t0.spec_lt(self.t1) {
            self.t0
        } else {
            self.t1
        }
    }

    /// The crossing that the ray reaches last.
    pub open spec fn exit(self) -> Scalar {
        if self.t0.spec_lt(self.t1) {
            self.t1
        } else {
            self.t0
        }
    }

    /// The window cut down to the stretch between the two crossings: the
    /// lower bound rises to the entry if that lies above it, the upper bound
    /// falls to the exit if that lies below it.
    pub open spec fn narrow(self, w: Interval) -> Interval {
        Interval {
            min: if self.entry().spec_gt(w.min) {
                self.entry()
            } else {
                w.min
            },
            max: if self.exit().spec_lt(w.max) {
                self.exit()
            } else {
                w.max
            },
        }
    }
}

impl BoxTimes {
    pub fn new(x: AxisTimes, y: AxisTimes, z: AxisTimes) -> (r: BoxTimes)
        ensures
            r == (BoxTimes { x, y, z }),
    {
        BoxTimes { x, y, z }
    }

    /// None of the six crossings is a NaN.
    pub open spec fn numeric(self) -> bool {
        !self.x.t0.nan() && !self.x.t1.nan() && !self.y.t0.nan() && !self.y.t1.nan()
            && !self.z.t0.nan() && !self.z.t1.nan()
    }
}

/// A window that has closed: its upper bound is no greater than its lower bound.
pub open spec fn closed_up(w: Interval) -> bool {
    w.max.spec_le(w.min)
}

impl AABB {
    /// No bound of the box is a NaN.
    pub open spec fn numeric(self) -> bool {
        self.x.numeric() && self.y.numeric() && self.z.numeric()
    }

    /// The three intervals are equal as numbers.
    pub open spec fn same(self, other: AABB) -> bool {
        self.x.same(other.x) && self.y.same(other.y) && self.z.same(other.z)
    }

    /// The point lies in the box on every axis.
    pub open spec fn holds(self, p: Point3) -> bool {
        self.x.spec_contains(p.x) && self.y.spec_contains(p.y) && self.z.spec_contains(p.z)
    }

    /// Every point of `inner` lies in `self`.
    pub open spec fn covers(self, inner: AABB) -> bool {
        forall|p: Point3| inner.holds(p) ==> #[trigger] self.holds(p)
    }

    /// The interval of axis `n`: `y` for 1, `z` for 2, `x` for anything else.
    pub open spec fn spec_axis_interval(&self, n: usize) -> Interval {
        if n == 1 {
            self.y
        } else if n == 2 {
            self.z
        } else {
            self.x
        }
    }

    /// The box spanned by two corner points, whichever way round they are given.
    pub open spec fn spec_from_bounds(a: Point3, b: Point3) -> AABB {
        AABB {
            x: if a.x.spec_lt(b.x) {
                Interval { min: a.x, max: b.x }
            } else {
                Interval { min: b.x, max: a.x }
            },
            y: if a.y.spec_lt(b.y) {
                Interval { min: a.y, max: b.y }
            } else {
                Interval { min: b.y, max: a.y }
            },
            z: if a.z.spec_lt(b.z) {
                Interval { min: a.z, max: b.z }
            } else {
                Interval { min: b.z, max: a.z }
            },
        }
    }

    /// The box of three empty intervals.
    pub open spec fn spec_empty() -> AABB {
        AABB { x: Interval::spec_empty(), y: Interval::spec_empty(), z: Interval::spec_empty() }
    }

    /// The smallest box that holds both: the union of the intervals, axis by axis.
    pub open spec fn spec_union(a: AABB, b: AABB) -> AABB {
        AABB {
            x: Interval::spec_union(a.x, b.x),
            y: Interval::spec_union(a.y, b.y),
            z: Interval::spec_union(a.z, b.z),
        }
    }

    /// The axis of greatest extent, given the three extents. Among equal
    /// extents the later axis wins: `z` before `y` before `x`.
    pub open spec fn spec_longest_axis(size_x: Scalar, size_y: Scalar, size_z: Scalar) -> usize {
        if size_x.spec_gt(size_y) && size_x.spec_gt(size_z) {
            0
        } else if size_y.spec_gt(size_z) {
            1
        } else {
            2
        }
    }

    /// The window as the slab test leaves it: narrowed axis by axis, and no
    /// further once it has closed.
    pub open spec fn settled(times: BoxTimes, w: Interval) -> Interval {
        let wx = times.x.narrow(w);
        let wy = times.y.narrow(wx);
        if closed_up(wx) {
            wx
        } else if closed_up(wy) {
            wy
        } else {
            times.z.narrow(wy)
        }
    }

    /// Whether the ray passes through the box within the window: narrowing
    /// by each axis in turn never closes the window.
    pub open spec fn passes(times: BoxTimes, w: Interval) -> bool {
        let wx = times.x.narrow(w);
        let wy = times.y.narrow(wx);
        let wz = times.z.narrow(wy);
        !closed_up(wx) && !closed_up(wy) && !closed_up(wz)
    }

    pub fn new(x: Interval, y: Interval, z: Interval) -> (r: AABB)
        ensures
            r == (AABB { x, y, z }),
    {
        AABB { x, y, z }
    }

    /// The box between two corner points: on each axis the lesser coordinate
    /// becomes the lower bound.
    pub fn from_bounds(a: &Point3, b: &Point3) -> (r: AABB)
        ensures
            r == AABB::spec_from_bounds(*a, *b),
    {
        AABB::new(
            if a.x().lt(b.x()) {
                Interval::new(a.x(), b.x())
            } else {
                Interval::new(b.x(), a.x())
            },
            if a.y().lt(b.y()) {
                Interval::new(a.y(), b.y())
            } else {
                Interval::new(b.y(), a.y())
            },
            if a.z().lt(b.z()) {
                Interval::new(a.z(), b.z())
            } else {
                Interval::new(b.z(), a.z())
            },
        )
    }

    /// The empty box, which leaves every box it is united with unchanged.
    pub fn empty() -> (r: AABB)
        ensures
            r == AABB::spec_empty(),
            forall|p: Point3| !r.holds(p),
    {
        AABB { x: Interval::empty(), y: Interval::empty(), z: Interval::empty() }
    }

    /// The union of two boxes.
    pub fn from_aabb(p0: &AABB, p1: &AABB) -> (r: AABB)
        ensures
            r == AABB::spec_union(*p0, *p1),
    {
        AABB::new(
            Interval::from(p0.x(), p1.x()),
            Interval::from(p0.y(), p1.y()),
            Interval::from(p0.z(), p1.z()),
        )
    }

    /// The axis along which a box is longest, from the extents of its three
    /// intervals: no other axis is longer than the one returned, and every
    /// later axis is strictly shorter.
    pub fn longest_axis(size_x: Scalar, size_y: Scalar, size_z: Scalar) -> (r: usize)
        ensures
            r == AABB::spec_longest_axis(size_x, size_y, size_z),
            r < 3,
            !size_x.nan() && !size_y.nan() && !size_z.nan() ==> {
                let sizes = Point3 { x: size_x, y: size_y, z: size_z };
                forall|n: usize|
                    n < 3 ==> sizes.spec_axis(n).spec_le(sizes.spec_axis(r)) && (n > r
                        ==> #[trigger] sizes.spec_axis(n).spec_lt(sizes.spec_axis(r)))
            },
    {
        if size_x.gt(size_y) && size_x.gt(size_z) {
            0
        } else if size_y.gt(size_z) {
            1
        } else {
            2
        }
    }

    /// The interval of axis `n`.
    pub fn axis_interval(&self, n: usize) -> (r: &Interval)
        ensures
            *r == self.spec_axis_interval(n),
    {
        match n {
            1 => &self.y,
            2 => &self.z,
            _ => &self.x,
        }
    }

    pub fn x(&self) -> (r: &Interval)
        ensures
            *r == self.x,
    {
        &self.x
    }

    pub fn y(&self) -> (r: &Interval)
        ensures
            *r == self.y,
    {
        &self.y
    }

    pub fn z(&self) -> (r: &Interval)
        ensures
            *r == self.z,
    {
        &self.z
    }

    /// The slab test. `times` holds the crossings of the ray with the planes
    /// of the box; `interval` is the window of ray parameters to search and
    /// is narrowed in place, axis by axis, to the stretch inside the box. The
    /// test stops as soon as the window has closed. On a hit the narrowed
    /// window is returned as well.
    ///
    /// Whatever the crossings are, the window never grows.
    pub fn hit(times: &BoxTimes, interval: &mut Interval) -> (r: Option<Interval>)
        ensures
            *final(interval) == AABB::settled(*times, *old(interval)),
            r == (if AABB::passes(*times, *old(interval)) {
                Some(*final(interval))
            } else {
                None
            }),
            old(interval).encloses(*final(interval)),
    {
        if AABB::narrow_in_place(&times.x, interval) {
            return None;
        }
        if AABB::narrow_in_place(&times.y, interval) {
            return None;
        }
        if AABB::narrow_in_place(&times.z, interval) {
            return None;
        }
        Some(*interval)
    }

    /// Narrows the window by the crossings of one axis and tells whether that
    /// has closed it.
    fn narrow_in_place(times: &AxisTimes, interval: &mut Interval) -> (shut: bool)
        ensures
            *final(interval) == times.narrow(*old(interval)),
            shut == closed_up(*final(interval)),
            old(interval).encloses(*final(interval)),
    {
        let t0 = times.t0;
        let t1 = times.t1;
        if t0.lt(t1) {
            if t0.gt(interval.min) {
                interval.min = t0;
            }
            if t1.lt(interval.max) {
                interval.max = t1;
            }
        } else {
            if t1.gt(interval.min) {
                interval.min = t1;
            }
            if t0.lt(interval.max) {
                interval.max = t0;
            }
        }
        interval.max.le(interval.min)
    }
}

/// A union with itself is the box itself, bit for bit.
pub proof fn lemma_union_idempotent(a: AABB)
    ensures
        AABB::spec_union(a, a) == a,
{
}

/// The union of two boxes without NaN bounds does not depend on their order.
pub proof fn lemma_union_commutes(a: AABB, b: AABB)
    requires
        a.numeric(),
        b.numeric(),
    ensures
        AABB::spec_union(a, b).same(AABB::spec_union(b, a)),
{
}

/// The union of two boxes without NaN bounds covers both of them.
pub proof fn lemma_union_covers(a: AABB, b: AABB)
    requires
        a.numeric(),
        b.numeric(),
    ensures
        AABB::spec_union(a, b).covers(a),
        AABB::spec_union(a, b).covers(b),
        AABB::spec_union(a, b).numeric(),
{
}

/// The empty box is the identity of the union: on the left for every box, on
/// the right for every box without NaN bounds.
pub proof fn lemma_union_empty(a: AABB)
    ensures
        AABB::spec_union(AABB::spec_empty(), a) == a,
        a.numeric() ==> AABB::spec_union(a, AABB::spec_empty()) == a,
{
}

/// Two corner points without NaN coordinates span the same box in either
/// order, and the box holds both.
pub proof fn lemma_from_bounds_symmetric(a: Point3, b: Point3)
    requires
        !a.x.nan() && !a.y.nan() && !a.z.nan(),
        !b.x.nan() && !b.y.nan() && !b.z.nan(),
    ensures
        AABB::spec_from_bounds(a, b).same(AABB::spec_from_bounds(b, a)),
        AABB::spec_from_bounds(a, b).holds(a),
        AABB::spec_from_bounds(a, b).holds(b),
        AABB::spec_from_bounds(a, b).numeric(),
{
}

/// What the slab test returns lies within the window it was given: neither
/// bound has moved outwards.
pub proof fn lemma_hit_within_window(times: BoxTimes, w: Interval)
    ensures
        w.encloses(AABB::settled(times, w)),
        AABB::passes(times, w) ==> AABB::settled(times, w) == times.z.narrow(
            times.y.narrow(times.x.narrow(w)),
        ),
{
}

/// With crossings and a window that hold no NaN, the slab test passes exactly
/// when some stretch of positive length lies inside the window and between
/// the two crossings of every axis, and it returns that stretch.
pub proof fn lemma_hit_is_intersection(times: BoxTimes, w: Interval)
    requires
        times.numeric(),
        w.numeric(),
    ensures
        ({
            let r = times.z.narrow(times.y.narrow(times.x.narrow(w)));
            &&& AABB::passes(times, w) <==> r.min.spec_lt(r.max)
            &&& r.numeric()
            &&& r.min.spec_ge(w.min) && r.min.spec_ge(times.x.entry()) && r.min.spec_ge(
                times.y.entry(),
            ) && r.min.spec_ge(times.z.entry())
            &&& r.min == w.min || r.min == times.x.entry() || r.min == times.y.entry() || r.min
                == times.z.entry()
            &&& r.max.spec_le(w.max) && r.max.spec_le(times.x.exit()) && r.max.spec_le(
                times.y.exit(),
            ) && r.max.spec_le(times.z.exit())
            &&& r.max == w.max || r.max == times.x.exit() || r.max == times.y.exit() || r.max
                == times.z.exit()
        }),
{
}

} // verus!
