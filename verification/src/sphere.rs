use vstd::prelude::*;
use crate::aabb::AABB;
use crate::interval::Interval;
use crate::material::Material;
use crate::object::HitRecord;
use crate::scalar::Scalar;
use crate::vec3::{Point3, Vec3};

verus! {

/// One point at which a ray pierces a surface.
#[derive(Clone, Copy, Debug)]
pub struct Crossing {
    /// The ray parameter of the point.
    pub t: Scalar,
    /// The point itself.
    pub position: Point3,
    /// The unit normal that points away from the body.
    pub outward_normal: Vec3,
    /// The dot product of the ray's direction with the outward normal.
    pub facing: Scalar,
}

/// The solved intersection of one ray with one sphere: the discriminant of
/// the quadratic and the points that belong to its two roots, the smaller
/// root first.
#[derive(Clone, Copy, Debug)]
pub struct SphereTimes {
    pub discriminant: Scalar,
    pub near: Crossing,
    pub far: Crossing,
}

/// A sphere at rest.
#[derive(Clone, Copy, Debug)]
pub struct Sphere {
    pub center: Point3,
    pub radius: Scalar,
    pub aabb: AABB,
    pub material: Material,
}

/// A sphere that moves along `offset` while time runs from 0 to 1.
#[derive(Clone, Copy, Debug)]
pub struct MovingSphere {
    pub center: Vec3,
    pub offset: Vec3,
    pub radius: Scalar,
    pub aabb: AABB,
    pub material: Material,
}

impl Crossing {
    pub fn new(t: Scalar, position: Point3, outward_normal: Vec3, facing: Scalar) -> (r: Crossing)
        ensures
            r == (Crossing { t, position, outward_normal, facing }),
    {
        Crossing { t, position, outward_normal, facing }
    }

    /// The hit record of this crossing on a surface of the given material.
    pub open spec fn record(self, material: Material) -> HitRecord {
        HitRecord::spec_new(self.position, self.outward_normal, self.facing, self.t, material)
    }
}

impl SphereTimes {
    pub fn new(discriminant: Scalar, near: Crossing, far: Crossing) -> (r: SphereTimes)
        ensures
            r == (SphereTimes { discriminant, near, far }),
    {
        SphereTimes { discriminant, near, far }
    }

    /// The far root is not smaller than the near root.
    pub open spec fn ordered(self) -> bool {
        !self.far.t.spec_lt(self.near.t)
    }

    /// Whether the roots come in order, as the laws of the closest hit ask.
    pub fn in_order(&self) -> (r: bool)
        ensures
            r == self.ordered(),
    {
        !self.far.t.lt(self.near.t)
    }

    /// The crossing that counts within a window: none under a negative
    /// discriminant; else the near one if its root lies in the window; else
    /// the far one if its root does.
    pub open spec fn first_within(self, w: Interval) -> Option<Crossing> {
        if self.discriminant.spec_lt(Scalar { bits: 0 }) {
            None
        } else if w.spec_contains(self.near.t) {
            Some(self.near)
        } else if w.spec_contains(self.far.t) {
            Some(self.far)
        } else {
            None
        }
    }
}

/// What `hit_sphere` returns: the record of the crossing that counts.
pub open spec fn spec_hit_sphere(times: SphereTimes, material: Material, w: Interval) -> Option<
    HitRecord,
> {
    match times.first_within(w) {
        Some(c) => Some(c.record(material)),
        None => None,
    }
}

/// Intersects a ray with a sphere, given the solved quadratic. A negative
/// discriminant is a miss. Otherwise the smaller root counts if it lies in
/// the closed window, else the larger root if that does, else the ray misses.
pub fn hit_sphere(times: &SphereTimes, material: &Material, interval: &Interval) -> (r: Option<
    HitRecord,
>)
    ensures
        r == spec_hit_sphere(*times, *material, *interval),
        r matches Some(h) ==> interval.spec_contains(h.t),
{
    if times.discriminant.lt(Scalar::zero()) {
        return None;
    }
    let mut root = times.near;
    if !interval.surrounds(root.t) {
        root = times.far;
        if !interval.surrounds(root.t) {
            return None;
        }
    }
    Some(HitRecord::new(root.position, root.outward_normal, root.facing, root.t, *material))
}

impl Sphere {
    /// A sphere with its bounding box. `low` and `high` are the centre moved
    /// by the radius against and along all three axes.
    pub fn new(center: Point3, radius: Scalar, low: Point3, high: Point3, material: Material) -> (r:
        Sphere)
        ensures
            r == (Sphere {
                center,
                radius,
                aabb: AABB::spec_from_bounds(low, high),
                material,
            }),
    {
        Sphere { center, radius, aabb: AABB::from_bounds(&low, &high), material }
    }

    pub fn center(&self) -> (r: Point3)
        ensures
            r == self.center,
    {
        self.center
    }

    pub fn radius(&self) -> (r: Scalar)
        ensures
            r == self.radius,
    {
        self.radius
    }

    /// Intersects a ray with the sphere within the window.
    pub fn hit(&self, times: &SphereTimes, interval: &Interval) -> (r: Option<HitRecord>)
        ensures
            r == spec_hit_sphere(*times, self.material, *interval),
    {
        hit_sphere(times, &self.material, interval)
    }

    pub fn bounding_box(&self) -> (r: &AABB)
        ensures
            *r == self.aabb,
    {
        &self.aabb
    }
}

impl MovingSphere {
    /// A sphere that moves from `center` by `offset`, with the box that
    /// bounds it all the way: the union of its bounding boxes at time 0
    /// (`low0` to `high0`) and at time 1 (`low1` to `high1`).
    pub fn new(
        center: Point3,
        offset: Vec3,
        radius: Scalar,
        low0: Point3,
        high0: Point3,
        low1: Point3,
        high1: Point3,
        material: Material,
    ) -> (r: MovingSphere)
        ensures
            r == (MovingSphere {
                center,
                offset,
                radius,
                aabb: AABB::spec_union(
                    AABB::spec_from_bounds(low0, high0),
                    AABB::spec_from_bounds(low1, high1),
                ),
                material,
            }),
    {
        MovingSphere {
            center,
            offset,
            radius,
            aabb: AABB::from_aabb(
                &AABB::from_bounds(&low0, &high0),
                &AABB::from_bounds(&low1, &high1),
            ),
            material,
        }
    }

    pub fn radius(&self) -> (r: Scalar)
        ensures
            r == self.radius,
    {
        self.radius
    }

    /// Intersects a ray with the sphere where it stands at the ray's time.
    pub fn hit(&self, times: &SphereTimes, interval: &Interval) -> (r: Option<HitRecord>)
        ensures
            r == spec_hit_sphere(*times, self.material, *interval),
    {
        hit_sphere(times, &self.material, interval)
    }

    pub fn bounding_box(&self) -> (r: &AABB)
        ensures
            *r == self.aabb,
    {
        &self.aabb
    }
}

/// A window that ends where another ends or earlier, and begins where it begins.
pub open spec fn shortened(w: Interval, limit: Scalar) -> Interval {
    Interval { min: w.min, max: limit }
}

/// With the roots in order, cutting the window short at `limit` keeps a hit
/// that lies at or before the limit and drops one that lies behind it.
pub proof fn lemma_hit_under_limit(times: SphereTimes, material: Material, w: Interval, limit: Scalar)
    requires
        times.ordered(),
        limit.spec_le(w.max),
    ensures
        spec_hit_sphere(times, material, shortened(w, limit)) matches Some(h) ==> spec_hit_sphere(
            times,
            material,
            w,
        ) == Some(h) && h.t.spec_le(limit),
        spec_hit_sphere(times, material, w) matches Some(h) ==> (if h.t.spec_le(limit) {
            spec_hit_sphere(times, material, shortened(w, limit)) == Some(h)
        } else {
            spec_hit_sphere(times, material, shortened(w, limit)).is_none()
        }),
{
}

} // verus!
