use vstd::prelude::*;
use crate::aabb::AABB;
use crate::interval::Interval;
use crate::material::Material;
use crate::scalar::Scalar;
use crate::sphere::{spec_hit_sphere, MovingSphere, Sphere, SphereTimes};
use crate::vec3::Vec3;

verus! {

/// Where a ray has met a surface.
///
/// `normal` always opposes the incoming ray; `front_face` tells whether the
/// surface was met from outside, so that the stored normal is the outward one.
#[derive(Copy, Clone, Debug)]
pub struct HitRecord {
    pub position: Vec3,
    pub normal: Vec3,
    pub t: Scalar,
    pub front_face: bool,
    pub material: Material,
}

impl HitRecord {
    /// The record of a hit at ray parameter `t`. `facing` is the dot product
    /// of the ray's direction with the outward normal: the surface is met
    /// from the front exactly when that is negative, and from behind the
    /// stored normal is the reversed one.
    pub open spec fn spec_new(
        position: Vec3,
        outward_normal: Vec3,
        facing: Scalar,
        t: Scalar,
        material: Material,
    ) -> HitRecord {
        let front_face = facing.spec_lt(Scalar { bits: 0 });
        HitRecord {
            position,
            normal: if front_face {
                outward_normal
            } else {
                outward_normal.spec_neg()
            },
            t,
            front_face,
            material,
        }
    }

    pub fn new(
        position: Vec3,
        outward_normal: Vec3,
        facing: Scalar,
        t: Scalar,
        material: Material,
    ) -> (r: HitRecord)
        ensures
            r == HitRecord::spec_new(position, outward_normal, facing, t, material),
    {
        let front_face = facing.lt(Scalar::zero());
        let normal = if front_face {
            outward_normal
        } else {
            outward_normal.neg()
        };
        HitRecord { position, normal, t, front_face, material }
    }

    pub fn position(&self) -> (r: Vec3)
        ensures
            r == self.position,
    {
        self.position
    }

    pub fn normal(&self) -> (r: Vec3)
        ensures
            r == self.normal,
    {
        self.normal
    }

    pub fn t(&self) -> (r: Scalar)
        ensures
            r == self.t,
    {
        self.t
    }

    pub fn front_face(&self) -> (r: bool)
        ensures
            r == self.front_face,
    {
        self.front_face
    }

    pub fn material(&self) -> (r: &Material)
        ensures
            *r == self.material,
    {
        &self.material
    }
}

/// A thing that a ray can hit: one of the shapes of the scene.
#[derive(Copy, Clone, Debug)]
pub enum Primitive {
    Sphere(Sphere),
    MovingSphere(MovingSphere),
}

impl Primitive {
    /// The material of the shape.
    pub open spec fn material(self) -> Material {
        match self {
            Primitive::Sphere(s) => s.material,
            Primitive::MovingSphere(s) => s.material,
        }
    }

    /// The bounding box of the shape.
    pub open spec fn aabb(self) -> AABB {
        match self {
            Primitive::Sphere(s) => s.aabb,
            Primitive::MovingSphere(s) => s.aabb,
        }
    }

    /// What a ray with the given solved intersection hits within the window.
    pub open spec fn spec_hit(self, times: SphereTimes, w: Interval) -> Option<HitRecord> {
        spec_hit_sphere(times, self.material(), w)
    }

    /// Intersects a ray with the shape within the window.
    pub fn hit(&self, times: &SphereTimes, interval: &Interval) -> (r: Option<HitRecord>)
        ensures
            r == self.spec_hit(*times, *interval),
    {
        match self {
            Primitive::Sphere(s) => s.hit(times, interval),
            Primitive::MovingSphere(s) => s.hit(times, interval),
        }
    }

    pub fn bounding_box(&self) -> (r: &AABB)
        ensures
            *r == self.aabb(),
    {
        match self {
            Primitive::Sphere(s) => s.bounding_box(),
            Primitive::MovingSphere(s) => s.bounding_box(),
        }
    }
}

} // verus!
