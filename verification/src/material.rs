use vstd::prelude::*;
use crate::color::Color;
use crate::object::HitRecord;
use crate::ray::Ray;
use crate::scalar::{Scalar, ONE_BITS};
use crate::vec3::Vec3;

verus! {

/// What a surface has made of a ray: the colour it lets through and the ray
/// that leaves.
#[derive(Clone, Copy, Debug)]
pub struct ScatterData {
    pub attenuation: Color,
    pub ray: Ray,
}

/// A diffuse surface.
#[derive(Clone, Copy, Debug)]
pub struct Lambertian {
    pub albedo: Color,
}

/// A mirror, blurred by `fuzz`.
#[derive(Clone, Copy, Debug)]
pub struct Metal {
    pub albedo: Color,
    pub fuzz: Scalar,
}

/// A clear body that refracts.
#[derive(Clone, Copy, Debug)]
pub struct Dielectric {
    pub refractive_index: Scalar,
}

/// The surface of a primitive.
#[derive(Clone, Copy, Debug)]
pub enum Material {
    Lambertian(Lambertian),
    Metal(Metal),
    Dielectric(Dielectric),
}

/// The two ways in which a ray can leave a dielectric, and what decides
/// between them.
#[derive(Clone, Copy, Debug)]
pub struct Refraction {
    /// The refraction ratio times the sine of the angle of incidence.
    pub scaled_sine: Scalar,
    /// The share of light that is reflected at this angle.
    pub reflectance: Scalar,
    /// A uniform draw from `[0, 1)`. It counts only where refraction is
    /// possible, so that no draw need be made where it is not.
    pub draw: Scalar,
    /// The direction of the mirrored ray.
    pub reflected: Vec3,
    /// The direction of the bent ray.
    pub refracted: Vec3,
}

impl ScatterData {
    pub fn new(attenuation: Color, ray: Ray) -> (r: ScatterData)
        ensures
            r == (ScatterData { attenuation, ray }),
    {
        ScatterData { attenuation, ray }
    }

    pub fn attenuation(&self) -> (r: &Color)
        ensures
            *r == self.attenuation,
    {
        &self.attenuation
    }

    pub fn ray(&self) -> (r: &Ray)
        ensures
            *r == self.ray,
    {
        &self.ray
    }
}

impl Lambertian {
    pub fn new(albedo: Color) -> (r: Lambertian)
        ensures
            r == (Lambertian { albedo }),
    {
        Lambertian { albedo }
    }

    /// The direction in which the ray leaves: `direction`, unless it has all
    /// but vanished, in which case the normal stands in for it.
    pub open spec fn outgoing(hit_data: HitRecord, direction: Vec3) -> Vec3 {
        if direction.spec_near_zero() {
            hit_data.normal
        } else {
            direction
        }
    }

    /// Scatters diffusely. `direction` is the sum of the normal and a random
    /// unit vector. The ray always leaves, from the point that was hit, at the
    /// time of the incoming ray, and carries the albedo.
    pub fn scatter(&self, ray_in: &Ray, hit_data: &HitRecord, direction: Vec3) -> (r: Option<
        ScatterData,
    >)
        ensures
            r == Some(
                ScatterData {
                    attenuation: self.albedo,
                    ray: Ray {
                        origin: hit_data.position,
                        direction: Lambertian::outgoing(*hit_data, direction),
                        time: ray_in.time,
                    },
                },
            ),
    {
        let new_ray;
        if direction.near_zero() {
            new_ray = Ray::new_with_time(hit_data.position(), hit_data.normal(), ray_in.time());
        } else {
            new_ray = Ray::new_with_time(hit_data.position(), direction, ray_in.time());
        }
        Some(ScatterData::new(self.albedo, new_ray))
    }
}

impl Metal {
    pub fn new(albedo: Color, fuzz: Scalar) -> (r: Metal)
        ensures
            r == (Metal { albedo, fuzz }),
    {
        Metal { albedo, fuzz }
    }

    /// Reflects. `reflected` is the mirrored direction after the fuzz has
    /// been added, `facing` its dot product with the normal. A ray that would
    /// leave into the surface (`facing <= 0`) is absorbed; every other ray
    /// leaves along `reflected` and carries the albedo.
    pub fn scatter(&self, ray_in: &Ray, hit_data: &HitRecord, reflected: Vec3, facing: Scalar) -> (r:
        Option<ScatterData>)
        ensures
            r == (if facing.spec_le(Scalar { bits: 0 }) {
                None
            } else {
                Some(
                    ScatterData {
                        attenuation: self.albedo,
                        ray: Ray {
                            origin: hit_data.position,
                            direction: reflected,
                            time: ray_in.time,
                        },
                    },
                )
            }),
    {
        if facing.le(Scalar::zero()) {
            return None;
        }
        Some(
            ScatterData::new(
                self.albedo,
                Ray::new_with_time(hit_data.position(), reflected, ray_in.time()),
            ),
        )
    }
}

impl Refraction {
    /// Whether the ray is mirrored: refraction is impossible, or the
    /// reflectance exceeds the draw.
    pub open spec fn reflects(self) -> bool {
        Dielectric::spec_cannot_refract(self.scaled_sine) || self.reflectance.spec_gt(self.draw)
    }

    /// The direction in which the ray leaves.
    pub open spec fn outgoing(self) -> Vec3 {
        if self.reflects() {
            self.reflected
        } else {
            self.refracted
        }
    }
}

impl Dielectric {
    pub fn new(refractive_index: Scalar) -> (r: Dielectric)
        ensures
            r == (Dielectric { refractive_index }),
    {
        Dielectric { refractive_index }
    }

    /// Whether no ray can be refracted at an angle: the refraction ratio times
    /// the sine of the angle exceeds one.
    pub open spec fn spec_cannot_refract(scaled_sine: Scalar) -> bool {
        scaled_sine.spec_gt(Scalar { bits: ONE_BITS })
    }

    /// Whether no ray can be refracted at an angle, so that the ray is
    /// mirrored whatever is drawn. `scaled_sine` is the refraction ratio times
    /// the sine of the angle of incidence.
    #[verifier::when_used_as_spec(spec_cannot_refract)]
    pub fn cannot_refract(scaled_sine: Scalar) -> (r: bool)
        ensures
            r == Dielectric::spec_cannot_refract(scaled_sine),
    {
        scaled_sine.gt(Scalar::one())
    }

    /// The ratio of the refractive indices across the surface: the inverse of
    /// the body's index for a ray that enters it, the index itself for a ray
    /// that leaves it. `inverse` is one over the body's index.
    pub fn refraction_ratio(&self, front_face: bool, inverse: Scalar) -> (r: Scalar)
        ensures
            r == (if front_face {
                inverse
            } else {
                self.refractive_index
            }),
    {
        if front_face {
            inverse
        } else {
            self.refractive_index
        }
    }

    /// Refracts or reflects. The ray always leaves, with nothing absorbed:
    /// mirrored when `refraction.reflects()`, bent otherwise.
    pub fn scatter(&self, ray_in: &Ray, hit_data: &HitRecord, refraction: &Refraction) -> (r:
        Option<ScatterData>)
        ensures
            r == Some(
                ScatterData {
                    attenuation: Vec3 {
                        x: Scalar { bits: ONE_BITS },
                        y: Scalar { bits: ONE_BITS },
                        z: Scalar { bits: ONE_BITS },
                    },
                    ray: Ray {
                        origin: hit_data.position,
                        direction: refraction.outgoing(),
                        time: ray_in.time,
                    },
                },
            ),
    {
        let cant_refract = Dielectric::cannot_refract(refraction.scaled_sine);
        let white = Color::new(Scalar::one(), Scalar::one(), Scalar::one());
        if cant_refract || refraction.reflectance.gt(refraction.draw) {
            Some(
                ScatterData::new(
                    white,
                    Ray::new_with_time(hit_data.position(), refraction.reflected, ray_in.time()),
                ),
            )
        } else {
            Some(
                ScatterData::new(
                    white,
                    Ray::new_with_time(hit_data.position(), refraction.refracted, ray_in.time()),
                ),
            )
        }
    }
}

} // verus!
