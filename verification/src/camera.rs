use vstd::prelude::*;
use crate::color::Color;
use crate::interval::Interval;
use crate::material::ScatterData;
use crate::ray::Ray;
use crate::scalar::{Scalar, INFINITY_BITS};
use crate::vec3::{Point3, Vec3};

verus! {

/// The pattern of `0.001`: the least ray parameter at which a hit counts, so
/// that a ray does not hit the surface it has just left.
pub const SHADOW_EPSILON_BITS: u64 = 0x3f50_624d_d2f1_a9fc;

/// The vectors that place the pixels and the lens in space.
#[derive(Clone, Copy, Debug)]
pub struct Viewport {
    /// The centre of the pixel in the upper left corner.
    pub pixel00_loc: Point3,
    /// The step from a pixel to its right neighbour.
    pub pixel_delta_u: Vec3,
    /// The step from a pixel to the one below it.
    pub pixel_delta_v: Vec3,
    /// The horizontal radius of the lens.
    pub defocus_disk_u: Vec3,
    /// The vertical radius of the lens.
    pub defocus_disk_v: Vec3,
}

/// A camera: the size of the image, where its pixels lie, how often each is
/// sampled and how often a ray may bounce.
#[derive(Clone, Copy, Debug)]
pub struct Camera {
    pub aspect_ratio: Scalar,
    pub image_width: i32,
    pub image_height: i32,
    pub center: Point3,
    pub pixel00_loc: Point3,
    pub pixel_delta_u: Vec3,
    pub pixel_delta_v: Vec3,
    pub samples_per_pixel: u32,
    pub pixel_samples_scale: Scalar,
    pub max_depth: u32,
    pub defocus_disk_u: Vec3,
    pub defocus_disk_v: Vec3,
    pub defocus_angle: Scalar,
}

/// What has become of a ray in the scene.
#[derive(Clone, Copy, Debug)]
pub enum Outcome {
    /// It has hit nothing.
    Miss,
    /// It has hit a surface that has swallowed it.
    Absorbed,
    /// It has hit a surface and has left it again.
    Scattered(ScatterData),
}

/// The light at the end of a path.
#[derive(Clone, Copy, Debug)]
pub enum Radiance {
    /// None.
    Black,
    /// That of the sky in the direction of the ray.
    Sky(Ray),
}

/// What is to be done next for a path.
#[derive(Clone, Copy, Debug)]
pub enum Step {
    /// The ray is to be intersected with the scene within the window.
    Trace(Ray, Interval),
    /// The path has ended.
    Done(Radiance),
}

/// A path of light, followed from the camera: the ray that is under way, the
/// number of rays that may still be cast, and the colours that the surfaces
/// met so far have let through, the first surface first. The light of the
/// path is the light at its end, multiplied by each of those colours.
#[derive(Debug)]
pub struct Path {
    pub ray: Ray,
    pub depth: u32,
    pub attenuation: Vec<Color>,
}

/// The window in which a hit counts: from the shadow epsilon to infinity.
pub open spec fn spec_search_window() -> Interval {
    Interval { min: Scalar { bits: SHADOW_EPSILON_BITS }, max: Scalar { bits: INFINITY_BITS } }
}

/// The step that follows for a path that may cast `depth` more rays, the
/// first of them `ray`: none once the depth is spent.
pub open spec fn step_for(ray: Ray, depth: u32) -> Step {
    if depth == 0 {
        Step::Done(Radiance::Black)
    } else {
        Step::Trace(ray, spec_search_window())
    }
}

impl Path {
    /// A path that starts with `ray` and may cast `depth` rays.
    pub fn new(ray: Ray, depth: u32) -> (r: Path)
        ensures
            r.ray == ray,
            r.depth == depth,
            r.attenuation@ == Seq::<Color>::empty(),
    {
        Path { ray, depth, attenuation: Vec::new() }
    }
}

impl Camera {
    /// The number of rows of an image, given the width divided by the aspect
    /// ratio and cut down to a whole number: that number, and at least one.
    pub open spec fn spec_image_height(quotient: i32) -> i32 {
        if quotient > 1 {
            quotient
        } else {
            1
        }
    }

    /// Whether rays start from a lens rather than from one point.
    pub open spec fn spec_defocused(&self) -> bool {
        !self.defocus_angle.spec_le(Scalar { bits: 0 })
    }

    /// The number of rows of an image.
    pub fn image_height(quotient: i32) -> (r: i32)
        ensures
            r == Camera::spec_image_height(quotient),
            r >= 1,
    {
        if quotient > 1 {
            quotient
        } else {
            1
        }
    }

    /// A camera at `look_from`. `quotient` is the width divided by the aspect
    /// ratio, cut down to a whole number; `pixel_samples_scale` is one over
    /// the number of samples; `viewport` holds the vectors of an image of
    /// `image_width` columns and `Camera::image_height(quotient)` rows.
    pub fn new(
        aspect_ratio: Scalar,
        image_width: i32,
        quotient: i32,
        samples_per_pixel: u32,
        pixel_samples_scale: Scalar,
        max_depth: u32,
        look_from: Point3,
        viewport: Viewport,
        defocus_angle: Scalar,
    ) -> (r: Camera)
        ensures
            r == (Camera {
                aspect_ratio,
                image_width,
                image_height: Camera::spec_image_height(quotient),
                center: look_from,
                pixel00_loc: viewport.pixel00_loc,
                pixel_delta_u: viewport.pixel_delta_u,
                pixel_delta_v: viewport.pixel_delta_v,
                samples_per_pixel,
                pixel_samples_scale,
                max_depth,
                defocus_disk_u: viewport.defocus_disk_u,
                defocus_disk_v: viewport.defocus_disk_v,
                defocus_angle,
            }),
    {
        Camera {
            aspect_ratio,
            image_width,
            image_height: Camera::image_height(quotient),
            center: look_from,
            pixel00_loc: viewport.pixel00_loc,
            pixel_delta_u: viewport.pixel_delta_u,
            pixel_delta_v: viewport.pixel_delta_v,
            samples_per_pixel,
            pixel_samples_scale,
            max_depth,
            defocus_disk_u: viewport.defocus_disk_u,
            defocus_disk_v: viewport.defocus_disk_v,
            defocus_angle,
        }
    }

    /// Whether rays start from a lens: they do unless the defocus angle is
    /// zero or less.
    #[verifier::when_used_as_spec(spec_defocused)]
    pub fn defocused(&self) -> (r: bool)
        ensures
            r == self.spec_defocused(),
    {
        !self.defocus_angle.le(Scalar::zero())
    }

    /// The view ray through a point of a pixel. `pinhole` is the ray from the
    /// centre of the camera, `lens` the ray from a point of the lens; the
    /// first is cast unless the camera is defocused.
    pub fn get_ray(&self, pinhole: Ray, lens: Ray) -> (r: Ray)
        ensures
            r == (if self.spec_defocused() {
                lens
            } else {
                pinhole
            }),
    {
        if self.defocus_angle.le(Scalar::zero()) {
            pinhole
        } else {
            lens
        }
    }

    /// The window in which a hit counts.
    pub fn search_window() -> (r: Interval)
        ensures
            r == spec_search_window(),
    {
        Interval::new(Scalar::from_bits(SHADOW_EPSILON_BITS), Scalar::infinity())
    }

    /// The path of a view ray: it may cast as many rays as the camera allows.
    pub fn path(&self, ray: Ray) -> (r: Path)
        ensures
            r.ray == ray,
            r.depth == self.max_depth,
            r.attenuation@ == Seq::<Color>::empty(),
    {
        Path::new(ray, self.max_depth)
    }

    /// One step of the radiance integrator. `outcome` tells what has become
    /// of the ray of the path, or is `None` where the ray has not been cast.
    ///
    /// A path whose depth is spent ends in black, whatever the outcome. A ray
    /// that has not been cast is to be traced. A ray that has missed ends
    /// the path in the sky, a ray that was absorbed ends it in black. A ray
    /// that was scattered hands its colour to the path, the scattered ray
    /// takes its place with one ray less to cast, and is to be traced unless
    /// that was the last.
    ///
    /// The rays cast and the rays left always add up to the same number, so
    /// that a path ends after as many rays as its depth.
    pub fn ray_color(path: &mut Path, outcome: Option<Outcome>) -> (r: Step)
        ensures
            old(path).depth == 0 ==> r == Step::Done(Radiance::Black) && *final(path) == *old(path),
            old(path).depth > 0 ==> match outcome {
                None => r == Step::Trace(old(path).ray, spec_search_window()) && *final(path)
                    == *old(path),
                Some(Outcome::Miss) => r == Step::Done(Radiance::Sky(old(path).ray)) && *final(path)
                    == *old(path),
                Some(Outcome::Absorbed) => r == Step::Done(Radiance::Black) && *final(path) == *old(
                    path,
                ),
                Some(Outcome::Scattered(s)) => {
                    &&& final(path).ray == s.ray
                    &&& final(path).depth == old(path).depth - 1
                    &&& final(path).attenuation@ == old(path).attenuation@.push(s.attenuation)
                    &&& r == step_for(s.ray, final(path).depth)
                },
            },
            final(path).depth + final(path).attenuation@.len() == old(path).depth + old(
                path,
            ).attenuation@.len(),
    {
        if path.depth == 0 {
            return Step::Done(Radiance::Black);
        }
        match outcome {
            None => Step::Trace(path.ray, Camera::search_window()),
            Some(Outcome::Miss) => Step::Done(Radiance::Sky(path.ray)),
            Some(Outcome::Absorbed) => Step::Done(Radiance::Black),
            Some(Outcome::Scattered(scatter)) => {
                path.attenuation.push(scatter.attenuation);
                path.ray = scatter.ray;
                path.depth = path.depth - 1;
                if path.depth == 0 {
                    Step::Done(Radiance::Black)
                } else {
                    Step::Trace(path.ray, Camera::search_window())
                }
            },
        }
    }
}

} // verus!
