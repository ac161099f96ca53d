use raytracer::aabb::{AxisTimes, BoxTimes};
use raytracer::bvh::BVHNode;
use raytracer::camera::{Camera, Outcome, Radiance, Step, Viewport};
use raytracer::color::map_color;
use raytracer::interval::Interval;
use raytracer::material::{Lambertian, Material, Metal, ScatterData};
use raytracer::object::{HitRecord, Primitive};
use raytracer::ray::Ray;
use raytracer::scalar::Scalar;
use raytracer::sphere::{Crossing, Sphere, SphereTimes};
use raytracer::vec3::Vec3;

type V = [f64; 3];

fn s(x: f64) -> Scalar {
    Scalar::from_bits(x.to_bits())
}

fn f(x: Scalar) -> f64 {
    f64::from_bits(x.to_bits())
}

fn v(a: V) -> Vec3 {
    Vec3::new(s(a[0]), s(a[1]), s(a[2]))
}

fn w(a: Vec3) -> V {
    [f(a.x()), f(a.y()), f(a.z())]
}

fn add(a: V, b: V) -> V {
    [a[0] + b[0], a[1] + b[1], a[2] + b[2]]
}

fn sub(a: V, b: V) -> V {
    [a[0] - b[0], a[1] - b[1], a[2] - b[2]]
}

fn scale(a: V, k: f64) -> V {
    [a[0] * k, a[1] * k, a[2] * k]
}

fn dot(a: V, b: V) -> f64 {
    a[0] * b[0] + a[1] * b[1] + a[2] * b[2]
}

fn cross(a: V, b: V) -> V {
    [a[1] * b[2] - a[2] * b[1], a[2] * b[0] - a[0] * b[2], a[0] * b[1] - a[1] * b[0]]
}

fn unit(a: V) -> V {
    let l = dot(a, a).sqrt();
    [a[0] / l, a[1] / l, a[2] / l]
}

fn sphere(center: V, radius: f64, material: Material) -> Primitive {
    let r = [radius, radius, radius];
    Primitive::Sphere(Sphere::new(v(center), s(radius), v(sub(center, r)), v(add(center, r)), material))
}

fn solve(p: &Primitive, origin: V, direction: V) -> SphereTimes {
    let (center, radius) = match p {
        Primitive::Sphere(sp) => (w(sp.center()), f(sp.radius())),
        Primitive::MovingSphere(sp) => (w(sp.center), f(sp.radius())),
    };
    let oc = sub(center, origin);
    let a = dot(direction, direction);
    let h = dot(direction, oc);
    let c = dot(oc, oc) - radius * radius;
    let discriminant = h * h - a * c;
    let root = discriminant.sqrt();
    let crossing = |t: f64| {
        let position = add(origin, scale(direction, t));
        let outward = scale(sub(position, center), 1.0 / radius);
        Crossing::new(s(t), v(position), v(outward), s(dot(direction, outward)))
    };
    SphereTimes::new(s(discriminant), crossing((h - root) / a), crossing((h + root) / a))
}

fn hit(bvh: &BVHNode, origin: V, direction: V, window: &Interval) -> Option<HitRecord> {
    let times: Vec<SphereTimes> = (0..bvh.len()).map(|k| solve(bvh.primitive(k), origin, direction)).collect();
    let boxes: Vec<BoxTimes> = (0..bvh.branch_count())
        .map(|i| {
            let b = bvh.branch(i).aabb;
            let axis = |n: usize| {
                let ax = b.axis_interval(n);
                let adinv = 1.0 / direction[n];
                AxisTimes::new(s((f(ax.min) - origin[n]) * adinv), s((f(ax.max) - origin[n]) * adinv))
            };
            BoxTimes::new(axis(0), axis(1), axis(2))
        })
        .collect();
    bvh.hit(&boxes, &times, window)
}

fn extent(i: &Interval) -> Scalar {
    s(f(i.max) - f(i.min))
}

/// A camera that looks from `(0, 0, 3)` down the negative z axis.
fn camera(image_width: i32, samples: u32, max_depth: u32) -> Camera {
    let aspect_ratio = 1.0;
    let look_from = [0.0, 0.0, 3.0];
    let look_at = [0.0, 0.0, 0.0];
    let up = [0.0, 1.0, 0.0];
    let focus_dist = 3.0;
    let quotient = (image_width as f64 / aspect_ratio) as i32;
    let image_height = Camera::image_height(quotient);
    let theta = 40.0 * std::f64::consts::PI / 180.0;
    let viewport_height = 2.0 * (theta / 2.0).tan() * focus_dist;
    let viewport_width = viewport_height * (image_width as f64 / image_height as f64);
    let wv = unit(sub(look_from, look_at));
    let u = unit(cross(up, wv));
    let vv = cross(wv, u);
    let viewport_u = scale(u, viewport_width);
    let viewport_v = scale(vv, -viewport_height);
    let delta_u = scale(viewport_u, 1.0 / image_width as f64);
    let delta_v = scale(viewport_v, 1.0 / image_height as f64);
    let upper_left = sub(sub(sub(look_from, scale(wv, focus_dist)), scale(viewport_u, 0.5)), scale(viewport_v, 0.5));
    let pixel00 = add(upper_left, scale(add(delta_u, delta_v), 0.5));
    let viewport = Viewport {
        pixel00_loc: v(pixel00),
        pixel_delta_u: v(delta_u),
        pixel_delta_v: v(delta_v),
        defocus_disk_u: v([0.0; 3]),
        defocus_disk_v: v([0.0; 3]),
    };
    Camera::new(s(aspect_ratio), image_width, quotient, samples, s(1.0 / samples as f64), max_depth, v(look_from), viewport, s(0.0))
}

/// The view ray through pixel `(i, j)`, displaced within the pixel by a draw.
fn view_ray(camera: &Camera, i: i32, j: i32, draw: f64) -> Ray {
    let offset = draw - 0.5;
    let center = add(
        add(w(camera.pixel00_loc), scale(w(camera.pixel_delta_u), i as f64 + offset)),
        scale(w(camera.pixel_delta_v), j as f64 + offset),
    );
    let origin = w(camera.center);
    let pinhole = Ray::new_with_time(v(origin), v(sub(center, origin)), s(draw));
    camera.get_ray(pinhole, pinhole)
}

fn sky(ray: &Ray) -> V {
    let d = unit(w(*ray.direction()));
    let t = 0.5 * (d[1] + 1.0);
    add(scale([1.0, 1.0, 1.0], 1.0 - t), scale([0.5, 0.7, 1.0], t))
}

/// The surface scatters with every draw of the random source equal to `draw`.
fn scatter(ray: &Ray, record: &HitRecord, draw: f64) -> Option<ScatterData> {
    let p = [draw, draw, draw];
    let length_squared = dot(p, p);
    let random_unit = Vec3::random_unit_vector(s(length_squared), v(scale(p, 1.0 / length_squared.sqrt())))
        .map(w)
        .unwrap_or([0.0, 1.0, 0.0]);
    let normal = w(record.normal());
    match record.material() {
        Material::Lambertian(m) => m.scatter(ray, record, v(add(normal, random_unit))),
        Material::Metal(m) => {
            let d = w(*ray.direction());
            let mirrored = unit(sub(d, scale(normal, 2.0 * dot(d, normal))));
            let reflected = add(mirrored, scale(random_unit, f(m.fuzz)));
            m.scatter(ray, record, v(reflected), s(dot(reflected, normal)))
        }
        Material::Dielectric(_) => None,
    }
}

fn ray_color(camera: &Camera, bvh: &BVHNode, ray: Ray, draw: f64) -> V {
    let mut path = camera.path(ray);
    let mut step = Camera::ray_color(&mut path, None);
    let mut traced = 0;
    let end = loop {
        match step {
            Step::Done(radiance) => break radiance,
            Step::Trace(next, window) => {
                traced += 1;
                let outcome = match hit(bvh, w(*next.origin()), w(*next.direction()), &window) {
                    None => Outcome::Miss,
                    Some(record) => match scatter(&next, &record, draw) {
                        None => Outcome::Absorbed,
                        Some(out) => Outcome::Scattered(out),
                    },
                };
                step = Camera::ray_color(&mut path, Some(outcome));
            }
        }
    };
    assert!(traced <= camera.max_depth);
    let mut color = match end {
        Radiance::Black => [0.0, 0.0, 0.0],
        Radiance::Sky(last) => sky(&last),
    };
    for a in path.attenuation.iter().rev() {
        let a = w(*a);
        color = [a[0] * color[0], a[1] * color[1], a[2] * color[2]];
    }
    color
}

fn render(camera: &Camera, bvh: &BVHNode, draw: f64) -> Vec<u8> {
    let mut bytes = Vec::new();
    for j in 0..camera.image_height {
        for i in 0..camera.image_width {
            let mut sum = [0.0, 0.0, 0.0];
            for _ in 0..camera.samples_per_pixel {
                sum = add(sum, ray_color(camera, bvh, view_ray(camera, i, j, draw), draw));
            }
            let pixel = scale(sum, f(camera.pixel_samples_scale));
            let roots = [pixel[0].sqrt(), pixel[1].sqrt(), pixel[2].sqrt()];
            bytes.extend_from_slice(&map_color(&v(pixel), &v(roots)));
        }
    }
    bytes
}

fn unit_sphere_scene() -> BVHNode {
    let grey = Material::Lambertian(Lambertian::new(v([0.5, 0.5, 0.5])));
    BVHNode::new(vec![sphere([0.0, 0.0, 0.0], 1.0, grey)], extent)
}

#[test]
fn centre_pixel_sees_the_front_of_the_sphere() {
    let camera = camera(101, 1, 1);
    let bvh = unit_sphere_scene();
    let ray = view_ray(&camera, 50, 50, 0.5);
    let record = hit(&bvh, w(*ray.origin()), w(*ray.direction()), &Camera::search_window())
        .expect("the centre of the image shows the sphere");
    assert!(record.front_face());
    let n = w(record.normal());
    assert!(n[0].abs() < 1e-12 && n[1].abs() < 1e-12 && (n[2] - 1.0).abs() < 1e-12);
    assert!((f(record.t()) - 2.0 / 3.0).abs() < 1e-12);
}

#[test]
fn corner_pixel_sees_the_sky() {
    let camera = camera(101, 1, 1);
    let bvh = unit_sphere_scene();
    let ray = view_ray(&camera, 0, 0, 0.5);
    assert!(hit(&bvh, w(*ray.origin()), w(*ray.direction()), &Camera::search_window()).is_none());
    let mut path = camera.path(ray);
    assert!(matches!(Camera::ray_color(&mut path, None), Step::Trace(_, _)));
    match Camera::ray_color(&mut path, Some(Outcome::Miss)) {
        Step::Done(Radiance::Sky(last)) => {
            assert_eq!(w(*last.direction()), w(*ray.direction()));
            assert_eq!(w(*last.origin()), w(*ray.origin()));
        }
        _ => panic!("a ray that misses shows the sky"),
    }
    let d = unit(w(*ray.direction()));
    let t = 0.5 * (d[1] + 1.0);
    let expected = add(scale([1.0, 1.0, 1.0], 1.0 - t), scale([0.5, 0.7, 1.0], t));
    assert_eq!(ray_color(&camera, &bvh, ray, 0.5), expected);
}

#[test]
fn depth_one_shows_the_sphere_black() {
    let camera = camera(101, 1, 1);
    let bvh = unit_sphere_scene();
    let ray = view_ray(&camera, 50, 50, 0.5);
    assert_eq!(ray_color(&camera, &bvh, ray, 0.5), [0.0, 0.0, 0.0]);
}

#[test]
fn renders_with_a_fixed_random_source_are_identical() {
    let grey = Material::Lambertian(Lambertian::new(v([0.5, 0.5, 0.5])));
    let steel = Material::Metal(Metal::new(v([0.8, 0.8, 0.9]), s(0.1)));
    let objects = vec![
        sphere([0.0, 0.0, 0.0], 1.0, grey),
        sphere([0.0, -101.0, 0.0], 100.0, grey),
        sphere([1.5, 0.0, -1.0], 0.7, steel),
        sphere([-1.5, 0.2, -0.5], 0.5, steel),
    ];
    let camera = camera(24, 2, 6);
    let first = render(&camera, &BVHNode::new(objects.clone(), extent), 0.5);
    let second = render(&camera, &BVHNode::new(objects, extent), 0.5);
    assert_eq!(first.len(), 24 * 24 * 3);
    assert_eq!(first, second);
    assert!(first.iter().any(|&b| b > 0));
    // The upper left pixel shows the sky.
    let sky_pixel = sky(&view_ray(&camera, 0, 0, 0.5));
    let roots = [sky_pixel[0].sqrt(), sky_pixel[1].sqrt(), sky_pixel[2].sqrt()];
    assert_eq!(first[0..3].to_vec(), map_color(&v(sky_pixel), &v(roots)).to_vec());
}
