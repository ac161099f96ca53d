use raytracer::aabb::{AxisTimes, BoxTimes, AABB};
use raytracer::bvh::{BVHChild, BVHNode};
use raytracer::color::Color;
use raytracer::hittable_list::HittableList;
use raytracer::interval::Interval;
use raytracer::material::{Lambertian, Material};
use raytracer::object::{HitRecord, Primitive};
use raytracer::scalar::Scalar;
use raytracer::sorting::{box_compare, sort_span};
use raytracer::sphere::{hit_sphere, Crossing, MovingSphere, Sphere, SphereTimes};
use raytracer::vec3::Vec3;
use std::cmp::Ordering;

type V = [f64; 3];

fn s(x: f64) -> Scalar {
    Scalar::from_bits(x.to_bits())
}

fn f(x: Scalar) -> f64 {
    f64::from_bits(x.to_bits())
}

fn v(a: V) -> Vec3 {
    Vec3::new(s(a[0]), s(a[1]), s(a[2]))
}

fn w(a: Vec3) -> V {
    [f(a.x()), f(a.y()), f(a.z())]
}

fn add(a: V, b: V) -> V {
    [a[0] + b[0], a[1] + b[1], a[2] + b[2]]
}

fn sub(a: V, b: V) -> V {
    [a[0] - b[0], a[1] - b[1], a[2] - b[2]]
}

fn scale(a: V, k: f64) -> V {
    [a[0] * k, a[1] * k, a[2] * k]
}

fn dot(a: V, b: V) -> f64 {
    a[0] * b[0] + a[1] * b[1] + a[2] * b[2]
}

fn grey() -> Material {
    Material::Lambertian(Lambertian::new(Color::new(s(0.5), s(0.5), s(0.5))))
}

fn sphere(center: V, radius: f64) -> Primitive {
    let r = [radius, radius, radius];
    Primitive::Sphere(Sphere::new(v(center), s(radius), v(sub(center, r)), v(add(center, r)), grey()))
}

fn center_and_radius(p: &Primitive, time: f64) -> (V, f64) {
    match p {
        Primitive::Sphere(sp) => (w(sp.center()), f(sp.radius())),
        Primitive::MovingSphere(sp) => {
            (add(w(sp.center), scale(w(sp.offset), time)), f(sp.radius()))
        }
    }
}

/// The quadratic of a ray and a sphere, solved in the half-angle form.
fn solve(p: &Primitive, origin: V, direction: V, time: f64) -> SphereTimes {
    let (center, radius) = center_and_radius(p, time);
    let oc = sub(center, origin);
    let a = dot(direction, direction);
    let h = dot(direction, oc);
    let c = dot(oc, oc) - radius * radius;
    let discriminant = h * h - a * c;
    let root = discriminant.sqrt();
    let crossing = |t: f64| {
        let position = add(origin, scale(direction, t));
        let outward = scale(sub(position, center), 1.0 / radius);
        Crossing::new(s(t), v(position), v(outward), s(dot(direction, outward)))
    };
    SphereTimes::new(s(discriminant), crossing((h - root) / a), crossing((h + root) / a))
}

fn box_times(b: &AABB, origin: V, direction: V) -> BoxTimes {
    let axis = |n: usize| {
        let ax = b.axis_interval(n);
        let adinv = 1.0 / direction[n];
        AxisTimes::new(s((f(ax.min) - origin[n]) * adinv), s((f(ax.max) - origin[n]) * adinv))
    };
    BoxTimes::new(axis(0), axis(1), axis(2))
}

fn extent(i: &Interval) -> Scalar {
    s(f(i.max) - f(i.min))
}

fn solve_all(objects: &[Primitive], origin: V, direction: V) -> Vec<SphereTimes> {
    objects.iter().map(|p| solve(p, origin, direction, 0.0)).collect()
}

fn all_box_times(bvh: &BVHNode, origin: V, direction: V) -> Vec<BoxTimes> {
    (0..bvh.branch_count()).map(|i| box_times(&bvh.branch(i).aabb, origin, direction)).collect()
}

fn scan_hit(objects: &[Primitive], origin: V, direction: V, window: &Interval) -> Option<HitRecord> {
    let mut list = HittableList::new();
    for p in objects.iter() {
        list.add(*p);
    }
    list.hit(&solve_all(objects, origin, direction), window)
}

fn tree_hit(bvh: &BVHNode, objects: &[Primitive], origin: V, direction: V, window: &Interval) -> Option<HitRecord> {
    bvh.hit(&all_box_times(bvh, origin, direction), &solve_all(objects, origin, direction), window)
}

fn window() -> Interval {
    Interval::new(s(0.001), s(f64::INFINITY))
}

/// A scene of spheres of several sizes, scattered by a fixed recurrence.
fn scene(count: usize) -> Vec<Primitive> {
    let mut state: u64 = 0x2545_f491_4f6c_dd1d;
    let mut next = move || {
        state = state.wrapping_mul(6364136223846793005).wrapping_add(1442695040888963407);
        ((state >> 11) as f64) / ((1u64 << 53) as f64)
    };
    (0..count)
        .map(|_| {
            let c = [next() * 20.0 - 10.0, next() * 20.0 - 10.0, next() * 20.0 - 10.0];
            sphere(c, 0.2 + next() * 1.5)
        })
        .collect()
}

fn leaves_below(bvh: &BVHNode, c: BVHChild, out: &mut Vec<usize>) {
    match c {
        BVHChild::Primitive(k) => out.push(k),
        BVHChild::Node(i) => {
            let b = *bvh.branch(i);
            leaves_below(bvh, b.left, out);
            leaves_below(bvh, b.right, out);
        }
    }
}

#[test]
fn ray_through_the_centre_hits_at_distance_less_radius() {
    let p = sphere([0.0, 0.0, -5.0], 2.0);
    let times = solve(&p, [0.0, 0.0, 0.0], [0.0, 0.0, -1.0], 0.0);
    assert_eq!(f(times.near.t), 3.0);
    assert_eq!(f(times.far.t), 7.0);
    let hit = hit_sphere(&times, &grey(), &window()).expect("the ray runs through the centre");
    assert_eq!(f(hit.t()), 3.0);
    assert!(hit.front_face());
    assert_eq!(w(hit.normal()), [0.0, 0.0, 1.0]);
    assert_eq!(w(hit.position()), [0.0, 0.0, -3.0]);
}

#[test]
fn far_root_counts_when_the_near_one_is_outside_the_window() {
    let p = sphere([0.0, 0.0, -5.0], 2.0);
    let times = solve(&p, [0.0, 0.0, 0.0], [0.0, 0.0, -1.0], 0.0);
    let hit = hit_sphere(&times, &grey(), &Interval::new(s(3.5), s(10.0))).expect("the far root");
    assert_eq!(f(hit.t()), 7.0);
    assert!(!hit.front_face());
    // From inside, the stored normal is the reversed outward normal.
    assert_eq!(w(hit.normal()), [0.0, 0.0, 1.0]);
    assert!(hit_sphere(&times, &grey(), &Interval::new(s(3.5), s(6.5))).is_none());
    assert!(hit_sphere(&times, &grey(), &Interval::new(s(7.5), s(10.0))).is_none());
}

#[test]
fn window_is_closed_at_both_ends() {
    let p = sphere([0.0, 0.0, -5.0], 2.0);
    let times = solve(&p, [0.0, 0.0, 0.0], [0.0, 0.0, -1.0], 0.0);
    assert_eq!(f(hit_sphere(&times, &grey(), &Interval::new(s(3.0), s(3.0))).unwrap().t()), 3.0);
    assert_eq!(f(hit_sphere(&times, &grey(), &Interval::new(s(0.0), s(3.0))).unwrap().t()), 3.0);
    assert_eq!(f(hit_sphere(&times, &grey(), &Interval::new(s(7.0), s(9.0))).unwrap().t()), 7.0);
}

#[test]
fn negative_discriminant_is_a_miss() {
    let p = sphere([0.0, 0.0, -5.0], 2.0);
    let times = solve(&p, [0.0, 3.0, 0.0], [0.0, 0.0, -1.0], 0.0);
    assert!(f(times.discriminant) < 0.0);
    assert!(hit_sphere(&times, &grey(), &window()).is_none());
    // Even with roots that would lie in the window, the discriminant decides.
    let forged = SphereTimes::new(s(-1.0), times.near, Crossing::new(s(1.0), v([0.0; 3]), v([0.0; 3]), s(-1.0)));
    assert!(hit_sphere(&forged, &grey(), &window()).is_none());
}

#[test]
fn tangent_ray_hits_once() {
    let p = sphere([0.0, 0.0, -5.0], 2.0);
    let times = solve(&p, [0.0, 2.0, 0.0], [0.0, 0.0, -1.0], 0.0);
    assert_eq!(f(times.discriminant), 0.0);
    assert_eq!(f(times.near.t), f(times.far.t));
    let hit = hit_sphere(&times, &grey(), &window()).expect("the ray touches the sphere");
    assert_eq!(f(hit.t()), 5.0);
}

#[test]
fn moving_sphere_is_hit_where_it_stands_at_the_time_of_the_ray() {
    let r = [1.0, 1.0, 1.0];
    let c0 = [0.0, 0.0, -5.0];
    let c1 = [0.0, 4.0, -5.0];
    let m = MovingSphere::new(
        v(c0),
        v(sub(c1, c0)),
        s(1.0),
        v(sub(c0, r)),
        v(add(c0, r)),
        v(sub(c1, r)),
        v(add(c1, r)),
        grey(),
    );
    assert_eq!(f(m.radius()), 1.0);
    let b = *m.bounding_box();
    assert_eq!((f(b.y().min), f(b.y().max)), (-1.0, 5.0));
    assert_eq!((f(b.x().min), f(b.x().max)), (-1.0, 1.0));
    let p = Primitive::MovingSphere(m);
    let at_start = solve(&p, [0.0, 0.0, 0.0], [0.0, 0.0, -1.0], 0.0);
    assert_eq!(f(p.hit(&at_start, &window()).unwrap().t()), 4.0);
    let at_end = solve(&p, [0.0, 0.0, 0.0], [0.0, 0.0, -1.0], 1.0);
    assert!(p.hit(&at_end, &window()).is_none());
}

#[test]
fn list_keeps_a_running_box() {
    let mut list = HittableList::new();
    assert_eq!(list.len(), 0);
    let b = *list.bounding_box();
    assert_eq!((f(b.x().min), f(b.x().max)), (f64::INFINITY, f64::NEG_INFINITY));
    assert_eq!((f(b.y().min), f(b.y().max)), (f64::INFINITY, f64::NEG_INFINITY));
    assert_eq!((f(b.z().min), f(b.z().max)), (f64::INFINITY, f64::NEG_INFINITY));
    list.add(sphere([10.0, 0.0, 0.0], 1.0));
    let b = *list.bounding_box();
    assert_eq!((f(b.x().min), f(b.x().max)), (9.0, 11.0));
    assert_eq!((f(b.y().min), f(b.y().max)), (-1.0, 1.0));
    assert_eq!((f(b.z().min), f(b.z().max)), (-1.0, 1.0));
    list.add(sphere([-3.0, 5.0, 0.0], 2.0));
    assert_eq!(list.len(), 2);
    let b = *list.bounding_box();
    assert_eq!((f(b.x().min), f(b.x().max)), (-5.0, 11.0));
    assert_eq!((f(b.y().min), f(b.y().max)), (-1.0, 7.0));
    assert_eq!((f(b.z().min), f(b.z().max)), (-2.0, 2.0));
    assert_eq!(f(list.get(1).bounding_box().y().max), 7.0);
}

#[test]
fn list_returns_the_closest_hit_whatever_the_order() {
    let near = sphere([0.0, 0.0, -3.0], 1.0);
    let far = sphere([0.0, 0.0, -8.0], 1.0);
    let o = [0.0, 0.0, 0.0];
    let d = [0.0, 0.0, -1.0];
    assert_eq!(f(scan_hit(&[near, far], o, d, &window()).unwrap().t()), 2.0);
    assert_eq!(f(scan_hit(&[far, near], o, d, &window()).unwrap().t()), 2.0);
    assert!(scan_hit(&[], o, d, &window()).is_none());
    assert!(scan_hit(&[near, far], o, [0.0, 1.0, 0.0], &window()).is_none());
}

#[test]
fn empty_tree_is_hit_by_nothing() {
    let bvh = BVHNode::new(Vec::new(), extent);
    assert!(bvh.top().is_none());
    assert_eq!(bvh.len(), 0);
    assert_eq!(bvh.branch_count(), 0);
    assert!(bvh.hit(&Vec::new(), &Vec::new(), &window()).is_none());
}

#[test]
fn tree_of_one_primitive_is_the_primitive() {
    let objects = vec![sphere([0.0, 0.0, -3.0], 1.0)];
    let bvh = BVHNode::new(objects.clone(), extent);
    assert!(matches!(bvh.top(), Some(BVHChild::Primitive(0))));
    assert_eq!(bvh.branch_count(), 0);
    assert_eq!(f(bvh.bounding_box().z().min), -4.0);
    let hit = tree_hit(&bvh, &objects, [0.0, 0.0, 0.0], [0.0, 0.0, -1.0], &window()).unwrap();
    assert_eq!(f(hit.t()), 2.0);
}

#[test]
fn tree_of_two_primitives_keeps_their_order() {
    let objects = vec![sphere([5.0, 0.0, 0.0], 1.0), sphere([-5.0, 0.0, 0.0], 1.0)];
    let bvh = BVHNode::new(objects.clone(), extent);
    assert_eq!(bvh.branch_count(), 1);
    assert!(matches!(bvh.top(), Some(BVHChild::Node(0))));
    let b = *bvh.branch(0);
    assert!(matches!(b.left, BVHChild::Primitive(0)));
    assert!(matches!(b.right, BVHChild::Primitive(1)));
    assert_eq!((f(b.aabb.x().min), f(b.aabb.x().max)), (-6.0, 6.0));
}

#[test]
fn tree_sorts_along_the_longest_axis_and_splits_in_the_middle() {
    // Spread along y; given out of order.
    let objects = vec![
        sphere([0.0, 9.0, 0.0], 1.0),
        sphere([0.0, -9.0, 0.0], 1.0),
        sphere([0.0, 3.0, 0.0], 1.0),
        sphere([0.0, -3.0, 0.0], 1.0),
        sphere([1.0, 0.0, 0.0], 1.0),
    ];
    let bvh = BVHNode::new(objects.clone(), extent);
    assert_eq!(bvh.branch_count(), 4);
    let mut order = Vec::new();
    leaves_below(&bvh, bvh.top().unwrap(), &mut order);
    assert_eq!(order, vec![1, 3, 4, 2, 0]);
    let root = *bvh.branch(3);
    let mut left = Vec::new();
    leaves_below(&bvh, root.left, &mut left);
    assert_eq!(left, vec![1, 3]);
    assert_eq!((f(root.aabb.y().min), f(root.aabb.y().max)), (-10.0, 10.0));
    assert_eq!((f(bvh.bounding_box().x().min), f(bvh.bounding_box().x().max)), (-1.0, 2.0));
}

#[test]
fn tree_sort_keeps_the_order_of_equals() {
    // All begin at the same x, the longest axis by the tie rule is z, where all begin alike too.
    let objects = vec![
        sphere([0.0, 0.0, 0.0], 1.0),
        sphere([0.0, 0.0, 0.0], 1.0),
        sphere([0.0, 0.0, 0.0], 1.0),
        sphere([0.0, 0.0, 0.0], 1.0),
    ];
    let bvh = BVHNode::new(objects, extent);
    let mut order = Vec::new();
    leaves_below(&bvh, bvh.top().unwrap(), &mut order);
    assert_eq!(order, vec![0, 1, 2, 3]);
}

#[test]
fn tree_holds_every_primitive_once() {
    for count in [1usize, 2, 3, 4, 7, 16, 33, 100] {
        let objects = scene(count);
        let bvh = BVHNode::new(objects, extent);
        assert_eq!(bvh.len(), count);
        assert_eq!(bvh.branch_count(), count - 1);
        let mut order = Vec::new();
        leaves_below(&bvh, bvh.top().unwrap(), &mut order);
        order.sort();
        assert_eq!(order, (0..count).collect::<Vec<usize>>());
    }
}

#[test]
fn tree_boxes_are_the_unions_of_the_boxes_below() {
    let objects = scene(40);
    let bvh = BVHNode::new(objects, extent);
    let box_of = |c: BVHChild| match c {
        BVHChild::Primitive(k) => *bvh.primitive(k).bounding_box(),
        BVHChild::Node(i) => bvh.branch(i).aabb,
    };
    for i in 0..bvh.branch_count() {
        let b = *bvh.branch(i);
        let u = AABB::from_aabb(&box_of(b.left), &box_of(b.right));
        for n in 0..3 {
            assert_eq!(b.aabb.axis_interval(n).min.to_bits(), u.axis_interval(n).min.to_bits());
            assert_eq!(b.aabb.axis_interval(n).max.to_bits(), u.axis_interval(n).max.to_bits());
        }
        if let BVHChild::Node(j) = b.left {
            assert!(j < i);
        }
        if let BVHChild::Node(j) = b.right {
            assert!(j < i);
        }
    }
}

#[test]
fn tree_and_scan_hit_at_the_same_distance() {
    let objects = scene(60);
    let bvh = BVHNode::new(objects.clone(), extent);
    let mut hits = 0;
    let mut misses = 0;
    for i in 0..24 {
        for j in 0..24 {
            let origin = [0.3, -0.2, 30.0];
            let target = [-12.0 + i as f64, -12.0 + j as f64 * 1.01, 0.0];
            let direction = sub(target, origin);
            let a = scan_hit(&objects, origin, direction, &window());
            let b = tree_hit(&bvh, &objects, origin, direction, &window());
            match (a, b) {
                (None, None) => misses += 1,
                (Some(x), Some(y)) => {
                    assert_eq!(f(x.t()), f(y.t()));
                    hits += 1;
                }
                _ => panic!("the tree and the scan disagree on ray {} {}", i, j),
            }
        }
    }
    assert!(hits > 20 && misses > 20);
}

#[test]
fn tree_searches_the_right_child_only_up_to_the_hit_on_the_left() {
    let objects = vec![sphere([0.0, 0.0, -3.0], 1.0), sphere([0.0, 0.0, -8.0], 1.0)];
    let bvh = BVHNode::new(objects.clone(), extent);
    let o = [0.0, 0.0, 0.0];
    let d = [0.0, 0.0, -1.0];
    assert_eq!(f(tree_hit(&bvh, &objects, o, d, &window()).unwrap().t()), 2.0);
    let swapped = vec![objects[1], objects[0]];
    let bvh = BVHNode::new(swapped.clone(), extent);
    assert_eq!(f(tree_hit(&bvh, &swapped, o, d, &window()).unwrap().t()), 2.0);
}

#[test]
fn tree_prunes_what_the_box_rules_out() {
    let objects = vec![sphere([0.0, 0.0, -3.0], 1.0), sphere([0.0, 0.0, -8.0], 1.0)];
    let bvh = BVHNode::new(objects.clone(), extent);
    let o = [0.0, 0.0, 0.0];
    let d = [0.0, 0.0, -1.0];
    // Crossings that lie behind the window: the spheres are not looked at.
    let away = BoxTimes::new(
        AxisTimes::new(s(-5.0), s(-4.0)),
        AxisTimes::new(s(-5.0), s(-4.0)),
        AxisTimes::new(s(-5.0), s(-4.0)),
    );
    assert!(bvh.hit(&vec![away], &solve_all(&objects, o, d), &window()).is_none());
}

#[test]
fn boxes_compare_by_where_they_begin() {
    let a = sphere([0.0, 5.0, -1.0], 1.0);
    let b = sphere([2.0, 5.0, -3.0], 1.0);
    assert_eq!(box_compare(&a, &b, 0), Ordering::Less);
    assert_eq!(box_compare(&b, &a, 0), Ordering::Greater);
    assert_eq!(box_compare(&a, &b, 1), Ordering::Equal);
    assert_eq!(box_compare(&a, &b, 2), Ordering::Greater);
    let n = sphere([f64::NAN, 0.0, 0.0], 1.0);
    assert_eq!(box_compare(&a, &n, 0), Ordering::Equal);
    assert_eq!(box_compare(&n, &a, 0), Ordering::Equal);
}

#[test]
fn sort_orders_a_stretch_and_leaves_the_rest() {
    let objects = vec![
        sphere([5.0, 0.0, 0.0], 1.0),
        sphere([3.0, 0.0, 0.0], 1.0),
        sphere([4.0, 0.0, 0.0], 1.0),
        sphere([3.0, 1.0, 0.0], 1.0),
        sphere([1.0, 0.0, 0.0], 1.0),
        sphere([0.0, 0.0, 0.0], 1.0),
    ];
    let mut order = vec![5, 0, 1, 2, 3, 4];
    sort_span(&objects, &mut order, 1, 5, 0);
    assert_eq!(order, vec![5, 1, 3, 2, 0, 4]);
    let mut whole = vec![0, 1, 2, 3, 4, 5];
    sort_span(&objects, &mut whole, 0, 6, 0);
    assert_eq!(whole, vec![5, 4, 1, 3, 2, 0]);
    let mut by_y = vec![0, 1, 2, 3, 4, 5];
    sort_span(&objects, &mut by_y, 0, 6, 1);
    assert_eq!(by_y, vec![0, 1, 2, 4, 5, 3]);
}

#[test]
fn hit_at_the_end_of_the_window_can_hide_behind_its_box() {
    let objects = vec![sphere([0.0, 0.0, -5.0], 1.0), sphere([0.0, 0.0, 0.0], 1.0)];
    let bvh = BVHNode::new(objects.clone(), extent);
    let o = [0.0, 0.0, 3.0];
    let d = [0.0, 0.0, -1.0];
    // The nearer sphere is hit at 2, where the ray enters the box of the branch.
    let whole = Interval::new(s(0.001), s(f64::INFINITY));
    assert_eq!(f(scan_hit(&objects, o, d, &whole).unwrap().t()), 2.0);
    assert_eq!(f(tree_hit(&bvh, &objects, o, d, &whole).unwrap().t()), 2.0);
    // In a window that ends at the hit, the box is entered where the window
    // ends: the slab test takes the window for closed, the scan finds the hit.
    let ending = Interval::new(s(0.001), s(2.0));
    assert_eq!(f(scan_hit(&objects, o, d, &ending).unwrap().t()), 2.0);
    assert!(tree_hit(&bvh, &objects, o, d, &ending).is_none());
    // A window that reaches beyond the hit shows it again.
    let beyond = Interval::new(s(0.001), s(2.5));
    assert_eq!(f(tree_hit(&bvh, &objects, o, d, &beyond).unwrap().t()), 2.0);
}

#[test]
fn solved_roots_come_in_order() {
    let p = sphere([0.0, 0.0, -5.0], 2.0);
    assert!(solve(&p, [0.0, 0.0, 0.0], [0.0, 0.0, -1.0], 0.0).in_order());
    assert!(solve(&p, [0.0, 3.0, 0.0], [0.0, 0.0, -1.0], 0.0).in_order());
    let objects = scene(30);
    for q in objects.iter() {
        assert!(solve(q, [0.3, -0.2, 30.0], [0.1, 0.05, -1.0], 0.0).in_order());
    }
    let near = Crossing::new(s(5.0), v([0.0; 3]), v([0.0; 3]), s(-1.0));
    let far = Crossing::new(s(3.0), v([0.0; 3]), v([0.0; 3]), s(1.0));
    assert!(!SphereTimes::new(s(1.0), near, far).in_order());
}
