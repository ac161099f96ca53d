use raytracer::aabb::{AxisTimes, BoxTimes, AABB};
use raytracer::interval::Interval;
use raytracer::scalar::Scalar;
use raytracer::vec3::{Point3, Vec3};

fn s(x: f64) -> Scalar {
    Scalar::from_bits(x.to_bits())
}

fn f(x: Scalar) -> f64 {
    f64::from_bits(x.to_bits())
}

fn p(x: f64, y: f64, z: f64) -> Point3 {
    Vec3::new(s(x), s(y), s(z))
}

fn bounds(b: &AABB) -> [(f64, f64); 3] {
    [(f(b.x().min), f(b.x().max)), (f(b.y().min), f(b.y().max)), (f(b.z().min), f(b.z().max))]
}

/// The crossings of a ray with the planes of a box, as the slab test wants them.
fn box_times(b: &AABB, origin: [f64; 3], direction: [f64; 3]) -> BoxTimes {
    let axis = |n: usize| {
        let ax = b.axis_interval(n);
        let adinv = 1.0 / direction[n];
        AxisTimes::new(s((f(ax.min) - origin[n]) * adinv), s((f(ax.max) - origin[n]) * adinv))
    };
    BoxTimes::new(axis(0), axis(1), axis(2))
}

fn unit_box() -> AABB {
    AABB::from_bounds(&p(-1.0, -1.0, -1.0), &p(1.0, 1.0, 1.0))
}

#[test]
fn from_bounds_ignores_the_order_of_the_corners() {
    let a = AABB::from_bounds(&p(1.0, -2.0, 3.0), &p(-1.0, 2.0, 0.5));
    let b = AABB::from_bounds(&p(-1.0, 2.0, 0.5), &p(1.0, -2.0, 3.0));
    assert_eq!(bounds(&a), [(-1.0, 1.0), (-2.0, 2.0), (0.5, 3.0)]);
    assert_eq!(bounds(&a), bounds(&b));
}

#[test]
fn union_is_idempotent_and_commutative() {
    let a = AABB::from_bounds(&p(0.0, 0.0, 0.0), &p(1.0, 2.0, 3.0));
    let b = AABB::from_bounds(&p(-1.0, 1.0, 2.5), &p(0.5, 5.0, 2.75));
    assert_eq!(bounds(&AABB::from_aabb(&a, &b)), bounds(&AABB::from_aabb(&b, &a)));
    assert_eq!(bounds(&AABB::from_aabb(&a, &b)), [(-1.0, 1.0), (0.0, 5.0), (0.0, 3.0)]);
    assert_eq!(bounds(&AABB::from_aabb(&a, &a)), bounds(&a));
}

#[test]
fn empty_box_is_the_identity_of_union() {
    let a = AABB::from_bounds(&p(0.0, 0.0, 0.0), &p(1.0, 2.0, 3.0));
    let e = AABB::empty();
    assert_eq!(bounds(&AABB::from_aabb(&e, &a)), bounds(&a));
    assert_eq!(bounds(&AABB::from_aabb(&a, &e)), bounds(&a));
    assert_eq!(bounds(&e)[0], (f64::INFINITY, f64::NEG_INFINITY));
}

#[test]
fn axis_interval_picks_the_axis() {
    let a = AABB::from_bounds(&p(0.0, 10.0, 20.0), &p(1.0, 12.0, 23.0));
    assert_eq!(f(a.axis_interval(0).max), 1.0);
    assert_eq!(f(a.axis_interval(1).max), 12.0);
    assert_eq!(f(a.axis_interval(2).max), 23.0);
    assert_eq!(f(a.axis_interval(3).max), 1.0);
}

#[test]
fn longest_axis_is_the_greatest_extent() {
    assert_eq!(AABB::longest_axis(s(3.0), s(2.0), s(1.0)), 0);
    assert_eq!(AABB::longest_axis(s(1.0), s(3.0), s(2.0)), 1);
    assert_eq!(AABB::longest_axis(s(1.0), s(2.0), s(3.0)), 2);
    assert_eq!(AABB::longest_axis(s(2.0), s(3.0), s(4.0)), 2);
    assert_eq!(AABB::longest_axis(s(3.0), s(1.0), s(4.0)), 2);
}

#[test]
fn longest_axis_breaks_ties_towards_the_later_axis() {
    assert_eq!(AABB::longest_axis(s(2.0), s(2.0), s(2.0)), 2);
    assert_eq!(AABB::longest_axis(s(2.0), s(2.0), s(1.0)), 1);
    assert_eq!(AABB::longest_axis(s(2.0), s(1.0), s(2.0)), 2);
    assert_eq!(AABB::longest_axis(s(1.0), s(2.0), s(2.0)), 2);
    assert_eq!(AABB::longest_axis(s(f64::NEG_INFINITY), s(f64::NEG_INFINITY), s(f64::NEG_INFINITY)), 2);
}

#[test]
fn slab_test_returns_entry_and_exit() {
    let b = unit_box();
    let times = box_times(&b, [0.0, 0.0, 5.0], [0.0, 0.0, -1.0]);
    let mut w = Interval::new(s(0.001), s(f64::INFINITY));
    let r = AABB::hit(&times, &mut w).expect("the ray runs through the box");
    assert_eq!((f(r.min), f(r.max)), (4.0, 6.0));
    assert_eq!((f(w.min), f(w.max)), (4.0, 6.0));
}

#[test]
fn slab_test_handles_negative_directions() {
    let b = unit_box();
    let times = box_times(&b, [3.0, 3.0, 3.0], [-1.0, -1.0, -1.0]);
    let mut w = Interval::new(s(0.0), s(100.0));
    let r = AABB::hit(&times, &mut w).expect("the diagonal runs through the box");
    assert_eq!((f(r.min), f(r.max)), (2.0, 4.0));
}

#[test]
fn slab_test_misses_beside_the_box() {
    let b = unit_box();
    let times = box_times(&b, [0.0, 2.0, 5.0], [0.0, 0.0, -1.0]);
    let mut w = Interval::new(s(0.001), s(f64::INFINITY));
    assert!(AABB::hit(&times, &mut w).is_none());
}

#[test]
fn slab_test_misses_behind_the_window() {
    let b = unit_box();
    let times = box_times(&b, [0.0, 0.0, 5.0], [0.0, 0.0, -1.0]);
    let mut w = Interval::new(s(0.001), s(3.5));
    assert!(AABB::hit(&times, &mut w).is_none());
    let mut v = Interval::new(s(6.5), s(10.0));
    assert!(AABB::hit(&times, &mut v).is_none());
}

#[test]
fn slab_test_takes_a_zero_direction_as_no_constraint() {
    let b = unit_box();
    // Inside the slabs of x and y, parallel to both: the divisions give infinities.
    let inside = box_times(&b, [0.5, -0.5, 5.0], [0.0, 0.0, -1.0]);
    let mut w = Interval::new(s(0.0), s(100.0));
    let r = AABB::hit(&inside, &mut w).expect("only z constrains the ray");
    assert_eq!((f(r.min), f(r.max)), (4.0, 6.0));
    // On the plane x = 1 itself: zero times infinity gives a NaN for one crossing,
    // the other crossing is taken for the exit, and the ray that grazes the face misses.
    let on_plane = box_times(&b, [1.0, 0.0, 5.0], [0.0, 0.0, -1.0]);
    assert!(f(on_plane.x.t1).is_nan());
    assert_eq!(f(on_plane.x.t0), f64::NEG_INFINITY);
    let mut v = Interval::new(s(0.0), s(100.0));
    assert!(AABB::hit(&on_plane, &mut v).is_none());
    assert_eq!((f(v.min), f(v.max)), (0.0, f64::NEG_INFINITY));
    // Outside the slab of x and parallel to it: both crossings are the same infinity.
    let outside = box_times(&b, [2.0, 0.0, 5.0], [0.0, 0.0, -1.0]);
    let mut u = Interval::new(s(0.0), s(100.0));
    assert!(AABB::hit(&outside, &mut u).is_none());
}

#[test]
fn slab_test_stays_within_the_window() {
    let b = unit_box();
    let origins = [[0.0, 0.0, 5.0], [0.3, -0.2, 4.0], [3.0, 3.0, 3.0], [0.0, 0.0, 0.0]];
    let directions = [[0.0, 0.0, -1.0], [-1.0, -1.0, -1.0], [0.1, 0.2, -1.0], [1.0, 0.0, 0.0]];
    let windows = [(0.001, f64::INFINITY), (0.0, 4.5), (4.5, 5.5), (5.0, 100.0), (-10.0, 10.0)];
    for o in origins.iter() {
        for d in directions.iter() {
            for &(lo, hi) in windows.iter() {
                let mut w = Interval::new(s(lo), s(hi));
                let r = AABB::hit(&box_times(&b, *o, *d), &mut w);
                assert!(f(w.min) >= lo && f(w.max) <= hi);
                if let Some(i) = r {
                    assert!(lo <= f(i.min) && f(i.min) < f(i.max) && f(i.max) <= hi);
                }
            }
        }
    }
}

#[test]
fn slab_test_stops_at_the_axis_that_closes_the_window() {
    let times = BoxTimes::new(
        AxisTimes::new(s(5.0), s(6.0)),
        AxisTimes::new(s(1.0), s(2.0)),
        AxisTimes::new(s(0.0), s(0.5)),
    );
    let mut w = Interval::new(s(0.0), s(4.0));
    assert!(AABB::hit(&times, &mut w).is_none());
    // The window closed on x, so y and z have not been looked at.
    assert_eq!((f(w.min), f(w.max)), (5.0, 4.0));
}
