use vstd::prelude::*;
use crate::aabb::AABB;
use crate::interval::Interval;
use crate::object::{HitRecord, Primitive};
use crate::sphere::{lemma_hit_under_limit, shortened, SphereTimes};
use crate::vec3::Point3;

verus! {

/// The primitives of a scene in the order in which they were added, with the
/// box that bounds them all.
pub struct HittableList {
    aabb: AABB,
    objects: Vec<Primitive>,
}

/// The box that a list keeps: the union of the boxes of its primitives,
/// taken one by one from the empty box.
pub open spec fn bounds_of(objects: Seq<Primitive>) -> AABB
    decreases objects.len(),
{
    if objects.len() == 0 {
        AABB::spec_empty()
    } else {
        AABB::spec_union(bounds_of(objects.drop_last()), objects.last().aabb())
    }
}

/// What primitive `k` is hit at within the window.
pub open spec fn hit_of(objects: Seq<Primitive>, times: Seq<SphereTimes>, k: int, w: Interval)
    -> Option<HitRecord> {
    objects[k].spec_hit(times[k], w)
}

/// The scan over the first `n` primitives: each is tested in the window that
/// ends at the closest hit found before it, and a hit replaces what was found.
pub open spec fn scan(objects: Seq<Primitive>, times: Seq<SphereTimes>, w: Interval, n: nat)
    -> Option<HitRecord>
    decreases n,
{
    if n == 0 {
        None
    } else {
        let before = scan(objects, times, w, (n - 1) as nat);
        let limit = match before {
            Some(h) => h.t,
            None => w.max,
        };
        match hit_of(objects, times, n - 1, shortened(w, limit)) {
            Some(h) => Some(h),
            None => before,
        }
    }
}

/// `r` is a closest hit among the primitives `among`: nothing, if none of
/// them is hit within the window; else the hit of one of them, and no other
/// is hit earlier.
pub open spec fn closest_among(
    r: Option<HitRecord>,
    objects: Seq<Primitive>,
    times: Seq<SphereTimes>,
    w: Interval,
    among: Set<int>,
) -> bool {
    match r {
        None => forall|k: int| among.contains(k) ==> (#[trigger] hit_of(objects, times, k, w)).is_none(),
        Some(h) => {
            &&& exists|k: int| among.contains(k) && #[trigger] hit_of(objects, times, k, w) == Some(h)
            &&& forall|k: int|
                among.contains(k) ==> ((#[trigger] hit_of(objects, times, k, w)) matches Some(other)
                    ==> h.t.spec_le(other.t))
        },
    }
}

/// `r` is a closest hit among the primitives `among`, hits at the very ends
/// of the window aside: if it is nothing, none of them is hit strictly
/// inside the window; else it is the hit of one of them, and no other is hit
/// earlier unless at the very beginning of the window.
pub open spec fn closest_inside(
    r: Option<HitRecord>,
    objects: Seq<Primitive>,
    times: Seq<SphereTimes>,
    w: Interval,
    among: Set<int>,
) -> bool {
    match r {
        None => forall|k: int|
            among.contains(k) ==> ((#[trigger] hit_of(objects, times, k, w)) matches Some(other)
                ==> !(w.min.spec_lt(other.t) && other.t.spec_lt(w.max))),
        Some(h) => {
            &&& exists|k: int| among.contains(k) && #[trigger] hit_of(objects, times, k, w) == Some(h)
            &&& forall|k: int|
                among.contains(k) ==> ((#[trigger] hit_of(objects, times, k, w)) matches Some(other)
                    ==> (w.min.spec_lt(other.t) ==> h.t.spec_le(other.t)))
        },
    }
}

/// The roots of every solved intersection come in order.
pub open spec fn all_ordered(times: Seq<SphereTimes>) -> bool {
    forall|k: int| 0 <= k < times.len() ==> (#[trigger] times[k]).ordered()
}

impl HittableList {
    /// The box that is kept is the box of the primitives.
    #[verifier::type_invariant]
    spec fn kept(&self) -> bool {
        self.aabb == bounds_of(self.objects@)
    }

    /// The primitives, in the order in which they were added.
    pub closed spec fn view(&self) -> Seq<Primitive> {
        self.objects@
    }

    /// The empty list. Its box is the empty box.
    pub fn new() -> (r: HittableList)
        ensures
            r@ == Seq::<Primitive>::empty(),
    {
        HittableList { aabb: AABB::empty(), objects: Vec::new() }
    }

    /// Appends a primitive and widens the box by the box of the primitive.
    pub fn add(&mut self, object: Primitive)
        ensures
            final(self)@ == old(self)@.push(object),
    {
        // The box and the primitives change together: the list is taken
        // apart and put together again.
        let mut taken = HittableList::new();
        core::mem::swap(self, &mut taken);
        proof {
            use_type_invariant(&taken);
        }
        let HittableList { aabb, mut objects } = taken;
        let ghost before = objects@;
        let aabb = AABB::from_aabb(&aabb, object.bounding_box());
        objects.push(object);
        proof {
            assert(objects@.drop_last() == before);
        }
        *self = HittableList { aabb, objects };
    }

    /// The number of primitives.
    pub fn len(&self) -> (r: usize)
        ensures
            r == self@.len(),
    {
        self.objects.len()
    }

    /// The primitive at position `i`.
    pub fn get(&self, i: usize) -> (r: &Primitive)
        requires
            i < self@.len(),
        ensures
            *r == self@[i as int],
    {
        &self.objects[i]
    }

    /// Intersects a ray with every primitive in turn and returns the closest
    /// hit within the window. `times[k]` is the solved intersection of the
    /// ray with primitive `k`. Of several hits at the same distance the one
    /// of the latest primitive is returned.
    pub fn hit(&self, times: &Vec<SphereTimes>, interval: &Interval) -> (r: Option<HitRecord>)
        requires
            times@.len() == self@.len(),
        ensures
            r == scan(self@, times@, *interval, self@.len()),
            all_ordered(times@) ==> closest_among(
                r,
                self@,
                times@,
                *interval,
                Set::new(|k: int| 0 <= k < self@.len()),
            ),
    {
        let mut hit: Option<HitRecord> = None;
        let mut closest_so_far = interval.max;
        let mut i: usize = 0;
        while i < self.objects.len()
            invariant
                i <= self.objects.len(),
                times@.len() == self.objects@.len(),
                hit == scan(self.objects@, times@, *interval, i as nat),
                closest_so_far == (match hit {
                    Some(h) => h.t,
                    None => interval.max,
                }),
            decreases self.objects.len() - i,
        {
            let window = Interval::new(interval.min, closest_so_far);
            let maybe_hit = self.objects[i].hit(&times[i], &window);
            if let Some(new_hit) = maybe_hit {
                closest_so_far = new_hit.t();
                hit = maybe_hit;
            }
            i += 1;
        }
        proof {
            if all_ordered(times@) {
                lemma_scan_closest(self@, times@, *interval, self@.len());
            }
        }
        hit
    }

    /// The box that bounds the primitives of the list: the union of their
    /// boxes, and the empty box for the empty list.
    pub fn bounding_box(&self) -> (r: &AABB)
        ensures
            *r == bounds_of(self@),
    {
        proof {
            use_type_invariant(self);
        }
        &self.aabb
    }
}

/// The box of a list bounds every primitive in it: where the boxes of the
/// primitives are boxes of numbers, whatever point lies in one of them lies
/// in the box of the list.
pub proof fn lemma_bounds_cover(objects: Seq<Primitive>, k: int)
    requires
        0 <= k < objects.len(),
        forall|j: int| 0 <= j < objects.len() ==> (#[trigger] objects[j]).aabb().numeric(),
    ensures
        bounds_of(objects).covers(objects[k].aabb()),
        bounds_of(objects).numeric(),
    decreases objects.len(),
{
    let rest = objects.drop_last();
    let last = objects.last().aabb();
    lemma_bounds_numeric(rest);
    crate::aabb::lemma_union_covers(bounds_of(rest), last);
    if k < objects.len() - 1 {
        lemma_bounds_cover(rest, k);
        let inner = objects[k].aabb();
        assert forall|p: Point3| inner.holds(p) implies #[trigger] bounds_of(objects).holds(p) by {
            assert(bounds_of(rest).holds(p));
        }
    }
}

/// The box of a list of boxes of numbers is a box of numbers.
pub proof fn lemma_bounds_numeric(objects: Seq<Primitive>)
    requires
        forall|j: int| 0 <= j < objects.len() ==> (#[trigger] objects[j]).aabb().numeric(),
    ensures
        bounds_of(objects).numeric(),
    decreases objects.len(),
{
    if objects.len() > 0 {
        lemma_bounds_numeric(objects.drop_last());
        crate::aabb::lemma_union_covers(bounds_of(objects.drop_last()), objects.last().aabb());
    }
}

/// The scan returns a closest hit: with the roots of every primitive in
/// order, what the scan over the first `n` primitives returns is the hit of
/// one of them within the whole window, and none of them is hit earlier.
pub proof fn lemma_scan_closest(
    objects: Seq<Primitive>,
    times: Seq<SphereTimes>,
    w: Interval,
    n: nat,
)
    requires
        n <= objects.len(),
        times.len() == objects.len(),
        all_ordered(times),
    ensures
        closest_among(scan(objects, times, w, n), objects, times, w, Set::new(|k: int| 0 <= k < n)),
    decreases n,
{
    let among = Set::new(|k: int| 0 <= k < n);
    if n > 0 {
        let m = (n - 1) as nat;
        let earlier = Set::new(|k: int| 0 <= k < m);
        lemma_scan_closest(objects, times, w, m);
        let before = scan(objects, times, w, m);
        let limit = match before {
            Some(h) => h.t,
            None => w.max,
        };
        let material = objects[m as int].material();
        assert(times[m as int].ordered());
        match before {
            Some(h) => {
                let k0 = choose|k: int| earlier.contains(k) && #[trigger] hit_of(objects, times, k, w) == Some(h);
                assert(among.contains(k0));
                lemma_hit_under_limit(times[m as int], material, w, limit);
            },
            None => {
                assert(shortened(w, limit) == w);
            },
        }
        let found = hit_of(objects, times, m as int, shortened(w, limit));
        let result = scan(objects, times, w, n);
        match result {
            Some(r) => {
                if found.is_some() {
                    assert(among.contains(m as int) && hit_of(objects, times, m as int, w) == Some(r));
                }
                assert forall|k: int| among.contains(k) implies ((#[trigger] hit_of(
                    objects,
                    times,
                    k,
                    w,
                )) matches Some(other) ==> r.t.spec_le(other.t)) by {
                    if k < m {
                        assert(earlier.contains(k));
                    }
                }
            },
            None => {
                assert forall|k: int| among.contains(k) implies (#[trigger] hit_of(
                    objects,
                    times,
                    k,
                    w,
                )).is_none() by {
                    if k < m {
                        assert(earlier.contains(k));
                    }
                }
            },
        }
    }
}

} // verus!
