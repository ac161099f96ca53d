use vstd::prelude::*;
use std::cmp::Ordering;
use crate::object::Primitive;
use crate::scalar::Scalar;

verus! {

/// Where primitive `id` begins on an axis: the lower bound of its box there.
pub open spec fn axis_min(objects: Seq<Primitive>, id: int, axis: usize) -> Scalar {
    objects[id].aabb().spec_axis_interval(axis).min
}

/// Primitive `a` begins before primitive `b` on an axis.
pub open spec fn begins_before(objects: Seq<Primitive>, a: usize, b: usize, axis: usize) -> bool {
    axis_min(objects, a as int, axis).spec_lt(axis_min(objects, b as int, axis))
}

/// Every entry names a primitive of the scene.
pub open spec fn ids_ok(order: Seq<usize>, count: int) -> bool {
    forall|p: int| 0 <= p < order.len() ==> (#[trigger] order[p]) < count
}

/// No box of the scene has a NaN for a bound.
pub open spec fn all_numeric(objects: Seq<Primitive>) -> bool {
    forall|k: int| 0 <= k < objects.len() ==> (#[trigger] objects[k]).aabb().numeric()
}

/// `b` holds in `[start, end)` what `a` holds there, in some order, and is
/// `a` everywhere else.
#[verifier::opaque]
pub open spec fn rearranged(a: Seq<usize>, b: Seq<usize>, start: int, end: int) -> bool {
    &&& a.len() == b.len()
    &&& forall|p: int| 0 <= p < a.len() && !(start <= p < end) ==> a[p] == b[p]
    &&& a.subrange(start, end).to_multiset() == b.subrange(start, end).to_multiset()
}

/// From `start` to `end`, no primitive begins before one in front of it.
pub open spec fn sorted(
    objects: Seq<Primitive>,
    order: Seq<usize>,
    start: int,
    end: int,
    axis: usize,
) -> bool {
    forall|p: int, q: int|
        start <= p < q < end ==> !begins_before(
            objects,
            #[trigger] order[q],
            #[trigger] order[p],
            axis,
        )
}

/// `id` stands somewhere in `input` from `start` to `end`.
pub open spec fn came_from(input: Seq<usize>, start: int, end: int, id: usize) -> bool {
    exists|p0: int| start <= p0 < end && #[trigger] input[p0] == id
}

/// From `start` to `end`, two primitives of which neither begins before the
/// other stand in `output` in the order in which they stood in `input`.
pub open spec fn stable(
    objects: Seq<Primitive>,
    input: Seq<usize>,
    output: Seq<usize>,
    start: int,
    end: int,
    axis: usize,
) -> bool {
    forall|p: int, q: int, p0: int, q0: int|
        start <= p < q < end && start <= p0 < end && start <= q0 < end && (#[trigger] input[p0])
            == (#[trigger] output[p]) && (#[trigger] input[q0]) == (#[trigger] output[q])
            && !begins_before(objects, output[p], output[q], axis) && !begins_before(
            objects,
            output[q],
            output[p],
            axis,
        ) ==> p0 < q0
}

/// The stretch of `output` from `start` to `end` is in order, where the
/// boxes have no NaN for a bound, and holds equals as `input` held them.
#[verifier::opaque]
pub open spec fn in_order(
    objects: Seq<Primitive>,
    input: Seq<usize>,
    output: Seq<usize>,
    start: int,
    end: int,
    axis: usize,
) -> bool {
    &&& stable(objects, input, output, start, end, axis)
    &&& all_numeric(objects) ==> sorted(objects, output, start, end, axis)
}

/// `output` is `input` sorted by where the primitives begin on an axis, with
/// the order of equals kept. Where a box has a NaN for a bound the primitives
/// need not come out in order, but the order of equals is kept all the same.
#[verifier::opaque]
pub open spec fn arranged(
    objects: Seq<Primitive>,
    input: Seq<usize>,
    output: Seq<usize>,
    axis: usize,
) -> bool {
    &&& input.len() == output.len()
    &&& rearranged(input, output, 0, input.len() as int)
    &&& stable(objects, input, output, 0, input.len() as int, axis)
    &&& all_numeric(objects) ==> sorted(objects, output, 0, input.len() as int, axis)
}

/// The first `i - start` entries of the stretch have been sorted, the rest
/// of `cur` is as it was in `input`.
pub open spec fn inserted(
    objects: Seq<Primitive>,
    input: Seq<usize>,
    cur: Seq<usize>,
    start: int,
    i: int,
    axis: usize,
) -> bool {
    &&& cur.len() == input.len()
    &&& forall|p: int| 0 <= p < cur.len() && !(start <= p < i) ==> cur[p] == input[p]
    &&& forall|p: int| start <= p < i ==> came_from(input, start, i, #[trigger] cur[p])
    &&& stable(objects, input, cur, start, i, axis)
    &&& all_numeric(objects) ==> sorted(objects, cur, start, i, axis)
}

/// Entry `i` of `base` has been moved forward to position `j`, and what it
/// has passed has moved back by one.
pub open spec fn shifted(base: Seq<usize>, cur: Seq<usize>, i: int, j: int) -> bool {
    &&& cur.len() == base.len()
    &&& forall|p: int| 0 <= p < j ==> cur[p] == base[p]
    &&& forall|p: int| i < p < cur.len() ==> cur[p] == base[p]
    &&& forall|p: int| j < p <= i ==> cur[p] == base[p - 1]
    &&& cur[j] == base[i]
}

/// Orders two primitives by where they begin on an axis. Two that begin
/// at the same place, or of which one begins at a NaN, are equal.
pub fn box_compare(a: &Primitive, b: &Primitive, axis: usize) -> (r: Ordering)
    ensures
        r == (if a.aabb().spec_axis_interval(axis).min.spec_lt(
            b.aabb().spec_axis_interval(axis).min,
        ) {
            Ordering::Less
        } else if a.aabb().spec_axis_interval(axis).min.spec_gt(
            b.aabb().spec_axis_interval(axis).min,
        ) {
            Ordering::Greater
        } else {
            Ordering::Equal
        }),
{
    let a_axis_interval = a.bounding_box().axis_interval(axis);
    let b_axis_interval = b.bounding_box().axis_interval(axis);
    if a_axis_interval.min.lt(b_axis_interval.min) {
        return Ordering::Less;
    } else if a_axis_interval.min.gt(b_axis_interval.min) {
        return Ordering::Greater;
    }
    Ordering::Equal
}

/// Whether primitive `a` begins behind primitive `b` on an axis.
fn begins_behind(a: &Primitive, b: &Primitive, axis: usize) -> (r: bool)
    ensures
        r == b.aabb().spec_axis_interval(axis).min.spec_lt(a.aabb().spec_axis_interval(axis).min),
{
    match box_compare(a, b, axis) {
        Ordering::Greater => true,
        _ => false,
    }
}

/// Sorts the stretch of `order` from `start` to `end` by where the primitives
/// begin on an axis. Primitives of which neither begins before the other
/// keep their order.
pub fn sort_span(
    objects: &Vec<Primitive>,
    order: &mut Vec<usize>,
    start: usize,
    end: usize,
    axis: usize,
)
    requires
        start <= end <= old(order)@.len(),
        ids_ok(old(order)@, objects@.len() as int),
        old(order)@.no_duplicates(),
    ensures
        final(order)@.len() == old(order)@.len(),
        rearranged(old(order)@, final(order)@, start as int, end as int),
        ids_ok(final(order)@, objects@.len() as int),
        final(order)@.no_duplicates(),
        in_order(objects@, old(order)@, final(order)@, start as int, end as int, axis),
{
    let ghost input = order@;
    proof {
        lemma_rearranged_same(input, start as int, end as int);
    }
    let mut i = start;
    while i < end
        invariant
            start <= i <= end <= order@.len(),
            input.no_duplicates(),
            rearranged(input, order@, start as int, end as int),
            ids_ok(order@, objects@.len() as int),
            inserted(objects@, input, order@, start as int, i as int, axis),
        decreases end - i,
    {
        let ghost base = order@;
        let mut j = i;
        while j > start && begins_behind(&objects[order[j - 1]], &objects[order[j]], axis)
            invariant
                start <= j <= i < end <= order@.len(),
                order@.len() == input.len(),
                rearranged(input, order@, start as int, end as int),
                ids_ok(order@, objects@.len() as int),
                shifted(base, order@, i as int, j as int),
                forall|q: int|
                    j < q <= i ==> begins_before(
                        objects@,
                        order@[j as int],
                        #[trigger] order@[q],
                        axis,
                    ),
            decreases j,
        {
            let ghost before = order@;
            let behind = order[j - 1];
            let ahead = order[j];
            order[j - 1] = ahead;
            order[j] = behind;
            proof {
                assert(order@ =~= before.update(j - 1, before[j as int]).update(
                    j as int,
                    before[j - 1],
                ));
                lemma_swap_rearranges(before, start as int, end as int, j - 1, j as int);
                lemma_rearranged_twice(input, before, order@, start as int, end as int);
            }
            j -= 1;
        }
        proof {
            lemma_insert_end(objects@, input, base, order@, start as int, i as int, j as int, axis);
        }
        i += 1;
    }
    proof {
        lemma_inserted_no_duplicates(objects@, input, order@, start as int, end as int, axis);
        reveal(in_order);
    }
}

/// Every sequence is a rearrangement of itself.
pub proof fn lemma_rearranged_same(a: Seq<usize>, start: int, end: int)
    ensures
        rearranged(a, a, start, end),
{
    reveal(rearranged);
}

/// A rearrangement keeps the length and whatever lies outside the stretch.
pub proof fn lemma_rearranged_frame(a: Seq<usize>, b: Seq<usize>, start: int, end: int)
    requires
        rearranged(a, b, start, end),
    ensures
        a.len() == b.len(),
        forall|p: int| 0 <= p < a.len() && !(start <= p < end) ==> a[p] == b[p],
{
    reveal(rearranged);
}

/// A rearrangement of a rearrangement is a rearrangement.
pub proof fn lemma_rearranged_twice(
    a: Seq<usize>,
    b: Seq<usize>,
    c: Seq<usize>,
    start: int,
    end: int,
)
    requires
        rearranged(a, b, start, end),
        rearranged(b, c, start, end),
    ensures
        rearranged(a, c, start, end),
{
    reveal(rearranged);
}

/// Exchanging two entries of a stretch rearranges the stretch.
pub proof fn lemma_swap_rearranges(a: Seq<usize>, start: int, end: int, p: int, q: int)
    requires
        0 <= start <= p < end <= a.len(),
        start <= q < end,
    ensures
        rearranged(a, a.update(p, a[q]).update(q, a[p]), start, end),
{
    broadcast use vstd::seq_lib::group_to_multiset_ensures;

    reveal(rearranged);
    let b = a.update(p, a[q]).update(q, a[p]);
    let sa = a.subrange(start, end);
    assert(b.subrange(start, end) =~= sa.update(p - start, sa[q - start]).update(
        q - start,
        sa[p - start],
    ));
    assert(sa.to_multiset() =~= b.subrange(start, end).to_multiset());
}

/// A stretch that has been rearranged has been rearranged within every
/// stretch that holds it.
pub proof fn lemma_rearranged_widen(
    a: Seq<usize>,
    b: Seq<usize>,
    start: int,
    end: int,
    from: int,
    to: int,
)
    requires
        rearranged(a, b, start, end),
        0 <= from <= start <= end <= to <= a.len(),
    ensures
        rearranged(a, b, from, to),
{
    reveal(rearranged);
    assert(a.subrange(from, to) =~= a.subrange(from, start) + a.subrange(start, end) + a.subrange(
        end,
        to,
    ));
    assert(b.subrange(from, to) =~= b.subrange(from, start) + b.subrange(start, end) + b.subrange(
        end,
        to,
    ));
    assert(a.subrange(from, start) =~= b.subrange(from, start));
    assert(a.subrange(end, to) =~= b.subrange(end, to));
    vstd::seq_lib::lemma_multiset_commutative(a.subrange(from, start), a.subrange(start, end));
    vstd::seq_lib::lemma_multiset_commutative(b.subrange(from, start), b.subrange(start, end));
    vstd::seq_lib::lemma_multiset_commutative(
        a.subrange(from, start) + a.subrange(start, end),
        a.subrange(end, to),
    );
    vstd::seq_lib::lemma_multiset_commutative(
        b.subrange(from, start) + b.subrange(start, end),
        b.subrange(end, to),
    );
}

/// Rearranging a stretch, then its first part, then the rest, rearranges
/// the stretch; and the last step leaves the first part as it was.
pub proof fn lemma_rearranged_halves(
    a: Seq<usize>,
    b: Seq<usize>,
    c: Seq<usize>,
    d: Seq<usize>,
    start: int,
    mid: int,
    end: int,
)
    requires
        0 <= start <= mid <= end <= a.len(),
        rearranged(a, b, start, end),
        rearranged(b, c, start, mid),
        rearranged(c, d, mid, end),
    ensures
        rearranged(a, d, start, end),
        c.subrange(start, mid) == d.subrange(start, mid),
        b.subrange(mid, end) == c.subrange(mid, end),
{
    lemma_rearranged_frame(a, b, start, end);
    lemma_rearranged_frame(b, c, start, mid);
    lemma_rearranged_frame(c, d, mid, end);
    lemma_rearranged_widen(b, c, start, mid, start, end);
    lemma_rearranged_widen(c, d, mid, end, start, end);
    lemma_rearranged_twice(a, b, c, start, end);
    lemma_rearranged_twice(a, c, d, start, end);
    assert(c.subrange(start, mid) =~= d.subrange(start, mid));
    assert(b.subrange(mid, end) =~= c.subrange(mid, end));
}

/// Once the entry that is being inserted stands behind an entry that does
/// not begin behind it, or at the front, one more entry has been sorted.
pub proof fn lemma_insert_end(
    objects: Seq<Primitive>,
    input: Seq<usize>,
    base: Seq<usize>,
    cur: Seq<usize>,
    start: int,
    i: int,
    j: int,
    axis: usize,
)
    requires
        0 <= start <= j <= i < input.len(),
        input.no_duplicates(),
        inserted(objects, input, base, start, i, axis),
        shifted(base, cur, i, j),
        forall|q: int| j < q <= i ==> begins_before(objects, cur[j], #[trigger] cur[q], axis),
        j > start ==> !begins_before(objects, cur[j], cur[j - 1], axis),
        ids_ok(cur, objects.len() as int),
    ensures
        inserted(objects, input, cur, start, i + 1, axis),
{
    let x = cur[j];
    assert(base[i] == input[i]);
    assert(x == input[i]);
    // Where an entry of the sorted part stood before the insertion.
    let at = |p: int|
        if p < j {
            p
        } else {
            p - 1
        };
    assert forall|p: int| start <= p < i + 1 implies came_from(
        input,
        start,
        i + 1,
        #[trigger] cur[p],
    ) by {
        if p == j {
            assert(input[i] == cur[p]);
        } else {
            assert(cur[p] == base[at(p)]);
            assert(came_from(input, start, i, base[at(p)]));
            let p0 = choose|p0: int| start <= p0 < i && #[trigger] input[p0] == base[at(p)];
            assert(input[p0] == cur[p]);
        }
    }
    assert forall|p: int, q: int, p0: int, q0: int|
        start <= p < q < i + 1 && start <= p0 < i + 1 && start <= q0 < i + 1 && (
        #[trigger] input[p0]) == (#[trigger] cur[p]) && (#[trigger] input[q0]) == (
        #[trigger] cur[q]) && !begins_before(objects, cur[p], cur[q], axis) && !begins_before(
            objects,
            cur[q],
            cur[p],
            axis,
        ) implies p0 < q0 by {
        if p == j {
            // `x` begins before everything it has passed.
            assert(begins_before(objects, cur[j], cur[q], axis));
        } else if q == j {
            assert(q0 == i);
            assert(cur[p] == base[at(p)]);
            assert(came_from(input, start, i, base[at(p)]));
            let p1 = choose|p1: int| start <= p1 < i && #[trigger] input[p1] == base[at(p)];
            assert(p1 == p0);
        } else {
            assert(cur[p] == base[at(p)] && cur[q] == base[at(q)]);
            assert(came_from(input, start, i, base[at(p)]));
            assert(came_from(input, start, i, base[at(q)]));
            let p1 = choose|p1: int| start <= p1 < i && #[trigger] input[p1] == base[at(p)];
            let q1 = choose|q1: int| start <= q1 < i && #[trigger] input[q1] == base[at(q)];
            assert(p1 == p0 && q1 == q0);
            assert(input[p0] == base[at(p)] && input[q0] == base[at(q)]);
        }
    }
    if all_numeric(objects) {
        assert forall|p: int, q: int| start <= p < q < i + 1 implies !begins_before(
            objects,
            #[trigger] cur[q],
            #[trigger] cur[p],
            axis,
        ) by {
            assert(objects[cur[p] as int].aabb().numeric());
            assert(objects[cur[q] as int].aabb().numeric());
            if p == j {
                assert(begins_before(objects, cur[j], cur[q], axis));
            } else if q == j {
                // `p` stands at or before the entry in front of `x`.
                assert(objects[cur[j - 1] as int].aabb().numeric());
                assert(cur[p] == base[p] && cur[j - 1] == base[j - 1]);
                if p < j - 1 {
                    assert(!begins_before(objects, base[j - 1], base[p], axis));
                }
            } else {
                assert(cur[p] == base[at(p)] && cur[q] == base[at(q)]);
                assert(!begins_before(objects, base[at(q)], base[at(p)], axis));
            }
        }
    }
}

/// A stretch that has been sorted from entries of which no two are alike
/// holds no two entries that are alike.
pub proof fn lemma_inserted_no_duplicates(
    objects: Seq<Primitive>,
    input: Seq<usize>,
    cur: Seq<usize>,
    start: int,
    end: int,
    axis: usize,
)
    requires
        0 <= start <= end <= input.len(),
        input.no_duplicates(),
        inserted(objects, input, cur, start, end, axis),
    ensures
        cur.no_duplicates(),
{
    assert forall|p: int, q: int| 0 <= p < cur.len() && 0 <= q < cur.len() && p != q implies cur[p]
        != cur[q] by {
        if cur[p] == cur[q] {
            let inside_p = start <= p < end;
            let inside_q = start <= q < end;
            if inside_p && inside_q {
                assert(came_from(input, start, end, cur[p]));
                let p0 = choose|p0: int| start <= p0 < end && #[trigger] input[p0] == cur[p];
                if p < q {
                    assert(input[p0] == cur[p] && input[p0] == cur[q]);
                } else {
                    assert(input[p0] == cur[q] && input[p0] == cur[p]);
                }
            } else if inside_p {
                assert(came_from(input, start, end, cur[p]));
                let p0 = choose|p0: int| start <= p0 < end && #[trigger] input[p0] == cur[p];
                assert(input[q] == cur[q]);
            } else if inside_q {
                assert(came_from(input, start, end, cur[q]));
                let q0 = choose|q0: int| start <= q0 < end && #[trigger] input[q0] == cur[q];
                assert(input[p] == cur[p]);
            } else {
                assert(input[p] == cur[p] && input[q] == cur[q]);
            }
        }
    }
}

/// What holds of a sorted stretch holds of the stretch taken by itself.
pub proof fn lemma_arranged_stretch(
    objects: Seq<Primitive>,
    a: Seq<usize>,
    b: Seq<usize>,
    start: int,
    end: int,
    axis: usize,
)
    requires
        0 <= start <= end <= a.len(),
        rearranged(a, b, start, end),
        in_order(objects, a, b, start, end, axis),
    ensures
        arranged(objects, a.subrange(start, end), b.subrange(start, end), axis),
{
    reveal(rearranged);
    reveal(in_order);
    reveal(arranged);
    let sa = a.subrange(start, end);
    let sb = b.subrange(start, end);
    let n = end - start;
    assert(sa.subrange(0, n) =~= sa);
    assert(sb.subrange(0, n) =~= sb);
    assert forall|p: int, q: int, p0: int, q0: int|
        0 <= p < q < n && 0 <= p0 < n && 0 <= q0 < n && (#[trigger] sa[p0]) == (#[trigger] sb[p])
            && (#[trigger] sa[q0]) == (#[trigger] sb[q]) && !begins_before(
            objects,
            sb[p],
            sb[q],
            axis,
        ) && !begins_before(objects, sb[q], sb[p], axis) implies p0 < q0 by {
        assert(a[p0 + start] == b[p + start] && a[q0 + start] == b[q + start]);
    }
    if all_numeric(objects) {
        assert forall|p: int, q: int| 0 <= p < q < n implies !begins_before(
            objects,
            #[trigger] sb[q],
            #[trigger] sb[p],
            axis,
        ) by {
            assert(!begins_before(objects, b[q + start], b[p + start], axis));
        }
    }
}

} // verus!
