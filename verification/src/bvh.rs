use vstd::prelude::*;
use crate::aabb::{BoxTimes, AABB};
use crate::scalar::Scalar;
use crate::hittable_list::{
    all_ordered, closest_inside, hit_of, lemma_scan_closest, scan,
};
use crate::interval::Interval;
use crate::object::{HitRecord, Primitive};
use crate::sorting::{
    all_numeric, arranged, ids_ok, lemma_arranged_stretch, lemma_rearranged_halves,
    lemma_rearranged_same, rearranged, sort_span,
};
use crate::sphere::{lemma_hit_under_limit, shortened, SphereTimes};
use crate::vec3::Point3;

verus! {

/// What hangs below a branch: a single primitive, by its position in the
/// scene, or another branch, by its position in the tree.
#[derive(Clone, Copy, Debug)]
pub enum BVHChild {
    Primitive(usize),
    Node(usize),
}

/// A branch of the hierarchy: two children and the box that bounds both.
#[derive(Clone, Copy, Debug)]
pub struct BVHBranch {
    pub left: BVHChild,
    pub right: BVHChild,
    pub aabb: AABB,
}

/// A bounding volume hierarchy over the primitives of a scene.
///
/// The branches are kept in one vector, every branch behind its children, so
/// that the last branch is the root. A scene of one primitive has no branch,
/// and a scene of none has no root: such a tree is hit by nothing.
pub struct BVHNode {
    objects: Vec<Primitive>,
    nodes: Vec<BVHBranch>,
    root: Option<BVHChild>,
}

/// How high a child stands in the vector of branches: 0 for a primitive, one
/// more than its position for a branch.
pub open spec fn height(c: BVHChild) -> nat {
    match c {
        BVHChild::Primitive(_) => 0,
        BVHChild::Node(i) => (i + 1) as nat,
    }
}

/// The child names a primitive of the scene, or a branch that stands below `bound`.
pub open spec fn child_ok(c: BVHChild, bound: int, count: int) -> bool {
    match c {
        BVHChild::Primitive(k) => k < count,
        BVHChild::Node(i) => i < bound,
    }
}

/// Every branch stands behind its children, and every primitive named is one
/// of the `count` primitives of the scene.
pub open spec fn tree_ok(nodes: Seq<BVHBranch>, count: int) -> bool {
    forall|i: int|
        0 <= i < nodes.len() ==> child_ok(#[trigger] nodes[i].left, i, count) && child_ok(
            nodes[i].right,
            i,
            count,
        )
}

/// The primitives below a child, from left to right.
pub open spec fn leaf_seq(nodes: Seq<BVHBranch>, c: BVHChild) -> Seq<int>
    decreases height(c),
{
    match c {
        BVHChild::Primitive(k) => seq![k as int],
        BVHChild::Node(i) => if i < nodes.len() && height(nodes[i as int].left) <= i && height(
            nodes[i as int].right,
        ) <= i {
            leaf_seq(nodes, nodes[i as int].left) + leaf_seq(nodes, nodes[i as int].right)
        } else {
            Seq::empty()
        },
    }
}

/// The primitives below a child, as a set.
pub open spec fn leaves(nodes: Seq<BVHBranch>, c: BVHChild) -> Set<int> {
    leaf_seq(nodes, c).to_set()
}

/// The box of a child: that of the primitive, or the one kept in the branch.
pub open spec fn box_of(objects: Seq<Primitive>, nodes: Seq<BVHBranch>, c: BVHChild) -> AABB {
    match c {
        BVHChild::Primitive(k) => objects[k as int].aabb(),
        BVHChild::Node(i) => nodes[i as int].aabb,
    }
}

/// The box of every branch is the union of the boxes of its two children.
pub open spec fn boxes_ok(objects: Seq<Primitive>, nodes: Seq<BVHBranch>) -> bool {
    forall|i: int|
        0 <= i < nodes.len() ==> (#[trigger] nodes[i]).aabb == AABB::spec_union(
            box_of(objects, nodes, nodes[i].left),
            box_of(objects, nodes, nodes[i].right),
        )
}

/// Every branch splits its primitives in the middle: the left child takes
/// half of them, rounded down, and the right child the rest.
pub open spec fn balanced(nodes: Seq<BVHBranch>) -> bool {
    forall|i: int|
        0 <= i < nodes.len() ==> leaf_seq(nodes, (#[trigger] nodes[i]).left).len() == leaf_seq(
            nodes,
            BVHChild::Node(i as usize),
        ).len() / 2
}

/// The traversal below a child. A primitive is tested itself. Below a
/// branch nothing is hit unless the ray passes through the box of the branch
/// within the window; then the left child is searched in the whole window,
/// the right child in the window that ends at the hit on the left, if there
/// was one, and a hit on the right replaces the hit on the left.
pub open spec fn hit_below(
    objects: Seq<Primitive>,
    nodes: Seq<BVHBranch>,
    boxes: Seq<BoxTimes>,
    times: Seq<SphereTimes>,
    c: BVHChild,
    w: Interval,
) -> Option<HitRecord>
    decreases height(c),
{
    match c {
        BVHChild::Primitive(k) => hit_of(objects, times, k as int, w),
        BVHChild::Node(i) => if i < nodes.len() && height(nodes[i as int].left) <= i && height(
            nodes[i as int].right,
        ) <= i {
            if !AABB::passes(boxes[i as int], w) {
                None
            } else {
                let on_left = hit_below(objects, nodes, boxes, times, nodes[i as int].left, w);
                let limit = match on_left {
                    Some(h) => h.t,
                    None => w.max,
                };
                let on_right = hit_below(
                    objects,
                    nodes,
                    boxes,
                    times,
                    nodes[i as int].right,
                    shortened(w, limit),
                );
                match on_right {
                    Some(h) => Some(h),
                    None => on_left,
                }
            }
        } else {
            None
        },
    }
}

/// Primitive `k` lies below branch `i`.
pub open spec fn below(nodes: Seq<BVHBranch>, i: int, k: int) -> bool {
    leaves(nodes, BVHChild::Node(i as usize)).contains(k)
}

/// The boxes do not hide what they bound: the ray passes through the box of
/// a branch, within a window, whenever it hits a primitive below the branch
/// strictly inside that window. Of a hit at the very beginning or the very
/// end of the window nothing is asked: there the slab test, which takes a
/// window that has shrunk to a point for a miss, may rule the box out.
pub open spec fn conservative(
    objects: Seq<Primitive>,
    nodes: Seq<BVHBranch>,
    boxes: Seq<BoxTimes>,
    times: Seq<SphereTimes>,
) -> bool {
    forall|i: int, k: int, w: Interval|
        0 <= i < nodes.len() && #[trigger] below(nodes, i, k) && ((#[trigger] hit_of(
            objects,
            times,
            k,
            w,
        )) matches Some(h) && w.min.spec_lt(h.t) && h.t.spec_lt(w.max)) ==> AABB::passes(
            boxes[i],
            w,
        )
}

/// The entries as mathematical integers.
pub open spec fn ids(order: Seq<usize>) -> Seq<int> {
    order.map_values(|id: usize| id as int)
}

/// `after` continues `before`: it begins with the same branches.
pub open spec fn extends(before: Seq<BVHBranch>, after: Seq<BVHBranch>) -> bool {
    before.len() <= after.len() && forall|i: int| 0 <= i < before.len() ==> before[i] == after[i]
}

/// The box that bounds the primitives named in `order`, united one by one
/// from the empty box.
pub open spec fn span_box(objects: Seq<Primitive>, order: Seq<usize>) -> AABB
    decreases order.len(),
{
    if order.len() == 0 {
        AABB::spec_empty()
    } else {
        AABB::spec_union(span_box(objects, order.drop_last()), objects[order.last() as int].aabb())
    }
}

/// The branches form hierarchies over the scene: every branch stands behind
/// its children, carries the union of their boxes and splits its primitives
/// in the middle.
#[verifier::opaque]
pub open spec fn arena_ok(objects: Seq<Primitive>, nodes: Seq<BVHBranch>) -> bool {
    &&& tree_ok(nodes, objects.len() as int)
    &&& boxes_ok(objects, nodes)
    &&& balanced(nodes)
}

/// `axis` is the longest axis of a box as `extent` measures its intervals.
pub open spec fn chosen_axis<F: Fn(&Interval) -> Scalar>(extent: F, bbox: AABB, axis: usize) -> bool {
    exists|size_x: Scalar, size_y: Scalar, size_z: Scalar|
        call_ensures(extent, (&bbox.x,), size_x) && call_ensures(extent, (&bbox.y,), size_y)
            && call_ensures(extent, (&bbox.z,), size_z) && axis == #[trigger] AABB::spec_longest_axis(
            size_x,
            size_y,
            size_z,
        )
}

/// The child is what the build makes of the primitives that `input` names.
///
/// One primitive stands for itself. Two become the children of a branch as
/// they stand. More are sorted, equals in their order, by where they begin
/// on the longest axis of the box that bounds them; the first half, rounded
/// down, is built into the left child and the rest into the right child.
#[verifier::opaque]
pub open spec fn built<F: Fn(&Interval) -> Scalar>(
    objects: Seq<Primitive>,
    nodes: Seq<BVHBranch>,
    c: BVHChild,
    input: Seq<usize>,
    extent: F,
) -> bool
    decreases input.len(),
{
    if input.len() == 0 {
        false
    } else if input.len() == 1 {
        c == BVHChild::Primitive(input[0])
    } else {
        match c {
            BVHChild::Primitive(_) => false,
            BVHChild::Node(i) => i < nodes.len() && if input.len() == 2 {
                nodes[i as int].left == BVHChild::Primitive(input[0]) && nodes[i as int].right
                    == BVHChild::Primitive(input[1])
            } else {
                exists|axis: usize, output: Seq<usize>|
                    output.len() == input.len() && #[trigger] arranged(
                        objects,
                        input,
                        output,
                        axis,
                    ) && chosen_axis(extent, span_box(objects, input), axis) && built(
                        objects,
                        nodes,
                        nodes[i as int].left,
                        output.subrange(0, (input.len() / 2) as int),
                        extent,
                    ) && built(
                        objects,
                        nodes,
                        nodes[i as int].right,
                        output.subrange((input.len() / 2) as int, input.len() as int),
                        extent,
                    )
            },
        }
    }
}

/// The numbers `0` to `count - 1` in order.
pub open spec fn identity(count: nat) -> Seq<usize> {
    Seq::new(count, |k: int| k as usize)
}

impl BVHNode {
    /// The tree is what the build makes of the scene in the order of its
    /// primitives, with `extent` to measure intervals.
    pub open spec fn grown<F: Fn(&Interval) -> Scalar>(&self, extent: F) -> bool {
        match self.root() {
            None => self.objects().len() == 0,
            Some(c) => built(
                self.objects(),
                self.branches(),
                c,
                identity(self.objects().len()),
                extent,
            ),
        }
    }

    /// The primitives of the scene.
    pub closed spec fn objects(&self) -> Seq<Primitive> {
        self.objects@
    }

    /// The branches, children first.
    pub closed spec fn branches(&self) -> Seq<BVHBranch> {
        self.nodes@
    }

    /// The top of the tree, if the scene holds anything.
    pub closed spec fn root(&self) -> Option<BVHChild> {
        self.root
    }

    /// The tree is a hierarchy over the scene: it has a root exactly when the
    /// scene holds a primitive; its branches stand behind their children and
    /// split their primitives in the middle; below the root every primitive
    /// of the scene is found exactly once; and every branch carries the union
    /// of the boxes of its children.
    pub open spec fn wf(&self) -> bool {
        let count = self.objects().len() as int;
        &&& tree_ok(self.branches(), count)
        &&& boxes_ok(self.objects(), self.branches())
        &&& balanced(self.branches())
        &&& match self.root() {
            None => count == 0 && self.branches().len() == 0,
            Some(c) => {
                &&& count > 0
                &&& self.branches().len() == count - 1
                &&& child_ok(c, self.branches().len() as int, count)
                &&& height(c) == self.branches().len()
                &&& leaf_seq(self.branches(), c).no_duplicates()
                &&& leaves(self.branches(), c) =~= Set::new(|k: int| 0 <= k < count)
            },
        }
    }

    /// Every tree is well formed.
    #[verifier::type_invariant]
    spec fn always_wf(&self) -> bool {
        self.wf()
    }

    /// What a ray hits in the tree within the window.
    pub open spec fn spec_hit(&self, boxes: Seq<BoxTimes>, times: Seq<SphereTimes>, w: Interval)
        -> Option<HitRecord> {
        match self.root() {
            None => None,
            Some(c) => hit_below(self.objects(), self.branches(), boxes, times, c, w),
        }
    }

    /// Builds the hierarchy over a scene. `extent` measures an interval: it
    /// returns the upper bound less the lower bound, in the arithmetic of
    /// the caller.
    ///
    /// A scene of more than two primitives is sorted by where the primitives
    /// begin on the longest axis of the box that bounds them, and divided in
    /// the middle; each half is built in the same way. Two primitives become
    /// the children of one branch as they stand, and a single primitive
    /// stands for itself.
    pub fn new<F: Fn(&Interval) -> Scalar>(objects: Vec<Primitive>, extent: F) -> (r: BVHNode)
        requires
            forall|iv: Interval| extent.requires((&iv,)),
        ensures
            r.wf(),
            r.objects() == objects@,
            r.grown(extent),
    {
        let count = objects.len();
        let mut nodes: Vec<BVHBranch> = Vec::new();
        if count == 0 {
            return BVHNode { objects, nodes, root: None };
        }
        let mut order: Vec<usize> = Vec::new();
        let mut k: usize = 0;
        while k < count
            invariant
                k <= count,
                order@.len() == k,
                forall|p: int| 0 <= p < k ==> order@[p] == p,
            decreases count - k,
        {
            order.push(k);
            k += 1;
        }
        let ghost natural = order@;
        proof {
            assert(ids_ok(order@, count as int));
            assert(order@.no_duplicates());
            assert(natural =~= identity(count as nat));
            assert(natural.subrange(0, count as int) =~= natural);
            reveal(arena_ok);
        }
        let c = BVHNode::make(&objects, &mut order, 0, count, &extent, &mut nodes);
        proof {
            lemma_leaves_in_range(nodes@, count as int, c);
            assert(order@.subrange(0, count as int) =~= order@);
            lemma_all_below(natural, order@, leaf_seq(nodes@, c));
        }
        BVHNode { objects, nodes, root: Some(c) }
    }

    /// Builds the subtree over the primitives that `order` names from
    /// `start` to `end`, rearranging that stretch, and appends its branches.
    fn make<F: Fn(&Interval) -> Scalar>(
        objects: &Vec<Primitive>,
        order: &mut Vec<usize>,
        start: usize,
        end: usize,
        extent: &F,
        nodes: &mut Vec<BVHBranch>,
    ) -> (c: BVHChild)
        requires
            start < end <= old(order)@.len(),
            ids_ok(old(order)@, objects@.len() as int),
            old(order)@.no_duplicates(),
            arena_ok(objects@, old(nodes)@),
            old(nodes)@.len() + (end - start) <= objects@.len(),
            forall|iv: Interval| extent.requires((&iv,)),
        ensures
            final(order)@.len() == old(order)@.len(),
            rearranged(old(order)@, final(order)@, start as int, end as int),
            ids_ok(final(order)@, objects@.len() as int),
            final(order)@.no_duplicates(),
            extends(old(nodes)@, final(nodes)@),
            final(nodes)@.len() == old(nodes)@.len() + (end - start) - 1,
            arena_ok(objects@, final(nodes)@),
            child_ok(c, final(nodes)@.len() as int, objects@.len() as int),
            end - start == 1 ==> c == BVHChild::Primitive(final(order)@[start as int]),
            end - start > 1 ==> c == BVHChild::Node((final(nodes)@.len() - 1) as usize),
            leaf_seq(final(nodes)@, c) == ids(final(order)@.subrange(start as int, end as int)),
            built(
                objects@,
                final(nodes)@,
                c,
                old(order)@.subrange(start as int, end as int),
                *extent,
            ),
        decreases end - start,
    {
        let object_span = end - start;
        let ghost order0 = order@;
        proof {
            lemma_rearranged_same(order0, start as int, end as int);
            assert(objects.len() <= usize::MAX);
        }
        if object_span == 1 {
            let c = BVHChild::Primitive(order[start]);
            proof {
                lemma_built_one(objects@, nodes@, order0, start as int, *extent);
            }
            return c;
        }
        if object_span == 2 {
            let left = BVHChild::Primitive(order[start]);
            let right = BVHChild::Primitive(order[start + 1]);
            let ghost nodes0 = nodes@;
            proof {
                lemma_leaf_seq_one(nodes0, order0, start as int);
                lemma_leaf_seq_one(nodes0, order0, start + 1);
            }
            let c = BVHNode::join(objects, nodes, left, right, Ghost(1), Ghost(1));
            proof {
                lemma_ids_joined(order0, start as int, start + 1, end as int);
                lemma_built_two(objects@, nodes@, c, order0, start as int, *extent);
            }
            return c;
        }
        let bbox = BVHNode::bounds(objects, order, start, end);
        let size_x = extent(bbox.x());
        let size_y = extent(bbox.y());
        let size_z = extent(bbox.z());
        let axis = AABB::longest_axis(size_x, size_y, size_z);
        proof {
            assert(axis == AABB::spec_longest_axis(size_x, size_y, size_z));
            assert(chosen_axis(*extent, bbox, axis));
        }
        sort_span(objects, order, start, end, axis);
        let mid = start + object_span / 2;
        let ghost order1 = order@;
        let left = BVHNode::make(objects, order, start, mid, extent, nodes);
        let ghost order2 = order@;
        let ghost nodes2 = nodes@;
        let right = BVHNode::make(objects, order, mid, end, extent, nodes);
        let ghost nodes3 = nodes@;
        proof {
            lemma_rearranged_halves(
                order0,
                order1,
                order2,
                order@,
                start as int,
                mid as int,
                end as int,
            );
            lemma_extension_keeps_leaves(nodes2, nodes3, objects@, left);
            lemma_extension_keeps_built(
                objects@,
                nodes2,
                nodes3,
                left,
                order1.subrange(start as int, mid as int),
                *extent,
            );
        }
        let c = BVHNode::join(
            objects,
            nodes,
            left,
            right,
            Ghost((mid - start) as nat),
            Ghost((end - mid) as nat),
        );
        proof {
            lemma_ids_joined(order@, start as int, mid as int, end as int);
            lemma_arranged_stretch(objects@, order0, order1, start as int, end as int, axis);
            let input = order0.subrange(start as int, end as int);
            let output = order1.subrange(start as int, end as int);
            let half = (input.len() / 2) as int;
            assert(output.subrange(0, half) =~= order1.subrange(start as int, mid as int));
            assert(output.subrange(half, input.len() as int) =~= order1.subrange(
                mid as int,
                end as int,
            ));
            lemma_extension_keeps_built(
                objects@,
                nodes3,
                nodes@,
                left,
                output.subrange(0, half),
                *extent,
            );
            lemma_extension_keeps_built(
                objects@,
                nodes3,
                nodes@,
                right,
                output.subrange(half, input.len() as int),
                *extent,
            );
            assert(nodes@[nodes@.len() - 1] == nodes@.last());
            assert(span_box(objects@, input) == bbox);
            lemma_built_branch(
                objects@,
                nodes@,
                (nodes@.len() - 1) as usize,
                input,
                axis,
                output,
                *extent,
            );
        }
        c
    }

    /// Appends the branch over two children and returns it. `left_count` and
    /// `right_count` tell how many primitives stand below each child.
    fn join(
        objects: &Vec<Primitive>,
        nodes: &mut Vec<BVHBranch>,
        left: BVHChild,
        right: BVHChild,
        Ghost(left_count): Ghost<nat>,
        Ghost(right_count): Ghost<nat>,
    ) -> (c: BVHChild)
        requires
            arena_ok(objects@, old(nodes)@),
            old(nodes)@.len() < objects@.len(),
            child_ok(left, old(nodes)@.len() as int, objects@.len() as int),
            child_ok(right, old(nodes)@.len() as int, objects@.len() as int),
            leaf_seq(old(nodes)@, left).len() == left_count,
            leaf_seq(old(nodes)@, right).len() == right_count,
            left_count == (left_count + right_count) / 2,
        ensures
            final(nodes)@ == old(nodes)@.push(final(nodes)@.last()),
            final(nodes)@.len() == old(nodes)@.len() + 1,
            extends(old(nodes)@, final(nodes)@),
            final(nodes)@.last().left == left,
            final(nodes)@.last().right == right,
            arena_ok(objects@, final(nodes)@),
            c == BVHChild::Node((final(nodes)@.len() - 1) as usize),
            child_ok(c, final(nodes)@.len() as int, objects@.len() as int),
            leaf_seq(final(nodes)@, c) == leaf_seq(old(nodes)@, left) + leaf_seq(
                old(nodes)@,
                right,
            ),
    {
        let aabb = AABB::from_aabb(
            BVHNode::child_box(objects, nodes, left),
            BVHNode::child_box(objects, nodes, right),
        );
        proof {
            assert(objects.len() <= usize::MAX);
            lemma_push_branch(objects@, nodes@, BVHBranch { left, right, aabb });
        }
        nodes.push(BVHBranch { left, right, aabb });
        BVHChild::Node(nodes.len() - 1)
    }

    /// The box that bounds the primitives named from `start` to `end`.
    fn bounds(objects: &Vec<Primitive>, order: &Vec<usize>, start: usize, end: usize) -> (r: AABB)
        requires
            start <= end <= order@.len(),
            ids_ok(order@, objects@.len() as int),
        ensures
            r == span_box(objects@, order@.subrange(start as int, end as int)),
    {
        let mut bbox = AABB::empty();
        let mut i = start;
        while i < end
            invariant
                start <= i <= end <= order@.len(),
                ids_ok(order@, objects@.len() as int),
                bbox == span_box(objects@, order@.subrange(start as int, i as int)),
            decreases end - i,
        {
            proof {
                assert(order@.subrange(start as int, i + 1).drop_last() =~= order@.subrange(
                    start as int,
                    i as int,
                ));
            }
            bbox = AABB::from_aabb(&bbox, objects[order[i]].bounding_box());
            i += 1;
        }
        bbox
    }

    /// The box of a child.
    fn child_box<'a>(objects: &'a Vec<Primitive>, nodes: &'a Vec<BVHBranch>, c: BVHChild) -> (r:
        &'a AABB)
        requires
            child_ok(c, nodes@.len() as int, objects@.len() as int),
        ensures
            *r == box_of(objects@, nodes@, c),
    {
        match c {
            BVHChild::Node(i) => &nodes[i].aabb,
            BVHChild::Primitive(k) => objects[k].bounding_box(),
        }
    }

    /// The number of primitives.
    pub fn len(&self) -> (r: usize)
        ensures
            r == self.objects().len(),
    {
        self.objects.len()
    }

    /// The primitive at position `k` of the scene.
    pub fn primitive(&self, k: usize) -> (r: &Primitive)
        requires
            k < self.objects().len(),
        ensures
            *r == self.objects()[k as int],
    {
        &self.objects[k]
    }

    /// The number of branches.
    pub fn branch_count(&self) -> (r: usize)
        ensures
            r == self.branches().len(),
    {
        self.nodes.len()
    }

    /// The branch at position `i`.
    pub fn branch(&self, i: usize) -> (r: &BVHBranch)
        requires
            i < self.branches().len(),
        ensures
            *r == self.branches()[i as int],
    {
        &self.nodes[i]
    }

    /// The top of the tree.
    pub fn top(&self) -> (r: Option<BVHChild>)
        ensures
            r == self.root(),
    {
        self.root
    }

    /// Intersects a ray with the hierarchy. `boxes[i]` holds the crossings of
    /// the ray with the box of branch `i`, `times[k]` its solved intersection
    /// with primitive `k`. A subtree whose box the ray misses within the
    /// window is not looked at.
    ///
    /// With the roots of every primitive in order and boxes that do not hide
    /// what they bound, the result is a closest hit of the scene, hits at the
    /// very ends of the window aside: a hit exactly at the beginning or the
    /// end of the window may be hidden by a box.
    pub fn hit(&self, boxes: &Vec<BoxTimes>, times: &Vec<SphereTimes>, interval: &Interval) -> (r:
        Option<HitRecord>)
        requires
            boxes@.len() == self.branches().len(),
            times@.len() == self.objects().len(),
        ensures
            self.wf(),
            r == self.spec_hit(boxes@, times@, *interval),
            all_ordered(times@) && conservative(self.objects(), self.branches(), boxes@, times@)
                ==> closest_inside(
                r,
                self.objects(),
                times@,
                *interval,
                Set::new(|k: int| 0 <= k < self.objects().len()),
            ),
    {
        proof {
            use_type_invariant(self);
            if all_ordered(times@) && conservative(
                self.objects(),
                self.branches(),
                boxes@,
                times@,
            ) {
                lemma_hierarchy_closest(*self, boxes@, times@, *interval);
            }
        }
        match self.root {
            None => None,
            Some(c) => self.hit_child(c, boxes, times, interval),
        }
    }

    fn hit_child(
        &self,
        c: BVHChild,
        boxes: &Vec<BoxTimes>,
        times: &Vec<SphereTimes>,
        interval: &Interval,
    ) -> (r: Option<HitRecord>)
        requires
            tree_ok(self.nodes@, self.objects@.len() as int),
            child_ok(c, self.nodes@.len() as int, self.objects@.len() as int),
            boxes@.len() == self.nodes@.len(),
            times@.len() == self.objects@.len(),
        ensures
            r == hit_below(self.objects@, self.nodes@, boxes@, times@, c, *interval),
        decreases height(c),
    {
        match c {
            BVHChild::Primitive(k) => self.objects[k].hit(&times[k], interval),
            BVHChild::Node(i) => {
                let mut window = *interval;
                if AABB::hit(&boxes[i], &mut window).is_none() {
                    return None;
                }
                let branch = self.nodes[i];
                let left_hit = self.hit_child(branch.left, boxes, times, interval);
                let limit = match left_hit {
                    None => interval.max,
                    Some(ref hit) => hit.t(),
                };
                let right_hit = self.hit_child(
                    branch.right,
                    boxes,
                    times,
                    &Interval::new(interval.min, limit),
                );
                if right_hit.is_some() {
                    right_hit
                } else {
                    left_hit
                }
            },
        }
    }

    /// The box that bounds the whole scene. An empty tree has none.
    pub fn bounding_box(&self) -> (r: &AABB)
        requires
            self.root().is_some(),
        ensures
            *r == box_of(self.objects(), self.branches(), self.root().unwrap()),
    {
        proof {
            use_type_invariant(self);
        }
        match self.root.unwrap() {
            BVHChild::Node(i) => &self.nodes[i].aabb,
            BVHChild::Primitive(k) => self.objects[k].bounding_box(),
        }
    }
}

/// A rearrangement of the numbers `0` to `n - 1` holds each of them once.
pub proof fn lemma_all_below(identity: Seq<usize>, order: Seq<usize>, leaf: Seq<int>)
    requires
        forall|p: int| 0 <= p < identity.len() ==> identity[p] == p,
        rearranged(identity, order, 0, identity.len() as int),
        leaf == ids(order),
    ensures
        leaf.no_duplicates(),
        forall|j: int| 0 <= j < identity.len() ==> leaf.to_set().contains(j),
{
    reveal(rearranged);
    let n = identity.len() as int;
    assert(order.subrange(0, n) == order);
    assert(identity.subrange(0, n) == identity);
    assert(identity.no_duplicates());
    identity.lemma_multiset_has_no_duplicates();
    order.lemma_multiset_has_no_duplicates_conv();
    order.lemma_no_duplicates_injective(|id: usize| id as int);
    assert forall|j: int| 0 <= j < n implies leaf.to_set().contains(j) by {
        assert(identity[j] == j);
        assert(identity.contains(j as usize));
        vstd::seq_lib::to_multiset_contains(identity, j as usize);
        vstd::seq_lib::to_multiset_contains(order, j as usize);
        let p = choose|p: int| 0 <= p < order.len() && order[p] == j as usize;
        assert(leaf[p] == j);
    }
}

/// What `built` says of a child, by the number of primitives named.
pub proof fn lemma_built_reads<F: Fn(&Interval) -> Scalar>(
    objects: Seq<Primitive>,
    nodes: Seq<BVHBranch>,
    c: BVHChild,
    input: Seq<usize>,
    extent: F,
)
    ensures
        input.len() == 0 ==> !built(objects, nodes, c, input, extent),
        input.len() == 1 ==> (built(objects, nodes, c, input, extent) <==> c
            == BVHChild::Primitive(input[0])),
        input.len() == 2 ==> (built(objects, nodes, c, input, extent) <==> (c matches BVHChild::Node(
            i,
        ) && i < nodes.len() && nodes[i as int].left == BVHChild::Primitive(input[0])
            && nodes[i as int].right == BVHChild::Primitive(input[1]))),
        input.len() > 2 ==> (built(objects, nodes, c, input, extent) <==> (c matches BVHChild::Node(
            i,
        ) && i < nodes.len() && exists|axis: usize, output: Seq<usize>|
            output.len() == input.len() && #[trigger] arranged(objects, input, output, axis)
                && chosen_axis(extent, span_box(objects, input), axis) && built(
                objects,
                nodes,
                nodes[i as int].left,
                output.subrange(0, (input.len() / 2) as int),
                extent,
            ) && built(
                objects,
                nodes,
                nodes[i as int].right,
                output.subrange((input.len() / 2) as int, input.len() as int),
                extent,
            ))),
{
    reveal(built);
}

/// Appending branches leaves a child what the build has made it.
pub proof fn lemma_extension_keeps_built<F: Fn(&Interval) -> Scalar>(
    objects: Seq<Primitive>,
    before: Seq<BVHBranch>,
    after: Seq<BVHBranch>,
    c: BVHChild,
    input: Seq<usize>,
    extent: F,
)
    requires
        extends(before, after),
        built(objects, before, c, input, extent),
    ensures
        built(objects, after, c, input, extent),
    decreases input.len(),
{
    reveal(built);
    if input.len() > 2 {
        let i = c->Node_0 as int;
        let half = (input.len() / 2) as int;
        let (axis, output) = choose|axis: usize, output: Seq<usize>|
            output.len() == input.len() && #[trigger] arranged(objects, input, output, axis)
                && chosen_axis(extent, span_box(objects, input), axis) && built(
                objects,
                before,
                before[i].left,
                output.subrange(0, half),
                extent,
            ) && built(
                objects,
                before,
                before[i].right,
                output.subrange(half, input.len() as int),
                extent,
            );
        lemma_extension_keeps_built(
            objects,
            before,
            after,
            before[i].left,
            output.subrange(0, half),
            extent,
        );
        lemma_extension_keeps_built(
            objects,
            before,
            after,
            before[i].right,
            output.subrange(half, input.len() as int),
            extent,
        );
        assert(after[i] == before[i]);
        lemma_built_branch(objects, after, i as usize, input, axis, output, extent);
    }
}

/// A branch whose children the build has made of the two halves of a sorted
/// stretch is what the build makes of the stretch.
pub proof fn lemma_built_branch<F: Fn(&Interval) -> Scalar>(
    objects: Seq<Primitive>,
    nodes: Seq<BVHBranch>,
    i: usize,
    input: Seq<usize>,
    axis: usize,
    output: Seq<usize>,
    extent: F,
)
    requires
        input.len() > 2,
        i < nodes.len(),
        output.len() == input.len(),
        arranged(objects, input, output, axis),
        chosen_axis(extent, span_box(objects, input), axis),
        built(
            objects,
            nodes,
            nodes[i as int].left,
            output.subrange(0, (input.len() / 2) as int),
            extent,
        ),
        built(
            objects,
            nodes,
            nodes[i as int].right,
            output.subrange((input.len() / 2) as int, input.len() as int),
            extent,
        ),
    ensures
        built(objects, nodes, BVHChild::Node(i), input, extent),
{
    reveal(built);
}

/// A branch over two children that are there can be appended, and the
/// primitives below it are those below its children.
pub proof fn lemma_push_branch(objects: Seq<Primitive>, nodes: Seq<BVHBranch>, branch: BVHBranch)
    requires
        arena_ok(objects, nodes),
        nodes.len() < usize::MAX,
        child_ok(branch.left, nodes.len() as int, objects.len() as int),
        child_ok(branch.right, nodes.len() as int, objects.len() as int),
        branch.aabb == AABB::spec_union(
            box_of(objects, nodes, branch.left),
            box_of(objects, nodes, branch.right),
        ),
        leaf_seq(nodes, branch.left).len() == (leaf_seq(nodes, branch.left).len() + leaf_seq(
            nodes,
            branch.right,
        ).len()) / 2,
    ensures
        extends(nodes, nodes.push(branch)),
        arena_ok(objects, nodes.push(branch)),
        leaf_seq(nodes.push(branch), BVHChild::Node(nodes.len() as usize)) == leaf_seq(
            nodes,
            branch.left,
        ) + leaf_seq(nodes, branch.right),
{
    reveal(arena_ok);
    let count = objects.len() as int;
    let after = nodes.push(branch);
    let i = nodes.len() as int;
    assert(extends(nodes, after));
    lemma_extension_keeps_leaves(nodes, after, objects, branch.left);
    lemma_extension_keeps_leaves(nodes, after, objects, branch.right);
    assert(after[i] == branch);
    assert(tree_ok(after, count)) by {
        assert forall|j: int| 0 <= j < after.len() implies child_ok(
            #[trigger] after[j].left,
            j,
            count,
        ) && child_ok(after[j].right, j, count) by {
            if j < i {
                assert(after[j] == nodes[j]);
            }
        }
    }
    assert(boxes_ok(objects, after)) by {
        assert forall|j: int| 0 <= j < after.len() implies (#[trigger] after[j]).aabb
            == AABB::spec_union(
            box_of(objects, after, after[j].left),
            box_of(objects, after, after[j].right),
        ) by {
            if j < i {
                assert(after[j] == nodes[j]);
                assert(child_ok(nodes[j].left, j, count) && child_ok(nodes[j].right, j, count));
            }
        }
    }
    lemma_leaves_of_branch(after, count, i);
    assert(balanced(after)) by {
        assert forall|j: int| 0 <= j < after.len() implies leaf_seq(
            after,
            (#[trigger] after[j]).left,
        ).len() == leaf_seq(after, BVHChild::Node(j as usize)).len() / 2 by {
            if j < i {
                assert(after[j] == nodes[j]);
                assert(child_ok(nodes[j].left, j, count));
                lemma_extension_keeps_leaves(nodes, after, objects, nodes[j].left);
                lemma_extension_keeps_leaves(nodes, after, objects, BVHChild::Node(j as usize));
            }
        }
    }
}

/// A single primitive is what the build makes of it, and it alone stands
/// below itself.
pub proof fn lemma_built_one<F: Fn(&Interval) -> Scalar>(
    objects: Seq<Primitive>,
    nodes: Seq<BVHBranch>,
    order: Seq<usize>,
    start: int,
    extent: F,
)
    requires
        0 <= start < order.len(),
    ensures
        built(
            objects,
            nodes,
            BVHChild::Primitive(order[start]),
            order.subrange(start, start + 1),
            extent,
        ),
        leaf_seq(nodes, BVHChild::Primitive(order[start])) == ids(order.subrange(start, start + 1)),
{
    reveal(built);
    lemma_leaf_seq_one(nodes, order, start);
}

/// A single primitive alone stands below itself.
pub proof fn lemma_leaf_seq_one(nodes: Seq<BVHBranch>, order: Seq<usize>, start: int)
    requires
        0 <= start < order.len(),
    ensures
        leaf_seq(nodes, BVHChild::Primitive(order[start])) == ids(order.subrange(start, start + 1)),
        leaf_seq(nodes, BVHChild::Primitive(order[start])).len() == 1,
{
    assert(leaf_seq(nodes, BVHChild::Primitive(order[start])) =~= ids(
        order.subrange(start, start + 1),
    ));
}

/// The entries of two stretches that meet are the entries of the two together.
pub proof fn lemma_ids_joined(order: Seq<usize>, start: int, mid: int, end: int)
    requires
        0 <= start <= mid <= end <= order.len(),
    ensures
        ids(order.subrange(start, mid)) + ids(order.subrange(mid, end)) == ids(
            order.subrange(start, end),
        ),
{
    assert(ids(order.subrange(start, mid)) + ids(order.subrange(mid, end)) =~= ids(
        order.subrange(start, end),
    ));
}

/// A branch over two primitives as they stand is what the build makes of them.
pub proof fn lemma_built_two<F: Fn(&Interval) -> Scalar>(
    objects: Seq<Primitive>,
    nodes: Seq<BVHBranch>,
    c: BVHChild,
    order: Seq<usize>,
    start: int,
    extent: F,
)
    requires
        0 <= start,
        start + 2 <= order.len(),
        0 < nodes.len() <= usize::MAX,
        c == BVHChild::Node((nodes.len() - 1) as usize),
        nodes.last().left == BVHChild::Primitive(order[start]),
        nodes.last().right == BVHChild::Primitive(order[start + 1]),
    ensures
        built(objects, nodes, c, order.subrange(start, start + 2), extent),
{
    reveal(built);
}

/// Appending branches changes nothing below a child that was there before.
pub proof fn lemma_extension_keeps_leaves(
    before: Seq<BVHBranch>,
    after: Seq<BVHBranch>,
    objects: Seq<Primitive>,
    c: BVHChild,
)
    requires
        extends(before, after),
        arena_ok(objects, before),
        child_ok(c, before.len() as int, objects.len() as int),
    ensures
        leaf_seq(after, c) == leaf_seq(before, c),
    decreases height(c),
{
    reveal(arena_ok);
    let count = objects.len() as int;
    match c {
        BVHChild::Primitive(k) => {},
        BVHChild::Node(i) => {
            let i = i as int;
            assert(child_ok(before[i].left, i, count) && child_ok(before[i].right, i, count));
            lemma_extension_keeps_leaves(before, after, objects, before[i].left);
            lemma_extension_keeps_leaves(before, after, objects, before[i].right);
        },
    }
}

/// The primitives below a branch are those below its left child and those
/// below its right child.
pub proof fn lemma_leaves_of_branch(nodes: Seq<BVHBranch>, count: int, i: int)
    requires
        tree_ok(nodes, count),
        0 <= i < nodes.len(),
        i <= usize::MAX,
    ensures
        leaf_seq(nodes, BVHChild::Node(i as usize)) == leaf_seq(nodes, nodes[i].left) + leaf_seq(
            nodes,
            nodes[i].right,
        ),
        forall|k: int|
            #[trigger] leaves(nodes, BVHChild::Node(i as usize)).contains(k) <==> leaves(
                nodes,
                nodes[i].left,
            ).contains(k) || leaves(nodes, nodes[i].right).contains(k),
{
    let l = leaf_seq(nodes, nodes[i].left);
    let r = leaf_seq(nodes, nodes[i].right);
    assert(child_ok(nodes[i].left, i, count) && child_ok(nodes[i].right, i, count));
    assert(leaf_seq(nodes, BVHChild::Node(i as usize)) == l + r);
    assert forall|k: int| #[trigger]
        leaves(nodes, BVHChild::Node(i as usize)).contains(k) <==> l.to_set().contains(k)
            || r.to_set().contains(k) by {
        if (l + r).contains(k) {
            let p = choose|p: int| 0 <= p < (l + r).len() && (l + r)[p] == k;
            if p < l.len() {
                assert(l[p] == k);
            } else {
                assert(r[p - l.len()] == k);
            }
        }
        if l.contains(k) {
            let p = choose|p: int| 0 <= p < l.len() && l[p] == k;
            assert((l + r)[p] == k);
        }
        if r.contains(k) {
            let p = choose|p: int| 0 <= p < r.len() && r[p] == k;
            assert((l + r)[p + l.len()] == k);
        }
    }
}

/// Whatever the traversal returns is the hit of a primitive below the child
/// within the window, whether or not the boxes are to be relied on.
pub proof fn lemma_hit_below_sound(
    objects: Seq<Primitive>,
    nodes: Seq<BVHBranch>,
    boxes: Seq<BoxTimes>,
    times: Seq<SphereTimes>,
    c: BVHChild,
    w: Interval,
)
    requires
        tree_ok(nodes, objects.len() as int),
        child_ok(c, nodes.len() as int, objects.len() as int),
        times.len() == objects.len(),
        all_ordered(times),
    ensures
        hit_below(objects, nodes, boxes, times, c, w) matches Some(h) ==> exists|k: int|
            leaves(nodes, c).contains(k) && #[trigger] hit_of(objects, times, k, w) == Some(h),
    decreases height(c),
{
    let count = objects.len() as int;
    match c {
        BVHChild::Primitive(k) => {
            assert(leaf_seq(nodes, c)[0] == k as int);
            assert(leaves(nodes, c).contains(k as int));
        },
        BVHChild::Node(i) => {
            let i = i as int;
            let left = nodes[i].left;
            let right = nodes[i].right;
            assert(child_ok(left, i, count) && child_ok(right, i, count));
            lemma_leaves_of_branch(nodes, count, i);
            if AABB::passes(boxes[i], w) {
                let on_left = hit_below(objects, nodes, boxes, times, left, w);
                let limit = match on_left {
                    Some(h) => h.t,
                    None => w.max,
                };
                let cut = shortened(w, limit);
                let on_right = hit_below(objects, nodes, boxes, times, right, cut);
                lemma_hit_below_sound(objects, nodes, boxes, times, left, w);
                lemma_hit_below_sound(objects, nodes, boxes, times, right, cut);
                match on_right {
                    Some(h) => {
                        let k = choose|k: int|
                            leaves(nodes, right).contains(k) && #[trigger] hit_of(
                                objects,
                                times,
                                k,
                                cut,
                            ) == Some(h);
                        assert(0 <= k < count) by {
                            lemma_leaves_in_range(nodes, count, right);
                        }
                        match on_left {
                            Some(g) => {
                                let j = choose|j: int|
                                    leaves(nodes, left).contains(j) && #[trigger] hit_of(
                                        objects,
                                        times,
                                        j,
                                        w,
                                    ) == Some(g);
                                assert(hit_of(objects, times, j, w) == Some(g));
                                assert(times[k].ordered());
                                lemma_hit_under_limit(times[k], objects[k].material(), w, limit);
                            },
                            None => {
                                assert(cut == w);
                            },
                        }
                        assert(below(nodes, i, k) && hit_of(objects, times, k, w) == Some(h));
                    },
                    None => {
                        if let Some(g) = on_left {
                            let j = choose|j: int|
                                leaves(nodes, left).contains(j) && #[trigger] hit_of(
                                    objects,
                                    times,
                                    j,
                                    w,
                                ) == Some(g);
                            assert(below(nodes, i, j) && hit_of(objects, times, j, w) == Some(g));
                        }
                    },
                }
            }
        },
    }
}

/// Every primitive below a child is one of the scene.
pub proof fn lemma_leaves_in_range(nodes: Seq<BVHBranch>, count: int, c: BVHChild)
    requires
        tree_ok(nodes, count),
        child_ok(c, nodes.len() as int, count),
    ensures
        forall|k: int| leaves(nodes, c).contains(k) ==> 0 <= k < count,
    decreases height(c),
{
    match c {
        BVHChild::Primitive(id) => {
            assert forall|k: int| leaves(nodes, c).contains(k) implies 0 <= k < count by {
                let p = choose|p: int| 0 <= p < leaf_seq(nodes, c).len() && leaf_seq(nodes, c)[p] == k;
                assert(leaf_seq(nodes, c)[p] == id);
            }
        },
        BVHChild::Node(i) => {
            let i = i as int;
            assert(child_ok(nodes[i].left, i, count) && child_ok(nodes[i].right, i, count));
            lemma_leaves_of_branch(nodes, count, i);
            lemma_leaves_in_range(nodes, count, nodes[i].left);
            lemma_leaves_in_range(nodes, count, nodes[i].right);
        },
    }
}

/// The traversal returns a closest hit, hits at the very ends of the window
/// aside. With the roots of every primitive in order and boxes that do not
/// hide what they bound, what the traversal returns is the hit of a
/// primitive below the child, and no primitive below the child is hit
/// earlier, unless at the very beginning of the window; and where it returns
/// nothing, no primitive below the child is hit strictly inside the window.
pub proof fn lemma_hit_below_closest(
    objects: Seq<Primitive>,
    nodes: Seq<BVHBranch>,
    boxes: Seq<BoxTimes>,
    times: Seq<SphereTimes>,
    c: BVHChild,
    w: Interval,
)
    requires
        tree_ok(nodes, objects.len() as int),
        child_ok(c, nodes.len() as int, objects.len() as int),
        boxes.len() == nodes.len(),
        times.len() == objects.len(),
        all_ordered(times),
        conservative(objects, nodes, boxes, times),
    ensures
        closest_inside(
            hit_below(objects, nodes, boxes, times, c, w),
            objects,
            times,
            w,
            leaves(nodes, c),
        ),
    decreases height(c),
{
    let count = objects.len() as int;
    let result = hit_below(objects, nodes, boxes, times, c, w);
    lemma_leaves_in_range(nodes, count, c);
    match c {
        BVHChild::Primitive(id) => {
            assert(leaf_seq(nodes, c)[0] == id as int);
            assert(leaves(nodes, c).contains(id as int));
            assert forall|k: int| leaves(nodes, c).contains(k) implies k == id by {
                let p = choose|p: int| 0 <= p < leaf_seq(nodes, c).len() && leaf_seq(nodes, c)[p] == k;
                assert(leaf_seq(nodes, c)[p] == id);
            }
        },
        BVHChild::Node(i) => {
            let i = i as int;
            let left = nodes[i].left;
            let right = nodes[i].right;
            assert(child_ok(left, i, count) && child_ok(right, i, count));
            lemma_leaves_of_branch(nodes, count, i);
            if !AABB::passes(boxes[i], w) {
                assert forall|k: int| leaves(nodes, c).contains(k) implies ((#[trigger] hit_of(
                    objects,
                    times,
                    k,
                    w,
                )) matches Some(other) ==> !(w.min.spec_lt(other.t) && other.t.spec_lt(w.max))) by {
                    assert(below(nodes, i, k));
                }
            } else {
                let on_left = hit_below(objects, nodes, boxes, times, left, w);
                let limit = match on_left {
                    Some(h) => h.t,
                    None => w.max,
                };
                let cut = shortened(w, limit);
                let on_right = hit_below(objects, nodes, boxes, times, right, cut);
                lemma_hit_below_closest(objects, nodes, boxes, times, left, w);
                lemma_hit_below_closest(objects, nodes, boxes, times, right, cut);
                lemma_hit_below_sound(objects, nodes, boxes, times, c, w);
                lemma_hit_below_sound(objects, nodes, boxes, times, right, cut);
                match on_left {
                    None => {
                        assert(cut == w);
                        if let Some(top) = result {
                            let j = choose|j: int|
                                leaves(nodes, right).contains(j) && #[trigger] hit_of(
                                    objects,
                                    times,
                                    j,
                                    w,
                                ) == Some(top);
                            assert(hit_of(objects, times, j, w) == Some(top));
                        }
                    },
                    Some(g) => {
                        let j = choose|j: int|
                            leaves(nodes, left).contains(j) && #[trigger] hit_of(
                                objects,
                                times,
                                j,
                                w,
                            ) == Some(g);
                        assert(hit_of(objects, times, j, w) == Some(g));
                        let top = result.unwrap();
                        assert(top.t.spec_le(g.t)) by {
                            if let Some(h) = on_right {
                                let k = choose|k: int|
                                    leaves(nodes, right).contains(k) && #[trigger] hit_of(
                                        objects,
                                        times,
                                        k,
                                        cut,
                                    ) == Some(h);
                                assert(hit_of(objects, times, k, cut) == Some(h));
                            }
                        }
                        assert forall|k: int| leaves(nodes, c).contains(k) implies ((
                        #[trigger] hit_of(objects, times, k, w)) matches Some(other) ==> (
                        w.min.spec_lt(other.t) ==> top.t.spec_le(other.t))) by {
                            if let Some(other) = hit_of(objects, times, k, w) {
                                assert(below(nodes, i, k));
                                assert(times[k].ordered());
                                lemma_hit_under_limit(times[k], objects[k].material(), w, limit);
                                if leaves(nodes, right).contains(k) && other.t.spec_le(limit) {
                                    assert(hit_of(objects, times, k, cut) == Some(other));
                                }
                            }
                        }
                    },
                }
            }
        },
    }
}

/// The box of a child is a box of numbers where the boxes of the scene are.
pub proof fn lemma_box_numeric(objects: Seq<Primitive>, nodes: Seq<BVHBranch>, c: BVHChild)
    requires
        tree_ok(nodes, objects.len() as int),
        boxes_ok(objects, nodes),
        child_ok(c, nodes.len() as int, objects.len() as int),
        all_numeric(objects),
    ensures
        box_of(objects, nodes, c).numeric(),
    decreases height(c),
{
    match c {
        BVHChild::Primitive(k) => {
            assert(objects[k as int].aabb().numeric());
        },
        BVHChild::Node(i) => {
            let i = i as int;
            let count = objects.len() as int;
            assert(child_ok(nodes[i].left, i, count) && child_ok(nodes[i].right, i, count));
            lemma_box_numeric(objects, nodes, nodes[i].left);
            lemma_box_numeric(objects, nodes, nodes[i].right);
            crate::aabb::lemma_union_covers(
                box_of(objects, nodes, nodes[i].left),
                box_of(objects, nodes, nodes[i].right),
            );
        },
    }
}

/// The box of a child bounds every primitive below it: where the boxes of
/// the scene are boxes of numbers, whatever point lies in the box of a
/// primitive lies in the box of every branch above it.
pub proof fn lemma_box_covers_below(
    objects: Seq<Primitive>,
    nodes: Seq<BVHBranch>,
    c: BVHChild,
    k: int,
)
    requires
        tree_ok(nodes, objects.len() as int),
        boxes_ok(objects, nodes),
        child_ok(c, nodes.len() as int, objects.len() as int),
        all_numeric(objects),
        leaves(nodes, c).contains(k),
    ensures
        box_of(objects, nodes, c).covers(objects[k].aabb()),
    decreases height(c),
{
    let count = objects.len() as int;
    match c {
        BVHChild::Primitive(id) => {
            lemma_leaves_in_range(nodes, count, c);
            let p = choose|p: int| 0 <= p < leaf_seq(nodes, c).len() && leaf_seq(nodes, c)[p] == k;
            assert(leaf_seq(nodes, c)[p] == id);
        },
        BVHChild::Node(i) => {
            let i = i as int;
            let left = nodes[i].left;
            let right = nodes[i].right;
            assert(child_ok(left, i, count) && child_ok(right, i, count));
            lemma_leaves_of_branch(nodes, count, i);
            lemma_box_numeric(objects, nodes, left);
            lemma_box_numeric(objects, nodes, right);
            let a = box_of(objects, nodes, left);
            let b = box_of(objects, nodes, right);
            crate::aabb::lemma_union_covers(a, b);
            let inner = objects[k].aabb();
            if leaves(nodes, left).contains(k) {
                lemma_box_covers_below(objects, nodes, left, k);
                assert forall|p: Point3| inner.holds(p) implies #[trigger] nodes[i].aabb.holds(
                    p,
                ) by {
                    assert(a.holds(p));
                }
            } else {
                lemma_box_covers_below(objects, nodes, right, k);
                assert forall|p: Point3| inner.holds(p) implies #[trigger] nodes[i].aabb.holds(
                    p,
                ) by {
                    assert(b.holds(p));
                }
            }
        },
    }
}

/// The box of the whole tree bounds every primitive of the scene.
pub proof fn lemma_bounds_cover_scene(bvh: BVHNode, k: int)
    requires
        bvh.wf(),
        all_numeric(bvh.objects()),
        0 <= k < bvh.objects().len(),
    ensures
        box_of(bvh.objects(), bvh.branches(), bvh.root().unwrap()).covers(bvh.objects()[k].aabb()),
{
    let c = bvh.root().unwrap();
    assert(leaves(bvh.branches(), c).contains(k));
    lemma_box_covers_below(bvh.objects(), bvh.branches(), c, k);
}

/// The traversal of a whole tree returns a closest hit of the scene, hits at
/// the very ends of the window aside, under the conditions of
/// `lemma_hit_below_closest`.
pub proof fn lemma_hierarchy_closest(
    bvh: BVHNode,
    boxes: Seq<BoxTimes>,
    times: Seq<SphereTimes>,
    w: Interval,
)
    requires
        bvh.wf(),
        boxes.len() == bvh.branches().len(),
        times.len() == bvh.objects().len(),
        all_ordered(times),
        conservative(bvh.objects(), bvh.branches(), boxes, times),
    ensures
        closest_inside(
            bvh.spec_hit(boxes, times, w),
            bvh.objects(),
            times,
            w,
            Set::new(|k: int| 0 <= k < bvh.objects().len()),
        ),
{
    match bvh.root() {
        None => {},
        Some(c) => {
            lemma_hit_below_closest(bvh.objects(), bvh.branches(), boxes, times, c, w);
        },
    }
}

/// The hierarchy agrees with the scan. For a well-formed tree, with the roots
/// of every primitive in order and boxes that do not hide what they bound:
///
/// - where the scan hits nothing, so does the traversal;
/// - whatever the traversal hits, the scan hits no later;
/// - where the closest hit of the scan lies strictly inside the window, the
///   traversal hits at the same distance;
/// - where both hit and the closest hit does not lie at the very beginning
///   of the window, they hit at the same distance.
///
/// What is left out is a closest hit exactly at the beginning or the end of
/// the window: the slab test may then rule out the box that holds it, so
/// that the traversal returns nothing, or a later hit.
pub proof fn lemma_hierarchy_matches_scan(
    bvh: BVHNode,
    boxes: Seq<BoxTimes>,
    times: Seq<SphereTimes>,
    w: Interval,
)
    requires
        bvh.wf(),
        boxes.len() == bvh.branches().len(),
        times.len() == bvh.objects().len(),
        all_ordered(times),
        conservative(bvh.objects(), bvh.branches(), boxes, times),
    ensures
        ({
            let tree = bvh.spec_hit(boxes, times, w);
            let list = scan(bvh.objects(), times, w, bvh.objects().len());
            &&& list.is_none() ==> tree.is_none()
            &&& tree matches Some(h) ==> (list matches Some(g) && g.t.spec_le(h.t))
            &&& list matches Some(g) ==> (w.min.spec_lt(g.t) && g.t.spec_lt(w.max) ==> (
            tree matches Some(h) && h.t.same(g.t)))
            &&& list matches Some(g) ==> (tree matches Some(h) ==> (w.min.spec_lt(g.t)
                ==> h.t.same(g.t)))
        }),
{
    let objects = bvh.objects();
    let all = Set::new(|k: int| 0 <= k < objects.len());
    let tree = bvh.spec_hit(boxes, times, w);
    let list = scan(objects, times, w, objects.len());
    lemma_scan_closest(objects, times, w, objects.len());
    lemma_hierarchy_closest(bvh, boxes, times, w);
    if let Some(h) = tree {
        let k = choose|k: int| all.contains(k) && #[trigger] hit_of(objects, times, k, w) == Some(h);
        assert(hit_of(objects, times, k, w) == Some(h));
    }
    if let Some(g) = list {
        let j = choose|j: int| all.contains(j) && #[trigger] hit_of(objects, times, j, w) == Some(g);
        assert(hit_of(objects, times, j, w) == Some(g));
    }
}

} // verus!
