use vstd::prelude::*;
use crate::aabb::{hit_all_around, AABB};
use crate::hittable::{HitRecord, Hittable};
use crate::hittable_list::HittableList;
use crate::ray::Ray;
use crate::util::random_in_range;

verus! {

/// A node of the hierarchy: a leaf that stands for one primitive, by its
/// index and its box, or a branch over two subtrees with the box that holds
/// both.
pub enum BVHTree {
    Leaf(AABB, usize),
    Branch { bounds: AABB, left: Box<BVHTree>, right: Box<BVHTree> },
}

impl BVHTree {
    /// The box of the node.
    pub open spec fn spec_bounds(self) -> AABB {
        match self {
            BVHTree::Leaf(bounds, _) => bounds,
            BVHTree::Branch { bounds, .. } => bounds,
        }
    }

    /// The leaves from left to right, each as its box and its primitive's index.
    pub open spec fn leaves(self) -> Seq<(AABB, usize)>
        decreases self,
    {
        match self {
            BVHTree::Leaf(bounds, index) => seq![(bounds, index)],
            BVHTree::Branch { left, right, .. } => left.leaves() + right.leaves(),
        }
    }

    /// The number of branches on the longest way from this node to a leaf.
    pub open spec fn depth(self) -> nat
        decreases self,
    {
        match self {
            BVHTree::Leaf(..) => 0,
            BVHTree::Branch { left, right, .. } => {
                let l = left.depth();
                let r = right.depth();
                if l >= r {
                    l + 1
                } else {
                    r + 1
                }
            },
        }
    }

    /// The number of branches in the tree.
    pub open spec fn branches(self) -> nat
        decreases self,
    {
        match self {
            BVHTree::Leaf(..) => 0,
            BVHTree::Branch { left, right, .. } => left.branches() + right.branches() + 1,
        }
    }

    /// Whether the box of every branch is the box that surrounds the boxes of
    /// its two children.
    pub open spec fn well_formed(self) -> bool
        decreases self,
    {
        match self {
            BVHTree::Leaf(..) => true,
            BVHTree::Branch { bounds, left, right } => {
                &&& bounds == left.spec_bounds().spec_surround(right.spec_bounds())
                &&& left.well_formed()
                &&& right.well_formed()
            },
        }
    }

    /// The primitives that a ray may hit, by index, from left to right: the
    /// leaves that are reached by going down from this node through boxes
    /// that the ray hits, and whose own box the ray hits.
    pub open spec fn candidates<R: Ray>(self, ray: &R, t_min: i64, t_max: i64) -> Seq<usize>
        decreases self,
    {
        if !self.spec_bounds().spec_hit(ray, t_min, t_max) {
            Seq::empty()
        } else {
            match self {
                BVHTree::Leaf(_, index) => seq![index],
                BVHTree::Branch { left, right, .. } => left.candidates(ray, t_min, t_max)
                    + right.candidates(ray, t_min, t_max),
            }
        }
    }

    /// The box of the node.
    pub fn bounds(&self) -> (r: &AABB)
        ensures
            *r == self.spec_bounds(),
    {
        match self {
            BVHTree::Leaf(bounds, ..) => bounds,
            BVHTree::Branch { bounds, .. } => bounds,
        }
    }

    /// Appends to `candidates` the primitives that `ray` may hit between
    /// `t_min` and `t_max`. A subtree whose box the ray misses is skipped
    /// whole; below a box that the ray hits, both children are searched.
    pub fn get_intersect_candidates<R: Ray>(
        &self,
        ray: &R,
        t_min: i64,
        t_max: i64,
        candidates: &mut Vec<usize>,
    )
        ensures
            final(candidates)@ == old(candidates)@ + self.candidates(ray, t_min, t_max),
        decreases self,
    {
        match self {
            BVHTree::Leaf(bounds, index) => {
                if bounds.hit(ray, t_min, t_max) {
                    candidates.push(*index);
                }
            },
            BVHTree::Branch { bounds, left, right } => {
                if bounds.hit(ray, t_min, t_max) {
                    left.get_intersect_candidates(ray, t_min, t_max, candidates);
                    right.get_intersect_candidates(ray, t_min, t_max, candidates);
                }
            },
        }
    }
}

/// The tree over `leaves`: a single leaf for one of them, and otherwise a
/// branch whose left subtree is the tree over the first half, whose right
/// subtree is the tree over the rest, and whose box surrounds both. With an
/// odd number of leaves the right subtree gets one more.
pub open spec fn built(leaves: Seq<(AABB, usize)>) -> BVHTree
    decreases leaves.len(),
{
    if leaves.len() <= 1 {
        BVHTree::Leaf(leaves[0].0, leaves[0].1)
    } else {
        let mid = (leaves.len() / 2) as int;
        let left = built(leaves.subrange(0, mid));
        let right = built(leaves.subrange(mid, leaves.len() as int));
        BVHTree::Branch {
            bounds: left.spec_bounds().spec_surround(right.spec_bounds()),
            left: Box::new(left),
            right: Box::new(right),
        }
    }
}

/// The least `k` with `n <= 2^k`; 0 for `n` of 0 or 1.
pub open spec fn ceil_log2(n: nat) -> nat
    decreases n,
{
    if n <= 1 {
        0
    } else {
        1 + ceil_log2(((n + 1) / 2) as nat)
    }
}

/// 2 to the power of `k`.
pub open spec fn pow2(k: nat) -> nat
    decreases k,
{
    if k == 0 {
        1
    } else {
        2 * pow2((k - 1) as nat)
    }
}

/// Builds the tree over a list of leaves that is not empty.
pub fn recursive_build(list: &[(AABB, usize)]) -> (r: Box<BVHTree>)
    requires
        list@.len() >= 1,
    ensures
        *r == built(list@),
    decreases list@.len(),
{
    let object_span = list.len();
    if object_span == 1 {
        Box::new(BVHTree::Leaf(list[0].0, list[0].1))
    } else {
        let mid = object_span / 2;
        let (front, back) = list.split_at(mid);
        let left = recursive_build(front);
        let right = recursive_build(back);
        let bounds = left.bounds().surround_with(right.bounds());
        Box::new(BVHTree::Branch { bounds, left, right })
    }
}

/// `ceil_log2` never decreases.
pub proof fn lemma_ceil_log2_monotone(a: nat, b: nat)
    requires
        a <= b,
    ensures
        ceil_log2(a) <= ceil_log2(b),
    decreases b,
{
    if a > 1 {
        lemma_ceil_log2_monotone(((a + 1) / 2) as nat, ((b + 1) / 2) as nat);
    }
}

/// `ceil_log2(n)` is the exponent of the least power of two that is not
/// below `n`.
pub proof fn lemma_ceil_log2_is_least(n: nat)
    requires
        n >= 1,
    ensures
        n <= pow2(ceil_log2(n)),
        n > 1 ==> pow2((ceil_log2(n) - 1) as nat) < n,
    decreases n,
{
    if n > 1 {
        let h = ((n + 1) / 2) as nat;
        lemma_ceil_log2_is_least(h);
        if h > 1 {
            assert(ceil_log2(n) - 1 == ceil_log2(h));
            assert(pow2(ceil_log2(h)) == 2 * pow2((ceil_log2(h) - 1) as nat));
        } else {
            assert(ceil_log2(h) == 0);
            assert(pow2(0) == 1);
        }
    }
}

/// The tree over a list of leaves has exactly those leaves, in that order,
/// and every branch box in it surrounds the boxes of its children.
pub proof fn lemma_built_leaves(leaves: Seq<(AABB, usize)>)
    requires
        leaves.len() >= 1,
    ensures
        built(leaves).leaves() == leaves,
        built(leaves).well_formed(),
        built(leaves).branches() == leaves.len() - 1,
    decreases leaves.len(),
{
    if leaves.len() > 1 {
        let mid = (leaves.len() / 2) as int;
        let front = leaves.subrange(0, mid);
        let back = leaves.subrange(mid, leaves.len() as int);
        lemma_built_leaves(front);
        lemma_built_leaves(back);
        assert(front + back =~= leaves);
    } else {
        assert(seq![(leaves[0].0, leaves[0].1)] =~= leaves);
    }
}

/// The tree over `n` leaves is as shallow as a binary tree over `n` leaves
/// can be: its depth is the logarithm of `n` to base 2, rounded up. Over a
/// single leaf it is that leaf, with no branch.
pub proof fn lemma_built_depth(leaves: Seq<(AABB, usize)>)
    requires
        leaves.len() >= 1,
    ensures
        built(leaves).depth() == ceil_log2(leaves.len()),
        leaves.len() == 1 ==> built(leaves) == BVHTree::Leaf(leaves[0].0, leaves[0].1),
    decreases leaves.len(),
{
    if leaves.len() > 1 {
        let n = leaves.len();
        let mid = (n / 2) as int;
        let front = leaves.subrange(0, mid);
        let back = leaves.subrange(mid, n as int);
        lemma_built_depth(front);
        lemma_built_depth(back);
        assert(back.len() == (n + 1) / 2);
        lemma_ceil_log2_monotone(front.len(), back.len());
    }
}

/// The coordinate by which a leaf is ordered: the lower face of its box on `axis`.
pub open spec fn sort_key(leaf: (AABB, usize), axis: usize) -> i64 {
    leaf.0.minimum.spec_index(axis)
}

/// Whether the leaves come in ascending order of their key on `axis`.
pub open spec fn sorted_on(leaves: Seq<(AABB, usize)>, axis: usize) -> bool {
    forall|i: int, j: int|
        0 <= i <= j < leaves.len() ==> sort_key(leaves[i], axis) <= sort_key(leaves[j], axis)
}

/// Merges two runs of leaves, each in ascending order of its key on `axis`,
/// into one.
fn merge_runs(left: &[(AABB, usize)], right: &[(AABB, usize)], axis: usize) -> (out: Vec<
    (AABB, usize),
>)
    requires
        axis < 3,
        sorted_on(left@, axis),
        sorted_on(right@, axis),
        left@.len() + right@.len() <= usize::MAX,
    ensures
        sorted_on(out@, axis),
        out@.to_multiset() == left@.to_multiset().add(right@.to_multiset()),
        out@.len() == left@.len() + right@.len(),
{
    let mut out: Vec<(AABB, usize)> = Vec::new();
    let mut i: usize = 0;
    let mut j: usize = 0;
    proof {
        broadcast use vstd::multiset::group_multiset_axioms;

        vstd::seq_lib::to_multiset_len(left@.take(0));
        vstd::seq_lib::to_multiset_len(right@.take(0));
        vstd::seq_lib::to_multiset_len(out@);
        vstd::multiset::lemma_multiset_empty_len(left@.take(0).to_multiset());
        vstd::multiset::lemma_multiset_empty_len(right@.take(0).to_multiset());
        vstd::multiset::lemma_multiset_empty_len(out@.to_multiset());
        assert(out@.to_multiset() =~= left@.take(0).to_multiset().add(
            right@.take(0).to_multiset(),
        ));
    }
    while i < left.len() || j < right.len()
        invariant
            axis < 3,
            i <= left@.len(),
            j <= right@.len(),
            sorted_on(left@, axis),
            sorted_on(right@, axis),
            sorted_on(out@, axis),
            out@.len() == i + j,
            out@.to_multiset() == left@.take(i as int).to_multiset().add(
                right@.take(j as int).to_multiset(),
            ),
            forall|k: int|
                0 <= k < out@.len() && i < left@.len() ==> sort_key(#[trigger] out@[k], axis)
                    <= sort_key(left@[i as int], axis),
            forall|k: int|
                0 <= k < out@.len() && j < right@.len() ==> sort_key(#[trigger] out@[k], axis)
                    <= sort_key(right@[j as int], axis),
        decreases left@.len() - i + right@.len() - j,
    {
        let from_left = if i >= left.len() {
            false
        } else if j >= right.len() {
            true
        } else {
            *left[i].0.minimum.index(axis) <= *right[j].0.minimum.index(axis)
        };
        let ghost before = out@;
        if from_left {
            out.push(left[i]);
            proof {
                broadcast use vstd::multiset::group_multiset_axioms;

                assert(left@.take(i + 1) =~= left@.take(i as int).push(left@[i as int]));
                vstd::seq_lib::to_multiset_build(left@.take(i as int), left@[i as int]);
                vstd::seq_lib::to_multiset_build(before, left@[i as int]);
                assert(out@.to_multiset() =~= left@.take(i + 1).to_multiset().add(
                    right@.take(j as int).to_multiset(),
                ));
            }
            i += 1;
        } else {
            out.push(right[j]);
            proof {
                broadcast use vstd::multiset::group_multiset_axioms;

                assert(right@.take(j + 1) =~= right@.take(j as int).push(right@[j as int]));
                vstd::seq_lib::to_multiset_build(right@.take(j as int), right@[j as int]);
                vstd::seq_lib::to_multiset_build(before, right@[j as int]);
                assert(out@.to_multiset() =~= left@.take(i as int).to_multiset().add(
                    right@.take(j + 1).to_multiset(),
                ));
            }
            j += 1;
        }
    }
    proof {
        assert(left@.take(i as int) =~= left@);
        assert(right@.take(j as int) =~= right@);
    }
    out
}

/// The leaves of `list` in ascending order of their key on `axis`: the two
/// halves of the list are ordered each for itself and then merged.
fn merge_sort(list: &[(AABB, usize)], axis: usize) -> (out: Vec<(AABB, usize)>)
    requires
        axis < 3,
    ensures
        sorted_on(out@, axis),
        out@.to_multiset() == list@.to_multiset(),
        out@.len() == list@.len(),
    decreases list@.len(),
{
    if list.len() <= 1 {
        let mut out: Vec<(AABB, usize)> = Vec::new();
        if list.len() == 1 {
            out.push(list[0]);
        }
        assert(out@ =~= list@);
        out
    } else {
        let mid = list.len() / 2;
        let (front, back) = list.split_at(mid);
        let left = merge_sort(front, axis);
        let right = merge_sort(back, axis);
        proof {
            assert(front@ + back@ =~= list@);
            vstd::seq_lib::lemma_multiset_commutative(front@, back@);
        }
        merge_runs(left.as_slice(), right.as_slice(), axis)
    }
}

/// Puts the leaves in ascending order of their key on `axis`. Which of two
/// leaves with the same key comes first is not stated.
pub fn sort_leaves(leaves: &mut Vec<(AABB, usize)>, axis: usize)
    requires
        axis < 3,
    ensures
        final(leaves)@.to_multiset() == old(leaves)@.to_multiset(),
        final(leaves)@.len() == old(leaves)@.len(),
        sorted_on(final(leaves)@, axis),
{
    let sorted = merge_sort(leaves.as_slice(), axis);
    *leaves = sorted;
}

/// Why a hierarchy could not be built.
#[derive(Clone, Copy, Debug, PartialEq, Eq)]
pub enum BuildError {
    /// There is no primitive to build over.
    Empty,
    /// The primitive with this index has no bounding box.
    Unbounded(usize),
}

/// The leaves of the primitives in `list`, in the order of the list: each
/// primitive's box during the time from `time0` to `time1`, with its index.
pub open spec fn leaves_of<H: Hittable>(list: Seq<H>, time0: i64, time1: i64) -> Seq<(AABB, usize)> {
    Seq::new(list.len(), |i: int| (list[i].bounds(time0, time1).unwrap(), i as usize))
}

/// Whether `index` is the first primitive in `list` without a bounding box.
pub open spec fn first_unbounded<H: Hittable>(
    list: Seq<H>,
    time0: i64,
    time1: i64,
    index: int,
) -> bool {
    &&& 0 <= index < list.len()
    &&& list[index].bounds(time0, time1).is_none()
    &&& forall|k: int| 0 <= k < index ==> (#[trigger] list[k]).bounds(time0, time1).is_some()
}

/// Whether every primitive in `list` has a bounding box.
pub open spec fn all_bounded<H: Hittable>(list: Seq<H>, time0: i64, time1: i64) -> bool {
    forall|k: int| 0 <= k < list.len() ==> (#[trigger] list[k]).bounds(time0, time1).is_some()
}

/// Asks every primitive for its box and orders the resulting leaves along one
/// axis, which is drawn at random: the same axis for all of them.
pub fn get_leaves<H: Hittable>(list: &[H], time0: i64, time1: i64) -> (r: Result<
    Vec<(AABB, usize)>,
    BuildError,
>)
    ensures
        match r {
            Ok(leaves) => {
                &&& all_bounded(list@, time0, time1)
                &&& leaves@.to_multiset() == leaves_of(list@, time0, time1).to_multiset()
                &&& leaves@.len() == list@.len()
                &&& exists|axis: usize| axis < 3 && sorted_on(leaves@, axis)
            },
            Err(BuildError::Unbounded(index)) => first_unbounded(list@, time0, time1, index as int),
            Err(BuildError::Empty) => false,
        },
{
    let mut leaves: Vec<(AABB, usize)> = Vec::new();
    let mut i: usize = 0;
    while i < list.len()
        invariant
            i <= list@.len(),
            leaves@.len() == i,
            forall|k: int| 0 <= k < i ==> (#[trigger] list@[k]).bounds(time0, time1).is_some(),
            forall|k: int|
                0 <= k < i ==> leaves@[k] == (list@[k].bounds(time0, time1).unwrap(), k as usize),
        decreases list@.len() - i,
    {
        match list[i].bounding_box(time0, time1) {
            Some(bounds) => {
                leaves.push((bounds, i));
            },
            None => {
                return Err(BuildError::Unbounded(i));
            },
        }
        i += 1;
    }
    assert(leaves@ =~= leaves_of(list@, time0, time1));
    let axis = random_in_range(0, 2);
    sort_leaves(&mut leaves, axis);
    Ok(leaves)
}

/// The nearer of two answers: the one with the smaller `t`, and the first
/// where the two are equally near.
pub open spec fn spec_closer<D>(best: Option<HitRecord<D>>, next: Option<HitRecord<D>>) -> Option<
    HitRecord<D>,
> {
    match (best, next) {
        (None, _) => next,
        (Some(_), None) => best,
        (Some(b), Some(n)) => if n.t < b.t {
            next
        } else {
            best
        },
    }
}

/// The nearest of a list of answers: the hit with the smallest `t`, the first
/// such hit where several are equally near, and `None` if nothing was hit.
pub open spec fn nearest<D>(hits: Seq<Option<HitRecord<D>>>) -> Option<HitRecord<D>>
    decreases hits.len(),
{
    if hits.len() == 0 {
        None
    } else {
        spec_closer(nearest(hits.drop_last()), hits.last())
    }
}

/// The nearer of two answers: the one with the smaller `t`, and the first
/// where the two are equally near.
pub fn closer<D>(best: Option<HitRecord<D>>, next: Option<HitRecord<D>>) -> (r: Option<
    HitRecord<D>,
>)
    ensures
        r == spec_closer(best, next),
{
    match (best, next) {
        (None, next) => next,
        (Some(b), None) => Some(b),
        (Some(b), Some(n)) => if n.t < b.t {
            Some(n)
        } else {
            Some(b)
        },
    }
}

/// Whether `hits` is a list of answers that the primitives picked out by
/// `candidates` may give to `ray`, one answer for each candidate.
pub open spec fn answers_of<H: Hittable>(
    objects: Seq<H>,
    candidates: Seq<usize>,
    ray: &H::Ray,
    t_min: i64,
    t_max: i64,
    hits: Seq<Option<HitRecord<H::Detail>>>,
) -> bool {
    &&& hits.len() == candidates.len()
    &&& forall|j: int|
        0 <= j < candidates.len() ==> objects[candidates[j] as int].hit_outcome(
            ray,
            t_min,
            t_max,
            #[trigger] hits[j],
        )
}

/// Whether `out` may come of a search in two steps: the tree is searched for
/// candidates, each candidate gives an answer, and `out` is the nearest of
/// the answers.
pub open spec fn search_outcome<H: Hittable>(
    objects: Seq<H>,
    tree: BVHTree,
    ray: &H::Ray,
    t_min: i64,
    t_max: i64,
    out: Option<HitRecord<H::Detail>>,
) -> bool {
    exists|hits: Seq<Option<HitRecord<H::Detail>>>|
        #[trigger] answers_of(objects, tree.candidates(ray, t_min, t_max), ray, t_min, t_max, hits)
            && out == nearest(hits)
}

/// Asks each candidate for its intersection with `ray` and keeps the nearest.
pub fn merge_hits<H: Hittable>(
    ray: &H::Ray,
    objects: &[H],
    candidates: &[usize],
    t_min: i64,
    t_max: i64,
) -> (r: Option<HitRecord<H::Detail>>)
    requires
        forall|j: int| 0 <= j < candidates@.len() ==> candidates@[j] < objects@.len(),
    ensures
        exists|hits: Seq<Option<HitRecord<H::Detail>>>|
            #[trigger] answers_of(objects@, candidates@, ray, t_min, t_max, hits) && r == nearest(
                hits,
            ),
{
    let mut best: Option<HitRecord<H::Detail>> = None;
    let ghost mut hits: Seq<Option<HitRecord<H::Detail>>> = Seq::empty();
    let mut j: usize = 0;
    while j < candidates.len()
        invariant
            j <= candidates@.len(),
            forall|k: int| 0 <= k < candidates@.len() ==> candidates@[k] < objects@.len(),
            answers_of(objects@, candidates@.take(j as int), ray, t_min, t_max, hits),
            best == nearest(hits),
        decreases candidates@.len() - j,
    {
        let hit = objects[candidates[j]].hit(ray, t_min, t_max);
        proof {
            let longer = hits.push(hit);
            assert(longer.drop_last() =~= hits);
            assert(candidates@.take(j + 1)[j as int] == candidates@[j as int]);
            assert forall|k: int| 0 <= k < j + 1 implies objects@[candidates@.take(j + 1)[k] as int].hit_outcome(
                ray,
                t_min,
                t_max,
                #[trigger] longer[k],
            ) by {
                if k < j {
                    assert(candidates@.take(j + 1)[k] == candidates@.take(j as int)[k]);
                    assert(longer[k] == hits[k]);
                }
            }
            hits = longer;
        }
        best = closer(best, hit);
        j += 1;
    }
    assert(candidates@.take(j as int) =~= candidates@);
    best
}

/// Whether one of the leaves stands for the primitive with index `i`.
pub open spec fn has_leaf(leaves: Seq<(AABB, usize)>, i: int) -> bool {
    exists|k: int| 0 <= k < leaves.len() && (#[trigger] leaves[k]).1 == i
}

/// Whether the leaves stand for the primitives with the indices below `n`:
/// every leaf has such an index, and every such index is that of some leaf.
pub open spec fn covers(leaves: Seq<(AABB, usize)>, n: nat) -> bool {
    &&& forall|k: int| 0 <= k < leaves.len() ==> (#[trigger] leaves[k]).1 < n
    &&& forall|i: int| 0 <= i < n ==> #[trigger] has_leaf(leaves, i)
}

/// Leaves that are the leaves of `n` primitives in some order cover the
/// indices below `n`.
pub proof fn lemma_permutation_covers<H: Hittable>(
    leaves: Seq<(AABB, usize)>,
    list: Seq<H>,
    time0: i64,
    time1: i64,
)
    requires
        list.len() <= usize::MAX,
        leaves.to_multiset() == leaves_of(list, time0, time1).to_multiset(),
    ensures
        covers(leaves, list.len()),
{
    let expected = leaves_of(list, time0, time1);
    assert forall|k: int| 0 <= k < leaves.len() implies (#[trigger] leaves[k]).1 < list.len() by {
        vstd::seq_lib::to_multiset_contains(leaves, leaves[k]);
        vstd::seq_lib::to_multiset_contains(expected, leaves[k]);
        assert(leaves.contains(leaves[k]));
        let j = choose|j: int| 0 <= j < expected.len() && expected[j] == leaves[k];
        assert(expected[j].1 == j);
    }
    assert forall|i: int| 0 <= i < list.len() implies #[trigger] has_leaf(leaves, i) by {
        vstd::seq_lib::to_multiset_contains(leaves, expected[i]);
        vstd::seq_lib::to_multiset_contains(expected, expected[i]);
        assert(expected.contains(expected[i]));
        let k = choose|k: int| 0 <= k < leaves.len() && leaves[k] == expected[i];
        assert(leaves[k].1 == i);
    }
}

/// Every candidate that a search of the tree gives is the index of one of
/// its leaves.
pub proof fn lemma_candidates_are_leaves<R: Ray>(tree: BVHTree, ray: &R, t_min: i64, t_max: i64)
    ensures
        forall|j: int|
            0 <= j < tree.candidates(ray, t_min, t_max).len() ==> has_leaf(
                tree.leaves(),
                #[trigger] tree.candidates(ray, t_min, t_max)[j] as int,
            ),
    decreases tree,
{
    let cands = tree.candidates(ray, t_min, t_max);
    match tree {
        BVHTree::Leaf(bounds, index) => {
            assert forall|j: int| 0 <= j < cands.len() implies has_leaf(
                tree.leaves(),
                #[trigger] cands[j] as int,
            ) by {
                assert(tree.leaves()[0].1 == cands[j]);
            }
        },
        BVHTree::Branch { left, right, .. } => {
            lemma_candidates_are_leaves(*left, ray, t_min, t_max);
            lemma_candidates_are_leaves(*right, ray, t_min, t_max);
            let lc = left.candidates(ray, t_min, t_max);
            let rc = right.candidates(ray, t_min, t_max);
            assert forall|j: int| 0 <= j < cands.len() implies has_leaf(
                tree.leaves(),
                #[trigger] cands[j] as int,
            ) by {
                if j < lc.len() {
                    assert(cands[j] == lc[j]);
                    assert(has_leaf(left.leaves(), lc[j] as int));
                    let k = choose|k: int|
                        0 <= k < left.leaves().len() && (#[trigger] left.leaves()[k]).1 == lc[j];
                    assert(tree.leaves()[k] == left.leaves()[k]);
                } else {
                    assert(cands[j] == rc[j - lc.len()]);
                    assert(has_leaf(right.leaves(), rc[j - lc.len()] as int));
                    let k = choose|k: int|
                        0 <= k < right.leaves().len() && (#[trigger] right.leaves()[k]).1 == rc[j
                            - lc.len()];
                    assert(tree.leaves()[left.leaves().len() + k] == right.leaves()[k]);
                }
            }
        },
    }
}

/// Builds the tree over the primitives in `list`.
pub fn build<H: Hittable>(list: &[H], time0: i64, time1: i64) -> (r: Result<
    Box<BVHTree>,
    BuildError,
>)
    ensures
        match r {
            Ok(root) => {
                &&& list@.len() > 0
                &&& all_bounded(list@, time0, time1)
                &&& *root == built(root.leaves())
                &&& root.leaves().to_multiset() == leaves_of(list@, time0, time1).to_multiset()
                &&& exists|axis: usize| axis < 3 && sorted_on(root.leaves(), axis)
                &&& covers(root.leaves(), list@.len())
                &&& root.leaves().len() == list@.len()
                &&& root.well_formed()
                &&& root.depth() == ceil_log2(list@.len())
            },
            Err(BuildError::Empty) => list@.len() == 0,
            Err(BuildError::Unbounded(index)) => list@.len() > 0 && first_unbounded(
                list@,
                time0,
                time1,
                index as int,
            ),
        },
{
    if list.len() == 0 {
        return Err(BuildError::Empty);
    }
    match get_leaves(list, time0, time1) {
        Ok(leaves) => {
            let root = recursive_build(leaves.as_slice());
            proof {
                lemma_built_leaves(leaves@);
                lemma_built_depth(leaves@);
                lemma_permutation_covers(leaves@, list@, time0, time1);
            }
            Ok(root)
        },
        Err(error) => Err(error),
    }
}

/// A hierarchy of boxes over a list of primitives that it borrows.
pub struct BVH<'a, H: Hittable> {
    objects: &'a [H],
    root: Box<BVHTree>,
}

impl<'a, H: Hittable> BVH<'a, H> {
    /// The leaves stand for the primitives, each by an index into the list,
    /// and the tree over them is the one that is built over its leaves.
    #[verifier::type_invariant]
    spec fn inv(self) -> bool {
        &&& covers(self.root.leaves(), self.objects@.len())
        &&& self.root.leaves().len() == self.objects@.len()
        &&& *self.root == built(self.root.leaves())
    }

    /// The tree of boxes. Every hierarchy is well formed, stands for the
    /// primitives it is over, and is as shallow as a tree over that many
    /// leaves can be.
    pub fn root(&self) -> (r: &BVHTree)
        ensures
            *r == self.tree(),
            r.well_formed(),
            covers(r.leaves(), self.objects().len()),
            r.leaves().len() == self.objects().len(),
            *r == built(r.leaves()),
            r.depth() == ceil_log2(self.objects().len()),
    {
        proof {
            use_type_invariant(self);
            lemma_built_leaves(self.root.leaves());
            lemma_built_depth(self.root.leaves());
        }
        &self.root
    }

    /// The primitives that the hierarchy is over.
    pub closed spec fn objects(self) -> Seq<H> {
        self.objects@
    }

    /// The tree of boxes.
    pub closed spec fn tree(self) -> BVHTree {
        *self.root
    }

    /// Builds the hierarchy over `list` for the time from `time0` to `time1`.
    ///
    /// The leaves are the primitives' boxes, ordered along one axis that is
    /// drawn at random, and the tree splits them in halves down to single
    /// leaves. A list that is empty, or that holds a primitive without a
    /// box, has no hierarchy.
    pub fn new(list: &'a [H], time0: i64, time1: i64) -> (r: Result<Self, BuildError>)
        ensures
            match r {
                Ok(bvh) => {
                    &&& list@.len() > 0
                    &&& all_bounded(list@, time0, time1)
                    &&& bvh.objects() == list@
                    &&& bvh.tree().well_formed()
                    &&& covers(bvh.tree().leaves(), list@.len())
                    &&& bvh.tree().leaves().len() == list@.len()
                    &&& bvh.tree().depth() == ceil_log2(list@.len())
                    &&& bvh.tree() == built(bvh.tree().leaves())
                    &&& bvh.tree().leaves().to_multiset() == leaves_of(
                        list@,
                        time0,
                        time1,
                    ).to_multiset()
                    &&& exists|axis: usize| axis < 3 && sorted_on(bvh.tree().leaves(), axis)
                },
                Err(BuildError::Empty) => list@.len() == 0,
                Err(BuildError::Unbounded(index)) => list@.len() > 0 && first_unbounded(
                    list@,
                    time0,
                    time1,
                    index as int,
                ),
            },
    {
        match build(list, time0, time1) {
            Ok(root) => Ok(BVH { objects: list, root }),
            Err(error) => Err(error),
        }
    }

    /// Builds the hierarchy over the primitives of a list that is searched
    /// from front to back: the same hierarchy that `new` builds over them.
    pub fn from_hittable_list(list: &'a HittableList<H>, time0: i64, time1: i64) -> (r: Result<
        Self,
        BuildError,
    >)
        ensures
            match r {
                Ok(bvh) => {
                    &&& list.objects@.len() > 0
                    &&& all_bounded(list.objects@, time0, time1)
                    &&& bvh.objects() == list.objects@
                    &&& bvh.tree().well_formed()
                    &&& covers(bvh.tree().leaves(), list.objects@.len())
                    &&& bvh.tree().leaves().len() == list.objects@.len()
                    &&& bvh.tree().depth() == ceil_log2(list.objects@.len())
                    &&& bvh.tree() == built(bvh.tree().leaves())
                    &&& bvh.tree().leaves().to_multiset() == leaves_of(
                        list.objects@,
                        time0,
                        time1,
                    ).to_multiset()
                    &&& exists|axis: usize| axis < 3 && sorted_on(bvh.tree().leaves(), axis)
                },
                Err(BuildError::Empty) => list.objects@.len() == 0,
                Err(BuildError::Unbounded(index)) => list.objects@.len() > 0 && first_unbounded(
                    list.objects@,
                    time0,
                    time1,
                    index as int,
                ),
            },
    {
        Self::new(list.objects.as_slice(), time0, time1)
    }
}

impl<'a, H: Hittable> Hittable for BVH<'a, H> {
    type Ray = H::Ray;

    type Detail = H::Detail;

    /// The nearest of the answers of the candidates.
    open spec fn hit_outcome(
        &self,
        ray: &Self::Ray,
        t_min: i64,
        t_max: i64,
        out: Option<HitRecord<Self::Detail>>,
    ) -> bool {
        search_outcome(self.objects(), self.tree(), ray, t_min, t_max, out)
    }

    /// Finds the nearest intersection in two steps: first the tree is
    /// searched for the primitives whose boxes the ray hits, then each of
    /// them is asked, with the same `t_min` and `t_max`, and the nearest
    /// answer is kept.
    fn hit(&self, ray: &Self::Ray, t_min: i64, t_max: i64) -> (out: Option<
        HitRecord<Self::Detail>,
    >) {
        proof {
            use_type_invariant(self);
            lemma_candidates_are_leaves(*self.root, ray, t_min, t_max);
        }
        let mut candidates: Vec<usize> = Vec::new();
        self.root.get_intersect_candidates(ray, t_min, t_max, &mut candidates);
        assert(candidates@ =~= self.root.candidates(ray, t_min, t_max));
        merge_hits(ray, self.objects, candidates.as_slice(), t_min, t_max)
    }

    /// The box of the root, whatever the time.
    open spec fn bounds(&self, time0: i64, time1: i64) -> Option<AABB> {
        Some(self.tree().spec_bounds())
    }

    fn bounding_box(&self, time0: i64, time1: i64) -> (r: Option<AABB>) {
        Some(*self.root.bounds())
    }
}

/// A hierarchy of boxes over a list of primitives that it owns.
pub struct OwnedBVH<H: Hittable> {
    objects: Vec<H>,
    root: Box<BVHTree>,
}

impl<H: Hittable> OwnedBVH<H> {
    /// The leaves stand for the primitives, each by an index into the list,
    /// and the tree over them is the one that is built over its leaves.
    #[verifier::type_invariant]
    spec fn inv(self) -> bool {
        &&& covers(self.root.leaves(), self.objects@.len())
        &&& self.root.leaves().len() == self.objects@.len()
        &&& *self.root == built(self.root.leaves())
    }

    /// The tree of boxes. Every hierarchy is well formed, stands for the
    /// primitives it is over, and is as shallow as a tree over that many
    /// leaves can be.
    pub fn root(&self) -> (r: &BVHTree)
        ensures
            *r == self.tree(),
            r.well_formed(),
            covers(r.leaves(), self.objects().len()),
            r.leaves().len() == self.objects().len(),
            *r == built(r.leaves()),
            r.depth() == ceil_log2(self.objects().len()),
    {
        proof {
            use_type_invariant(self);
            lemma_built_leaves(self.root.leaves());
            lemma_built_depth(self.root.leaves());
        }
        &self.root
    }

    /// The primitives that the hierarchy is over.
    pub closed spec fn objects(self) -> Seq<H> {
        self.objects@
    }

    /// The tree of boxes.
    pub closed spec fn tree(self) -> BVHTree {
        *self.root
    }

    /// Builds the hierarchy over `objects` for the time from `time0` to
    /// `time1`, as `BVH::new` does, and keeps the primitives.
    pub fn new(objects: Vec<H>, time0: i64, time1: i64) -> (r: Result<Self, BuildError>)
        ensures
            match r {
                Ok(bvh) => {
                    &&& objects@.len() > 0
                    &&& all_bounded(objects@, time0, time1)
                    &&& bvh.objects() == objects@
                    &&& bvh.tree().well_formed()
                    &&& covers(bvh.tree().leaves(), objects@.len())
                    &&& bvh.tree().leaves().len() == objects@.len()
                    &&& bvh.tree().depth() == ceil_log2(objects@.len())
                    &&& bvh.tree() == built(bvh.tree().leaves())
                    &&& bvh.tree().leaves().to_multiset() == leaves_of(
                        objects@,
                        time0,
                        time1,
                    ).to_multiset()
                    &&& exists|axis: usize| axis < 3 && sorted_on(bvh.tree().leaves(), axis)
                },
                Err(BuildError::Empty) => objects@.len() == 0,
                Err(BuildError::Unbounded(index)) => objects@.len() > 0 && first_unbounded(
                    objects@,
                    time0,
                    time1,
                    index as int,
                ),
            },
    {
        match build(objects.as_slice(), time0, time1) {
            Ok(root) => Ok(OwnedBVH { objects, root }),
            Err(error) => Err(error),
        }
    }
}

impl<H: Hittable> Hittable for OwnedBVH<H> {
    type Ray = H::Ray;

    type Detail = H::Detail;

    /// The nearest of the answers of the candidates.
    open spec fn hit_outcome(
        &self,
        ray: &Self::Ray,
        t_min: i64,
        t_max: i64,
        out: Option<HitRecord<Self::Detail>>,
    ) -> bool {
        search_outcome(self.objects(), self.tree(), ray, t_min, t_max, out)
    }

    fn hit(&self, ray: &Self::Ray, t_min: i64, t_max: i64) -> (out: Option<
        HitRecord<Self::Detail>,
    >) {
        proof {
            use_type_invariant(self);
            lemma_candidates_are_leaves(*self.root, ray, t_min, t_max);
        }
        let mut candidates: Vec<usize> = Vec::new();
        self.root.get_intersect_candidates(ray, t_min, t_max, &mut candidates);
        assert(candidates@ =~= self.root.candidates(ray, t_min, t_max));
        merge_hits(ray, self.objects.as_slice(), candidates.as_slice(), t_min, t_max)
    }

    /// The box of the root, whatever the time.
    open spec fn bounds(&self, time0: i64, time1: i64) -> Option<AABB> {
        Some(self.tree().spec_bounds())
    }

    fn bounding_box(&self, time0: i64, time1: i64) -> (r: Option<AABB>) {
        Some(*self.root.bounds())
    }
}

/// What the nearest of a list of answers is: nothing exactly when nothing
/// was hit, and otherwise one of the hits, which no hit in the list is nearer
/// than and which every hit before it is farther than.
pub proof fn lemma_nearest_is_least<D>(hits: Seq<Option<HitRecord<D>>>)
    ensures
        nearest(hits).is_none() <==> forall|j: int| 0 <= j < hits.len() ==> hits[j].is_none(),
        nearest(hits).is_some() ==> exists|j: int|
            {
                &&& 0 <= j < hits.len()
                &&& #[trigger] hits[j] == nearest(hits)
                &&& forall|k: int|
                    0 <= k < hits.len() && (#[trigger] hits[k]).is_some() ==> {
                        &&& nearest(hits).unwrap().t <= hits[k].unwrap().t
                        &&& k < j ==> nearest(hits).unwrap().t < hits[k].unwrap().t
                    }
            },
    decreases hits.len(),
{
    if hits.len() > 0 {
        let front = hits.drop_last();
        lemma_nearest_is_least(front);
        let before = nearest(front);
        let last = hits.last();
        assert forall|j: int| 0 <= j < front.len() implies front[j] == hits[j] by {}
        if nearest(hits).is_some() {
            let j = if before.is_some() && nearest(hits) == before {
                choose|j: int|
                    {
                        &&& 0 <= j < front.len()
                        &&& #[trigger] front[j] == before
                        &&& forall|k: int|
                            0 <= k < front.len() && (#[trigger] front[k]).is_some() ==> {
                                &&& before.unwrap().t <= front[k].unwrap().t
                                &&& k < j ==> before.unwrap().t < front[k].unwrap().t
                            }
                    }
            } else {
                hits.len() - 1
            };
            assert(hits[j] == nearest(hits));
            assert forall|k: int| 0 <= k < hits.len() && (#[trigger] hits[k]).is_some() implies {
                &&& nearest(hits).unwrap().t <= hits[k].unwrap().t
                &&& k < j ==> nearest(hits).unwrap().t < hits[k].unwrap().t
            } by {
                if k < front.len() {
                    assert(front[k].is_some());
                }
            }
        } else {
            assert forall|j: int| 0 <= j < hits.len() implies hits[j].is_none() by {
                if j < front.len() {
                    assert(front[j] == hits[j]);
                }
            }
        }
        if forall|j: int| 0 <= j < hits.len() ==> hits[j].is_none() {
            assert(hits[hits.len() - 1].is_none());
        }
    }
}

/// In a well-formed tree the box of a node holds the box of every leaf below it.
pub proof fn lemma_bounds_hold_leaves(tree: BVHTree, k: int)
    requires
        tree.well_formed(),
        0 <= k < tree.leaves().len(),
    ensures
        tree.spec_bounds().contains(tree.leaves()[k].0),
    decreases tree,
{
    match tree {
        BVHTree::Leaf(..) => {},
        BVHTree::Branch { bounds, left, right } => {
            crate::aabb::lemma_surround_contains(left.spec_bounds(), right.spec_bounds());
            if k < left.leaves().len() {
                lemma_bounds_hold_leaves(*left, k);
                crate::aabb::lemma_contains_transitive(bounds, left.spec_bounds(), left.leaves()[k].0);
            } else {
                let m = k - left.leaves().len();
                lemma_bounds_hold_leaves(*right, m);
                crate::aabb::lemma_contains_transitive(
                    bounds,
                    right.spec_bounds(),
                    right.leaves()[m].0,
                );
            }
        },
    }
}

/// A leaf is among the candidates if the ray hits every box that holds the
/// leaf's box: no such leaf is lost on the way down the tree.
pub proof fn lemma_hit_leaf_is_candidate<R: Ray>(
    tree: BVHTree,
    ray: &R,
    t_min: i64,
    t_max: i64,
    k: int,
)
    requires
        tree.well_formed(),
        0 <= k < tree.leaves().len(),
        hit_all_around(tree.leaves()[k].0, ray, t_min, t_max),
    ensures
        tree.candidates(ray, t_min, t_max).contains(tree.leaves()[k].1),
    decreases tree,
{
    lemma_bounds_hold_leaves(tree, k);
    assert(tree.spec_bounds().contains(tree.leaves()[k].0));
    assert(tree.spec_bounds().spec_hit(ray, t_min, t_max));
    let cands = tree.candidates(ray, t_min, t_max);
    match tree {
        BVHTree::Leaf(_, index) => {
            assert(cands[0] == index);
        },
        BVHTree::Branch { left, right, .. } => {
            let lc = left.candidates(ray, t_min, t_max);
            let rc = right.candidates(ray, t_min, t_max);
            if k < left.leaves().len() {
                lemma_hit_leaf_is_candidate(*left, ray, t_min, t_max, k);
                let p = choose|p: int| 0 <= p < lc.len() && lc[p] == left.leaves()[k].1;
                assert(cands[p] == lc[p]);
            } else {
                let m = k - left.leaves().len();
                lemma_hit_leaf_is_candidate(*right, ray, t_min, t_max, m);
                let p = choose|p: int| 0 <= p < rc.len() && rc[p] == right.leaves()[m].1;
                assert(cands[lc.len() + p] == rc[p]);
            }
        },
    }
}

/// Whether two answers agree on whether something was hit and on how far away.
pub open spec fn same_distance<D>(a: Option<HitRecord<D>>, b: Option<HitRecord<D>>) -> bool {
    &&& a.is_some() == b.is_some()
    &&& a.is_some() ==> a.unwrap().t == b.unwrap().t
}

/// The answers of the primitives picked out by `candidates`, in that order.
pub open spec fn picked<D>(answers: Seq<Option<HitRecord<D>>>, candidates: Seq<usize>) -> Seq<
    Option<HitRecord<D>>,
> {
    Seq::new(candidates.len(), |j: int| answers[candidates[j] as int])
}

/// The hierarchy finds what a search of the whole list finds.
///
/// Let every primitive have given its answer to a ray, and let the ray hit
/// every box around the box of each primitive that it hits. Then the nearest
/// answer among the candidates of the tree and the nearest answer among all
/// primitives agree on whether anything was hit and on the distance. They may
/// be different hits where two are equally near.
pub proof fn lemma_hierarchy_agrees_with_list<R: Ray, D>(
    tree: BVHTree,
    ray: &R,
    t_min: i64,
    t_max: i64,
    answers: Seq<Option<HitRecord<D>>>,
)
    requires
        tree.well_formed(),
        covers(tree.leaves(), answers.len()),
        forall|k: int|
            0 <= k < tree.leaves().len() && answers[(#[trigger] tree.leaves()[k]).1 as int].is_some()
                ==> hit_all_around(tree.leaves()[k].0, ray, t_min, t_max),
    ensures
        same_distance(
            nearest(picked(answers, tree.candidates(ray, t_min, t_max))),
            nearest(answers),
        ),
{
    let cands = tree.candidates(ray, t_min, t_max);
    let some = picked(answers, cands);
    let leaves = tree.leaves();
    lemma_nearest_is_least(some);
    lemma_nearest_is_least(answers);
    lemma_candidates_are_leaves(tree, ray, t_min, t_max);
    assert forall|q: int| 0 <= q < cands.len() implies cands[q] < answers.len() by {
        assert(has_leaf(leaves, cands[q] as int));
    }
    if nearest(answers).is_some() {
        let j = choose|j: int|
            {
                &&& 0 <= j < answers.len()
                &&& #[trigger] answers[j] == nearest(answers)
                &&& forall|k: int|
                    0 <= k < answers.len() && (#[trigger] answers[k]).is_some() ==> {
                        &&& nearest(answers).unwrap().t <= answers[k].unwrap().t
                        &&& k < j ==> nearest(answers).unwrap().t < answers[k].unwrap().t
                    }
            };
        assert(has_leaf(leaves, j));
        let k = choose|k: int| 0 <= k < leaves.len() && (#[trigger] leaves[k]).1 == j;
        lemma_hit_leaf_is_candidate(tree, ray, t_min, t_max, k);
        let p = choose|p: int| 0 <= p < cands.len() && cands[p] == leaves[k].1;
        assert(some[p] == answers[j]);
        assert(some[p].is_some());
        assert(nearest(some).is_some());
        let q = choose|q: int|
            {
                &&& 0 <= q < some.len()
                &&& #[trigger] some[q] == nearest(some)
                &&& forall|k: int|
                    0 <= k < some.len() && (#[trigger] some[k]).is_some() ==> {
                        &&& nearest(some).unwrap().t <= some[k].unwrap().t
                        &&& k < q ==> nearest(some).unwrap().t < some[k].unwrap().t
                    }
            };
        assert(some[q] == answers[cands[q] as int]);
        assert(answers[cands[q] as int].is_some());
    } else {
        assert forall|q: int| 0 <= q < some.len() implies some[q].is_none() by {
            assert(some[q] == answers[cands[q] as int]);
        }
    }
}

/// The hierarchy finds what a search of the whole list finds, for every ray
/// that runs across all three axes, as long as the boxes are well formed and
/// a primitive is hit only where its own box is.
pub proof fn lemma_hierarchy_agrees_for_rays_across<R: Ray, D>(
    tree: BVHTree,
    ray: &R,
    t_min: i64,
    t_max: i64,
    answers: Seq<Option<HitRecord<D>>>,
)
    requires
        tree.well_formed(),
        covers(tree.leaves(), answers.len()),
        crate::aabb::runs_across(ray, 0),
        crate::aabb::runs_across(ray, 1),
        crate::aabb::runs_across(ray, 2),
        forall|k: int| 0 <= k < tree.leaves().len() ==> (#[trigger] tree.leaves()[k]).0.well_formed(),
        forall|k: int|
            0 <= k < tree.leaves().len() && answers[(#[trigger] tree.leaves()[k]).1 as int].is_some()
                ==> tree.leaves()[k].0.spec_hit(ray, t_min, t_max),
    ensures
        same_distance(
            nearest(picked(answers, tree.candidates(ray, t_min, t_max))),
            nearest(answers),
        ),
{
    assert forall|k: int|
        0 <= k < tree.leaves().len() && answers[(#[trigger] tree.leaves()[k]).1 as int].is_some() implies hit_all_around(
        tree.leaves()[k].0,
        ray,
        t_min,
        t_max,
    ) by {
        crate::aabb::lemma_hit_grows_with_box(tree.leaves()[k].0, ray, t_min, t_max);
    }
    lemma_hierarchy_agrees_with_list(tree, ray, t_min, t_max, answers);
}

/// A search in two steps finds what a search of the whole list finds.
///
/// Let the primitives answer a ray in one way only, `answers` being what
/// they answer, and let the ray hit every box around the box of each
/// primitive that it hits. Then whatever comes of the search through the
/// tree agrees with the nearest of all the answers on whether anything was
/// hit and on the distance.
pub proof fn lemma_search_agrees_with_list<H: Hittable>(
    objects: Seq<H>,
    tree: BVHTree,
    ray: &H::Ray,
    t_min: i64,
    t_max: i64,
    answers: Seq<Option<HitRecord<H::Detail>>>,
    out: Option<HitRecord<H::Detail>>,
)
    requires
        tree.well_formed(),
        covers(tree.leaves(), objects.len()),
        answers.len() == objects.len(),
        forall|i: int, answer: Option<HitRecord<H::Detail>>|
            0 <= i < objects.len() && #[trigger] objects[i].hit_outcome(ray, t_min, t_max, answer)
                ==> answer == answers[i],
        forall|k: int|
            0 <= k < tree.leaves().len() && answers[(#[trigger] tree.leaves()[k]).1 as int].is_some()
                ==> hit_all_around(tree.leaves()[k].0, ray, t_min, t_max),
        search_outcome(objects, tree, ray, t_min, t_max, out),
    ensures
        same_distance(out, nearest(answers)),
{
    let cands = tree.candidates(ray, t_min, t_max);
    let hits = choose|hits: Seq<Option<HitRecord<H::Detail>>>|
        #[trigger] answers_of(objects, cands, ray, t_min, t_max, hits) && out == nearest(hits);
    lemma_candidates_are_leaves(tree, ray, t_min, t_max);
    assert forall|j: int| 0 <= j < cands.len() implies hits[j] == answers[cands[j] as int] by {
        assert(has_leaf(tree.leaves(), cands[j] as int));
        assert(objects[cands[j] as int].hit_outcome(ray, t_min, t_max, hits[j]));
    }
    assert(hits =~= picked(answers, cands));
    lemma_hierarchy_agrees_with_list(tree, ray, t_min, t_max, answers);
}

} // verus!
