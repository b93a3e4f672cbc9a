//! Bounding volume hierarchies over triangles: the pointer tree that the
//! builder produces and its flattened, array-based form used for traversal.
//!
//! The bounds of a node are carried as an opaque value of type `B`.

use std::sync::Arc;
use vstd::prelude::*;

use crate::geometry::Triangle;

verus! {

/// A node of a BVH tree.
#[derive(Debug, Clone)]
pub enum BVHNode<B> {
    Internal { bounds: B, left: Arc<BVHNode<B>>, right: Arc<BVHNode<B>> },
    Leaf { bounds: B, primitives: Vec<Triangle> },
}

impl<B> BVHNode<B> {
    /// Number of nodes in the tree rooted here.
    pub open spec fn node_count(&self) -> nat
        decreases self,
    {
        match self {
            BVHNode::Leaf { .. } => 1,
            BVHNode::Internal { left, right, .. } => 1 + left.node_count() + right.node_count(),
        }
    }

    /// The primitives of all leaves, left to right.
    pub open spec fn leaf_primitives(&self) -> Seq<Triangle>
        decreases self,
    {
        match self {
            BVHNode::Leaf { primitives, .. } => primitives@,
            BVHNode::Internal { left, right, .. } => left.leaf_primitives()
                + right.leaf_primitives(),
        }
    }

    /// Every internal node of the tree has primitives on both sides.
    pub open spec fn well_split(&self) -> bool
        decreases self,
    {
        match self {
            BVHNode::Leaf { .. } => true,
            BVHNode::Internal { left, right, .. } => {
                &&& left.leaf_primitives().len() > 0
                &&& right.leaf_primitives().len() > 0
                &&& left.well_split()
                &&& right.well_split()
            },
        }
    }

    pub open spec fn node_bounds(&self) -> B {
        match self {
            BVHNode::Leaf { bounds, .. } => *bounds,
            BVHNode::Internal { bounds, .. } => *bounds,
        }
    }

    /// The nodes of the tree in pre-order: a node, then the nodes of its
    /// left subtree, then those of its right subtree.
    pub open spec fn preorder(&self) -> Seq<BVHNode<B>>
        decreases self,
    {
        match self {
            BVHNode::Leaf { .. } => seq![*self],
            BVHNode::Internal { left, right, .. } => seq![*self] + left.preorder()
                + right.preorder(),
        }
    }
}

/// A tree has one pre-order entry per node, the first being its root.
pub proof fn lemma_preorder_len<B>(node: &BVHNode<B>)
    ensures
        node.preorder().len() == node.node_count(),
        node.preorder()[0] == *node,
    decreases node,
{
    match node {
        BVHNode::Leaf { .. } => {},
        BVHNode::Internal { left, right, .. } => {
            lemma_preorder_len(&**left);
            lemma_preorder_len(&**right);
        },
    }
}

/// In pre-order the nodes of every subtree are contiguous: the entries from
/// position `j` on, as many as the subtree rooted at entry `j` has nodes,
/// are that subtree's own pre-order.
pub proof fn lemma_preorder_subtree<B>(node: &BVHNode<B>, j: int)
    requires
        0 <= j < node.node_count(),
    ensures
        j + node.preorder()[j].node_count() <= node.node_count(),
        node.preorder().subrange(j, j + node.preorder()[j].node_count()) == node.preorder()[j].preorder(),
    decreases node,
{
    lemma_preorder_len(node);
    match node {
        BVHNode::Leaf { .. } => {
            assert(node.preorder().subrange(0, 1) =~= node.preorder());
        },
        BVHNode::Internal { left, right, .. } => {
            lemma_preorder_len(&**left);
            lemma_preorder_len(&**right);
            let p = node.preorder();
            let lc = left.node_count() as int;
            if j == 0 {
                assert(p.subrange(0, p.len() as int) =~= p);
            } else if j < 1 + lc {
                lemma_preorder_subtree(&**left, j - 1);
                assert(p[j] == left.preorder()[j - 1]);
                let c = p[j].node_count() as int;
                assert(p.subrange(j, j + c) =~= left.preorder().subrange(j - 1, j - 1 + c));
            } else {
                lemma_preorder_subtree(&**right, j - 1 - lc);
                assert(p[j] == right.preorder()[j - 1 - lc]);
                let c = p[j].node_count() as int;
                assert(p.subrange(j, j + c) =~= right.preorder().subrange(j - 1 - lc, j - 1 - lc + c));
            }
        },
    }
}

/// In pre-order an inner node is followed by its left child, and its right
/// child comes right after the left subtree.
pub proof fn lemma_preorder_children<B>(node: &BVHNode<B>, j: int)
    requires
        0 <= j < node.node_count(),
    ensures
        node.preorder()[j] matches BVHNode::Internal { left, right, .. } ==> {
            &&& j + 1 + left.node_count() + right.node_count() <= node.node_count()
            &&& node.preorder()[j + 1] == *left
            &&& node.preorder()[j + 1 + left.node_count()] == *right
        },
{
    lemma_preorder_subtree(node, j);
    lemma_preorder_len(node);
    let p = node.preorder();
    if let BVHNode::Internal { left, right, .. } = p[j] {
        lemma_preorder_len(&p[j]);
        lemma_preorder_len(&*left);
        lemma_preorder_len(&*right);
        assert(p[j].node_count() == 1 + left.node_count() + right.node_count());
        let sub = p.subrange(j, j + p[j].node_count());
        assert(sub[1] == p[j + 1]);
        assert(sub[1] == p[j].preorder()[1]);
        assert(p[j].preorder()[1] == left.preorder()[0]);
        assert(sub[1 + left.node_count() as int] == p[j + 1 + left.node_count()]);
        assert(p[j].preorder()[1 + left.node_count() as int] == right.preorder()[0]);
    }
}

/// Primitives above which the builder splits a node.
pub const MAX_PRIMS_IN_NODE: usize = 8;

/// Number of centroid buckets of the surface area heuristic.
pub const N_BUCKETS: usize = 64;

/// A bucket index with the one-past-the-end bucket, which a centroid on the
/// upper bound lands in, folded into the last bucket.
pub open spec fn clamped_bucket(b: usize) -> usize {
    if b == N_BUCKETS {
        (N_BUCKETS - 1) as usize
    } else {
        b
    }
}

pub fn clamp_bucket(b: usize) -> (r: usize)
    ensures
        r == clamped_bucket(b),
{
    if b == N_BUCKETS {
        N_BUCKETS - 1
    } else {
        b
    }
}

/// Of the first `n` primitives, in order, those whose bucket is at most
/// `split` (`lower`) or above it (`!lower`).
pub open spec fn split_part<T>(prims: Seq<T>, buckets: Seq<usize>, split: usize, lower: bool, n: int) -> Seq<T>
    decreases n,
{
    if n <= 0 {
        Seq::empty()
    } else {
        let rest = split_part(prims, buckets, split, lower, n - 1);
        if (clamped_bucket(buckets[n - 1]) <= split) == lower {
            rest.push(prims[n - 1])
        } else {
            rest
        }
    }
}

/// Splits the primitives at bucket `split`: first those whose bucket is at
/// most `split`, then the others, each part keeping the input order.
pub fn partition_by_bucket<T: Copy>(prims: Vec<T>, buckets: &Vec<usize>, split: usize) -> (parts: (
    Vec<T>,
    Vec<T>,
))
    requires
        buckets@.len() == prims@.len(),
    ensures
        parts.0@ == split_part(prims@, buckets@, split, true, prims@.len() as int),
        parts.1@ == split_part(prims@, buckets@, split, false, prims@.len() as int),
{
    let mut below: Vec<T> = Vec::new();
    let mut above: Vec<T> = Vec::new();
    let mut i: usize = 0;
    while i < prims.len()
        invariant
            buckets@.len() == prims@.len(),
            i <= prims@.len(),
            below@ == split_part(prims@, buckets@, split, true, i as int),
            above@ == split_part(prims@, buckets@, split, false, i as int),
        decreases prims@.len() - i,
    {
        let b = clamp_bucket(buckets[i]);
        if b <= split {
            below.push(prims[i]);
        } else {
            above.push(prims[i]);
        }
        i += 1;
    }
    (below, above)
}

/// Partitioning loses no primitive and adds none.
pub proof fn lemma_partition_keeps_primitives<T>(prims: Seq<T>, buckets: Seq<usize>, split: usize, n: int)
    requires
        0 <= n <= prims.len(),
        buckets.len() == prims.len(),
    ensures
        split_part(prims, buckets, split, true, n).to_multiset().add(
            split_part(prims, buckets, split, false, n).to_multiset(),
        ) =~= prims.take(n).to_multiset(),
    decreases n,
{
    broadcast use vstd::seq_lib::group_to_multiset_ensures;

    if n == 0 {
        assert(prims.take(0) =~= Seq::<T>::empty());
    } else {
        lemma_partition_keeps_primitives(prims, buckets, split, n - 1);
        assert(prims.take(n) =~= prims.take(n - 1).push(prims[n - 1]));
    }
}

/// How many of the first `n` primitives fall in bucket `b`.
pub open spec fn bucket_count(buckets: Seq<usize>, b: int, n: int) -> nat
    decreases n,
{
    if n <= 0 {
        0
    } else {
        bucket_count(buckets, b, n - 1) + if clamped_bucket(buckets[n - 1]) == b {
            1nat
        } else {
            0nat
        }
    }
}

proof fn lemma_bucket_count_le(buckets: Seq<usize>, b: int, n: int)
    requires
        n >= 0,
    ensures
        bucket_count(buckets, b, n) <= n,
    decreases n,
{
    if n > 0 {
        lemma_bucket_count_le(buckets, b, n - 1);
    }
}

/// The number of primitives in each of the `N_BUCKETS` buckets.
pub fn bucket_counts(buckets: &Vec<usize>) -> (counts: Vec<u32>)
    requires
        buckets@.len() <= u32::MAX,
        forall|i: int| 0 <= i < buckets@.len() ==> clamped_bucket(#[trigger] buckets@[i]) < N_BUCKETS,
    ensures
        counts@.len() == N_BUCKETS,
        forall|b: int|
            0 <= b < N_BUCKETS ==> #[trigger] counts@[b] == bucket_count(buckets@, b, buckets@.len() as int),
{
    let mut counts: Vec<u32> = Vec::new();
    let mut k: usize = 0;
    while k < N_BUCKETS
        invariant
            k <= N_BUCKETS,
            counts@.len() == k,
            forall|b: int| 0 <= b < k ==> #[trigger] counts@[b] == 0,
        decreases N_BUCKETS - k,
    {
        counts.push(0);
        k += 1;
    }
    let mut i: usize = 0;
    while i < buckets.len()
        invariant
            i <= buckets@.len(),
            buckets@.len() <= u32::MAX,
            forall|j: int| 0 <= j < buckets@.len() ==> clamped_bucket(#[trigger] buckets@[j]) < N_BUCKETS,
            counts@.len() == N_BUCKETS,
            forall|b: int| 0 <= b < N_BUCKETS ==> #[trigger] counts@[b] == bucket_count(buckets@, b, i as int),
        decreases buckets@.len() - i,
    {
        let b = clamp_bucket(buckets[i]);
        proof {
            lemma_bucket_count_le(buckets@, b as int, i as int);
        }
        let c = counts[b];
        counts.set(b, c + 1);
        i += 1;
    }
    counts
}

/// The number of primitives in buckets `lo .. hi`.
pub open spec fn range_count(counts: Seq<u32>, lo: int, hi: int) -> int
    decreases hi - lo,
{
    if hi <= lo {
        0
    } else {
        range_count(counts, lo, hi - 1) + counts[hi - 1]
    }
}

proof fn lemma_range_count_split(counts: Seq<u32>, lo: int, mid: int, hi: int)
    requires
        0 <= lo <= mid <= hi <= counts.len(),
    ensures
        range_count(counts, lo, hi) == range_count(counts, lo, mid) + range_count(counts, mid, hi),
        range_count(counts, lo, hi) >= 0,
    decreases hi - mid,
{
    if hi > mid {
        lemma_range_count_split(counts, lo, mid, hi - 1);
    } else {
        lemma_range_count_nonneg(counts, lo, hi);
    }
    lemma_range_count_nonneg(counts, lo, mid);
    lemma_range_count_nonneg(counts, mid, hi);
}

proof fn lemma_range_count_nonneg(counts: Seq<u32>, lo: int, hi: int)
    ensures
        range_count(counts, lo, hi) >= 0,
    decreases hi - lo,
{
    if hi > lo {
        lemma_range_count_nonneg(counts, lo, hi - 1);
    }
}

/// How many of the first `n` primitives fall in buckets `0 .. upto`.
pub open spec fn buckets_total(buckets: Seq<usize>, upto: int, n: int) -> int
    decreases upto,
{
    if upto <= 0 {
        0
    } else {
        buckets_total(buckets, upto - 1, n) + bucket_count(buckets, upto - 1, n)
    }
}

proof fn lemma_buckets_total_step(buckets: Seq<usize>, upto: int, n: int)
    requires
        n > 0,
        upto >= 0,
    ensures
        buckets_total(buckets, upto, n) == buckets_total(buckets, upto, n - 1) + if clamped_bucket(
            buckets[n - 1],
        ) < upto {
            1int
        } else {
            0int
        },
    decreases upto,
{
    if upto > 0 {
        lemma_buckets_total_step(buckets, upto - 1, n);
    }
}

proof fn lemma_buckets_total_all(buckets: Seq<usize>, n: int)
    requires
        0 <= n <= buckets.len(),
        forall|i: int| 0 <= i < buckets.len() ==> clamped_bucket(#[trigger] buckets[i]) < N_BUCKETS,
    ensures
        buckets_total(buckets, N_BUCKETS as int, n) == n,
    decreases n,
{
    if n == 0 {
        lemma_buckets_total_zero(buckets, N_BUCKETS as int);
    } else {
        lemma_buckets_total_all(buckets, n - 1);
        lemma_buckets_total_step(buckets, N_BUCKETS as int, n);
        assert(clamped_bucket(buckets[n - 1]) < N_BUCKETS);
    }
}

proof fn lemma_buckets_total_zero(buckets: Seq<usize>, upto: int)
    ensures
        buckets_total(buckets, upto, 0) == 0,
    decreases upto,
{
    if upto > 0 {
        lemma_buckets_total_zero(buckets, upto - 1);
    }
}

proof fn lemma_range_count_buckets(buckets: Seq<usize>, counts: Seq<u32>, k: int)
    requires
        0 <= k <= N_BUCKETS,
        counts.len() == N_BUCKETS,
        forall|b: int|
            0 <= b < N_BUCKETS ==> #[trigger] counts[b] == bucket_count(buckets, b, buckets.len() as int),
    ensures
        range_count(counts, 0, k) == buckets_total(buckets, k, buckets.len() as int),
    decreases k,
{
    if k > 0 {
        lemma_range_count_buckets(buckets, counts, k - 1);
    }
}

/// Every primitive is counted in exactly one bucket: the counts that
/// `bucket_counts` returns add up to the number of primitives.
pub proof fn lemma_bucket_counts_total(buckets: Seq<usize>, counts: Seq<u32>)
    requires
        forall|i: int| 0 <= i < buckets.len() ==> clamped_bucket(#[trigger] buckets[i]) < N_BUCKETS,
        counts.len() == N_BUCKETS,
        forall|b: int|
            0 <= b < N_BUCKETS ==> #[trigger] counts[b] == bucket_count(buckets, b, buckets.len() as int),
    ensures
        range_count(counts, 0, N_BUCKETS as int) == buckets.len(),
{
    lemma_range_count_buckets(buckets, counts, N_BUCKETS as int);
    lemma_buckets_total_all(buckets, buckets.len() as int);
}

/// For each of the `N_BUCKETS - 1` places to split the buckets, how many
/// primitives fall below it and how many above: split `i` puts buckets
/// `0 ..= i` below and `i + 1 ..` above.
pub fn split_counts(counts: &Vec<u32>) -> (splits: Vec<(u32, u32)>)
    requires
        counts@.len() == N_BUCKETS,
        range_count(counts@, 0, N_BUCKETS as int) <= u32::MAX,
    ensures
        splits@.len() == N_BUCKETS - 1,
        forall|i: int|
            0 <= i < N_BUCKETS - 1 ==> #[trigger] splits@[i] == (
                range_count(counts@, 0, i + 1) as u32,
                range_count(counts@, i + 1, N_BUCKETS as int) as u32,
            ),
{
    let mut below: Vec<u32> = Vec::new();
    let mut count_below: u32 = 0;
    let mut i: usize = 0;
    while i < N_BUCKETS - 1
        invariant
            counts@.len() == N_BUCKETS,
            range_count(counts@, 0, N_BUCKETS as int) <= u32::MAX,
            i <= N_BUCKETS - 1,
            count_below == range_count(counts@, 0, i as int),
            below@.len() == i,
            forall|j: int| 0 <= j < i ==> #[trigger] below@[j] == range_count(counts@, 0, j + 1),
        decreases N_BUCKETS - 1 - i,
    {
        proof {
            lemma_range_count_split(counts@, 0, i + 1, N_BUCKETS as int);
            lemma_range_count_nonneg(counts@, i + 1, N_BUCKETS as int);
        }
        count_below = count_below + counts[i];
        below.push(count_below);
        i += 1;
    }
    let mut above: Vec<u32> = Vec::new();
    let mut count_above: u32 = 0;
    let mut k: usize = N_BUCKETS - 1;
    while k > 0
        invariant
            counts@.len() == N_BUCKETS,
            range_count(counts@, 0, N_BUCKETS as int) <= u32::MAX,
            k <= N_BUCKETS - 1,
            count_above == range_count(counts@, k + 1, N_BUCKETS as int),
            above@.len() == N_BUCKETS - 1 - k,
            forall|j: int|
                0 <= j < above@.len() ==> #[trigger] above@[j] == range_count(
                    counts@,
                    N_BUCKETS - 1 - j,
                    N_BUCKETS as int,
                ),
        decreases k,
    {
        proof {
            lemma_range_count_split(counts@, 0, k as int, N_BUCKETS as int);
            lemma_range_count_split(counts@, k as int, k + 1, N_BUCKETS as int);
            lemma_range_count_nonneg(counts@, 0, k as int);
            assert(range_count(counts@, k as int, k + 1) == counts@[k as int]) by {
                assert(range_count(counts@, k as int, k as int) == 0);
            }
        }
        count_above = count_above + counts[k];
        above.push(count_above);
        k -= 1;
    }
    let mut splits: Vec<(u32, u32)> = Vec::new();
    let mut s: usize = 0;
    while s < N_BUCKETS - 1
        invariant
            below@.len() == N_BUCKETS - 1,
            above@.len() == N_BUCKETS - 1,
            forall|j: int| 0 <= j < N_BUCKETS - 1 ==> #[trigger] below@[j] == range_count(counts@, 0, j + 1),
            forall|j: int|
                0 <= j < N_BUCKETS - 1 ==> #[trigger] above@[j] == range_count(
                    counts@,
                    N_BUCKETS - 1 - j,
                    N_BUCKETS as int,
                ),
            s <= N_BUCKETS - 1,
            splits@.len() == s,
            forall|j: int|
                0 <= j < s ==> #[trigger] splits@[j] == (
                    range_count(counts@, 0, j + 1) as u32,
                    range_count(counts@, j + 1, N_BUCKETS as int) as u32,
                ),
        decreases N_BUCKETS - 1 - s,
    {
        let a = above[N_BUCKETS - 2 - s];
        splits.push((below[s], a));
        s += 1;
    }
    splits
}

/// Whether a split of `prims` at bucket `split` puts primitives on both sides,
/// with one bucket given per primitive.
pub open spec fn splits_both_ways(prims: Seq<Triangle>, buckets: Seq<usize>, split: usize) -> bool {
    &&& buckets.len() == prims.len()
    &&& split_part(prims, buckets, split, true, prims.len() as int).len() > 0
    &&& split_part(prims, buckets, split, false, prims.len() as int).len() > 0
}

/// The primitives above the split bucket of `plan`, in order; none without
/// a plan.
pub open spec fn upper_part(prims: Seq<Triangle>, plan: Option<(Vec<usize>, usize)>) -> Seq<Triangle> {
    match plan {
        Some((buckets, split)) => split_part(prims, buckets@, split, false, prims.len() as int),
        None => Seq::empty(),
    }
}

/// The primitives at or below the split bucket of `plan`, in order; none
/// without a plan.
pub open spec fn lower_part(prims: Seq<Triangle>, plan: Option<(Vec<usize>, usize)>) -> Seq<Triangle> {
    match plan {
        Some((buckets, split)) => split_part(prims, buckets@, split, true, prims.len() as int),
        None => Seq::empty(),
    }
}

/// Whether `node` has the shape that `plan` asks of it for `prims`: inner
/// where the plan splits the primitives both ways, else one leaf holding
/// `prims` in order.
pub open spec fn follows_plan<B>(node: BVHNode<B>, prims: Seq<Triangle>, plan: Option<(Vec<usize>, usize)>) -> bool {
    if plan matches Some((buckets, split)) && splits_both_ways(prims, buckets@, split) {
        node is Internal
    } else {
        node is Leaf && node.leaf_primitives() == prims
    }
}

/// Whether `node` is what `build_tree` makes of `prims`, node by node: its
/// bounds are what `bound` gave for `prims`; a set of at most
/// `MAX_PRIMS_IN_NODE` primitives is one leaf holding them; a larger set
/// follows the plan that `choose_split` gave for it, and an inner node's
/// left child is built from the primitives above the split bucket and its
/// right child from the others.
pub open spec fn built_from<B, FB, FS>(node: BVHNode<B>, prims: Seq<Triangle>, bound: FB, choose_split: FS) -> bool
    where
        FB: Fn(&Vec<Triangle>) -> B,
        FS: Fn(&Vec<Triangle>, &B) -> Option<(Vec<usize>, usize)>,
    decreases node,
{
    exists|v: Vec<Triangle>|
        #[trigger] bound.ensures((&v,), node.node_bounds()) && v@ == prims && if prims.len()
            <= MAX_PRIMS_IN_NODE {
            node is Leaf && node.leaf_primitives() == prims
        } else {
            exists|plan: Option<(Vec<usize>, usize)>|
                #[trigger] choose_split.ensures((&v, &node.node_bounds()), plan) && follows_plan(
                    node,
                    prims,
                    plan,
                ) && match node {
                    BVHNode::Internal { left, right, .. } => {
                        &&& built_from(*left, upper_part(prims, plan), bound, choose_split)
                        &&& built_from(*right, lower_part(prims, plan), bound, choose_split)
                    },
                    BVHNode::Leaf { .. } => true,
                }
        }
}

/// One level of a built tree: the node's bounds come from `bound` on its
/// primitives; a small set is one leaf; a larger one follows the plan that
/// `choose_split` gave, with its children built from the two parts.
pub proof fn lemma_built_node<B, FB, FS>(node: BVHNode<B>, prims: Seq<Triangle>, bound: FB, choose_split: FS)
    where
        FB: Fn(&Vec<Triangle>) -> B,
        FS: Fn(&Vec<Triangle>, &B) -> Option<(Vec<usize>, usize)>,
    requires
        built_from(node, prims, bound, choose_split),
    ensures
        exists|v: Vec<Triangle>| v@ == prims && #[trigger] bound.ensures((&v,), node.node_bounds()),
        prims.len() <= MAX_PRIMS_IN_NODE ==> node is Leaf && node.leaf_primitives() == prims,
        prims.len() > MAX_PRIMS_IN_NODE ==> exists|v: Vec<Triangle>, plan: Option<(Vec<usize>, usize)>|
            {
                &&& v@ == prims
                &&& bound.ensures((&v,), node.node_bounds())
                &&& #[trigger] choose_split.ensures((&v, &node.node_bounds()), plan)
                &&& follows_plan(node, prims, plan)
                &&& node matches BVHNode::Internal { left, right, .. } ==> {
                    &&& built_from(*left, upper_part(prims, plan), bound, choose_split)
                    &&& built_from(*right, lower_part(prims, plan), bound, choose_split)
                }
            },
{
}

/// Where no primitive lies above the split, the lower part is the whole
/// prefix, in order.
proof fn lemma_split_one_sided<T>(prims: Seq<T>, buckets: Seq<usize>, split: usize, n: int)
    requires
        0 <= n <= prims.len(),
        buckets.len() == prims.len(),
    ensures
        split_part(prims, buckets, split, false, n).len() == 0 ==> split_part(prims, buckets, split, true, n) == prims.take(n),
        split_part(prims, buckets, split, true, n).len() == 0 ==> split_part(prims, buckets, split, false, n) == prims.take(n),
    decreases n,
{
    if n > 0 {
        lemma_split_one_sided(prims, buckets, split, n - 1);
        assert(prims.take(n) =~= prims.take(n - 1).push(prims[n - 1]));
    } else {
        assert(prims.take(0) =~= Seq::<T>::empty());
    }
}

/// Builds the tree over `primitives` top down.
///
/// `bound` gives the bounds of a set of primitives. A set of at most
/// `MAX_PRIMS_IN_NODE` primitives becomes a leaf. Otherwise `choose_split`
/// either keeps the node a leaf (`None`) or gives each primitive's bucket and
/// the bucket to split at: those in buckets up to the split go to the right
/// child, the others to the left one. Where one side would be empty, or the
/// buckets do not match the primitives one for one, the node stays a leaf.
/// The tree is `built_from` the primitives node by node; `lemma_built_node`
/// reads it one level at a time.
pub fn build_tree<B, FB, FS>(primitives: Vec<Triangle>, bound: &FB, choose_split: &FS) -> (node:
    BVHNode<B>)
    where
        FB: Fn(&Vec<Triangle>) -> B,
        FS: Fn(&Vec<Triangle>, &B) -> Option<(Vec<usize>, usize)>,
    requires
        forall|p: &Vec<Triangle>| #[trigger] bound.requires((p,)),
        forall|p: &Vec<Triangle>, b: &B| #[trigger] choose_split.requires((p, b)),
    ensures
        node.leaf_primitives().to_multiset() == primitives@.to_multiset(),
        node.well_split(),
        built_from(node, primitives@, *bound, *choose_split),
    decreases primitives@.len(),
{
    let ghost input = primitives;
    let bounds = bound(&primitives);
    if primitives.len() <= MAX_PRIMS_IN_NODE {
        let node = BVHNode::Leaf { bounds, primitives };
        proof {
            assert(bound.ensures((&input,), node.node_bounds()));
        }
        return node;
    }
    let plan = choose_split(&primitives, &bounds);
    let ghost the_plan = plan;
    match plan {
        None => {
            let node = BVHNode::Leaf { bounds, primitives };
            proof {
                assert(bound.ensures((&input,), node.node_bounds()));
                assert(choose_split.ensures((&input, &node.node_bounds()), the_plan));
            }
            node
        },
        Some((buckets, split)) => {
            if buckets.len() != primitives.len() {
                let node = BVHNode::Leaf { bounds, primitives };
                proof {
                    assert(bound.ensures((&input,), node.node_bounds()));
                    assert(choose_split.ensures((&input, &node.node_bounds()), the_plan));
                }
                return node;
            }
            let ghost prims = primitives@;
            let (below, above) = partition_by_bucket(primitives, &buckets, split);
            proof {
                broadcast use vstd::seq_lib::group_to_multiset_ensures;
                broadcast use vstd::multiset::group_multiset_axioms;

                lemma_partition_keeps_primitives(prims, buckets@, split, prims.len() as int);
                assert(prims.take(prims.len() as int) =~= prims);
                assert(below@.to_multiset().add(above@.to_multiset()) == prims.to_multiset());
                vstd::seq_lib::to_multiset_len(below@);
                vstd::seq_lib::to_multiset_len(above@);
                vstd::seq_lib::to_multiset_len(prims);
                assert(below@.len() + above@.len() == prims.len());
                lemma_split_one_sided(prims, buckets@, split, prims.len() as int);
            }
            if above.len() == 0 {
                let node = BVHNode::Leaf { bounds, primitives: below };
                proof {
                    assert(bound.ensures((&input,), node.node_bounds()));
                    assert(choose_split.ensures((&input, &node.node_bounds()), the_plan));
                }
                return node;
            }
            if below.len() == 0 {
                let node = BVHNode::Leaf { bounds, primitives: above };
                proof {
                    assert(bound.ensures((&input,), node.node_bounds()));
                    assert(choose_split.ensures((&input, &node.node_bounds()), the_plan));
                }
                return node;
            }
            let left = build_tree(above, bound, choose_split);
            let right = build_tree(below, bound, choose_split);
            proof {
                broadcast use vstd::seq_lib::group_to_multiset_ensures;

                vstd::seq_lib::lemma_multiset_commutative(
                    left.leaf_primitives(),
                    right.leaf_primitives(),
                );
            }
            let node = BVHNode::Internal { bounds, left: Arc::new(left), right: Arc::new(right) };
            proof {
                assert(bound.ensures((&input,), node.node_bounds()));
                assert(choose_split.ensures((&input, &node.node_bounds()), the_plan));
            }
            node
        },
    }
}

/// Kind of a node of a flattened BVH.
#[derive(PartialEq, Eq, Structural)]
pub enum NodeType {
    InnerNode,
    Leaf,
}

/// The contents of a flattened BVH: one entry per node in each node array,
/// and the primitive list that the leaves index into.
pub struct FlatNodes<B> {
    pub node_type: Seq<NodeType>,
    pub bounds: Seq<B>,
    pub left: Seq<usize>,
    pub right: Seq<usize>,
    pub prims_start: Seq<usize>,
    pub prims_count: Seq<usize>,
    pub prims: Seq<Triangle>,
}

impl<B> FlatNodes<B> {
    /// Entry `i` of the arrays stores tree node `n`, with an inner node's
    /// left child right after it and its right child after its left subtree.
    spec fn stores(&self, i: int, n: BVHNode<B>) -> bool {
        &&& self.bounds[i] == n.node_bounds()
        &&& match n {
            BVHNode::Leaf { primitives, .. } => {
                &&& self.node_type[i] == NodeType::Leaf
                &&& self.prims_count[i] == primitives@.len()
                &&& self.prims_start[i] + primitives@.len() <= self.prims.len()
                &&& self.prims.subrange(
                    self.prims_start[i] as int,
                    self.prims_start[i] + primitives@.len(),
                ) == primitives@
            },
            BVHNode::Internal { left, .. } => {
                &&& self.node_type[i] == NodeType::InnerNode
                &&& self.left[i] == i + 1
                &&& self.right[i] == i + 1 + left.node_count()
            },
        }
    }

    proof fn lemma_encodes_stores(&self, idx: int, first_prim: int, node: &BVHNode<B>)
        requires
            self.encodes(idx, first_prim, *node),
        ensures
            forall|j: int| 0 <= j < node.node_count() ==> self.stores(idx + j, #[trigger] node.preorder()[j]),
        decreases node,
    {
        lemma_preorder_len(node);
        match node {
            BVHNode::Leaf { .. } => {},
            BVHNode::Internal { left, right, .. } => {
                lemma_preorder_len(&**left);
                lemma_preorder_len(&**right);
                let lc = left.node_count() as int;
                self.lemma_encodes_stores(idx + 1, first_prim, &**left);
                self.lemma_encodes_stores(idx + 1 + lc, first_prim + left.leaf_primitives().len(), &**right);
                assert forall|j: int| 0 <= j < node.node_count() implies self.stores(idx + j, #[trigger] node.preorder()[j]) by {
                    if j == 0 {
                    } else if j < 1 + lc {
                        assert(node.preorder()[j] == left.preorder()[j - 1]);
                        assert(self.stores(idx + 1 + (j - 1), left.preorder()[j - 1]));
                    } else {
                        assert(node.preorder()[j] == right.preorder()[j - 1 - lc]);
                        assert(self.stores(idx + 1 + lc + (j - 1 - lc), right.preorder()[j - 1 - lc]));
                    }
                }
            },
        }
    }

    /// Flattening `root` stores its nodes in pre-order: entry `i` holds the
    /// bounds of the `i`-th node, an inner node's child indices name the
    /// entries of its left and right children, and a leaf's range of `prims`
    /// holds its primitives.
    pub proof fn lemma_flattened_nodes(&self, root: &BVHNode<B>)
        requires
            self.encodes(0, 0, *root),
            self.len() == root.node_count(),
        ensures
            self.len() == root.preorder().len(),
            forall|i: int|
                0 <= i < self.len() ==> {
                    let n = #[trigger] root.preorder()[i];
                    &&& self.bounds[i] == n.node_bounds()
                    &&& n matches BVHNode::Internal { left, right, .. } ==> {
                        &&& self.node_type[i] == NodeType::InnerNode
                        &&& 0 <= self.left[i] < self.len()
                        &&& 0 <= self.right[i] < self.len()
                        &&& root.preorder()[self.left[i] as int] == *left
                        &&& root.preorder()[self.right[i] as int] == *right
                    }
                    &&& n matches BVHNode::Leaf { primitives, .. } ==> {
                        &&& self.node_type[i] == NodeType::Leaf
                        &&& self.prims_count[i] == primitives@.len()
                        &&& self.prims.subrange(
                            self.prims_start[i] as int,
                            self.prims_start[i] + self.prims_count[i],
                        ) == primitives@
                    }
                },
    {
        lemma_preorder_len(root);
        self.lemma_encodes_stores(0, 0, root);
        assert forall|i: int| 0 <= i < self.len() implies {
            let n = #[trigger] root.preorder()[i];
            &&& self.bounds[i] == n.node_bounds()
            &&& n matches BVHNode::Internal { left, right, .. } ==> {
                &&& self.node_type[i] == NodeType::InnerNode
                &&& 0 <= self.left[i] < self.len()
                &&& 0 <= self.right[i] < self.len()
                &&& root.preorder()[self.left[i] as int] == *left
                &&& root.preorder()[self.right[i] as int] == *right
            }
            &&& n matches BVHNode::Leaf { primitives, .. } ==> {
                &&& self.node_type[i] == NodeType::Leaf
                &&& self.prims_count[i] == primitives@.len()
                &&& self.prims.subrange(
                    self.prims_start[i] as int,
                    self.prims_start[i] + self.prims_count[i],
                ) == primitives@
            }
        } by {
            assert(self.stores(0 + i, root.preorder()[i]));
            lemma_preorder_children(root, i);
        }
    }

    pub open spec fn len(&self) -> nat {
        self.node_type.len()
    }

    pub open spec fn arrays_agree(&self) -> bool {
        &&& self.bounds.len() == self.node_type.len()
        &&& self.left.len() == self.node_type.len()
        &&& self.right.len() == self.node_type.len()
        &&& self.prims_start.len() == self.node_type.len()
        &&& self.prims_count.len() == self.node_type.len()
    }

    /// Every child index names a node and every leaf range lies in `prims`.
    pub open spec fn wf(&self) -> bool {
        &&& self.arrays_agree()
        &&& forall|i: int|
            0 <= i < self.len() ==> {
                &&& #[trigger] self.left[i] < self.len()
                &&& self.right[i] < self.len()
                &&& self.prims_start[i] + self.prims_count[i] <= self.prims.len()
            }
    }

    /// The nodes from index `idx` on hold `node` in pre-order: an inner node
    /// has its left child right after it and its right child right after
    /// the left subtree, and the leaves own consecutive ranges of `prims`
    /// from `first_prim` on, each range holding that leaf's primitives.
    pub open spec fn encodes(&self, idx: int, first_prim: int, node: BVHNode<B>) -> bool
        decreases node,
    {
        &&& 0 <= idx < self.len()
        &&& self.arrays_agree()
        &&& self.bounds[idx] == node.node_bounds()
        &&& match node {
            BVHNode::Leaf { primitives, .. } => {
                &&& self.node_type[idx] == NodeType::Leaf
                &&& self.prims_start[idx] == first_prim
                &&& self.prims_count[idx] == primitives@.len()
                &&& self.left[idx] == 0
                &&& self.right[idx] == 0
                &&& 0 <= first_prim
                &&& first_prim + primitives@.len() <= self.prims.len()
                &&& self.prims.subrange(first_prim, first_prim + primitives@.len())
                    == primitives@
            },
            BVHNode::Internal { left, right, .. } => {
                &&& self.node_type[idx] == NodeType::InnerNode
                &&& self.prims_start[idx] == 0
                &&& self.prims_count[idx] == 0
                &&& self.left[idx] == idx + 1
                &&& self.right[idx] == idx + 1 + left.node_count()
                &&& self.encodes(idx + 1, first_prim, *left)
                &&& self.encodes(
                    idx + 1 + left.node_count(),
                    first_prim + left.leaf_primitives().len(),
                    *right,
                )
            },
        }
    }

    /// The node arrays of `self` and `other` hold the same entries at every
    /// index in `lo .. hi`.
    pub open spec fn agree_on(&self, other: &Self, lo: int, hi: int) -> bool {
        &&& 0 <= lo
        &&& hi <= self.len()
        &&& hi <= other.len()
        &&& self.arrays_agree()
        &&& other.arrays_agree()
        &&& forall|j: int|
            #![trigger self.node_type[j]]
            #![trigger self.bounds[j]]
            #![trigger self.left[j]]
            #![trigger self.right[j]]
            #![trigger self.prims_start[j]]
            #![trigger self.prims_count[j]]
            lo <= j < hi ==> {
                &&& self.node_type[j] == other.node_type[j]
                &&& self.bounds[j] == other.bounds[j]
                &&& self.left[j] == other.left[j]
                &&& self.right[j] == other.right[j]
                &&& self.prims_start[j] == other.prims_start[j]
                &&& self.prims_count[j] == other.prims_count[j]
            }
    }

    /// `self` holds `old` as a prefix of each of its arrays.
    pub open spec fn extends(&self, old: &Self) -> bool {
        &&& self.agree_on(old, 0, old.len() as int)
        &&& old.prims.len() <= self.prims.len()
        &&& forall|k: int| 0 <= k < old.prims.len() ==> #[trigger] self.prims[k] == old.prims[k]
    }

    proof fn lemma_extends_trans(c: &Self, b: &Self, a: &Self)
        requires
            c.extends(b),
            b.extends(a),
        ensures
            c.extends(a),
    {
    }

    pub proof fn lemma_encodes_bounds(&self, idx: int, first_prim: int, node: &BVHNode<B>)
        requires
            self.encodes(idx, first_prim, *node),
        ensures
            0 <= first_prim,
            idx + node.node_count() <= self.len(),
            first_prim + node.leaf_primitives().len() <= self.prims.len(),
        decreases node,
    {
        match node {
            BVHNode::Leaf { .. } => {},
            BVHNode::Internal { left, right, .. } => {
                self.lemma_encodes_bounds(idx + 1, first_prim, &**left);
                self.lemma_encodes_bounds(
                    idx + 1 + left.node_count(),
                    first_prim + left.leaf_primitives().len(),
                    &**right,
                );
            },
        }
    }

    /// Whether a subtree is encoded depends only on the entries that it occupies.
    proof fn lemma_encodes_frame(new: &Self, old: &Self, idx: int, first_prim: int, node: &BVHNode<B>)
        requires
            old.encodes(idx, first_prim, *node),
            new.agree_on(old, idx, idx + node.node_count()),
            first_prim + node.leaf_primitives().len() <= new.prims.len(),
            forall|k: int|
                first_prim <= k < first_prim + node.leaf_primitives().len()
                    ==> #[trigger] new.prims[k] == old.prims[k],
        ensures
            new.encodes(idx, first_prim, *node),
        decreases node,
    {
        assert(new.node_type[idx] == old.node_type[idx]);
        old.lemma_encodes_bounds(idx, first_prim, node);
        match node {
            BVHNode::Leaf { primitives, .. } => {
                let n = primitives@.len() as int;
                assert(new.prims.subrange(first_prim, first_prim + n)
                    =~= old.prims.subrange(first_prim, first_prim + n));
            },
            BVHNode::Internal { left, right, .. } => {
                assert(node.node_count() == 1 + left.node_count() + right.node_count());
                Self::lemma_encodes_frame(new, old, idx + 1, first_prim, &**left);
                Self::lemma_encodes_frame(
                    new,
                    old,
                    idx + 1 + left.node_count(),
                    first_prim + left.leaf_primitives().len(),
                    &**right,
                );
            },
        }
    }
}

/// The parallel node arrays of a flattened BVH, one entry per node, nodes in
/// pre-order. An inner node at index `i` has its left child at `i + 1`; a
/// leaf owns `prims[prims_start[i] .. prims_start[i] + prims_count[i]]`.
struct FlatArrays<B> {
    node_type: Vec<NodeType>,
    bounds: Vec<B>,
    left: Vec<usize>,
    right: Vec<usize>,
    prims_start: Vec<usize>,
    prims_count: Vec<usize>,
    prims: Vec<Triangle>,
}

impl<B> View for FlatArrays<B> {
    type V = FlatNodes<B>;

    closed spec fn view(&self) -> FlatNodes<B> {
        FlatNodes {
            node_type: self.node_type@,
            bounds: self.bounds@,
            left: self.left@,
            right: self.right@,
            prims_start: self.prims_start@,
            prims_count: self.prims_count@,
            prims: self.prims@,
        }
    }
}

/// A BVH flattened into arrays for traversal; built by `from_tree`.
pub struct BVH<B> {
    arrays: FlatArrays<B>,
}

impl<B> View for BVH<B> {
    type V = FlatNodes<B>;

    closed spec fn view(&self) -> FlatNodes<B> {
        self.arrays@
    }
}

impl<B> BVH<B> {
    /// Child indices point at nodes and every leaf's range of primitives lies
    /// inside the primitive array.
    #[verifier::type_invariant]
    spec fn well_formed(self) -> bool {
        self.arrays@.wf()
    }
}

impl<B> BVH<B> {
    /// Number of nodes.
    pub fn len(&self) -> (n: usize)
        ensures
            n == self@.len(),
    {
        self.arrays.node_type.len()
    }

    /// Whether node `idx` is a leaf.
    pub fn is_leaf(&self, idx: usize) -> (leaf: bool)
        requires
            idx < self@.len(),
        ensures
            leaf == (self@.node_type[idx as int] == NodeType::Leaf),
    {
        match self.arrays.node_type[idx] {
            NodeType::Leaf => true,
            NodeType::InnerNode => false,
        }
    }

    /// The bounds of node `idx`.
    pub fn bounds_of(&self, idx: usize) -> (b: &B)
        requires
            idx < self@.len(),
        ensures
            *b == self@.bounds[idx as int],
    {
        proof {
            use_type_invariant(self);
        }
        &self.arrays.bounds[idx]
    }

    /// The indices of the two children of node `idx`.
    pub fn children(&self, idx: usize) -> (c: (usize, usize))
        requires
            idx < self@.len(),
        ensures
            c == (self@.left[idx as int], self@.right[idx as int]),
            c.0 < self@.len(),
            c.1 < self@.len(),
    {
        proof {
            use_type_invariant(self);
        }
        (self.arrays.left[idx], self.arrays.right[idx])
    }

    /// The primitives that node `idx` owns; none for an inner node.
    pub fn leaf_primitives(&self, idx: usize) -> (prims: &[Triangle])
        requires
            idx < self@.len(),
        ensures
            prims@ == self@.prims.subrange(
                self@.prims_start[idx as int] as int,
                self@.prims_start[idx as int] + self@.prims_count[idx as int],
            ),
    {
        proof {
            use_type_invariant(self);
        }
        let start = self.arrays.prims_start[idx];
        let count = self.arrays.prims_count[idx];
        proof {
            assert(self.arrays.prims.len() == self.arrays.prims@.len());
            // `wf` at node `idx`, whose primitives lie inside `prims`
            assert(self@.left[idx as int] < self@.len());
        }
        vstd::slice::slice_subrange(self.arrays.prims.as_slice(), start, start + count)
    }
}

impl<B: Copy> BVH<B> {
    /// Flattens the tree rooted at `root`; the root is node 0.
    pub fn from_tree(root: &BVHNode<B>) -> (bvh: Self)
        ensures
            bvh@.wf(),
            bvh@.len() == root.node_count(),
            bvh@.prims == root.leaf_primitives(),
            bvh@.encodes(0, 0, *root),
            bvh@.len() == root.preorder().len(),
            forall|i: int|
                0 <= i < bvh@.len() ==> {
                    let n = #[trigger] root.preorder()[i];
                    &&& bvh@.bounds[i] == n.node_bounds()
                    &&& n matches BVHNode::Internal { left, right, .. } ==> {
                        &&& bvh@.node_type[i] == NodeType::InnerNode
                        &&& 0 <= bvh@.left[i] < bvh@.len()
                        &&& 0 <= bvh@.right[i] < bvh@.len()
                        &&& root.preorder()[bvh@.left[i] as int] == *left
                        &&& root.preorder()[bvh@.right[i] as int] == *right
                    }
                    &&& n matches BVHNode::Leaf { primitives, .. } ==> {
                        &&& bvh@.node_type[i] == NodeType::Leaf
                        &&& bvh@.prims_count[i] == primitives@.len()
                        &&& bvh@.prims.subrange(
                            bvh@.prims_start[i] as int,
                            bvh@.prims_start[i] + bvh@.prims_count[i],
                        ) == primitives@
                    }
                },
    {
        let mut arrays = FlatArrays {
            node_type: Vec::new(),
            bounds: Vec::new(),
            left: Vec::new(),
            right: Vec::new(),
            prims_start: Vec::new(),
            prims_count: Vec::new(),
            prims: Vec::new(),
        };
        let root_index = arrays.build_recursive(root);
        proof {
            assert(root_index == 0);
            assert(arrays@.prims =~= root.leaf_primitives());
            arrays@.lemma_flattened_nodes(root);
        }
        BVH { arrays }
    }
}

impl<B: Copy> FlatArrays<B> {
    /// Appends `root` in pre-order and returns the index of its node.
    fn build_recursive(&mut self, root: &BVHNode<B>) -> (index: usize)
        requires
            old(self)@.wf(),
        ensures
            final(self)@.wf(),
            final(self)@.extends(&old(self)@),
            index == old(self)@.len(),
            final(self)@.len() == old(self)@.len() + root.node_count(),
            final(self)@.prims == old(self)@.prims + root.leaf_primitives(),
            final(self)@.encodes(index as int, old(self)@.prims.len() as int, *root),
        decreases root,
    {
        let index = self.node_type.len();
        let ghost s0 = self@;
        match root {
            BVHNode::Internal { bounds, left, right } => {
                self.bounds.push(*bounds);
                self.node_type.push(NodeType::InnerNode);
                self.prims_start.push(0);
                self.prims_count.push(0);
                self.left.push(0);
                self.right.push(0);
                let ghost s1 = self@;
                assert(s1.wf());
                let l = self.build_recursive(left);
                let ghost s2 = self@;
                let r = self.build_recursive(right);
                let ghost s3 = self@;
                self.left.set(index, l);
                self.right.set(index, r);
                proof {
                    let s = self@;
                    let fp = s0.prims.len() as int;
                    FlatNodes::lemma_extends_trans(&s3, &s2, &s1);
                    FlatNodes::lemma_extends_trans(&s3, &s1, &s0);
                    s2.lemma_encodes_bounds(l as int, fp, &**left);
                    FlatNodes::lemma_encodes_frame(&s3, &s2, l as int, fp, &**left);
                    FlatNodes::lemma_encodes_frame(&s, &s3, l as int, fp, &**left);
                    FlatNodes::lemma_encodes_frame(
                        &s,
                        &s3,
                        r as int,
                        fp + left.leaf_primitives().len(),
                        &**right,
                    );
                    assert(s.prims =~= s0.prims + root.leaf_primitives());
                    assert(s.wf()) by {
                        assert forall|i: int| 0 <= i < s.len() implies {
                            &&& #[trigger] s.left[i] < s.len()
                            &&& s.right[i] < s.len()
                            &&& s.prims_start[i] + s.prims_count[i] <= s.prims.len()
                        } by {
                            assert(s3.left[i] < s3.len());
                        }
                    }
                }
                index
            },
            BVHNode::Leaf { bounds, primitives } => {
                let start = self.prims.len();
                let mut i: usize = 0;
                while i < primitives.len()
                    invariant
                        i <= primitives.len(),
                        self.prims@ == s0.prims + primitives@.take(i as int),
                        self.node_type@ == s0.node_type,
                        self.bounds@ == s0.bounds,
                        self.left@ == s0.left,
                        self.right@ == s0.right,
                        self.prims_start@ == s0.prims_start,
                        self.prims_count@ == s0.prims_count,
                    decreases primitives.len() - i,
                {
                    self.prims.push(primitives[i]);
                    i += 1;
                    proof {
                        assert(primitives@.take(i as int)
                            == primitives@.take(i - 1).push(primitives@[i - 1]));
                    }
                }
                self.bounds.push(*bounds);
                self.node_type.push(NodeType::Leaf);
                self.prims_start.push(start);
                self.prims_count.push(primitives.len());
                self.left.push(0);
                self.right.push(0);
                proof {
                    let s = self@;
                    assert(primitives@.take(i as int) == primitives@);
                    assert(s.wf()) by {
                        assert forall|k: int| 0 <= k < s.len() implies {
                            &&& #[trigger] s.left[k] < s.len()
                            &&& s.right[k] < s.len()
                            &&& s.prims_start[k] + s.prims_count[k] <= s.prims.len()
                        } by {
                            if k < index {
                                assert(s0.left[k] < s0.len());
                            }
                        }
                    }
                    assert(s.prims.subrange(start as int, start + primitives@.len())
                        =~= primitives@);
                }
                index
            },
        }
    }
}

} // verus!
