use std::sync::Arc;

use insploray::acceleration_structure::{
    bucket_counts, clamp_bucket, partition_by_bucket, split_counts, BVHNode, N_BUCKETS, BVH,
};
use insploray::geometry::Triangle;

fn tri(k: u32) -> Triangle {
    Triangle::new(k, k + 1, k + 2, 0)
}

fn sample_tree() -> BVHNode<u32> {
    let leaf_a = BVHNode::Leaf { bounds: 1, primitives: vec![tri(0), tri(3)] };
    let leaf_b = BVHNode::Leaf { bounds: 2, primitives: vec![tri(6)] };
    let leaf_c = BVHNode::Leaf { bounds: 3, primitives: vec![tri(9), tri(12), tri(15)] };
    let inner = BVHNode::Internal { bounds: 4, left: Arc::new(leaf_a), right: Arc::new(leaf_b) };
    BVHNode::Internal { bounds: 5, left: Arc::new(inner), right: Arc::new(leaf_c) }
}

#[test]
fn flattening_is_preorder() {
    let bvh = BVH::from_tree(&sample_tree());
    assert_eq!(bvh.len(), 5);
    assert!(!bvh.is_leaf(0));
    assert_eq!(bvh.children(0), (1, 4));
    assert!(!bvh.is_leaf(1));
    assert_eq!(bvh.children(1), (2, 3));
    assert!(bvh.is_leaf(2) && bvh.is_leaf(3) && bvh.is_leaf(4));
    assert_eq!(*bvh.bounds_of(0), 5);
    assert_eq!(*bvh.bounds_of(4), 3);
}

#[test]
fn leaves_own_their_primitives() {
    let bvh = BVH::from_tree(&sample_tree());
    let firsts: Vec<Vec<u32>> =
        (0..bvh.len()).map(|i| bvh.leaf_primitives(i).iter().map(|t| t.v0).collect()).collect();
    assert_eq!(firsts, vec![vec![], vec![], vec![0, 3], vec![6], vec![9, 12, 15]]);
}

#[test]
fn single_leaf_tree() {
    let bvh = BVH::from_tree(&BVHNode::Leaf { bounds: 7u32, primitives: vec![] });
    assert_eq!(bvh.len(), 1);
    assert!(bvh.is_leaf(0));
    assert!(bvh.leaf_primitives(0).is_empty());
}

#[test]
fn bucket_clamping() {
    assert_eq!(clamp_bucket(N_BUCKETS), N_BUCKETS - 1);
    assert_eq!(clamp_bucket(5), 5);
    assert_eq!(clamp_bucket(0), 0);
}

#[test]
fn partition_keeps_order_and_items() {
    let prims = vec![10u32, 11, 12, 13, 14];
    let buckets = vec![3usize, 40, 64, 7, 20];
    let (lo, hi) = partition_by_bucket(prims, &buckets, 20);
    assert_eq!(lo, vec![10, 13, 14]);
    assert_eq!(hi, vec![11, 12]);
}

#[test]
fn counts_per_bucket_and_split() {
    let buckets = vec![0usize, 0, 5, 63, 64, 5];
    let counts = bucket_counts(&buckets);
    assert_eq!(counts.len(), N_BUCKETS);
    assert_eq!(counts[0], 2);
    assert_eq!(counts[5], 2);
    assert_eq!(counts[63], 2);
    assert_eq!(counts.iter().sum::<u32>(), 6);
    let splits = split_counts(&counts);
    assert_eq!(splits.len(), N_BUCKETS - 1);
    assert_eq!(splits[0], (2, 4));
    assert_eq!(splits[4], (2, 4));
    assert_eq!(splits[5], (4, 2));
    assert_eq!(splits[62], (4, 2));
}

fn tris(n: u32) -> Vec<Triangle> {
    (0..n).map(|k| tri(3 * k)).collect()
}

fn first_vertices(node: &BVHNode<u32>) -> Vec<u32> {
    match node {
        BVHNode::Leaf { primitives, .. } => primitives.iter().map(|t| t.v0).collect(),
        BVHNode::Internal { left, right, .. } => {
            let mut v = first_vertices(left);
            v.extend(first_vertices(right));
            v
        }
    }
}

fn count_bound(prims: &Vec<Triangle>) -> u32 {
    prims.len() as u32
}

/// Splits at the median of the first vertex index: the lower half goes to
/// the right child.
fn median_split(prims: &Vec<Triangle>, _bounds: &u32) -> Option<(Vec<usize>, usize)> {
    let mut sorted: Vec<u32> = prims.iter().map(|t| t.v0).collect();
    sorted.sort();
    let median = sorted[sorted.len() / 2];
    Some((prims.iter().map(|t| if t.v0 < median { 0 } else { 1 }).collect(), 0))
}

#[test]
fn small_sets_become_one_leaf() {
    let node = insploray::acceleration_structure::build_tree(tris(8), &count_bound, &median_split);
    match &node {
        BVHNode::Leaf { bounds, primitives } => {
            assert_eq!(*bounds, 8);
            assert_eq!(primitives.len(), 8);
        }
        BVHNode::Internal { .. } => panic!("expected a leaf"),
    }
    let empty = insploray::acceleration_structure::build_tree(Vec::new(), &count_bound, &median_split);
    assert!(matches!(empty, BVHNode::Leaf { bounds: 0, .. }));
}

#[test]
fn built_tree_keeps_every_primitive_once() {
    let input = tris(40);
    let node = insploray::acceleration_structure::build_tree(input.clone(), &count_bound, &median_split);
    let mut seen = first_vertices(&node);
    seen.sort();
    let expected: Vec<u32> = input.iter().map(|t| t.v0).collect();
    assert_eq!(seen, expected);
    match &node {
        BVHNode::Internal { bounds, left, right } => {
            assert_eq!(*bounds, 40);
            // the upper half (bucket 1, above the split) is on the left
            let mut upper = first_vertices(left);
            upper.sort();
            let mut lower = first_vertices(right);
            lower.sort();
            assert_eq!(upper, (20..40).map(|k| 3 * k).collect::<Vec<u32>>());
            assert_eq!(lower, (0..20).map(|k| 3 * k).collect::<Vec<u32>>());
        }
        BVHNode::Leaf { .. } => panic!("expected an internal node"),
    }
    let bvh = BVH::from_tree(&node);
    assert!(bvh.len() > 1);
}

#[test]
fn one_sided_or_refused_splits_keep_a_leaf() {
    let all_low = |prims: &Vec<Triangle>, _b: &u32| -> Option<(Vec<usize>, usize)> {
        Some((vec![0; prims.len()], 5))
    };
    let node = insploray::acceleration_structure::build_tree(tris(12), &count_bound, &all_low);
    assert!(matches!(&node, BVHNode::Leaf { primitives, .. } if primitives.len() == 12));

    let all_high = |prims: &Vec<Triangle>, _b: &u32| -> Option<(Vec<usize>, usize)> {
        Some((vec![N_BUCKETS - 1; prims.len()], 0))
    };
    let node = insploray::acceleration_structure::build_tree(tris(12), &count_bound, &all_high);
    assert!(matches!(&node, BVHNode::Leaf { primitives, .. } if primitives.len() == 12));

    let refuse = |_prims: &Vec<Triangle>, _b: &u32| -> Option<(Vec<usize>, usize)> { None };
    let node = insploray::acceleration_structure::build_tree(tris(12), &count_bound, &refuse);
    assert!(matches!(&node, BVHNode::Leaf { primitives, .. } if primitives.len() == 12));

    let short = |_prims: &Vec<Triangle>, _b: &u32| -> Option<(Vec<usize>, usize)> { Some((vec![0, 1], 0)) };
    let node = insploray::acceleration_structure::build_tree(tris(12), &count_bound, &short);
    assert!(matches!(&node, BVHNode::Leaf { primitives, .. } if primitives.len() == 12));
}

#[test]
fn split_plan_with_both_sides_gives_two_leaves() {
    let mut input = vec![tri(0); 5];
    input.extend(vec![tri(3); 4]);
    let plan = |prims: &Vec<Triangle>, _b: &u32| -> Option<(Vec<usize>, usize)> {
        Some((prims.iter().map(|t| if t.v0 == 0 { 0 } else { 64 }).collect(), 0))
    };
    let node = insploray::acceleration_structure::build_tree(input, &count_bound, &plan);
    match &node {
        BVHNode::Internal { bounds, left, right } => {
            assert_eq!(*bounds, 9);
            match (left.as_ref(), right.as_ref()) {
                (BVHNode::Leaf { bounds: lb, primitives: lp }, BVHNode::Leaf { bounds: rb, primitives: rp }) => {
                    assert_eq!((*lb, *rb), (4, 5));
                    assert!(lp.len() == 4 && lp.iter().all(|t| t.v0 == 3));
                    assert!(rp.len() == 5 && rp.iter().all(|t| t.v0 == 0));
                }
                _ => panic!("expected two leaves"),
            }
        }
        BVHNode::Leaf { .. } => panic!("expected an internal node"),
    }
}

#[test]
fn all_in_one_bucket_stays_one_leaf() {
    let input = vec![tri(0); 9];
    let plan = |prims: &Vec<Triangle>, _b: &u32| -> Option<(Vec<usize>, usize)> { Some((vec![7; prims.len()], 7)) };
    let node = insploray::acceleration_structure::build_tree(input, &count_bound, &plan);
    assert!(matches!(&node, BVHNode::Leaf { bounds: 9, primitives } if primitives.len() == 9));
}
