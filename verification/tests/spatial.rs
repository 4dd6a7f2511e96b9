//! Tests of the octree: aggregates, bounds checking, and agreement with
//! direct summation.

use dagon::gravity::forces_by_direct_summation;
use dagon::particle::GravityParticle;
use dagon::query::forces_from_tree;
use dagon::tree::{Body, BoundingVolume, SpatialTree, TreeConstructionError, TreeNode};
use dagon::vector::Vector;

fn v(x: i128, y: i128, z: i128) -> Vector {
    Vector { x, y, z }
}

fn particle(x: i128, y: i128, z: i128, mass: i128) -> GravityParticle {
    GravityParticle { position: v(x, y, z), velocity: v(0, 0, 0), mass }
}

fn volume() -> BoundingVolume {
    BoundingVolume { center: v(0, 0, 0), half_width: 2_000_000 }
}

fn three_bodies() -> Vec<GravityParticle> {
    vec![
        particle(0, 0, 0, 1_000_000),
        particle(1_000_000, 0, 0, 1_000_000),
        particle(0, 1_000_000, 0, 1_000_000),
    ]
}

fn collect_bodies(node: &TreeNode, out: &mut Vec<Body>) {
    match node {
        TreeNode::Leaf { body, .. } => {
            if let Some(b) = body {
                out.push(*b);
            }
        }
        TreeNode::Branch { children, .. } => {
            for c in children {
                collect_bodies(c, out);
            }
        }
    }
}

/// Walks every node checking that its aggregate equals a direct
/// recomputation from the leaves below it.
fn check_aggregates(node: &TreeNode) {
    let mut bodies = Vec::new();
    collect_bodies(node, &mut bodies);
    let total: i128 = bodies.iter().map(|b| b.mass).sum();
    let mx: i128 = bodies.iter().map(|b| b.mass * b.position.x).sum();
    let my: i128 = bodies.iter().map(|b| b.mass * b.position.y).sum();
    let mz: i128 = bodies.iter().map(|b| b.mass * b.position.z).sum();
    let aggregate = match node {
        TreeNode::Leaf { aggregate, .. } => aggregate,
        TreeNode::Branch { aggregate, .. } => aggregate,
    };
    assert_eq!(aggregate.total_mass, total);
    assert_eq!(aggregate.moment, v(mx, my, mz));
    if total > 0 {
        // The center of mass is the mass-weighted average of the
        // positions below, rounded toward zero.
        assert_eq!(aggregate.center_of_mass.x, mx / total);
        assert_eq!(aggregate.center_of_mass.y, my / total);
        assert_eq!(aggregate.center_of_mass.z, mz / total);
    }
    if let TreeNode::Branch { children, .. } = node {
        assert_eq!(children.len(), 8);
        for c in children {
            check_aggregates(c);
        }
    }
}

/// Aggregates of every node are the exact sums over their subtrees.
#[test]
fn aggregates_are_exact() {
    let particles = vec![
        particle(0, 0, 0, 1_000_000),
        particle(1_000_000, 0, 0, 2_000_000),
        particle(0, 1_000_000, 0, 3_000_000),
        particle(-700_000, 333_333, -1_999_999, 4_000_000),
        particle(1_999_999, -1_000_000, 1, 500_000),
    ];
    let tree = SpatialTree::build(&particles, volume()).unwrap();
    check_aggregates(&tree.root);
    let mut bodies = Vec::new();
    collect_bodies(&tree.root, &mut bodies);
    assert_eq!(bodies.len(), particles.len());
    let mut indices: Vec<usize> = bodies.iter().map(|b| b.index).collect();
    indices.sort();
    assert_eq!(indices, vec![0, 1, 2, 3, 4]);
}

/// A volume that misses a particle is rejected, never silently accepted.
#[test]
fn out_of_bounds_is_rejected() {
    let particles = vec![particle(0, 0, 0, 1_000_000), particle(3_000_000, 0, 0, 1_000_000)];
    let r = SpatialTree::build(&particles, volume());
    assert_eq!(r.err(), Some(TreeConstructionError::OutOfBounds));
    // The upper face of the cube is outside the half-open volume.
    let edge = vec![particle(2_000_000, 0, 0, 1_000_000)];
    let r2 = SpatialTree::build(&edge, volume());
    assert_eq!(r2.err(), Some(TreeConstructionError::OutOfBounds));
}

/// Coincident particles can never reach separate leaves.
#[test]
fn coincident_particles_are_rejected() {
    let particles = vec![
        particle(5, 5, 5, 1_000_000),
        particle(-1_000_000, 0, 0, 1_000_000),
        particle(5, 5, 5, 2_000_000),
    ];
    let r = SpatialTree::build(&particles, volume());
    assert_eq!(r.err(), Some(TreeConstructionError::DegenerateSeparation));
}

/// With `theta` at its smallest the acceptance criterion never fires,
/// and the tree walk equals direct summation exactly, for every target.
#[test]
fn tree_matches_direct_for_small_theta() {
    let particles = three_bodies();
    let tree = SpatialTree::build(&particles, volume()).unwrap();
    for i in 0..particles.len() {
        let from_tree = forces_from_tree(&particles[i], i, &tree, 1).unwrap();
        let direct = forces_by_direct_summation(i, &particles).unwrap();
        assert_eq!(from_tree, direct);
    }
}

/// A modest `theta` still approximates the direct sum closely on a
/// spread-out configuration.
#[test]
fn tree_approximates_direct_for_default_theta() {
    let particles = vec![
        particle(-1_500_000, -1_500_000, -1_500_000, 1_000_000),
        particle(-1_400_000, -1_600_000, -1_500_000, 2_000_000),
        particle(1_500_000, 1_500_000, 1_500_000, 1_000_000),
        particle(1_600_000, 1_400_000, 1_500_000, 3_000_000),
    ];
    let tree = SpatialTree::build(&particles, volume()).unwrap();
    // theta = 0.5 in fixed point.
    let theta = 500_000;
    for i in 0..particles.len() {
        let from_tree = forces_from_tree(&particles[i], i, &tree, theta).unwrap();
        let direct = forces_by_direct_summation(i, &particles).unwrap();
        for (a, b) in [
            (from_tree.x, direct.x),
            (from_tree.y, direct.y),
            (from_tree.z, direct.z),
        ] {
            // Within ten percent plus rounding slack.
            assert!((a - b).abs() <= b.abs() / 10 + 2_000, "{} vs {}", a, b);
        }
    }
}

/// An empty particle set builds a massless tree.
#[test]
fn empty_tree() {
    let particles: Vec<GravityParticle> = vec![];
    let tree = SpatialTree::build(&particles, volume()).unwrap();
    match &tree.root {
        TreeNode::Leaf { body, aggregate, .. } => {
            assert!(body.is_none());
            assert_eq!(aggregate.total_mass, 0);
        }
        TreeNode::Branch { .. } => panic!("an empty tree should be a single leaf"),
    }
}

/// Excluding the target works through the tree as well.
#[test]
fn tree_excludes_self() {
    let particles = vec![particle(250_000, 250_000, 250_000, 1_000_000)];
    let tree = SpatialTree::build(&particles, volume()).unwrap();
    let f = forces_from_tree(&particles[0], 0, &tree, 1).unwrap();
    assert_eq!(f, v(0, 0, 0));
}
