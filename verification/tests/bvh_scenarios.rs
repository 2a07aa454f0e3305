//! End-to-end scenarios for BVH construction.

use raytracer::bvh::{BVHBuilder, BVH};
use raytracer::types::{Triangle, Vec3};

fn quad_positions() -> Vec<Vec3> {
    vec![
        Vec3::new(-1, -1, 0),
        Vec3::new(-1, 1, 0),
        Vec3::new(1, 1, 0),
        Vec3::new(1, -1, 0),
    ]
}

fn quad_triangles() -> Vec<Triangle> {
    vec![Triangle::new(0, 2, 1, 0), Triangle::new(0, 2, 3, 0)]
}

fn build(tris: &Vec<Triangle>, positions: Vec<Vec3>) -> (BVH, Vec<Triangle>) {
    BVHBuilder::new(tris, positions).build()
}

fn tri_key(t: &Triangle) -> (u32, u32, u32, u32) {
    let mut v = [t.p0, t.p1, t.p2];
    v.sort();
    (v[0], v[1], v[2], t.mat_idx)
}

fn sorted_keys(tris: &[Triangle]) -> Vec<(u32, u32, u32, u32)> {
    let mut keys: Vec<(u32, u32, u32, u32)> = tris.iter().map(tri_key).collect();
    keys.sort();
    keys
}

/// Walk the tree from the root, returning all reachable leaves and
/// checking child-index monotonicity, unique parenthood and bounding
/// conservativeness on the way.
fn collect_leaves(bvh: &BVH) -> Vec<(u32, u32)> {
    let nodes = bvh.data();
    let mut leaves = Vec::new();
    let mut seen_children: Vec<u32> = Vec::new();
    let mut stack = vec![0usize];
    while let Some(i) = stack.pop() {
        let n = &nodes[i];
        if n.is_leaf != 0 {
            leaves.push((n.a, n.b));
        } else {
            assert!((i as u32) < n.a, "child index must exceed the parent's");
            assert_eq!(n.b, n.a + 1, "children must be an adjacent pair");
            assert!(n.a >= 2, "root and sentinel are never children");
            assert!(!seen_children.contains(&n.a));
            assert!(!seen_children.contains(&n.b));
            seen_children.push(n.a);
            seen_children.push(n.b);
            for c in [n.a as usize, n.b as usize] {
                let child = &nodes[c];
                assert!(n.bounds.min.x <= child.bounds.min.x);
                assert!(n.bounds.min.y <= child.bounds.min.y);
                assert!(n.bounds.min.z <= child.bounds.min.z);
                assert!(child.bounds.max.x <= n.bounds.max.x);
                assert!(child.bounds.max.y <= n.bounds.max.y);
                assert!(child.bounds.max.z <= n.bounds.max.z);
                stack.push(c);
            }
        }
    }
    leaves
}

/// Leaves must tile [0, n) exactly: pairwise disjoint, nothing missing.
fn check_partition(leaves: &[(u32, u32)], n: u32) {
    let mut covered = vec![0u32; n as usize];
    for &(first, count) in leaves {
        for t in first..first + count {
            covered[t as usize] += 1;
        }
    }
    assert!(covered.iter().all(|&c| c == 1), "each triangle in exactly one leaf");
}

#[test]
fn unit_quad_stays_single_leaf() {
    let (bvh, tris) = build(&quad_triangles(), quad_positions());
    let nodes = bvh.data();
    assert_eq!(nodes.len(), 2, "root and sentinel only");
    assert_eq!(nodes[0].is_leaf, 1);
    assert_eq!(nodes[0].a, 0);
    assert_eq!(nodes[0].b, 2);
    assert_eq!(tris.len(), 2);
    assert_eq!(sorted_keys(&tris), sorted_keys(&quad_triangles()));
}

#[test]
fn separated_triangles_split_into_two_leaves() {
    let positions = vec![
        Vec3::new(-10, 0, 0),
        Vec3::new(-9, 1, 0),
        Vec3::new(-9, 0, 1),
        Vec3::new(10, 0, 0),
        Vec3::new(11, 1, 0),
        Vec3::new(11, 0, 1),
    ];
    let tris = vec![Triangle::new(0, 1, 2, 0), Triangle::new(3, 4, 5, 1)];
    let (bvh, out) = build(&tris, positions);
    let nodes = bvh.data();
    assert_eq!(nodes.len(), 4);
    assert_eq!(nodes[0].is_leaf, 0, "root must split");
    assert_eq!(nodes[0].a, 2);
    assert_eq!(nodes[0].b, 3);
    assert_eq!(nodes[2].is_leaf, 1);
    assert_eq!(nodes[2].b, 1, "one triangle per leaf");
    assert_eq!(nodes[3].is_leaf, 1);
    assert_eq!(nodes[3].b, 1);
    // the split separates the clusters along x: the first leaf holds the
    // left triangle
    assert_eq!(nodes[2].a, 0);
    assert_eq!(nodes[3].a, 1);
    assert_eq!(out[0].p0, 0, "left cluster first");
    assert_eq!(out[1].p0, 3, "right cluster second");
    assert_eq!(sorted_keys(&out), sorted_keys(&tris));
}

#[test]
fn zero_triangles_yield_one_empty_leaf() {
    let (bvh, out) = build(&Vec::new(), Vec::new());
    let nodes = bvh.data();
    assert_eq!(nodes.len(), 2);
    assert_eq!(nodes[0].is_leaf, 1);
    assert_eq!(nodes[0].a, 0);
    assert_eq!(nodes[0].b, 0);
    assert_eq!(nodes[0].bounds.min, Vec3::new(0, 0, 0));
    assert_eq!(nodes[0].bounds.max, Vec3::new(0, 0, 0));
    assert!(out.is_empty());
}

#[test]
fn coincident_centroids_stay_single_leaf() {
    // four copies of one triangle: every centroid key coincides, so no
    // axis offers a viable split
    let positions = vec![Vec3::new(0, 0, 0), Vec3::new(5, 0, 0), Vec3::new(0, 5, 0)];
    let tris = vec![
        Triangle::new(0, 1, 2, 0),
        Triangle::new(0, 1, 2, 1),
        Triangle::new(0, 1, 2, 2),
        Triangle::new(0, 1, 2, 3),
    ];
    let (bvh, out) = build(&tris, positions);
    let nodes = bvh.data();
    assert_eq!(nodes.len(), 2);
    assert_eq!(nodes[0].is_leaf, 1);
    assert_eq!(nodes[0].b, 4);
    assert_eq!(sorted_keys(&out), sorted_keys(&tris));
}

struct Lcg {
    state: u64,
}

impl Lcg {
    fn new(seed: u64) -> Lcg {
        Lcg { state: seed }
    }

    fn next(&mut self) -> u64 {
        self.state = self
            .state
            .wrapping_mul(6364136223846793005)
            .wrapping_add(1442695040888963407);
        self.state >> 33
    }

    fn coord(&mut self, extent: u64) -> i64 {
        (self.next() % (extent + 1)) as i64
    }
}

#[test]
fn ten_thousand_random_triangles() {
    let n: u32 = 10_000;
    let mut rng = Lcg::new(42);
    let mut positions = Vec::new();
    let mut tris = Vec::new();
    for t in 0..n {
        let base = 3 * t;
        // a small triangle at a random spot in a cube
        let x = rng.coord(1_000_000);
        let y = rng.coord(1_000_000);
        let z = rng.coord(1_000_000);
        positions.push(Vec3::new(x, y, z));
        positions.push(Vec3::new(x + rng.coord(1_000), y + rng.coord(1_000), z));
        positions.push(Vec3::new(x, y + rng.coord(1_000), z + rng.coord(1_000)));
        tris.push(Triangle::new(base, base + 1, base + 2, t % 7));
    }
    let (bvh, out) = build(&tris, positions);
    let nodes = bvh.data();
    assert!(nodes.len() as u32 <= 2 * n, "node count is bounded by 2n");
    let leaves = collect_leaves(&bvh);
    check_partition(&leaves, n);
    let biggest = leaves.iter().map(|&(_, c)| c).max().unwrap();
    assert!(
        biggest <= n / 10,
        "the evaluator must not degenerate to never splitting (biggest leaf: {biggest})"
    );
    assert_eq!(sorted_keys(&out), sorted_keys(&tris));
}

#[test]
fn building_twice_is_deterministic() {
    let mut rng = Lcg::new(7);
    let mut positions = Vec::new();
    let mut tris = Vec::new();
    for t in 0..500u32 {
        let base = 3 * t;
        positions.push(Vec3::new(rng.coord(10_000), rng.coord(10_000), rng.coord(10_000)));
        positions.push(Vec3::new(rng.coord(10_000), rng.coord(10_000), rng.coord(10_000)));
        positions.push(Vec3::new(rng.coord(10_000), rng.coord(10_000), rng.coord(10_000)));
        tris.push(Triangle::new(base, base + 1, base + 2, 0));
    }
    let (bvh1, out1) = build(&tris, positions.clone());
    let (bvh2, out2) = build(&tris, positions);
    assert_eq!(bvh1.data(), bvh2.data(), "identical node arrays");
    assert_eq!(out1, out2, "identical triangle permutations");
}
