//! Bounding volume hierarchy construction over a triangle mesh, using a
//! binned surface-area-heuristic (SAH) cost model.
//!
//! The builder consumes a vertex-position array and a triangle array, grows a
//! flat node array strictly by appending, reorders a working copy of the
//! triangles in place so that every leaf covers a contiguous range, and hands
//! back the finished node array together with the permuted triangles.
//!
//! Centroid keys are stored as the plain sum of the three vertex coordinates
//! (three times the centroid).  Every comparison the builder makes between
//! centroid keys is scale-invariant, so the factor of three changes nothing
//! while keeping the key exact in integer arithmetic.

use vstd::prelude::*;
use vstd::pervasive::VecAdditionalExecFns;
use vstd::seq_lib::*;
use crate::types::{
    Vec3, Triangle, AABB, AABBBuilder, Bin, BVHNode, point_in_range,
};

verus! {

/// Number of bins per axis in one split evaluation.  A fixed tuning
/// constant; changing it trades split quality against build speed.
pub const BIN_COUNT: usize = 50;

/// Largest triangle count the builder accepts, so that node indices fit in
/// the 32-bit node fields and cost products fit in 128 bits.
pub const MAX_TRIANGLES: usize = 0x4000_0000;

/// Upper bound on the area score of any well-formed box: extents are at most
/// `2 * CENTROID_LIMIT`, so the score is at most three times that squared.
pub const AREA_LIMIT: u128 = 108_000_000_000_000_000_000;

/// The area score of a well-formed box is non-negative and below `AREA_LIMIT`.
pub proof fn lemma_area_bound(bb: AABB)
    requires
        bb.wf(),
    ensures
        0 <= bb.spec_area() <= AREA_LIMIT as int,
{
    let ex = bb.max.x - bb.min.x;
    let ey = bb.max.y - bb.min.y;
    let ez = bb.max.z - bb.min.z;
    assert(0 <= ex <= 6_000_000_000 && 0 <= ey <= 6_000_000_000 && 0 <= ez <= 6_000_000_000);
    assert(0 <= ex * ey + ey * ez + ez * ex <= 108_000_000_000_000_000_000) by (nonlinear_arith)
        requires
            0 <= ex <= 6_000_000_000 && 0 <= ey <= 6_000_000_000 && 0 <= ez <= 6_000_000_000,
    ;
}

/// A working triangle record: a builder-local copy of a triangle plus its
/// precomputed centroid key.  Exists only for the duration of construction.
#[derive(Clone, Copy, PartialEq, Eq, Structural, Debug)]
pub struct BVHTriangle {
    pub p0: usize,
    pub p1: usize,
    pub p2: usize,
    pub mat_idx: u32,
    pub centroid: Vec3,
}

/// The triangle a working record stands for.
pub open spec fn tri_of(w: BVHTriangle) -> Triangle {
    Triangle { p0: w.p0 as u32, p1: w.p1 as u32, p2: w.p2 as u32, mat_idx: w.mat_idx }
}

/// The plain triangles a sequence of working records stands for.
pub open spec fn tris_of(s: Seq<BVHTriangle>) -> Seq<Triangle> {
    s.map_values(|w: BVHTriangle| tri_of(w))
}

/// The working record a triangle and the position array determine: the
/// same indices and material, with the centroid key precomputed as the
/// componentwise vertex sum.
pub open spec fn work_rec(t: Triangle, positions: Seq<Vec3>) -> BVHTriangle {
    BVHTriangle {
        p0: t.p0 as usize,
        p1: t.p1 as usize,
        p2: t.p2 as usize,
        mat_idx: t.mat_idx,
        centroid: Vec3 {
            x: (positions[t.p0 as int].x + positions[t.p1 as int].x
                + positions[t.p2 as int].x) as i64,
            y: (positions[t.p0 as int].y + positions[t.p1 as int].y
                + positions[t.p2 as int].y) as i64,
            z: (positions[t.p0 as int].z + positions[t.p1 as int].z
                + positions[t.p2 as int].z) as i64,
        },
    }
}

/// The working records of a whole triangle array.
pub open spec fn work_of(tris: Seq<Triangle>, positions: Seq<Vec3>) -> Seq<BVHTriangle> {
    Seq::new(tris.len(), |i: int| work_rec(tris[i], positions))
}

/// A working record is well formed: its vertex indices address the position
/// array, they fit back into 32 bits, and its centroid key is exactly the
/// componentwise sum of its three vertex positions.
pub open spec fn wtri_wf(w: BVHTriangle, positions: Seq<Vec3>) -> bool {
    &&& w.p0 < positions.len()
    &&& w.p1 < positions.len()
    &&& w.p2 < positions.len()
    &&& w.p0 <= u32::MAX
    &&& w.p1 <= u32::MAX
    &&& w.p2 <= u32::MAX
    &&& w.centroid.x as int == positions[w.p0 as int].x + positions[w.p1 as int].x
        + positions[w.p2 as int].x
    &&& w.centroid.y as int == positions[w.p0 as int].y + positions[w.p1 as int].y
        + positions[w.p2 as int].y
    &&& w.centroid.z as int == positions[w.p0 as int].z + positions[w.p1 as int].z
        + positions[w.p2 as int].z
}

/// Vertex `k` (0, 1 or 2) of working triangle `j`.
pub open spec fn vert(tris: Seq<BVHTriangle>, positions: Seq<Vec3>, j: int, k: int) -> Vec3 {
    let t = tris[j];
    if k == 0 {
        positions[t.p0 as int]
    } else if k == 1 {
        positions[t.p1 as int]
    } else {
        positions[t.p2 as int]
    }
}

/// `bb` covers every vertex of the working triangles in `[first, first + count)`.
pub open spec fn bounds_contain_range(
    tris: Seq<BVHTriangle>,
    positions: Seq<Vec3>,
    first: int,
    count: int,
    bb: AABB,
) -> bool {
    forall|j: int, k: int|
        first <= j < first + count && 0 <= k < 3 ==> bb.contains_point(
            #[trigger] vert(tris, positions, j, k),
        )
}

/// Each face of `bb` touches a vertex of the range: the box is tight.
pub open spec fn bounds_attained(
    tris: Seq<BVHTriangle>,
    positions: Seq<Vec3>,
    first: int,
    count: int,
    bb: AABB,
) -> bool {
    &&& exists|j: int, k: int|
        first <= j < first + count && 0 <= k < 3 && bb.min.x == (
        #[trigger] vert(tris, positions, j, k)).x
    &&& exists|j: int, k: int|
        first <= j < first + count && 0 <= k < 3 && bb.min.y == (
        #[trigger] vert(tris, positions, j, k)).y
    &&& exists|j: int, k: int|
        first <= j < first + count && 0 <= k < 3 && bb.min.z == (
        #[trigger] vert(tris, positions, j, k)).z
    &&& exists|j: int, k: int|
        first <= j < first + count && 0 <= k < 3 && bb.max.x == (
        #[trigger] vert(tris, positions, j, k)).x
    &&& exists|j: int, k: int|
        first <= j < first + count && 0 <= k < 3 && bb.max.y == (
        #[trigger] vert(tris, positions, j, k)).y
    &&& exists|j: int, k: int|
        first <= j < first + count && 0 <= k < 3 && bb.max.z == (
        #[trigger] vert(tris, positions, j, k)).z
}

/// All centroid keys in `[first, first + count)` coincide.
pub open spec fn all_centroids_equal(tris: Seq<BVHTriangle>, first: int, count: int) -> bool {
    forall|j: int|
        first <= j < first + count ==> #[trigger] tris[j].centroid == tris[first].centroid
}

/// Smallest centroid key of `[first, first + count)` on `axis`.
pub open spec fn cmin(tris: Seq<BVHTriangle>, first: int, count: int, axis: int) -> int
    decreases count,
{
    if count <= 1 {
        tris[first].centroid.spec_axis(axis)
    } else {
        let prev = cmin(tris, first, count - 1, axis);
        let last = tris[first + count - 1].centroid.spec_axis(axis);
        if last < prev {
            last
        } else {
            prev
        }
    }
}

/// Largest centroid key of `[first, first + count)` on `axis`.
pub open spec fn cmax(tris: Seq<BVHTriangle>, first: int, count: int, axis: int) -> int
    decreases count,
{
    if count <= 1 {
        tris[first].centroid.spec_axis(axis)
    } else {
        let prev = cmax(tris, first, count - 1, axis);
        let last = tris[first + count - 1].centroid.spec_axis(axis);
        if last > prev {
            last
        } else {
            prev
        }
    }
}

/// The bin a centroid key falls into when `[mn, mx]` is cut into
/// `BIN_COUNT` equal-width bins, the last bin absorbing the top edge.
pub open spec fn spec_bin(key: int, mn: int, mx: int) -> int {
    let b = (key - mn) * (BIN_COUNT as int) / (mx - mn);
    if b > BIN_COUNT - 1 {
        (BIN_COUNT - 1) as int
    } else {
        b
    }
}

/// Number of range members falling into bin `b`.
pub open spec fn spec_bin_count(
    tris: Seq<BVHTriangle>,
    first: int,
    count: int,
    axis: int,
    mn: int,
    mx: int,
    b: int,
) -> int
    decreases count,
{
    if count <= 0 {
        0
    } else {
        spec_bin_count(tris, first, count - 1, axis, mn, mx, b) + if spec_bin(
            tris[first + count - 1].centroid.spec_axis(axis),
            mn,
            mx,
        ) == b {
            1int
        } else {
            0int
        }
    }
}

/// One point absorbed into an accumulator extent.
pub open spec fn box_expand(o: Option<AABB>, p: Vec3) -> Option<AABB> {
    match o {
        Option::None => Some(AABB { min: p, max: p }),
        Option::Some(bb) => Some(
            AABB {
                min: Vec3 {
                    x: if p.x < bb.min.x { p.x } else { bb.min.x },
                    y: if p.y < bb.min.y { p.y } else { bb.min.y },
                    z: if p.z < bb.min.z { p.z } else { bb.min.z },
                },
                max: Vec3 {
                    x: if p.x > bb.max.x { p.x } else { bb.max.x },
                    y: if p.y > bb.max.y { p.y } else { bb.max.y },
                    z: if p.z > bb.max.z { p.z } else { bb.max.z },
                },
            },
        ),
    }
}

/// A second accumulator extent absorbed into the first, corner by corner.
pub open spec fn box_merge(a: Option<AABB>, o: Option<AABB>) -> Option<AABB> {
    match o {
        Option::None => a,
        Option::Some(ob) => box_expand(box_expand(a, ob.min), ob.max),
    }
}

/// The accumulator's fold over the full geometry of a range: each
/// member's three vertices absorbed in order.
pub open spec fn range_box(
    tris: Seq<BVHTriangle>,
    positions: Seq<Vec3>,
    first: int,
    count: int,
) -> Option<AABB>
    decreases count,
{
    if count <= 0 {
        Option::<AABB>::None
    } else {
        let prev = range_box(tris, positions, first, count - 1);
        let j = first + count - 1;
        box_expand(
            box_expand(box_expand(prev, vert(tris, positions, j, 0)), vert(tris, positions, j, 1)),
            vert(tris, positions, j, 2),
        )
    }
}

/// The box an accumulator builds: its extent, or the zero box if it
/// absorbed nothing.
pub open spec fn built_box(o: Option<AABB>) -> AABB {
    match o {
        Option::None => AABB { min: Vec3 { x: 0, y: 0, z: 0 }, max: Vec3 { x: 0, y: 0, z: 0 } },
        Option::Some(bb) => bb,
    }
}

/// The extent bin `b` has absorbed after binning the range: the full
/// geometry of each member, vertices in order.
pub open spec fn spec_bin_box(
    tris: Seq<BVHTriangle>,
    positions: Seq<Vec3>,
    first: int,
    count: int,
    axis: int,
    mn: int,
    mx: int,
    b: int,
) -> Option<AABB>
    decreases count,
{
    if count <= 0 {
        Option::<AABB>::None
    } else {
        let prev = spec_bin_box(tris, positions, first, count - 1, axis, mn, mx, b);
        let j = first + count - 1;
        if spec_bin(tris[j].centroid.spec_axis(axis), mn, mx) == b {
            box_expand(
                box_expand(box_expand(prev, vert(tris, positions, j, 0)), vert(tris, positions, j, 1)),
                vert(tris, positions, j, 2),
            )
        } else {
            prev
        }
    }
}

/// Merged extent of bins `0..=k` (the left sweep's accumulator).
pub open spec fn spec_left_box(
    tris: Seq<BVHTriangle>,
    positions: Seq<Vec3>,
    first: int,
    count: int,
    axis: int,
    mn: int,
    mx: int,
    k: int,
) -> Option<AABB>
    decreases k + 1,
{
    if k < 0 {
        Option::<AABB>::None
    } else {
        box_merge(
            spec_left_box(tris, positions, first, count, axis, mn, mx, k - 1),
            spec_bin_box(tris, positions, first, count, axis, mn, mx, k),
        )
    }
}

/// Member count of bins `0..=k`.
pub open spec fn spec_left_cnt(
    tris: Seq<BVHTriangle>,
    first: int,
    count: int,
    axis: int,
    mn: int,
    mx: int,
    k: int,
) -> int
    decreases k + 1,
{
    if k < 0 {
        0
    } else {
        spec_left_cnt(tris, first, count, axis, mn, mx, k - 1) + spec_bin_count(
            tris,
            first,
            count,
            axis,
            mn,
            mx,
            k,
        )
    }
}

/// Merged extent of bins `k..BIN_COUNT`, absorbed from the top down (the
/// right sweep's accumulator).
pub open spec fn spec_right_box(
    tris: Seq<BVHTriangle>,
    positions: Seq<Vec3>,
    first: int,
    count: int,
    axis: int,
    mn: int,
    mx: int,
    k: int,
) -> Option<AABB>
    decreases BIN_COUNT - k,
{
    if k > BIN_COUNT - 1 {
        Option::<AABB>::None
    } else {
        box_merge(
            spec_right_box(tris, positions, first, count, axis, mn, mx, k + 1),
            spec_bin_box(tris, positions, first, count, axis, mn, mx, k),
        )
    }
}

/// Member count of bins `k..BIN_COUNT`.
pub open spec fn spec_right_cnt(
    tris: Seq<BVHTriangle>,
    first: int,
    count: int,
    axis: int,
    mn: int,
    mx: int,
    k: int,
) -> int
    decreases BIN_COUNT - k,
{
    if k > BIN_COUNT - 1 {
        0
    } else {
        spec_right_cnt(tris, first, count, axis, mn, mx, k + 1) + spec_bin_count(
            tris,
            first,
            count,
            axis,
            mn,
            mx,
            k,
        )
    }
}

/// Area score of an accumulated extent; nothing absorbed scores zero.
pub open spec fn box_area(o: Option<AABB>) -> int {
    match o {
        Option::None => 0,
        Option::Some(bb) => bb.spec_area(),
    }
}

/// SAH cost of the boundary after bin `i` on `axis`: everything in bins
/// `0..=i` against everything above.
pub open spec fn spec_cost(
    tris: Seq<BVHTriangle>,
    positions: Seq<Vec3>,
    first: int,
    count: int,
    axis: int,
    i: int,
) -> int {
    let mn = cmin(tris, first, count, axis);
    let mx = cmax(tris, first, count, axis);
    spec_left_cnt(tris, first, count, axis, mn, mx, i) * box_area(
        spec_left_box(tris, positions, first, count, axis, mn, mx, i),
    ) + spec_right_cnt(tris, first, count, axis, mn, mx, i + 1) * box_area(
        spec_right_box(tris, positions, first, count, axis, mn, mx, i + 1),
    )
}

/// World-space split position of the boundary after bin `i` on `axis`,
/// derived from the bin width.
pub open spec fn spec_pos(tris: Seq<BVHTriangle>, first: int, count: int, axis: int, i: int) -> int {
    let mn = cmin(tris, first, count, axis);
    let mx = cmax(tris, first, count, axis);
    mn + ((mx - mn) / (BIN_COUNT as int)) * (i + 1)
}

/// Scan the interior boundaries of one axis from `i` on, keeping `cur`
/// unless a strictly cheaper candidate appears (first minimum wins).
pub open spec fn axis_scan(
    tris: Seq<BVHTriangle>,
    positions: Seq<Vec3>,
    first: int,
    count: int,
    axis: int,
    i: int,
    cur: Option<(usize, i64, u128)>,
) -> Option<(usize, i64, u128)>
    decreases BIN_COUNT - i,
{
    if i >= BIN_COUNT - 1 {
        cur
    } else {
        let c = spec_cost(tris, positions, first, count, axis, i);
        let take = match cur {
            Option::None => true,
            Option::Some(t) => c < t.2 as int,
        };
        let nxt = if take {
            Some(
                (
                    axis as usize,
                    spec_pos(tris, first, count, axis, i) as i64,
                    c as u128,
                ),
            )
        } else {
            cur
        };
        axis_scan(tris, positions, first, count, axis, i + 1, nxt)
    }
}

/// Fold the split search over axes `axis..3`, skipping axes whose
/// centroid extent is degenerate.
pub open spec fn best_from_axis(
    tris: Seq<BVHTriangle>,
    positions: Seq<Vec3>,
    first: int,
    count: int,
    axis: int,
    cur: Option<(usize, i64, u128)>,
) -> Option<(usize, i64, u128)>
    decreases 3 - axis,
{
    if axis >= 3 {
        cur
    } else {
        let mn = cmin(tris, first, count, axis);
        let mx = cmax(tris, first, count, axis);
        let nxt = if mn == mx {
            cur
        } else {
            axis_scan(tris, positions, first, count, axis, 0, cur)
        };
        best_from_axis(tris, positions, first, count, axis + 1, nxt)
    }
}

/// The split the binned evaluation chooses over `[first, first + count)`:
/// the lowest-cost boundary across all non-degenerate axes, ties resolved
/// to the first minimum in scan order.
pub open spec fn spec_best_split(
    tris: Seq<BVHTriangle>,
    positions: Seq<Vec3>,
    first: int,
    count: int,
) -> Option<(usize, i64, u128)> {
    best_from_axis(tris, positions, first, count, 0, Option::<(usize, i64, u128)>::None)
}

/// The two-pointer partition's exact result on `[lo, hi)`: the left
/// cursor advances over keys below the plane, anything else swaps to the
/// shrinking right end.
pub open spec fn spec_partition(
    s: Seq<BVHTriangle>,
    lo: int,
    hi: int,
    axis: int,
    position: int,
) -> Seq<BVHTriangle>
    decreases hi - lo,
{
    if lo >= hi || !(0 <= lo && hi <= s.len()) {
        s
    } else if s[lo].centroid.spec_axis(axis) < position {
        spec_partition(s, lo + 1, hi, axis, position)
    } else {
        spec_partition(
            s.update(lo, s[hi - 1]).update(hi - 1, s[lo]),
            lo,
            hi - 1,
            axis,
            position,
        )
    }
}

/// Number of range members whose centroid key on `axis` lies strictly
/// below `position`.
pub open spec fn count_below(
    tris: Seq<BVHTriangle>,
    first: int,
    count: int,
    axis: int,
    position: int,
) -> int
    decreases count,
{
    if count <= 0 {
        0
    } else {
        count_below(tris, first, count - 1, axis, position) + if tris[first + count
            - 1].centroid.spec_axis(axis) < position {
            1int
        } else {
            0int
        }
    }
}

/// Updating an element outside the range leaves `count_below` unchanged.
proof fn lemma_count_below_frame(
    tris: Seq<BVHTriangle>,
    first: int,
    count: int,
    axis: int,
    position: int,
    i: int,
    v: BVHTriangle,
)
    requires
        0 <= i < tris.len(),
        0 <= first,
        first + count <= tris.len(),
        i < first || first + count <= i,
    ensures
        count_below(tris.update(i, v), first, count, axis, position) == count_below(
            tris,
            first,
            count,
            axis,
            position,
        ),
    decreases count,
{
    if count > 0 {
        lemma_count_below_frame(tris, first, count - 1, axis, position, i, v);
    }
}

/// Updating an element inside the range adjusts `count_below` by the two
/// elements' sides of the plane.
proof fn lemma_count_below_update(
    tris: Seq<BVHTriangle>,
    first: int,
    count: int,
    axis: int,
    position: int,
    i: int,
    v: BVHTriangle,
)
    requires
        0 <= first <= i < first + count <= tris.len(),
    ensures
        count_below(tris.update(i, v), first, count, axis, position) == count_below(
            tris,
            first,
            count,
            axis,
            position,
        ) - (if tris[i].centroid.spec_axis(axis) < position {
            1int
        } else {
            0int
        }) + (if v.centroid.spec_axis(axis) < position {
            1int
        } else {
            0int
        }),
    decreases count,
{
    if i == first + count - 1 {
        lemma_count_below_frame(tris, first, count - 1, axis, position, i, v);
    } else {
        lemma_count_below_update(tris, first, count - 1, axis, position, i, v);
    }
}

/// A range whose left part lies strictly below the plane and whose right
/// part does not has exactly the left part below.
proof fn lemma_count_below_split(
    tris: Seq<BVHTriangle>,
    first: int,
    count: int,
    axis: int,
    position: int,
    m: int,
)
    requires
        0 <= first <= m <= first + count <= tris.len(),
        forall|j: int|
            first <= j < m ==> (#[trigger] tris[j]).centroid.spec_axis(axis) < position,
        forall|j: int|
            m <= j < first + count ==> (#[trigger] tris[j]).centroid.spec_axis(axis) >= position,
    ensures
        count_below(tris, first, count, axis, position) == m - first,
    decreases count,
{
    if count > 0 {
        if m < first + count {
            lemma_count_below_split(tris, first, count - 1, axis, position, m);
        } else {
            lemma_count_below_split(tris, first, count - 1, axis, position, first + count - 1);
        }
    }
}

/// `count_below` counts a subset of the range.
pub proof fn lemma_count_below_bounds(
    tris: Seq<BVHTriangle>,
    first: int,
    count: int,
    axis: int,
    position: int,
)
    requires
        count >= 0,
    ensures
        0 <= count_below(tris, first, count, axis, position) <= count,
    decreases count,
{
    if count > 0 {
        lemma_count_below_bounds(tris, first, count - 1, axis, position);
    }
}

/// The sentinel node's value.
pub open spec fn dummy_node() -> BVHNode {
    BVHNode {
        bounds: AABB { min: Vec3 { x: 0, y: 0, z: 0 }, max: Vec3 { x: 0, y: 0, z: 0 } },
        is_leaf: 1u32,
        a: 0u32,
        b: 0u32,
    }
}

/// The split recursion as a function: what one split call leaves of the
/// working triangles and the node array, given that node `idx` is a leaf
/// over `[lo, lo + c)`.  Mirrors the decision rule exactly: terminal on a
/// single triangle, no viable split, no strict cost improvement, or a
/// degenerate partition; otherwise the node turns interior, two leaves
/// take the two sides, and both are split in turn.
pub open spec fn spec_split(
    tris: Seq<BVHTriangle>,
    positions: Seq<Vec3>,
    nodes: Seq<BVHNode>,
    idx: int,
    lo: int,
    c: int,
) -> (Seq<BVHTriangle>, Seq<BVHNode>)
    decreases c,
    via spec_split_decreases
{
    if c <= 1 {
        (tris, nodes)
    } else {
        match spec_best_split(tris, positions, lo, c) {
            Option::None => (tris, nodes),
            Option::Some(t) => {
                if c * nodes[idx].bounds.spec_area() <= t.2 as int {
                    (tris, nodes)
                } else {
                    let tris2 = spec_partition(tris, lo, lo + c, t.0 as int, t.1 as int);
                    let cb = count_below(tris, lo, c, t.0 as int, t.1 as int);
                    if cb == 0 || cb == c {
                        (tris2, nodes)
                    } else {
                        let l = nodes.len() as int;
                        let nodes2 = nodes.update(
                            idx,
                            BVHNode {
                                bounds: nodes[idx].bounds,
                                is_leaf: 0u32,
                                a: l as u32,
                                b: (l + 1) as u32,
                            },
                        ).push(
                            BVHNode {
                                bounds: built_box(range_box(tris2, positions, lo, cb)),
                                is_leaf: 1u32,
                                a: lo as u32,
                                b: cb as u32,
                            },
                        ).push(
                            BVHNode {
                                bounds: built_box(range_box(tris2, positions, lo + cb, c - cb)),
                                is_leaf: 1u32,
                                a: (lo + cb) as u32,
                                b: (c - cb) as u32,
                            },
                        );
                        let r1 = spec_split(tris2, positions, nodes2, l, lo, cb);
                        spec_split(r1.0, positions, r1.1, l + 1, lo + cb, c - cb)
                    }
                }
            },
        }
    }
}

#[via_fn]
proof fn spec_split_decreases(
    tris: Seq<BVHTriangle>,
    positions: Seq<Vec3>,
    nodes: Seq<BVHNode>,
    idx: int,
    lo: int,
    c: int,
) {
    if c > 1 {
        match spec_best_split(tris, positions, lo, c) {
            Option::None => {},
            Option::Some(t) => {
                lemma_count_below_bounds(tris, lo, c, t.0 as int, t.1 as int);
            },
        }
    }
}

/// The whole build as a function of the working triangles and positions:
/// a root leaf over everything, the sentinel, and the split recursion
/// from the root.
pub open spec fn spec_build(tris: Seq<BVHTriangle>, positions: Seq<Vec3>) -> (
    Seq<BVHTriangle>,
    Seq<BVHNode>,
) {
    let n = tris.len() as int;
    let root = BVHNode {
        bounds: built_box(range_box(tris, positions, 0, n)),
        is_leaf: 1u32,
        a: 0u32,
        b: n as u32,
    };
    spec_split(tris, positions, seq![root, dummy_node()], 0, 0, n)
}

/// Local shape of one node within the array.
///
/// A leaf's triangle range lies within `[0, tri_count)`.  An interior node's
/// children sit strictly after it, form an adjacent pair, and never point at
/// the root (node 0) or the sentinel (node 1).
pub open spec fn node_local_wf(nodes: Seq<BVHNode>, i: int, tri_count: int) -> bool {
    let n = nodes[i];
    &&& n.bounds.wf()
    &&& if n.leaf() {
        n.a + n.b <= tri_count
    } else {
        &&& i < n.a
        &&& n.b == n.a + 1
        &&& n.a + 1 < nodes.len()
        &&& 2 <= n.a
    }
}

/// Global shape of the node array: every node is locally well formed and no
/// two interior nodes share a child (child pairs are pairwise disjoint).
pub open spec fn nodes_wf(nodes: Seq<BVHNode>, tri_count: int) -> bool {
    &&& forall|i: int| 0 <= i < nodes.len() ==> node_local_wf(nodes, i, tri_count)
    &&& forall|i: int, j: int|
        0 <= i < nodes.len() && 0 <= j < nodes.len() && i != j && !(#[trigger] nodes[i]).leaf()
            && !(#[trigger] nodes[j]).leaf() ==> (nodes[i].a + 1 < nodes[j].a || nodes[j].a + 1
            < nodes[i].a)
}

/// The end of the triangle range the subtree rooted at `i` covers when it
/// starts at `lo`: a leaf contributes its stored count, an interior node
/// chains its two children.
pub open spec fn span(nodes: Seq<BVHNode>, i: int, lo: int) -> int
    decreases nodes.len() - i,
{
    if 0 <= i < nodes.len() {
        let n = nodes[i];
        if n.leaf() {
            lo + n.b
        } else if i < n.a && n.a + 1 < nodes.len() {
            span(nodes, n.a + 1, span(nodes, n.a as int, lo))
        } else {
            lo
        }
    } else {
        lo
    }
}

/// The subtree rooted at node `i` covers exactly the triangle range
/// `[lo, hi)`: a leaf stores that range directly; an interior node's bounds
/// contain both children's bounds and its children split the range at the
/// boundary where the first child's coverage ends.  This is the per-subtree
/// well-formedness the builder maintains.
pub open spec fn wf_subtree(nodes: Seq<BVHNode>, i: int, lo: int, hi: int) -> bool
    decreases nodes.len() - i,
{
    if 0 <= i < nodes.len() && 0 <= lo <= hi {
        let n = nodes[i];
        if n.leaf() {
            n.a == lo && n.b == hi - lo
        } else {
            let a = n.a as int;
            let mid = span(nodes, a, lo);
            &&& i < a
            &&& a + 1 < nodes.len()
            &&& n.b == a + 1
            &&& n.bounds.contains_box(nodes[a].bounds)
            &&& n.bounds.contains_box(nodes[a + 1].bounds)
            &&& lo <= mid <= hi
            &&& wf_subtree(nodes, a, lo, mid)
            &&& wf_subtree(nodes, a + 1, mid, hi)
        }
    } else {
        false
    }
}

/// In a well-formed subtree the coverage end agrees with the stated range.
pub proof fn lemma_wf_span(nodes: Seq<BVHNode>, i: int, lo: int, hi: int)
    requires
        wf_subtree(nodes, i, lo, hi),
    ensures
        span(nodes, i, lo) == hi,
    decreases nodes.len() - i,
{
    let n = nodes[i];
    if !n.leaf() {
        let a = n.a as int;
        let mid = span(nodes, a, lo);
        lemma_wf_span(nodes, a, lo, mid);
        lemma_wf_span(nodes, a + 1, mid, hi);
    }
}

/// The set of node indices reachable from node `i`.
pub open spec fn subtree(nodes: Seq<BVHNode>, i: int) -> Set<int>
    decreases nodes.len() - i,
{
    if 0 <= i < nodes.len() {
        let n = nodes[i];
        if !n.leaf() && i < n.a && n.a + 1 < nodes.len() {
            subtree(nodes, n.a as int).union(subtree(nodes, n.a + 1)).insert(i)
        } else {
            Set::empty().insert(i)
        }
    } else {
        Set::empty()
    }
}

/// Every member of a well-formed subtree lies between its root and the end
/// of the array.
pub proof fn lemma_subtree_members(nodes: Seq<BVHNode>, i: int, lo: int, hi: int)
    requires
        wf_subtree(nodes, i, lo, hi),
    ensures
        forall|j: int| subtree(nodes, i).contains(j) ==> i <= j < nodes.len(),
        subtree(nodes, i).contains(i),
    decreases nodes.len() - i,
{
    let n = nodes[i];
    if !n.leaf() {
        let a = n.a as int;
        let mid = span(nodes, a, lo);
        lemma_subtree_members(nodes, a, lo, mid);
        lemma_subtree_members(nodes, a + 1, mid, hi);
    }
}

/// A well-formed subtree only depends on the nodes it contains: if another
/// array agrees on those indices, the subtree is unchanged.
pub proof fn lemma_subtree_frame(n1: Seq<BVHNode>, n2: Seq<BVHNode>, i: int, lo: int, hi: int)
    requires
        wf_subtree(n1, i, lo, hi),
        n1.len() <= n2.len(),
        forall|j: int| subtree(n1, i).contains(j) ==> n2[j] == n1[j],
    ensures
        wf_subtree(n2, i, lo, hi),
        subtree(n2, i) == subtree(n1, i),
    decreases n1.len() - i,
{
    lemma_subtree_members(n1, i, lo, hi);
    let n = n1[i];
    assert(subtree(n1, i).contains(i));
    assert(n2[i] == n1[i]);
    if n.leaf() {
        assert(subtree(n2, i) =~= subtree(n1, i));
    } else {
        let a = n.a as int;
        let mid = span(n1, a, lo);
        assert forall|j: int| subtree(n1, a).contains(j) implies n2[j] == n1[j] by {
            assert(subtree(n1, i).contains(j));
        }
        assert forall|j: int| subtree(n1, a + 1).contains(j) implies n2[j] == n1[j] by {
            assert(subtree(n1, i).contains(j));
        }
        lemma_subtree_frame(n1, n2, a, lo, mid);
        lemma_subtree_frame(n1, n2, a + 1, mid, hi);
        assert(subtree(n1, a).contains(a));
        assert(subtree(n1, a + 1).contains(a + 1));
        assert(n2[a] == n1[a] && n2[a + 1] == n1[a + 1]);
        assert(wf_subtree(n2, a, lo, mid) && wf_subtree(n2, a + 1, mid, hi));
        lemma_wf_span(n2, a, lo, mid);
        assert(span(n2, a, lo) == mid);
        assert(wf_subtree(n2, i, lo, hi));
        assert(subtree(n2, i) =~= subtree(n1, i));
    }
}

/// Shape of a finished tree: a globally well-formed node array whose root
/// (node 0) covers exactly `[0, tri_count)`, with the sentinel at node 1.
pub open spec fn bvh_wf(nodes: Seq<BVHNode>, tri_count: int) -> bool {
    &&& nodes_wf(nodes, tri_count)
    &&& nodes.len() >= 2
    &&& wf_subtree(nodes, 0, 0, tri_count)
}

/// Multiset equality of working records carries over to the triangles they
/// stand for.
pub proof fn lemma_tris_of_multiset(s1: Seq<BVHTriangle>, s2: Seq<BVHTriangle>)
    requires
        s1.to_multiset() == s2.to_multiset(),
    ensures
        tris_of(s1).to_multiset() == tris_of(s2).to_multiset(),
    decreases s1.len(),
{
    broadcast use vstd::seq_lib::group_to_multiset_ensures;
    broadcast use vstd::multiset::group_multiset_axioms;

    if s1.len() == 0 {
        assert(s1.to_multiset().len() == 0);
        assert(s2.len() == 0);
        assert(tris_of(s1) =~= tris_of(s2));
    } else {
        let x = s1[0];
        assert(s1.contains(x));
        assert(s2.to_multiset().count(x) > 0);
        assert(s2.contains(x));
        let i = choose|i: int| 0 <= i < s2.len() && s2[i] == x;
        let s1r = s1.remove(0);
        let s2r = s2.remove(i);
        assert(s1r.to_multiset() =~= s1.to_multiset().remove(x));
        assert(s2r.to_multiset() =~= s2.to_multiset().remove(x));
        lemma_tris_of_multiset(s1r, s2r);
        assert(tris_of(s1r) =~= tris_of(s1).remove(0));
        assert(tris_of(s2r) =~= tris_of(s2).remove(i));
        assert(tris_of(s1).remove(0).to_multiset() =~= tris_of(s1).to_multiset().remove(
            tri_of(x),
        ));
        assert(tris_of(s2).remove(i).to_multiset() =~= tris_of(s2).to_multiset().remove(
            tri_of(x),
        ));
        let a = tris_of(s1).to_multiset();
        let b = tris_of(s2).to_multiset();
        let y = tri_of(x);
        assert(tris_of(s1)[0] == y);
        assert(tris_of(s2)[i] == y);
        assert(tris_of(s1).contains(y));
        assert(tris_of(s2).contains(y));
        assert(a.count(y) > 0);
        assert(b.count(y) > 0);
        assert(a.remove(y) == b.remove(y));
        assert forall|e: Triangle| true implies a.count(e) == b.count(e) by {
            if e == y {
                assert(a.remove(y).count(y) == a.count(y) - 1);
                assert(b.remove(y).count(y) == b.count(y) - 1);
            } else {
                assert(a.remove(y).count(e) == a.count(e));
                assert(b.remove(y).count(e) == b.count(e));
            }
        }
        assert(a =~= b);
    }
}

/// LAW (partition completeness, coverage): every triangle index within the
/// range of a well-formed subtree is covered by one of its leaves.
pub proof fn lemma_leaf_cover(nodes: Seq<BVHNode>, i: int, lo: int, hi: int, t: int)
    requires
        wf_subtree(nodes, i, lo, hi),
        lo <= t < hi,
    ensures
        exists|ld: int|
            (#[trigger] subtree(nodes, i).contains(ld)) && nodes[ld].leaf() && node_lo(nodes, ld)
                <= t < node_hi(nodes, ld),
    decreases nodes.len() - i,
{
    let n = nodes[i];
    if n.leaf() {
        assert(subtree(nodes, i).contains(i));
        assert(nodes[i].leaf() && node_lo(nodes, i) <= t < node_hi(nodes, i));
    } else {
        let a = n.a as int;
        let mid = span(nodes, a, lo);
        if t < mid {
            lemma_leaf_cover(nodes, a, lo, mid, t);
            let ld = choose|ld: int|
                (#[trigger] subtree(nodes, a).contains(ld)) && nodes[ld].leaf() && node_lo(
                    nodes,
                    ld,
                ) <= t < node_hi(nodes, ld);
            assert(subtree(nodes, i).contains(ld));
        } else {
            lemma_leaf_cover(nodes, a + 1, mid, hi, t);
            let ld = choose|ld: int|
                (#[trigger] subtree(nodes, a + 1).contains(ld)) && nodes[ld].leaf() && node_lo(
                    nodes,
                    ld,
                ) <= t < node_hi(nodes, ld);
            assert(subtree(nodes, i).contains(ld));
        }
    }
}

/// Every leaf of a well-formed subtree covers a range nested inside the
/// subtree's own range.
pub proof fn lemma_leaf_in_range(nodes: Seq<BVHNode>, i: int, lo: int, hi: int, ld: int)
    requires
        wf_subtree(nodes, i, lo, hi),
        subtree(nodes, i).contains(ld),
        nodes[ld].leaf(),
    ensures
        lo <= node_lo(nodes, ld),
        node_hi(nodes, ld) <= hi,
    decreases nodes.len() - i,
{
    let n = nodes[i];
    if n.leaf() {
        assert(ld == i);
    } else {
        let a = n.a as int;
        let mid = span(nodes, a, lo);
        assert(ld != i);
        if subtree(nodes, a).contains(ld) {
            lemma_leaf_in_range(nodes, a, lo, mid, ld);
        } else {
            assert(subtree(nodes, a + 1).contains(ld));
            lemma_leaf_in_range(nodes, a + 1, mid, hi, ld);
        }
    }
}

/// LAW (partition completeness, disjointness): two distinct leaves of a
/// well-formed subtree cover disjoint triangle ranges.
pub proof fn lemma_leaf_disjoint(nodes: Seq<BVHNode>, i: int, lo: int, hi: int, l1: int, l2: int)
    requires
        wf_subtree(nodes, i, lo, hi),
        subtree(nodes, i).contains(l1),
        subtree(nodes, i).contains(l2),
        nodes[l1].leaf(),
        nodes[l2].leaf(),
        l1 != l2,
    ensures
        node_hi(nodes, l1) <= node_lo(nodes, l2) || node_hi(nodes, l2) <= node_lo(nodes, l1),
    decreases nodes.len() - i,
{
    let n = nodes[i];
    if n.leaf() {
        assert(l1 == i && l2 == i);
    } else {
        let a = n.a as int;
        let mid = span(nodes, a, lo);
        assert(l1 != i && l2 != i);
        if subtree(nodes, a).contains(l1) && subtree(nodes, a).contains(l2) {
            lemma_leaf_disjoint(nodes, a, lo, mid, l1, l2);
        } else if subtree(nodes, a + 1).contains(l1) && subtree(nodes, a + 1).contains(l2) {
            lemma_leaf_disjoint(nodes, a + 1, mid, hi, l1, l2);
        } else if subtree(nodes, a).contains(l1) {
            assert(subtree(nodes, a + 1).contains(l2));
            lemma_leaf_in_range(nodes, a, lo, mid, l1);
            lemma_leaf_in_range(nodes, a + 1, mid, hi, l2);
        } else {
            assert(subtree(nodes, a + 1).contains(l1));
            assert(subtree(nodes, a).contains(l2));
            lemma_leaf_in_range(nodes, a + 1, mid, hi, l1);
            lemma_leaf_in_range(nodes, a, lo, mid, l2);
        }
    }
}

/// LAW (bounding conservativeness): every interior node of a well-formed
/// subtree stores bounds that contain both children's bounds.
pub proof fn lemma_parent_contains_children(
    nodes: Seq<BVHNode>,
    i: int,
    lo: int,
    hi: int,
    p: int,
)
    requires
        wf_subtree(nodes, i, lo, hi),
        subtree(nodes, i).contains(p),
        !nodes[p].leaf(),
    ensures
        nodes[p].bounds.contains_box(nodes[nodes[p].a as int].bounds),
        nodes[p].bounds.contains_box(nodes[nodes[p].a + 1].bounds),
        nodes[p].b == nodes[p].a + 1,
    decreases nodes.len() - i,
{
    let n = nodes[i];
    if n.leaf() {
        assert(p == i);
    } else {
        let a = n.a as int;
        let mid = span(nodes, a, lo);
        if p == i {
        } else if subtree(nodes, a).contains(p) {
            lemma_parent_contains_children(nodes, a, lo, mid, p);
        } else {
            assert(subtree(nodes, a + 1).contains(p));
            lemma_parent_contains_children(nodes, a + 1, mid, hi, p);
        }
    }
}

/// LAW (index monotonicity): in a well-formed array every interior node's
/// children sit strictly after it, form an adjacent pair, and never point
/// at the root or the sentinel.
pub proof fn lemma_child_index_monotone(nodes: Seq<BVHNode>, tri_count: int, i: int)
    requires
        nodes_wf(nodes, tri_count),
        0 <= i < nodes.len(),
        !nodes[i].leaf(),
    ensures
        i < nodes[i].a,
        nodes[i].b == nodes[i].a + 1,
        nodes[i].a + 1 < nodes.len(),
        2 <= nodes[i].a,
{
    assert(node_local_wf(nodes, i, tri_count));
}

/// LAW (unique parenthood): in a well-formed array no node is referenced as
/// a child by two different interior nodes.
pub proof fn lemma_unique_parent(nodes: Seq<BVHNode>, tri_count: int, i: int, j: int)
    requires
        nodes_wf(nodes, tri_count),
        0 <= i < nodes.len(),
        0 <= j < nodes.len(),
        i != j,
        !nodes[i].leaf(),
        !nodes[j].leaf(),
    ensures
        nodes[i].a != nodes[j].a,
        nodes[i].a != nodes[j].b,
        nodes[i].b != nodes[j].a,
        nodes[i].b != nodes[j].b,
{
    assert(node_local_wf(nodes, i, tri_count));
    assert(node_local_wf(nodes, j, tri_count));
}

/// Start of the triangle range a leaf covers.
pub open spec fn node_lo(nodes: Seq<BVHNode>, i: int) -> int {
    nodes[i].a as int
}

/// End of the triangle range a leaf covers.
pub open spec fn node_hi(nodes: Seq<BVHNode>, i: int) -> int {
    nodes[i].a + nodes[i].b
}

/// Two range members whose centroid keys differ on some axis witness that
/// the range's centroids do not all coincide.
pub proof fn lemma_not_all_equal(
    tris: Seq<BVHTriangle>,
    first: int,
    count: int,
    axis: int,
    j: int,
    k: int,
)
    requires
        first <= j < first + count,
        first <= k < first + count,
        tris[j].centroid.spec_axis(axis) != tris[k].centroid.spec_axis(axis),
    ensures
        !all_centroids_equal(tris, first, count),
{
    if all_centroids_equal(tris, first, count) {
        assert(tris[j].centroid == tris[first].centroid);
        assert(tris[k].centroid == tris[first].centroid);
    }
}

/// Joining two adjacent ranges that are each preserved as multisets yields
/// a range preserved as a multiset.
pub proof fn lemma_range_multiset_join<T>(s1: Seq<T>, s2: Seq<T>, lo: int, mid: int, hi: int)
    requires
        s1.len() == s2.len(),
        0 <= lo <= mid <= hi <= s1.len(),
        s1.subrange(lo, mid).to_multiset() == s2.subrange(lo, mid).to_multiset(),
        s1.subrange(mid, hi).to_multiset() == s2.subrange(mid, hi).to_multiset(),
    ensures
        s1.subrange(lo, hi).to_multiset() == s2.subrange(lo, hi).to_multiset(),
{
    assert(s1.subrange(lo, hi) =~= s1.subrange(lo, mid) + s1.subrange(mid, hi));
    assert(s2.subrange(lo, hi) =~= s2.subrange(lo, mid) + s2.subrange(mid, hi));
    lemma_multiset_commutative(s1.subrange(lo, mid), s1.subrange(mid, hi));
    lemma_multiset_commutative(s2.subrange(lo, mid), s2.subrange(mid, hi));
}

/// A range on which two arrays agree pointwise is preserved as a multiset.
pub proof fn lemma_range_multiset_pointwise<T>(s1: Seq<T>, s2: Seq<T>, lo: int, hi: int)
    requires
        s1.len() == s2.len(),
        0 <= lo <= hi <= s1.len(),
        forall|j: int| lo <= j < hi ==> s1[j] == s2[j],
    ensures
        s1.subrange(lo, hi).to_multiset() == s2.subrange(lo, hi).to_multiset(),
{
    assert(s1.subrange(lo, hi) =~= s2.subrange(lo, hi));
}

/// A vertex of the reordered range is covered by any box that covered every
/// vertex of the range before the reorder.
pub proof fn lemma_point_covered(
    tris_new: Seq<BVHTriangle>,
    tris_old: Seq<BVHTriangle>,
    positions: Seq<Vec3>,
    lo: int,
    hi: int,
    j: int,
    k: int,
    parent_bb: AABB,
)
    requires
        tris_new.len() == tris_old.len(),
        0 <= lo <= j < hi <= tris_new.len(),
        0 <= k < 3,
        tris_new.subrange(lo, hi).to_multiset() == tris_old.subrange(lo, hi).to_multiset(),
        bounds_contain_range(tris_old, positions, lo, hi - lo, parent_bb),
    ensures
        parent_bb.contains_point(vert(tris_new, positions, j, k)),
{
    broadcast use vstd::seq_lib::group_to_multiset_ensures;

    let sn = tris_new.subrange(lo, hi);
    let so = tris_old.subrange(lo, hi);
    assert(sn[j - lo] == tris_new[j]);
    assert(sn.contains(tris_new[j]));
    assert(so.to_multiset().count(tris_new[j]) > 0);
    assert(so.contains(tris_new[j]));
    let jj = choose|jj: int| 0 <= jj < so.len() && so[jj] == tris_new[j];
    assert(tris_old[lo + jj] == tris_new[j]);
    assert(parent_bb.contains_point(vert(tris_old, positions, lo + jj, k)));
    assert(vert(tris_old, positions, lo + jj, k) == vert(tris_new, positions, j, k));
}

/// Bounding conservativeness: a box that is tight over a sub-range of the
/// reordered triangles lies inside any box that covered the whole range
/// before the reorder.
pub proof fn lemma_child_in_parent(
    tris_new: Seq<BVHTriangle>,
    tris_old: Seq<BVHTriangle>,
    positions: Seq<Vec3>,
    lo: int,
    hi: int,
    clo: int,
    chi: int,
    parent_bb: AABB,
    child_bb: AABB,
)
    requires
        tris_new.len() == tris_old.len(),
        0 <= lo <= clo < chi <= hi <= tris_new.len(),
        tris_new.subrange(lo, hi).to_multiset() == tris_old.subrange(lo, hi).to_multiset(),
        bounds_contain_range(tris_old, positions, lo, hi - lo, parent_bb),
        bounds_attained(tris_new, positions, clo, chi - clo, child_bb),
    ensures
        parent_bb.contains_box(child_bb),
{
    let count = chi - clo;
    {
        let (j, k): (int, int) = choose|j: int, k: int|
            clo <= j < clo + count && 0 <= k < 3 && child_bb.min.x == (
            #[trigger] vert(tris_new, positions, j, k)).x;
        lemma_point_covered(tris_new, tris_old, positions, lo, hi, j, k, parent_bb);
    }
    {
        let (j, k): (int, int) = choose|j: int, k: int|
            clo <= j < clo + count && 0 <= k < 3 && child_bb.min.y == (
            #[trigger] vert(tris_new, positions, j, k)).y;
        lemma_point_covered(tris_new, tris_old, positions, lo, hi, j, k, parent_bb);
    }
    {
        let (j, k): (int, int) = choose|j: int, k: int|
            clo <= j < clo + count && 0 <= k < 3 && child_bb.min.z == (
            #[trigger] vert(tris_new, positions, j, k)).z;
        lemma_point_covered(tris_new, tris_old, positions, lo, hi, j, k, parent_bb);
    }
    {
        let (j, k): (int, int) = choose|j: int, k: int|
            clo <= j < clo + count && 0 <= k < 3 && child_bb.max.x == (
            #[trigger] vert(tris_new, positions, j, k)).x;
        lemma_point_covered(tris_new, tris_old, positions, lo, hi, j, k, parent_bb);
    }
    {
        let (j, k): (int, int) = choose|j: int, k: int|
            clo <= j < clo + count && 0 <= k < 3 && child_bb.max.y == (
            #[trigger] vert(tris_new, positions, j, k)).y;
        lemma_point_covered(tris_new, tris_old, positions, lo, hi, j, k, parent_bb);
    }
    {
        let (j, k): (int, int) = choose|j: int, k: int|
            clo <= j < clo + count && 0 <= k < 3 && child_bb.max.z == (
            #[trigger] vert(tris_new, positions, j, k)).z;
        lemma_point_covered(tris_new, tris_old, positions, lo, hi, j, k, parent_bb);
    }
}

impl BVHTriangle {
    /// Copy a triangle and precompute its centroid key, the sum of its three
    /// vertex positions.
    pub fn new(triangle: &Triangle, vertices: &Vec<Vec3>) -> (w: BVHTriangle)
        requires
            triangle.p0 < vertices@.len(),
            triangle.p1 < vertices@.len(),
            triangle.p2 < vertices@.len(),
            forall|i: int| 0 <= i < vertices@.len() ==> point_in_range(#[trigger] vertices@[i]),
        ensures
            wtri_wf(w, vertices@),
            tri_of(w) == *triangle,
            w == work_rec(*triangle, vertices@),
    {
        let v0 = vertices[triangle.p0 as usize];
        let v1 = vertices[triangle.p1 as usize];
        let v2 = vertices[triangle.p2 as usize];
        let centroid = Vec3::new(v0.x + v1.x + v2.x, v0.y + v1.y + v2.y, v0.z + v1.z + v2.z);
        BVHTriangle {
            p0: triangle.p0 as usize,
            p1: triangle.p1 as usize,
            p2: triangle.p2 as usize,
            mat_idx: triangle.mat_idx,
            centroid,
        }
    }

    /// Convert the working record back to a plain triangle.
    pub fn to_tri(&self) -> (t: Triangle)
        requires
            self.p0 <= u32::MAX,
            self.p1 <= u32::MAX,
            self.p2 <= u32::MAX,
        ensures
            t == tri_of(*self),
    {
        Triangle { p0: self.p0 as u32, p1: self.p1 as u32, p2: self.p2 as u32, mat_idx: self.mat_idx }
    }
}

/// The finished, immutable flat node array.
pub struct BVH {
    pub nodes: Vec<BVHNode>,
}

impl BVH {
    pub fn new(nodes: Vec<BVHNode>) -> (r: BVH)
        ensures
            r.nodes == nodes,
    {
        BVH { nodes }
    }

    pub fn data(&self) -> (r: &Vec<BVHNode>)
        ensures
            r == &self.nodes,
    {
        &self.nodes
    }
}

/// Builds a BVH over one mesh.  Owns the working triangle records, a copy of
/// the vertex positions, and the growing node array.
pub struct BVHBuilder {
    pub triangles: Vec<BVHTriangle>,
    pub positions: Vec<Vec3>,
    pub nodes: Vec<BVHNode>,
}

impl BVHBuilder {
    /// Geometry is well formed: positions in coordinate range, every working
    /// record addressing them, and the triangle count within the cap.
    pub open spec fn wf(self) -> bool {
        &&& self.positions@.len() <= u32::MAX
        &&& forall|i: int|
            0 <= i < self.positions@.len() ==> point_in_range(#[trigger] self.positions@[i])
        &&& self.triangles@.len() <= MAX_TRIANGLES
        &&& forall|j: int|
            0 <= j < self.triangles@.len() ==> wtri_wf(
                #[trigger] self.triangles@[j],
                self.positions@,
            )
    }

    /// Copy the triangles into working records, precomputing each centroid
    /// key once, and start with an empty node array.
    pub fn new(triangles: &Vec<Triangle>, positions: Vec<Vec3>) -> (b: BVHBuilder)
        requires
            positions@.len() <= u32::MAX,
            triangles@.len() <= MAX_TRIANGLES,
            forall|i: int| 0 <= i < positions@.len() ==> point_in_range(#[trigger] positions@[i]),
            forall|j: int|
                0 <= j < triangles@.len() ==> (#[trigger] triangles@[j]).p0 < positions@.len()
                    && triangles@[j].p1 < positions@.len() && triangles@[j].p2 < positions@.len(),
        ensures
            b.wf(),
            b.positions == positions,
            b.nodes@.len() == 0,
            b.triangles@.len() == triangles@.len(),
            tris_of(b.triangles@) =~= triangles@,
            b.triangles@ == work_of(triangles@, positions@),
    {
        let n = triangles.len();
        let mut work: Vec<BVHTriangle> = Vec::new();
        let mut i: usize = 0;
        while i < n
            invariant
                i <= n,
                n == triangles@.len() <= MAX_TRIANGLES,
                positions@.len() <= u32::MAX,
                forall|p: int| 0 <= p < positions@.len() ==> point_in_range(#[trigger] positions@[p]),
                forall|j: int|
                    0 <= j < triangles@.len() ==> (#[trigger] triangles@[j]).p0 < positions@.len()
                        && triangles@[j].p1 < positions@.len() && triangles@[j].p2
                        < positions@.len(),
                work@.len() == i,
                forall|j: int| 0 <= j < i ==> wtri_wf(#[trigger] work@[j], positions@),
                forall|j: int| 0 <= j < i ==> tri_of(#[trigger] work@[j]) == triangles@[j],
                forall|j: int|
                    0 <= j < i ==> #[trigger] work@[j] == work_rec(triangles@[j], positions@),
            decreases n - i,
        {
            let w = BVHTriangle::new(&triangles[i], &positions);
            work.push(w);
            i += 1;
        }
        proof {
            assert(tris_of(work@) =~= triangles@);
            assert(work@ =~= work_of(triangles@, positions@));
        }
        BVHBuilder { triangles: work, positions, nodes: Vec::new() }
    }

    /// Bounds of the full geometry of the working triangles in
    /// `[first, first + count)`.  An empty range yields the zero box.
    pub fn aabb_from_triangles(&self, first: usize, count: usize) -> (bb: AABB)
        requires
            self.wf(),
            first + count <= self.triangles@.len(),
        ensures
            bb.wf(),
            bounds_contain_range(self.triangles@, self.positions@, first as int, count as int, bb),
            count > 0 ==> bounds_attained(
                self.triangles@,
                self.positions@,
                first as int,
                count as int,
                bb,
            ),
            count == 0 ==> bb == (AABB {
                min: Vec3 { x: 0, y: 0, z: 0 },
                max: Vec3 { x: 0, y: 0, z: 0 },
            }),
            bb == built_box(
                range_box(self.triangles@, self.positions@, first as int, count as int),
            ),
    {
        let mut acc = AABBBuilder::new();
        let mut i: usize = first;
        while i < first + count
            invariant
                self.wf(),
                first <= i <= first + count <= self.triangles@.len(),
                acc.wf(),
                i == first ==> acc.aabb is None,
                i > first ==> acc.aabb is Some,
                acc.aabb == range_box(self.triangles@, self.positions@, first as int, i - first),
                acc.aabb is Some ==> bounds_contain_range(
                    self.triangles@,
                    self.positions@,
                    first as int,
                    i - first,
                    acc.aabb->0,
                ),
                acc.aabb is Some ==> bounds_attained(
                    self.triangles@,
                    self.positions@,
                    first as int,
                    i - first,
                    acc.aabb->0,
                ),
            decreases first + count - i,
        {
            let ghost pre = acc;
            let t = self.triangles[i];
            let v0 = self.positions[t.p0];
            let v1 = self.positions[t.p1];
            let v2 = self.positions[t.p2];
            let ghost g0 = acc.aabb;
            acc.expand(&v0);
            let ghost g1 = acc.aabb;
            acc.expand(&v1);
            let ghost g2 = acc.aabb;
            acc.expand(&v2);
            proof {
                assert(v0 == vert(self.triangles@, self.positions@, i as int, 0));
                assert(v1 == vert(self.triangles@, self.positions@, i as int, 1));
                assert(v2 == vert(self.triangles@, self.positions@, i as int, 2));
                assert(g1 == box_expand(g0, v0));
                assert(g2 == box_expand(g1, v1));
                assert(acc.aabb == box_expand(g2, v2));
                let cur = acc.aabb->0;
                assert forall|j: int, k: int|
                    first <= j < i + 1 && 0 <= k < 3 implies cur.contains_point(
                    #[trigger] vert(self.triangles@, self.positions@, j, k),
                ) by {
                    if j < i {
                        assert(pre.aabb->0.contains_point(vert(self.triangles@, self.positions@, j, k)));
                    }
                }
            }
            i += 1;
        }
        acc.build()
    }

    /// Bounds of the centroid keys of the working triangles in
    /// `[first, first + count)`; this box is the binning domain.
    pub fn aabb_from_centroids(&self, first: usize, count: usize) -> (bb: AABB)
        requires
            self.wf(),
            first + count <= self.triangles@.len(),
        ensures
            bb.wf(),
            forall|j: int|
                first <= j < first + count ==> bb.contains_point(
                    (#[trigger] self.triangles@[j]).centroid,
                ),
            count == 0 ==> bb == (AABB {
                min: Vec3 { x: 0, y: 0, z: 0 },
                max: Vec3 { x: 0, y: 0, z: 0 },
            }),
            count > 0 ==> exists|j: int| first <= j < first + count && bb.min.x == (#[trigger] self.triangles@[j]).centroid.x,
            count > 0 ==> exists|j: int| first <= j < first + count && bb.min.y == (#[trigger] self.triangles@[j]).centroid.y,
            count > 0 ==> exists|j: int| first <= j < first + count && bb.min.z == (#[trigger] self.triangles@[j]).centroid.z,
            count > 0 ==> exists|j: int| first <= j < first + count && bb.max.x == (#[trigger] self.triangles@[j]).centroid.x,
            count > 0 ==> exists|j: int| first <= j < first + count && bb.max.y == (#[trigger] self.triangles@[j]).centroid.y,
            count > 0 ==> exists|j: int| first <= j < first + count && bb.max.z == (#[trigger] self.triangles@[j]).centroid.z,
            count > 0 ==> bb.min.x as int == cmin(self.triangles@, first as int, count as int, 0)
                && bb.min.y as int == cmin(self.triangles@, first as int, count as int, 1)
                && bb.min.z as int == cmin(self.triangles@, first as int, count as int, 2)
                && bb.max.x as int == cmax(self.triangles@, first as int, count as int, 0)
                && bb.max.y as int == cmax(self.triangles@, first as int, count as int, 1)
                && bb.max.z as int == cmax(self.triangles@, first as int, count as int, 2),
    {
        let mut acc = AABBBuilder::new();
        let mut i: usize = first;
        while i < first + count
            invariant
                self.wf(),
                first <= i <= first + count <= self.triangles@.len(),
                acc.wf(),
                i == first ==> acc.aabb is None,
                i > first ==> acc.aabb is Some,
                acc.aabb is Some ==> forall|j: int|
                    first <= j < i ==> acc.aabb->0.contains_point(
                        (#[trigger] self.triangles@[j]).centroid,
                    ),
                acc.aabb is Some ==> exists|j: int|
                    first <= j < i && acc.aabb->0.min.x == (
                    #[trigger] self.triangles@[j]).centroid.x,
                acc.aabb is Some ==> exists|j: int|
                    first <= j < i && acc.aabb->0.min.y == (
                    #[trigger] self.triangles@[j]).centroid.y,
                acc.aabb is Some ==> exists|j: int|
                    first <= j < i && acc.aabb->0.min.z == (
                    #[trigger] self.triangles@[j]).centroid.z,
                acc.aabb is Some ==> exists|j: int|
                    first <= j < i && acc.aabb->0.max.x == (
                    #[trigger] self.triangles@[j]).centroid.x,
                acc.aabb is Some ==> exists|j: int|
                    first <= j < i && acc.aabb->0.max.y == (
                    #[trigger] self.triangles@[j]).centroid.y,
                acc.aabb is Some ==> exists|j: int|
                    first <= j < i && acc.aabb->0.max.z == (
                    #[trigger] self.triangles@[j]).centroid.z,
                i > first ==> acc.aabb->0.min.x as int == cmin(
                    self.triangles@,
                    first as int,
                    i - first,
                    0,
                ) && acc.aabb->0.min.y as int == cmin(self.triangles@, first as int, i - first, 1)
                    && acc.aabb->0.min.z as int == cmin(self.triangles@, first as int, i - first, 2)
                    && acc.aabb->0.max.x as int == cmax(self.triangles@, first as int, i - first, 0)
                    && acc.aabb->0.max.y as int == cmax(self.triangles@, first as int, i - first, 1)
                    && acc.aabb->0.max.z as int == cmax(
                    self.triangles@,
                    first as int,
                    i - first,
                    2,
                ),
            decreases first + count - i,
        {
            let t = self.triangles[i];
            acc.expand(&t.centroid);
            i += 1;
        }
        acc.build()
    }

    /// Build the tree: create the root leaf over all triangles, append the
    /// sentinel, split from the root down, and hand back the finished node
    /// array together with the triangles in their final leaf-contiguous
    /// order.
    ///
    /// The result is a well-formed tree over `[0, n)` with at most `2n`
    /// nodes (sentinel included), every node but the sentinel reachable
    /// from the root, and the returned triangles are exactly the input
    /// triangles reordered.  Both results equal `spec_build` on the input,
    /// so building twice from the same input yields identical arrays.
    pub fn build(self) -> (r: (BVH, Vec<Triangle>))
        requires
            self.wf(),
            self.nodes@.len() == 0,
        ensures
            bvh_wf(r.0.nodes@, self.triangles@.len() as int),
            r.0.nodes@[1] == (BVHNode {
                bounds: AABB {
                    min: Vec3 { x: 0, y: 0, z: 0 },
                    max: Vec3 { x: 0, y: 0, z: 0 },
                },
                is_leaf: 1u32,
                a: 0u32,
                b: 0u32,
            }),
            self.triangles@.len() == 0 ==> r.0.nodes@.len() == 2,
            self.triangles@.len() >= 1 ==> r.0.nodes@.len() <= 2 * self.triangles@.len(),
            r.1@.len() == self.triangles@.len(),
            r.1@.to_multiset() == tris_of(self.triangles@).to_multiset(),
            (self.triangles@.len() <= 1 || all_centroids_equal(
                self.triangles@,
                0,
                self.triangles@.len() as int,
            )) ==> (r.0.nodes@.len() == 2 && r.0.nodes@[0].leaf() && r.0.nodes@[0].a == 0
                && r.0.nodes@[0].b == self.triangles@.len()),
            self.triangles@.len() == 0 ==> r.0.nodes@[0] == (BVHNode {
                bounds: AABB {
                    min: Vec3 { x: 0, y: 0, z: 0 },
                    max: Vec3 { x: 0, y: 0, z: 0 },
                },
                is_leaf: 1u32,
                a: 0u32,
                b: 0u32,
            }),
            forall|j: int|
                0 <= j < r.0.nodes@.len() && j != 1 ==> #[trigger] subtree(
                    r.0.nodes@,
                    0,
                ).contains(j),
            ({
                let n = self.triangles@.len() as int;
                let best = spec_best_split(self.triangles@, self.positions@, 0, n);
                r.0.nodes@[0].leaf() <==> (n <= 1 || best is None || (best matches Some(t) && (n
                    * r.0.nodes@[0].bounds.spec_area() <= t.2 as int || count_below(
                    self.triangles@,
                    0,
                    n,
                    t.0 as int,
                    t.1 as int,
                ) == 0 || count_below(self.triangles@, 0, n, t.0 as int, t.1 as int) == n)))
            }),
            r.0.nodes@ == spec_build(self.triangles@, self.positions@).1,
            r.1@ == tris_of(spec_build(self.triangles@, self.positions@).0),
    {
        let mut b = self;
        let ghost num_tris = b.triangles@.len() as int;
        let n = b.triangles.len();
        b.create_leaf_node_from_triangles(0, n);
        // the sentinel keeps later sibling pairs on a uniform stride
        b.nodes.push(BVHNode::new_dummy());
        proof {
            assert forall|i: int| 0 <= i < b.nodes@.len() implies node_local_wf(
                b.nodes@,
                i,
                num_tris,
            ) by {}
            assert(nodes_wf(b.nodes@, num_tris));
        }
        let ghost pre = b;
        b.split_leaf_node_sah(0);
        let ghost done = b;
        proof {
            let root = BVHNode {
                bounds: built_box(range_box(self.triangles@, self.positions@, 0, num_tris)),
                is_leaf: 1u32,
                a: 0u32,
                b: num_tris as u32,
            };
            assert(pre.nodes@ =~= seq![root, dummy_node()]);
            assert(done.triangles@ == spec_build(self.triangles@, self.positions@).0);
            assert(done.nodes@ == spec_build(self.triangles@, self.positions@).1);
        }
        let mut out: Vec<Triangle> = Vec::new();
        let mut i: usize = 0;
        while i < b.triangles.len()
            invariant
                b == done,
                b.wf(),
                i <= b.triangles@.len(),
                out@.len() == i,
                forall|j: int| 0 <= j < i ==> out@[j] == tris_of(b.triangles@)[j],
            decreases b.triangles@.len() - i,
        {
            let t = (&b.triangles[i]).to_tri();
            out.push(t);
            i += 1;
        }
        proof {
            assert(out@ =~= tris_of(done.triangles@));
            assert(done.triangles@.subrange(0, num_tris) =~= done.triangles@);
            assert(self.triangles@.subrange(0, num_tris) =~= self.triangles@);
            lemma_tris_of_multiset(done.triangles@, self.triangles@);
        }
        (BVH::new(b.nodes), out)
    }

    /// Append a new leaf node covering `[first, first + count)`, its bounds
    /// accumulated over the full geometry of that range.
    pub fn create_leaf_node_from_triangles(&mut self, first: usize, count: usize)
        requires
            old(self).wf(),
            first + count <= old(self).triangles@.len(),
        ensures
            final(self).wf(),
            final(self).triangles == old(self).triangles,
            final(self).positions == old(self).positions,
            final(self).nodes@.len() == old(self).nodes@.len() + 1,
            forall|j: int|
                0 <= j < old(self).nodes@.len() ==> final(self).nodes@[j] == old(self).nodes@[j],
            ({
                let n = final(self).nodes@.last();
                &&& n.leaf()
                &&& n.is_leaf == 1u32
                &&& n.a == first
                &&& n.b == count
                &&& n.bounds.wf()
                &&& bounds_contain_range(
                    final(self).triangles@,
                    final(self).positions@,
                    first as int,
                    count as int,
                    n.bounds,
                )
                &&& count > 0 ==> bounds_attained(
                    final(self).triangles@,
                    final(self).positions@,
                    first as int,
                    count as int,
                    n.bounds,
                )
                &&& count == 0 ==> n.bounds == (AABB {
                    min: Vec3 { x: 0, y: 0, z: 0 },
                    max: Vec3 { x: 0, y: 0, z: 0 },
                })
                &&& n.bounds == built_box(
                    range_box(
                        final(self).triangles@,
                        final(self).positions@,
                        first as int,
                        count as int,
                    ),
                )
            }),
    {
        let bb = self.aabb_from_triangles(first, count);
        let n = BVHNode::new_leaf(bb, first as u32, count as u32);
        self.nodes.push(n);
    }

    /// Binned SAH split search over `[first_tri, first_tri + tri_count)`.
    ///
    /// Returns the `(axis, split position, estimated cost)` with the lowest
    /// cost across all non-degenerate axes and bin boundaries (first minimum
    /// wins, by strict comparison), or `None` when every axis is degenerate —
    /// which happens exactly when all centroid keys of the range coincide.
    /// The result equals `spec_best_split` on the range: the cost is the
    /// minimum of the model's boundary costs and the position the matching
    /// bin boundary, so the search is a pure function of the range.
    #[verifier::rlimit(80)]
    pub fn find_best_split_binned(&self, first_tri: usize, tri_count: usize) -> (r: Option<
        (usize, i64, u128),
    >)
        requires
            self.wf(),
            tri_count >= 1,
            first_tri + tri_count <= self.triangles@.len(),
        ensures
            r is None ==> all_centroids_equal(self.triangles@, first_tri as int, tri_count as int),
            r matches Some(best) ==> best.0 < 3 && exists|j: int, k: int|
                first_tri <= j < first_tri + tri_count && first_tri <= k < first_tri + tri_count
                    && (#[trigger] self.triangles@[j]).centroid.spec_axis(best.0 as int) != (
                #[trigger] self.triangles@[k]).centroid.spec_axis(best.0 as int),
            r == spec_best_split(
                self.triangles@,
                self.positions@,
                first_tri as int,
                tri_count as int,
            ),
    {
        let ghost lo = first_tri as int;
        let ghost cnt = tri_count as int;
        let hi = first_tri + tri_count;
        let cb = self.aabb_from_centroids(first_tri, tri_count);
        let mut best: Option<(usize, i64, u128)> = None;
        let mut axis: usize = 0;
        while axis < 3
            invariant
                self.wf(),
                tri_count >= 1,
                first_tri + tri_count <= self.triangles@.len(),
                hi == first_tri + tri_count,
                axis <= 3,
                cb.wf(),
                forall|j: int|
                    first_tri <= j < hi ==> cb.contains_point(
                        (#[trigger] self.triangles@[j]).centroid,
                    ),
                exists|j: int| first_tri <= j < hi && cb.min.x == (#[trigger] self.triangles@[j]).centroid.x,
                exists|j: int| first_tri <= j < hi && cb.min.y == (#[trigger] self.triangles@[j]).centroid.y,
                exists|j: int| first_tri <= j < hi && cb.min.z == (#[trigger] self.triangles@[j]).centroid.z,
                exists|j: int| first_tri <= j < hi && cb.max.x == (#[trigger] self.triangles@[j]).centroid.x,
                exists|j: int| first_tri <= j < hi && cb.max.y == (#[trigger] self.triangles@[j]).centroid.y,
                exists|j: int| first_tri <= j < hi && cb.max.z == (#[trigger] self.triangles@[j]).centroid.z,
                lo == first_tri as int,
                cnt == tri_count as int,
                cb.min.x as int == cmin(self.triangles@, lo, cnt, 0),
                cb.min.y as int == cmin(self.triangles@, lo, cnt, 1),
                cb.min.z as int == cmin(self.triangles@, lo, cnt, 2),
                cb.max.x as int == cmax(self.triangles@, lo, cnt, 0),
                cb.max.y as int == cmax(self.triangles@, lo, cnt, 1),
                cb.max.z as int == cmax(self.triangles@, lo, cnt, 2),
                best_from_axis(self.triangles@, self.positions@, lo, cnt, axis as int, best)
                    == spec_best_split(self.triangles@, self.positions@, lo, cnt),
                best is None ==> forall|a: int|
                    0 <= a < axis ==> cb.min.spec_axis(a) == cb.max.spec_axis(a),
                best matches Some(b) ==> b.0 < 3 && cb.min.spec_axis(b.0 as int) < cb.max.spec_axis(
                    b.0 as int,
                ),
            decreases 3 - axis,
        {
            let mn = cb.min.axis_val(axis);
            let mx = cb.max.axis_val(axis);
            proof {
                assert(mn as int == cmin(self.triangles@, lo, cnt, axis as int) && mx as int
                    == cmax(self.triangles@, lo, cnt, axis as int)) by {
                    if axis == 0 {
                    } else if axis == 1 {
                    } else {
                    }
                }
            }
            let ghost best_pre = best;
            if mn != mx {
                best = self.best_split_on_axis(first_tri, tri_count, &cb, axis, mn, mx, best);
            }
            proof {
                assert(best_from_axis(self.triangles@, self.positions@, lo, cnt, axis as int, best_pre)
                    == best_from_axis(self.triangles@, self.positions@, lo, cnt, axis + 1, best));
            }
            axis += 1;
        }
        proof {
            match best {
                Option::None => {
                    assert forall|j: int|
                        first_tri <= j < hi implies #[trigger] self.triangles@[j].centroid
                        == self.triangles@[lo].centroid by {
                        assert(cb.contains_point(self.triangles@[j].centroid));
                        assert(cb.contains_point(self.triangles@[lo].centroid));
                        assert(cb.min.spec_axis(0) == cb.max.spec_axis(0));
                        assert(cb.min.spec_axis(1) == cb.max.spec_axis(1));
                        assert(cb.min.spec_axis(2) == cb.max.spec_axis(2));
                    }
                },
                Option::Some(b) => {
                    let a = b.0 as int;
                    if a == 0 {
                        let j = choose|j: int|
                            first_tri <= j < hi && cb.min.x == (
                            #[trigger] self.triangles@[j]).centroid.x;
                        let k = choose|k: int|
                            first_tri <= k < hi && cb.max.x == (
                            #[trigger] self.triangles@[k]).centroid.x;
                        assert(self.triangles@[j].centroid.spec_axis(a)
                            != self.triangles@[k].centroid.spec_axis(a));
                    } else if a == 1 {
                        let j = choose|j: int|
                            first_tri <= j < hi && cb.min.y == (
                            #[trigger] self.triangles@[j]).centroid.y;
                        let k = choose|k: int|
                            first_tri <= k < hi && cb.max.y == (
                            #[trigger] self.triangles@[k]).centroid.y;
                        assert(self.triangles@[j].centroid.spec_axis(a)
                            != self.triangles@[k].centroid.spec_axis(a));
                    } else {
                        let j = choose|j: int|
                            first_tri <= j < hi && cb.min.z == (
                            #[trigger] self.triangles@[j]).centroid.z;
                        let k = choose|k: int|
                            first_tri <= k < hi && cb.max.z == (
                            #[trigger] self.triangles@[k]).centroid.z;
                        assert(self.triangles@[j].centroid.spec_axis(a)
                            != self.triangles@[k].centroid.spec_axis(a));
                    }
                },
            }
            assert(best_from_axis(self.triangles@, self.positions@, lo, cnt, 3, best) == best);
        }
        best
    }

    /// One axis of the binned SAH search: bin the range on `axis`, sweep the
    /// bins from both sides, and fold the axis's best boundary into `best`.
    fn best_split_on_axis(
        &self,
        first_tri: usize,
        tri_count: usize,
        cb: &AABB,
        axis: usize,
        mn: i64,
        mx: i64,
        best: Option<(usize, i64, u128)>,
    ) -> (r: Option<(usize, i64, u128)>)
        requires
            self.wf(),
            tri_count >= 1,
            first_tri + tri_count <= self.triangles@.len(),
            axis < 3,
            cb.wf(),
            mn as int == cb.min.spec_axis(axis as int),
            mx as int == cb.max.spec_axis(axis as int),
            mn as int == cmin(self.triangles@, first_tri as int, tri_count as int, axis as int),
            mx as int == cmax(self.triangles@, first_tri as int, tri_count as int, axis as int),
            mn < mx,
            forall|j: int|
                first_tri <= j < first_tri + tri_count ==> cb.contains_point(
                    (#[trigger] self.triangles@[j]).centroid,
                ),
            best matches Some(b) ==> b.0 < 3 && cb.min.spec_axis(b.0 as int) < cb.max.spec_axis(
                b.0 as int,
            ),
        ensures
            r matches Some(b) ==> b.0 < 3 && cb.min.spec_axis(b.0 as int) < cb.max.spec_axis(
                b.0 as int,
            ),
            r is Some,
            r == axis_scan(
                self.triangles@,
                self.positions@,
                first_tri as int,
                tri_count as int,
                axis as int,
                0,
                best,
            ),
    {
        let hi = first_tri + tri_count;
        let extent = mx - mn;
        let extent_u = extent as u64;
        let ghost gt = self.triangles@;
        let ghost gp = self.positions@;
        let ghost f = first_tri as int;
        let ghost cn = tri_count as int;
        let ghost ax = axis as int;
        let ghost mni = mn as int;
        let ghost mxi = mx as int;

        // fill the bins
        let mut bins: Vec<Bin> = Vec::new();
        let mut bi: usize = 0;
        while bi < BIN_COUNT
            invariant
                bins@.len() == bi,
                bi <= BIN_COUNT,
                forall|b: int|
                    0 <= b < bi ==> (#[trigger] bins@[b]).bounds.aabb is None
                        && bins@[b].tri_count == 0,
            decreases BIN_COUNT - bi,
        {
            bins.push(Bin::new());
            bi += 1;
        }

        let mut i: usize = first_tri;
        while i < hi
            invariant
                self.wf(),
                axis < 3,
                first_tri <= i <= hi <= self.triangles@.len(),
                hi == first_tri + tri_count,
                tri_count <= MAX_TRIANGLES,
                cb.wf(),
                mn as int == cb.min.spec_axis(axis as int),
                mx as int == cb.max.spec_axis(axis as int),
                mn < mx,
                extent == mx - mn,
                extent_u == extent as u64,
                forall|j: int|
                    first_tri <= j < hi ==> cb.contains_point(
                        (#[trigger] self.triangles@[j]).centroid,
                    ),
                bins@.len() == BIN_COUNT,
                gt == self.triangles@,
                gp == self.positions@,
                f == first_tri as int,
                cn == tri_count as int,
                ax == axis as int,
                mni == mn as int,
                mxi == mx as int,
                forall|b: int|
                    0 <= b < BIN_COUNT ==> (#[trigger] bins@[b]).bounds.wf() && bins@[b].tri_count
                        <= i - first_tri,
                forall|b: int|
                    0 <= b < BIN_COUNT ==> (#[trigger] bins@[b]).tri_count as int == spec_bin_count(
                        gt,
                        f,
                        i - first_tri,
                        ax,
                        mni,
                        mxi,
                        b,
                    ) && bins@[b].bounds.aabb == spec_bin_box(
                        gt,
                        gp,
                        f,
                        i - first_tri,
                        ax,
                        mni,
                        mxi,
                        b,
                    ),
            decreases hi - i,
        {
            let t = self.triangles[i];
            let c = t.centroid.axis_val(axis);
            proof {
                assert(cb.contains_point(self.triangles@[i as int].centroid));
                assert(mn <= c <= mx);
            }
            let num = (c - mn) as u64;
            proof {
                assert(num <= 6_000_000_000);
                assert(num * (BIN_COUNT as u64) <= 300_000_000_000) by (nonlinear_arith)
                    requires
                        num <= 6_000_000_000,
                ;
            }
            let scaled = num * (BIN_COUNT as u64);
            proof {
                assert(scaled <= (extent_u as int) * (BIN_COUNT as int)) by (nonlinear_arith)
                    requires
                        num <= extent_u,
                        scaled == (num as int) * (BIN_COUNT as int),
                ;
                vstd::arithmetic::div_mod::lemma_div_is_ordered(
                    scaled as int,
                    (extent_u as int) * (BIN_COUNT as int),
                    extent_u as int,
                );
                vstd::arithmetic::div_mod::lemma_div_multiples_vanish(
                    BIN_COUNT as int,
                    extent_u as int,
                );
                assert(scaled as int / (extent_u as int) <= BIN_COUNT as int);
            }
            let mut bin_idx = (scaled / extent_u) as usize;
            if bin_idx > BIN_COUNT - 1 {
                bin_idx = BIN_COUNT - 1;
            }
            proof {
                let key = gt[i as int].centroid.spec_axis(ax);
                assert(c as int == key);
                assert(num as int == key - mni);
                assert(scaled as int == (key - mni) * (BIN_COUNT as int));
                assert(bin_idx as int == spec_bin(key, mni, mxi));
            }
            let ghost pre_bins = bins@;
            let mut bin = bins[bin_idx];
            bin.tri_count = bin.tri_count + 1;
            let v0 = self.positions[t.p0];
            let v1 = self.positions[t.p1];
            let v2 = self.positions[t.p2];
            let ghost g0 = bin.bounds.aabb;
            bin.bounds.expand(&v0);
            let ghost g1 = bin.bounds.aabb;
            bin.bounds.expand(&v1);
            let ghost g2 = bin.bounds.aabb;
            bin.bounds.expand(&v2);
            proof {
                assert(v0 == vert(gt, gp, i as int, 0));
                assert(v1 == vert(gt, gp, i as int, 1));
                assert(v2 == vert(gt, gp, i as int, 2));
                assert(g1 == box_expand(g0, v0));
                assert(g2 == box_expand(g1, v1));
                assert(bin.bounds.aabb == box_expand(g2, v2));
            }
            bins.set(bin_idx, bin);
            proof {
                assert forall|b: int|
                    0 <= b < BIN_COUNT implies (#[trigger] bins@[b]).tri_count as int
                    == spec_bin_count(gt, f, i + 1 - first_tri, ax, mni, mxi, b)
                    && bins@[b].bounds.aabb == spec_bin_box(
                    gt,
                    gp,
                    f,
                    i + 1 - first_tri,
                    ax,
                    mni,
                    mxi,
                    b,
                ) by {
                    if b == bin_idx {
                        assert(bins@[b] == bin);
                    } else {
                        assert(bins@[b] == pre_bins[b]);
                    }
                }
            }
            i += 1;
        }

        // prefix and suffix sweeps over the bins
        let mut left_area: Vec<u128> = Vec::new();
        let mut left_count: Vec<u64> = Vec::new();
        let mut right_area: Vec<u128> = Vec::new();
        let mut right_count: Vec<u64> = Vec::new();
        let mut bi: usize = 0;
        while bi < BIN_COUNT - 1
            invariant
                bi <= BIN_COUNT - 1,
                right_area@.len() == bi,
                right_count@.len() == bi,
                forall|k: int| 0 <= k < bi ==> #[trigger] right_area@[k] == 0,
                forall|k: int| 0 <= k < bi ==> #[trigger] right_count@[k] == 0,
            decreases BIN_COUNT - 1 - bi,
        {
            right_area.push(0);
            right_count.push(0);
            bi += 1;
        }
        let mut left_box = AABBBuilder::new();
        let mut right_box = AABBBuilder::new();
        let mut left_sum: u64 = 0;
        let mut right_sum: u64 = 0;
        let mut bi: usize = 0;
        while bi < BIN_COUNT - 1
            invariant
                bi <= BIN_COUNT - 1,
                bins@.len() == BIN_COUNT,
                tri_count <= MAX_TRIANGLES,
                gt == self.triangles@,
                gp == self.positions@,
                f == first_tri as int,
                cn == tri_count as int,
                ax == axis as int,
                mni == mn as int,
                mxi == mx as int,
                forall|b: int|
                    0 <= b < BIN_COUNT ==> (#[trigger] bins@[b]).bounds.wf() && bins@[b].tri_count
                        <= tri_count,
                forall|b: int|
                    0 <= b < BIN_COUNT ==> (#[trigger] bins@[b]).tri_count as int == spec_bin_count(
                        gt,
                        f,
                        cn,
                        ax,
                        mni,
                        mxi,
                        b,
                    ) && bins@[b].bounds.aabb == spec_bin_box(gt, gp, f, cn, ax, mni, mxi, b),
                left_sum as int == spec_left_cnt(gt, f, cn, ax, mni, mxi, bi - 1),
                left_box.aabb == spec_left_box(gt, gp, f, cn, ax, mni, mxi, bi - 1),
                right_sum as int == spec_right_cnt(gt, f, cn, ax, mni, mxi, BIN_COUNT - bi),
                right_box.aabb == spec_right_box(gt, gp, f, cn, ax, mni, mxi, BIN_COUNT - bi),
                forall|k: int|
                    0 <= k < bi ==> (#[trigger] left_count@[k]) as int == spec_left_cnt(
                        gt,
                        f,
                        cn,
                        ax,
                        mni,
                        mxi,
                        k,
                    ) && left_area@[k] as int == box_area(
                        spec_left_box(gt, gp, f, cn, ax, mni, mxi, k),
                    ),
                forall|k: int|
                    BIN_COUNT - 1 - bi <= k < BIN_COUNT - 1 ==> (#[trigger] right_count@[k]) as int
                        == spec_right_cnt(gt, f, cn, ax, mni, mxi, k + 1) && right_area@[k] as int
                        == box_area(spec_right_box(gt, gp, f, cn, ax, mni, mxi, k + 1)),
                left_area@.len() == bi,
                left_count@.len() == bi,
                right_area@.len() == BIN_COUNT - 1,
                right_count@.len() == BIN_COUNT - 1,
                left_box.wf(),
                right_box.wf(),
                left_sum <= bi * (MAX_TRIANGLES as u64),
                right_sum <= bi * (MAX_TRIANGLES as u64),
                forall|k: int|
                    0 <= k < bi ==> #[trigger] left_area@[k] <= AREA_LIMIT && left_count@[k]
                        <= 50 * (MAX_TRIANGLES as u64),
                forall|k: int|
                    0 <= k < BIN_COUNT - 1 ==> #[trigger] right_area@[k] <= AREA_LIMIT
                        && right_count@[k] <= 50 * (MAX_TRIANGLES as u64),
            decreases BIN_COUNT - 1 - bi,
        {
            proof {
                assert((bi as int) * (MAX_TRIANGLES as int) <= 48 * (MAX_TRIANGLES as int)
                    && ((bi as int) + 1) * (MAX_TRIANGLES as int) <= 50 * (MAX_TRIANGLES as int)
                    && ((bi as int) + 1) * (MAX_TRIANGLES as int) == (bi as int) * (
                MAX_TRIANGLES as int) + (MAX_TRIANGLES as int)) by (nonlinear_arith)
                    requires
                        0 <= bi <= 48,
                ;
            }
            let ghost pre_la = left_area@;
            let ghost pre_lc = left_count@;
            left_sum = left_sum + (bins[bi].tri_count as u64);
            left_count.push(left_sum);
            let ghost lb_pre = left_box.aabb;
            left_box.expand_other(&bins[bi].bounds);
            proof {
                if left_box.aabb is Some {
                    lemma_area_bound(left_box.aabb->0);
                }
                assert(left_box.aabb == box_merge(lb_pre, bins@[bi as int].bounds.aabb));
                assert(left_box.aabb == spec_left_box(gt, gp, f, cn, ax, mni, mxi, bi as int));
                assert(left_sum as int == spec_left_cnt(gt, f, cn, ax, mni, mxi, bi as int));
            }
            let la = left_box.area();
            left_area.push(la);
            proof {
                assert(left_sum <= ((bi as u64) + 1) * (MAX_TRIANGLES as u64));
                assert(left_sum <= 50 * (MAX_TRIANGLES as u64));
                assert(la <= AREA_LIMIT);
                assert(la as int == box_area(spec_left_box(gt, gp, f, cn, ax, mni, mxi, bi as int)));
                assert forall|k: int|
                    0 <= k < bi + 1 implies #[trigger] left_area@[k] <= AREA_LIMIT
                    && left_count@[k] <= 50 * (MAX_TRIANGLES as u64) && (left_count@[k]) as int
                    == spec_left_cnt(gt, f, cn, ax, mni, mxi, k) && left_area@[k] as int
                    == box_area(spec_left_box(gt, gp, f, cn, ax, mni, mxi, k)) by {
                    if k == bi {
                        assert(left_area@[k] == la);
                        assert(left_count@[k] == left_sum);
                    } else {
                        assert(left_area@[k] == pre_la[k]);
                        assert(left_count@[k] == pre_lc[k]);
                    }
                }
            }

            let ghost pre_ra = right_area@;
            let ghost pre_rc = right_count@;
            right_sum = right_sum + (bins[BIN_COUNT - 1 - bi].tri_count as u64);
            right_count.set(BIN_COUNT - 2 - bi, right_sum);
            let ghost rb_pre = right_box.aabb;
            right_box.expand_other(&bins[BIN_COUNT - 1 - bi].bounds);
            proof {
                if right_box.aabb is Some {
                    lemma_area_bound(right_box.aabb->0);
                }
                assert(right_box.aabb == box_merge(
                    rb_pre,
                    bins@[BIN_COUNT - 1 - bi].bounds.aabb,
                ));
                assert(right_box.aabb == spec_right_box(
                    gt,
                    gp,
                    f,
                    cn,
                    ax,
                    mni,
                    mxi,
                    BIN_COUNT - 1 - bi,
                ));
                assert(right_sum as int == spec_right_cnt(
                    gt,
                    f,
                    cn,
                    ax,
                    mni,
                    mxi,
                    BIN_COUNT - 1 - bi,
                ));
            }
            let ra = right_box.area();
            right_area.set(BIN_COUNT - 2 - bi, ra);
            proof {
                assert(right_sum <= ((bi as u64) + 1) * (MAX_TRIANGLES as u64));
                assert(right_sum <= 50 * (MAX_TRIANGLES as u64));
                assert(ra <= AREA_LIMIT);
                assert(ra as int == box_area(
                    spec_right_box(gt, gp, f, cn, ax, mni, mxi, BIN_COUNT - 1 - bi),
                ));
                let upd = BIN_COUNT - 2 - bi;
                assert forall|k: int|
                    0 <= k < BIN_COUNT - 1 implies #[trigger] right_area@[k] <= AREA_LIMIT
                    && right_count@[k] <= 50 * (MAX_TRIANGLES as u64) by {
                    if k == upd {
                        assert(right_area@[k] == ra);
                        assert(right_count@[k] == right_sum);
                    } else {
                        assert(right_area@[k] == pre_ra[k]);
                        assert(right_count@[k] == pre_rc[k]);
                    }
                }
                assert forall|k: int|
                    BIN_COUNT - 1 - (bi + 1) <= k < BIN_COUNT - 1 implies (
                #[trigger] right_count@[k]) as int == spec_right_cnt(gt, f, cn, ax, mni, mxi, k + 1)
                    && right_area@[k] as int == box_area(
                    spec_right_box(gt, gp, f, cn, ax, mni, mxi, k + 1),
                ) by {
                    if k == upd {
                        assert(right_area@[k] == ra);
                        assert(right_count@[k] == right_sum);
                    } else {
                        assert(right_area@[k] == pre_ra[k]);
                        assert(right_count@[k] == pre_rc[k]);
                    }
                }
            }
            bi += 1;
        }

        // scan the interior boundaries for the cheapest split
        let step = extent_u / (BIN_COUNT as u64);
        proof {
            vstd::arithmetic::div_mod::lemma_fundamental_div_mod(extent_u as int, BIN_COUNT as int);
        }
        let mut r = best;
        let mut bi: usize = 0;
        while bi < BIN_COUNT - 1
            invariant
                bi <= BIN_COUNT - 1,
                axis < 3,
                cb.wf(),
                mn as int == cb.min.spec_axis(axis as int),
                mx as int == cb.max.spec_axis(axis as int),
                mn < mx,
                extent == mx - mn,
                extent_u == extent as u64,
                step == extent_u / (BIN_COUNT as u64),
                step * (BIN_COUNT as u64) <= extent_u,
                gt == self.triangles@,
                gp == self.positions@,
                f == first_tri as int,
                cn == tri_count as int,
                ax == axis as int,
                mni == mn as int,
                mxi == mx as int,
                mni == cmin(gt, f, cn, ax),
                mxi == cmax(gt, f, cn, ax),
                left_area@.len() == BIN_COUNT - 1,
                left_count@.len() == BIN_COUNT - 1,
                right_area@.len() == BIN_COUNT - 1,
                right_count@.len() == BIN_COUNT - 1,
                forall|k: int|
                    0 <= k < BIN_COUNT - 1 ==> #[trigger] left_area@[k] <= AREA_LIMIT
                        && left_count@[k] <= 50 * (MAX_TRIANGLES as u64),
                forall|k: int|
                    0 <= k < BIN_COUNT - 1 ==> #[trigger] right_area@[k] <= AREA_LIMIT
                        && right_count@[k] <= 50 * (MAX_TRIANGLES as u64),
                forall|k: int|
                    0 <= k < BIN_COUNT - 1 ==> (#[trigger] left_count@[k]) as int == spec_left_cnt(
                        gt,
                        f,
                        cn,
                        ax,
                        mni,
                        mxi,
                        k,
                    ) && left_area@[k] as int == box_area(
                        spec_left_box(gt, gp, f, cn, ax, mni, mxi, k),
                    ),
                forall|k: int|
                    0 <= k < BIN_COUNT - 1 ==> (#[trigger] right_count@[k]) as int
                        == spec_right_cnt(gt, f, cn, ax, mni, mxi, k + 1) && right_area@[k] as int
                        == box_area(spec_right_box(gt, gp, f, cn, ax, mni, mxi, k + 1)),
                axis_scan(gt, gp, f, cn, ax, bi as int, r) == axis_scan(gt, gp, f, cn, ax, 0, best),
                bi > 0 ==> r is Some,
                r matches Some(b) ==> b.0 < 3 && cb.min.spec_axis(b.0 as int) < cb.max.spec_axis(
                    b.0 as int,
                ),
            decreases BIN_COUNT - 1 - bi,
        {
            let lc = left_count[bi];
            let la = left_area[bi];
            let rc = right_count[bi];
            let ra = right_area[bi];
            proof {
                assert((lc as u128) * la <= 6_000_000_000_000_000_000_000_000_000_000u128)
                    by (nonlinear_arith)
                    requires
                        lc <= 50 * (MAX_TRIANGLES as u64),
                        la <= AREA_LIMIT,
                ;
                assert((rc as u128) * ra <= 6_000_000_000_000_000_000_000_000_000_000u128)
                    by (nonlinear_arith)
                    requires
                        rc <= 50 * (MAX_TRIANGLES as u64),
                        ra <= AREA_LIMIT,
                ;
            }
            let cost = (lc as u128) * la + (rc as u128) * ra;
            proof {
                assert(cost as int == spec_cost(gt, gp, f, cn, ax, bi as int));
            }
            let ghost r_pre = r;
            let take = match &r {
                Option::None => true,
                Option::Some(t) => cost < t.2,
            };
            if take {
                proof {
                    assert(step * ((bi as u64) + 1) <= step * (BIN_COUNT as u64))
                        by (nonlinear_arith)
                        requires
                            (bi as u64) + 1 <= BIN_COUNT as u64,
                            step >= 0,
                    ;
                }
                let pos = mn + ((step * ((bi as u64) + 1)) as i64);
                proof {
                    assert(step as int == (mxi - mni) / (BIN_COUNT as int));
                    assert(pos as int == spec_pos(gt, f, cn, ax, bi as int));
                }
                r = Some((axis, pos, cost));
            }
            proof {
                assert(axis_scan(gt, gp, f, cn, ax, bi as int, r_pre) == axis_scan(
                    gt,
                    gp,
                    f,
                    cn,
                    ax,
                    bi + 1,
                    r,
                ));
            }
            bi += 1;
        }
        r
    }

    /// Split one leaf node by the SAH rule, and recurse on the children it
    /// creates.
    ///
    /// The leaf stays a leaf when it covers at most one triangle, when no
    /// viable split exists (all centroid keys coincide), when the best
    /// split's estimated cost does not strictly beat the parent's own cost,
    /// or when the partition turns out degenerate.  Otherwise the node turns
    /// interior, two fresh leaves take the two halves of its range, and both
    /// are split in turn.  On return the subtree rooted here is well formed
    /// over the node's own range, only that range of the triangles has
    /// been reordered (as a multiset it is untouched), and every other
    /// pre-existing node is unchanged.
    ///
    /// The node stays a leaf exactly when the decision rule says so: one
    /// triangle or fewer, no viable split, no strict improvement over
    /// `count * area(bounds)`, or a partition with an empty side.  The whole
    /// call — the reordered triangles and the grown node array — equals
    /// `spec_split` on the entry state, so the recursion is a pure function
    /// of the geometry.  The returned ghost value records the split this
    /// node took, if any: whenever the node turned interior, the chosen
    /// split's estimated cost was strictly below the node's own cost.
    #[verifier::rlimit(50)]
    pub fn split_leaf_node_sah(&mut self, node_idx: usize) -> (chosen: Ghost<
        Option<(usize, i64, u128)>,
    >)
        requires
            old(self).wf(),
            nodes_wf(old(self).nodes@, old(self).triangles@.len() as int),
            2 <= old(self).nodes@.len(),
            node_idx < old(self).nodes@.len(),
            old(self).nodes@[node_idx as int].leaf(),
            bounds_contain_range(
                old(self).triangles@,
                old(self).positions@,
                node_lo(old(self).nodes@, node_idx as int),
                old(self).nodes@[node_idx as int].b as int,
                old(self).nodes@[node_idx as int].bounds,
            ),
            old(self).nodes@.len() + 2 * old(self).nodes@[node_idx as int].b <= 0xFFFF_FFFE,
        ensures
            final(self).wf(),
            final(self).positions == old(self).positions,
            final(self).triangles@.len() == old(self).triangles@.len(),
            nodes_wf(final(self).nodes@, final(self).triangles@.len() as int),
            old(self).nodes@.len() <= final(self).nodes@.len(),
            old(self).nodes@[node_idx as int].b >= 1 ==> final(self).nodes@.len() <= old(
                self,
            ).nodes@.len() + 2 * (old(self).nodes@[node_idx as int].b - 1),
            old(self).nodes@[node_idx as int].b < 1 ==> final(self).nodes@.len() == old(
                self,
            ).nodes@.len(),
            forall|j: int|
                0 <= j < old(self).nodes@.len() && j != node_idx ==> final(self).nodes@[j] == old(
                    self,
                ).nodes@[j],
            final(self).nodes@[node_idx as int].bounds == old(
                self,
            ).nodes@[node_idx as int].bounds,
            final(self).nodes@[node_idx as int].leaf() ==> final(self).nodes@[node_idx as int]
                == old(self).nodes@[node_idx as int],
            wf_subtree(
                final(self).nodes@,
                node_idx as int,
                node_lo(old(self).nodes@, node_idx as int),
                node_hi(old(self).nodes@, node_idx as int),
            ),
            forall|j: int|
                subtree(final(self).nodes@, node_idx as int).contains(j) ==> j == node_idx as int
                    || old(self).nodes@.len() <= j < final(self).nodes@.len(),
            forall|j: int|
                old(self).nodes@.len() <= j < final(self).nodes@.len() ==> #[trigger] subtree(
                    final(self).nodes@,
                    node_idx as int,
                ).contains(j),
            forall|j: int|
                (0 <= j < node_lo(old(self).nodes@, node_idx as int) || node_hi(
                    old(self).nodes@,
                    node_idx as int,
                ) <= j < final(self).triangles@.len()) ==> final(self).triangles@[j] == old(
                    self,
                ).triangles@[j],
            final(self).triangles@.subrange(
                node_lo(old(self).nodes@, node_idx as int),
                node_hi(old(self).nodes@, node_idx as int),
            ).to_multiset() == old(self).triangles@.subrange(
                node_lo(old(self).nodes@, node_idx as int),
                node_hi(old(self).nodes@, node_idx as int),
            ).to_multiset(),
            (old(self).nodes@[node_idx as int].b <= 1 || all_centroids_equal(
                old(self).triangles@,
                node_lo(old(self).nodes@, node_idx as int),
                old(self).nodes@[node_idx as int].b as int,
            )) ==> (final(self).nodes == old(self).nodes && final(self).triangles == old(
                self,
            ).triangles),
            !final(self).nodes@[node_idx as int].leaf() ==> (chosen@ matches Some(t) && (
            t.2 as int) < old(self).nodes@[node_idx as int].b * old(
                self,
            ).nodes@[node_idx as int].bounds.spec_area()),
            ({
                let c = old(self).nodes@[node_idx as int].b as int;
                let lo = node_lo(old(self).nodes@, node_idx as int);
                let bb = old(self).nodes@[node_idx as int].bounds;
                let best = spec_best_split(old(self).triangles@, old(self).positions@, lo, c);
                final(self).nodes@[node_idx as int].leaf() <==> (c <= 1 || best is None || (
                best matches Some(t) && (c * bb.spec_area() <= t.2 as int || count_below(
                    old(self).triangles@,
                    lo,
                    c,
                    t.0 as int,
                    t.1 as int,
                ) == 0 || count_below(old(self).triangles@, lo, c, t.0 as int, t.1 as int) == c)))
            }),
            ({
                let c = old(self).nodes@[node_idx as int].b as int;
                let lo = node_lo(old(self).nodes@, node_idx as int);
                let best = spec_best_split(old(self).triangles@, old(self).positions@, lo, c);
                !final(self).nodes@[node_idx as int].leaf() ==> (best matches Some(t) && span(
                    final(self).nodes@,
                    final(self).nodes@[node_idx as int].a as int,
                    lo,
                ) == lo + count_below(old(self).triangles@, lo, c, t.0 as int, t.1 as int))
            }),
            final(self).triangles@ == spec_split(
                old(self).triangles@,
                old(self).positions@,
                old(self).nodes@,
                node_idx as int,
                node_lo(old(self).nodes@, node_idx as int),
                old(self).nodes@[node_idx as int].b as int,
            ).0,
            final(self).nodes@ == spec_split(
                old(self).triangles@,
                old(self).positions@,
                old(self).nodes@,
                node_idx as int,
                node_lo(old(self).nodes@, node_idx as int),
                old(self).nodes@[node_idx as int].b as int,
            ).1,
        decreases self.nodes@[node_idx as int].b,
    {
        let ghost orig = *self;
        let ghost num_tris = self.triangles@.len() as int;
        let node_count = self.nodes.len();
        let first_triangle = self.nodes[node_idx].first_triangle() as usize;
        let triangle_count = self.nodes[node_idx].triangle_count() as usize;
        let ghost lo = first_triangle as int;
        let ghost hi = lo + triangle_count as int;
        proof {
            assert(node_local_wf(orig.nodes@, node_idx as int, num_tris));
        }

        // a leaf covering at most one triangle is terminal
        if triangle_count <= 1 {
            proof {
                assert(wf_subtree(self.nodes@, node_idx as int, lo, hi));
                assert(self.triangles@.subrange(lo, hi) =~= orig.triangles@.subrange(lo, hi));
            }
            return Ghost(None);
        }
        // find the axis and split position with minimal estimated cost
        let best = self.find_best_split_binned(first_triangle, triangle_count);
        let (axis, split_pos, cost) = match best {
            Option::None => {
                proof {
                    assert(wf_subtree(self.nodes@, node_idx as int, lo, hi));
                    assert(self.triangles@.subrange(lo, hi) =~= orig.triangles@.subrange(lo, hi));
                }
                return Ghost(None);
            },
            Option::Some(t) => t,
        };
        proof {
            let (j, k): (int, int) = choose|j: int, k: int|
                lo <= j < hi && lo <= k < hi && (#[trigger] orig.triangles@[j]).centroid.spec_axis(
                    axis as int,
                ) != (#[trigger] orig.triangles@[k]).centroid.spec_axis(axis as int);
            lemma_not_all_equal(orig.triangles@, lo, hi - lo, axis as int, j, k);
        }

        // the SAH termination rule: split only on a strict improvement
        let parent_area = self.nodes[node_idx].bounds().area();
        proof {
            lemma_area_bound(self.nodes@[node_idx as int].bounds);
            assert((triangle_count as int) * (parent_area as int) <= (MAX_TRIANGLES as int) * (
            AREA_LIMIT as int)) by (nonlinear_arith)
                requires
                    0 <= triangle_count <= MAX_TRIANGLES,
                    0 <= parent_area <= AREA_LIMIT,
            ;
        }
        let parent_cost = (triangle_count as u128) * parent_area;
        if parent_cost <= cost {
            proof {
                assert(wf_subtree(self.nodes@, node_idx as int, lo, hi));
                assert(self.triangles@.subrange(lo, hi) =~= orig.triangles@.subrange(lo, hi));
            }
            return Ghost(None);
        }
        // reorder the range around the chosen plane
        let middle = self.split_triangles_along_plane(
            first_triangle,
            triangle_count,
            axis,
            split_pos,
        );
        let ghost mid = middle as int;
        let left_count = middle - first_triangle;
        let right_count = triangle_count - left_count;

        // a partition with an empty side provides no benefit
        if left_count == 0 || left_count == triangle_count {
            proof {
                assert(wf_subtree(self.nodes@, node_idx as int, lo, hi));
            }
            return Ghost(None);
        }
        // turn the leaf into an interior node with two fresh leaf children
        let mut nd = self.nodes[node_idx];
        nd.convert_to_node(node_count as u32, (node_count + 1) as u32);
        self.nodes.set(node_idx, nd);
        self.create_leaf_node_from_triangles(first_triangle, left_count);
        self.create_leaf_node_from_triangles(middle, right_count);

        let ghost l = node_count as int;
        let ghost s2 = *self;
        proof {
            assert(s2.nodes@.len() == l + 2);
            assert(s2.nodes@[node_idx as int] == nd);
            assert(s2.nodes@[l].leaf() && s2.nodes@[l].a == first_triangle && s2.nodes@[l].b
                == left_count);
            assert(s2.nodes@[l + 1].leaf() && s2.nodes@[l + 1].a == middle && s2.nodes@[l + 1].b
                == right_count);
            // the array stays globally well formed
            assert forall|i: int| 0 <= i < s2.nodes@.len() implies node_local_wf(
                s2.nodes@,
                i,
                num_tris,
            ) by {
                if i < orig.nodes@.len() && i != node_idx {
                    assert(node_local_wf(orig.nodes@, i, num_tris));
                }
            }
            assert forall|i: int, j: int|
                0 <= i < s2.nodes@.len() && 0 <= j < s2.nodes@.len() && i != j && !(
                #[trigger] s2.nodes@[i]).leaf() && !(#[trigger] s2.nodes@[j]).leaf() implies (
            s2.nodes@[i].a + 1 < s2.nodes@[j].a || s2.nodes@[j].a + 1 < s2.nodes@[i].a) by {
                if i < orig.nodes@.len() && i != node_idx {
                    assert(node_local_wf(orig.nodes@, i, num_tris));
                }
                if j < orig.nodes@.len() && j != node_idx {
                    assert(node_local_wf(orig.nodes@, j, num_tris));
                }
            }
            assert(nodes_wf(s2.nodes@, num_tris));
            // bounding conservativeness: both fresh children lie inside the
            // parent's stored bounds
            lemma_child_in_parent(
                s2.triangles@,
                orig.triangles@,
                s2.positions@,
                lo,
                hi,
                lo,
                mid,
                nd.bounds,
                s2.nodes@[l].bounds,
            );
            lemma_child_in_parent(
                s2.triangles@,
                orig.triangles@,
                s2.positions@,
                lo,
                hi,
                mid,
                hi,
                nd.bounds,
                s2.nodes@[l + 1].bounds,
            );
        }

        // split the two children in turn
        self.split_leaf_node_sah(node_count);
        let ghost s3 = *self;
        proof {
            assert(s3.nodes@[l + 1] == s2.nodes@[l + 1]);
            assert(s3.nodes@[node_idx as int] == nd);
            assert forall|j: int, k: int|
                mid <= j < mid + right_count && 0 <= k < 3 implies s3.nodes@[l
                + 1].bounds.contains_point(#[trigger] vert(s3.triangles@, s3.positions@, j, k)) by {
                assert(s3.triangles@[j] == s2.triangles@[j]);
                assert(vert(s3.triangles@, s3.positions@, j, k) == vert(
                    s2.triangles@,
                    s2.positions@,
                    j,
                    k,
                ));
                assert(s2.nodes@[l + 1].bounds.contains_point(
                    vert(s2.triangles@, s2.positions@, j, k),
                ));
            }
        }
        self.split_leaf_node_sah(node_count + 1);

        let ghost s4 = *self;
        proof {
            let ni = node_idx as int;
            // the node array: idx is the converted interior node, the two
            // subtrees keep their shape
            assert(s4.nodes@[ni] == nd);
            assert(s4.nodes@[l] == s3.nodes@[l]);
            assert(s4.nodes@[l].bounds == s2.nodes@[l].bounds);
            assert(s4.nodes@[l + 1].bounds == s2.nodes@[l + 1].bounds);
            // the left subtree survives the right recursion untouched
            assert forall|j: int| subtree(s3.nodes@, l).contains(j) implies s4.nodes@[j]
                == s3.nodes@[j] by {
                if j != l {
                    assert(s2.nodes@.len() <= j < s3.nodes@.len());
                }
            }
            lemma_subtree_frame(s3.nodes@, s4.nodes@, l, lo, mid);
            lemma_wf_span(s4.nodes@, l, lo, mid);
            assert(wf_subtree(s4.nodes@, l, lo, mid));
            assert(wf_subtree(s4.nodes@, l + 1, mid, hi));
            assert(wf_subtree(s4.nodes@, ni, lo, hi));
            // every node of the new subtree is this node or freshly appended
            assert(subtree(s4.nodes@, ni) == subtree(s4.nodes@, l).union(
                subtree(s4.nodes@, l + 1),
            ).insert(ni));
            lemma_subtree_members(s4.nodes@, l + 1, mid, hi);
            assert forall|j: int| subtree(s4.nodes@, ni).contains(j) implies j == ni
                || orig.nodes@.len() <= j < s4.nodes@.len() by {
                if j != ni {
                    if subtree(s4.nodes@, l).contains(j) {
                        assert(subtree(s3.nodes@, l).contains(j));
                    } else {
                        assert(subtree(s4.nodes@, l + 1).contains(j));
                    }
                }
            }
            lemma_subtree_members(s4.nodes@, l, lo, mid);
            assert forall|j: int|
                orig.nodes@.len() <= j < s4.nodes@.len() implies #[trigger] subtree(
                s4.nodes@,
                ni,
            ).contains(j) by {
                if j == l {
                    assert(subtree(s4.nodes@, l).contains(j));
                } else if j == l + 1 {
                    assert(subtree(s4.nodes@, l + 1).contains(j));
                } else if j < s3.nodes@.len() {
                    assert(s2.nodes@.len() <= j < s3.nodes@.len());
                    assert(subtree(s3.nodes@, l).contains(j));
                    assert(subtree(s4.nodes@, l).contains(j));
                } else {
                    assert(subtree(s4.nodes@, l + 1).contains(j));
                }
            }
            // the triangle range is reordered in place, stage by stage
            lemma_range_multiset_pointwise(s2.triangles@, s3.triangles@, mid, hi);
            lemma_range_multiset_join(s2.triangles@, s3.triangles@, lo, mid, hi);
            lemma_range_multiset_pointwise(s3.triangles@, s4.triangles@, lo, mid);
            lemma_range_multiset_join(s3.triangles@, s4.triangles@, lo, mid, hi);
            assert(s4.triangles@.subrange(lo, hi).to_multiset() == orig.triangles@.subrange(
                lo,
                hi,
            ).to_multiset());
            // the whole call equals the split recursion's value
            let cv = orig.nodes@[ni].b as int;
            let t = (axis, split_pos, cost);
            let tris2 = spec_partition(orig.triangles@, lo, lo + cv, t.0 as int, t.1 as int);
            let cb = count_below(orig.triangles@, lo, cv, t.0 as int, t.1 as int);
            assert(spec_best_split(orig.triangles@, orig.positions@, lo, cv) == Some(t));
            assert(s2.triangles@ == tris2);
            assert(cb == mid - lo);
            let nodes2 = orig.nodes@.update(
                ni,
                BVHNode {
                    bounds: orig.nodes@[ni].bounds,
                    is_leaf: 0u32,
                    a: l as u32,
                    b: (l + 1) as u32,
                },
            ).push(
                BVHNode {
                    bounds: built_box(range_box(tris2, orig.positions@, lo, cb)),
                    is_leaf: 1u32,
                    a: lo as u32,
                    b: cb as u32,
                },
            ).push(
                BVHNode {
                    bounds: built_box(range_box(tris2, orig.positions@, lo + cb, cv - cb)),
                    is_leaf: 1u32,
                    a: (lo + cb) as u32,
                    b: (cv - cb) as u32,
                },
            );
            assert(s2.nodes@ =~= nodes2);
            assert((s3.triangles@, s3.nodes@) == spec_split(
                tris2,
                orig.positions@,
                nodes2,
                l,
                lo,
                cb,
            ));
            assert((s4.triangles@, s4.nodes@) == spec_split(
                s3.triangles@,
                orig.positions@,
                s3.nodes@,
                l + 1,
                lo + cb,
                cv - cb,
            ));
            assert(s4.triangles@ == spec_split(
                orig.triangles@,
                orig.positions@,
                orig.nodes@,
                ni,
                lo,
                cv,
            ).0 && s4.nodes@ == spec_split(
                orig.triangles@,
                orig.positions@,
                orig.nodes@,
                ni,
                lo,
                cv,
            ).1);
        }
        Ghost(Some((axis, split_pos, cost)))
    }

    /// Two-pointer in-place partition of `[first, first + count)` around the
    /// split plane: records whose centroid key on `axis` is below `position`
    /// end up on the left.  Returns the boundary index.  Only the order of
    /// the range changes; its contents are preserved as a multiset.
    pub fn split_triangles_along_plane(
        &mut self,
        first: usize,
        count: usize,
        axis: usize,
        position: i64,
    ) -> (middle: usize)
        requires
            old(self).wf(),
            axis < 3,
            first + count <= old(self).triangles@.len(),
        ensures
            final(self).wf(),
            final(self).positions == old(self).positions,
            final(self).nodes == old(self).nodes,
            final(self).triangles@.len() == old(self).triangles@.len(),
            first <= middle <= first + count,
            forall|j: int|
                (0 <= j < first || first + count <= j < final(self).triangles@.len())
                    ==> final(self).triangles@[j] == old(self).triangles@[j],
            final(self).triangles@.subrange(first as int, (first + count) as int).to_multiset()
                == old(self).triangles@.subrange(first as int, (first + count) as int).to_multiset(),
            forall|j: int|
                first <= j < middle ==> (#[trigger] final(self).triangles@[j]).centroid.spec_axis(
                    axis as int,
                ) < position,
            forall|j: int|
                middle <= j < first + count ==> (
                #[trigger] final(self).triangles@[j]).centroid.spec_axis(axis as int) >= position,
            middle as int - first as int == count_below(
                old(self).triangles@,
                first as int,
                count as int,
                axis as int,
                position as int,
            ),
            final(self).triangles@ == spec_partition(
                old(self).triangles@,
                first as int,
                (first + count) as int,
                axis as int,
                position as int,
            ),
    {
        let ghost orig = self.triangles@;
        let mut lo: usize = first;
        let mut hi: usize = first + count;
        while lo < hi
            invariant
                self.wf(),
                self.positions == old(self).positions,
                self.nodes == old(self).nodes,
                self.triangles@.len() == orig.len(),
                old(self).triangles@ == orig,
                axis < 3,
                first <= lo <= hi <= first + count <= self.triangles@.len(),
                forall|j: int|
                    (0 <= j < first || first + count <= j < self.triangles@.len())
                        ==> self.triangles@[j] == orig[j],
                self.triangles@.subrange(first as int, (first + count) as int).to_multiset()
                    == orig.subrange(first as int, (first + count) as int).to_multiset(),
                forall|j: int|
                    first <= j < lo ==> (#[trigger] self.triangles@[j]).centroid.spec_axis(
                        axis as int,
                    ) < position,
                forall|j: int|
                    hi <= j < first + count ==> (
                    #[trigger] self.triangles@[j]).centroid.spec_axis(axis as int) >= position,
                count_below(self.triangles@, first as int, count as int, axis as int, position as int)
                    == count_below(orig, first as int, count as int, axis as int, position as int),
                spec_partition(self.triangles@, lo as int, hi as int, axis as int, position as int)
                    == spec_partition(
                    orig,
                    first as int,
                    (first + count) as int,
                    axis as int,
                    position as int,
                ),
            decreases hi - lo,
        {
            let c = self.triangles[lo].centroid.axis_val(axis);
            if c < position {
                lo += 1;
            } else {
                let ghost pre = self.triangles@;
                let a_val = self.triangles[lo];
                let b_val = self.triangles[hi - 1];
                self.triangles.set(lo, b_val);
                self.triangles.set(hi - 1, a_val);
                proof {
                    let f = first as int;
                    let t = (first + count) as int;
                    let s1 = pre.subrange(f, t);
                    let s2 = self.triangles@.subrange(f, t);
                    assert(s2 =~= s1.update(lo - f, b_val).update(hi - 1 - f, a_val));
                    broadcast use vstd::seq_lib::group_to_multiset_ensures;

                    assert(s1[lo - f] == a_val && s1[hi - 1 - f] == b_val);
                    lemma_count_below_update(
                        pre,
                        first as int,
                        count as int,
                        axis as int,
                        position as int,
                        lo as int,
                        b_val,
                    );
                    lemma_count_below_update(
                        pre.update(lo as int, b_val),
                        first as int,
                        count as int,
                        axis as int,
                        position as int,
                        hi - 1,
                        a_val,
                    );
                    assert(self.triangles@ =~= pre.update(lo as int, b_val).update(hi - 1, a_val));
                    if lo == hi - 1 {
                        assert(s2 =~= s1);
                    } else {
                        let u1 = s1.update(lo - f, b_val);
                        assert(u1[hi - 1 - f] == b_val);
                        assert(s1.contains(a_val));
                        assert(s1.to_multiset().count(a_val) > 0);
                        assert(u1.to_multiset() == s1.to_multiset().insert(b_val).remove(a_val));
                        assert(u1.contains(b_val));
                        assert(u1.to_multiset().count(b_val) > 0);
                        assert(s2.to_multiset() == u1.to_multiset().insert(a_val).remove(b_val));
                        assert(s2.to_multiset() =~= s1.to_multiset());
                    }
                }
                hi -= 1;
            }
        }
        proof {
            lemma_count_below_split(
                self.triangles@,
                first as int,
                count as int,
                axis as int,
                position as int,
                lo as int,
            );
        }
        lo
    }
}

} // verus!

