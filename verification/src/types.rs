//! Geometry carried through BVH construction: fixed-point integer vectors,
//! axis-aligned bounding boxes, the incremental box accumulator, the per-axis
//! binning record and the flat BVH node.
//!
//! Coordinates are plain `i64` values in fixed-point form; a caller picks a
//! scale when it quantizes a mesh and every comparison the builder makes is
//! scale-invariant.  Each coordinate must stay within `COORD_LIMIT` so that
//! every sum, difference and area product below is free of overflow.

use vstd::prelude::*;

verus! {

/// Largest magnitude a single vertex coordinate may have.
pub const COORD_LIMIT: i64 = 1_000_000_000;

/// Largest magnitude a centroid key may have: a centroid key is the sum of
/// three vertex coordinates (see `bvh`), so three times `COORD_LIMIT`.
pub const CENTROID_LIMIT: i64 = 3_000_000_000;

pub open spec fn coord_in_range(c: int) -> bool {
    -(COORD_LIMIT as int) <= c <= COORD_LIMIT as int
}

pub open spec fn centroid_coord_in_range(c: int) -> bool {
    -(CENTROID_LIMIT as int) <= c <= CENTROID_LIMIT as int
}

/// A 3-component integer vector.
#[derive(Clone, Copy, PartialEq, Eq, Structural, Debug)]
pub struct Vec3 {
    pub x: i64,
    pub y: i64,
    pub z: i64,
}

pub open spec fn point_in_range(p: Vec3) -> bool {
    coord_in_range(p.x as int) && coord_in_range(p.y as int) && coord_in_range(p.z as int)
}

pub open spec fn centroid_in_range(p: Vec3) -> bool {
    centroid_coord_in_range(p.x as int) && centroid_coord_in_range(p.y as int)
        && centroid_coord_in_range(p.z as int)
}

impl Vec3 {
    /// The component of `self` on the given axis (0 = x, 1 = y, 2 = z).
    pub open spec fn spec_axis(self, axis: int) -> int {
        if axis == 0 {
            self.x as int
        } else if axis == 1 {
            self.y as int
        } else {
            self.z as int
        }
    }

    pub fn new(x: i64, y: i64, z: i64) -> (v: Vec3)
        ensures
            v == (Vec3 { x, y, z }),
    {
        Vec3 { x, y, z }
    }

    pub fn axis_val(&self, axis: usize) -> (c: i64)
        requires
            axis < 3,
        ensures
            c as int == self.spec_axis(axis as int),
    {
        if axis == 0 {
            self.x
        } else if axis == 1 {
            self.y
        } else {
            self.z
        }
    }
}

/// A 2-component integer vector (texture coordinates).
#[derive(Clone, Copy, PartialEq, Eq, Structural, Debug)]
pub struct Vec2 {
    pub x: i64,
    pub y: i64,
}

impl Vec2 {
    pub fn new(x: i64, y: i64) -> (v: Vec2)
        ensures
            v == (Vec2 { x, y }),
    {
        Vec2 { x, y }
    }
}

/// A triangle: three vertex indices and a material index.
#[derive(Clone, Copy, PartialEq, Eq, Structural, Debug)]
pub struct Triangle {
    pub p0: u32,
    pub p1: u32,
    pub p2: u32,
    pub mat_idx: u32,
}

impl Triangle {
    pub fn new(p0: u32, p1: u32, p2: u32, mat_idx: u32) -> (t: Triangle)
        ensures
            t == (Triangle { p0, p1, p2, mat_idx }),
    {
        Triangle { p0, p1, p2, mat_idx }
    }
}

/// One vertex reference of a mesh face: indices into the position, texture
/// coordinate and normal arrays.  A zero stands for "not given"; a negative
/// index counts from the end of its array, as `normalize` resolves.
#[derive(Clone, Copy, PartialEq, Eq, Structural, Debug)]
pub struct IndexBundle {
    pub pos_idx: i32,
    pub tex_idx: i32,
    pub nor_idx: i32,
}

/// One component of a bundle with a negative index resolved against the
/// length of its array.
pub open spec fn normalized_idx(idx: int, len: int) -> int {
    if idx < 0 {
        idx + len
    } else {
        idx
    }
}

impl IndexBundle {
    /// The bundle with negative indices resolved against the given lengths.
    pub open spec fn normalized(self, pos_len: int, tex_len: int, nor_len: int) -> IndexBundle {
        IndexBundle {
            pos_idx: normalized_idx(self.pos_idx as int, pos_len) as i32,
            tex_idx: normalized_idx(self.tex_idx as int, tex_len) as i32,
            nor_idx: normalized_idx(self.nor_idx as int, nor_len) as i32,
        }
    }

    pub fn new_default() -> (b: IndexBundle)
        ensures
            b == (IndexBundle { pos_idx: 0, tex_idx: 0, nor_idx: 0 }),
    {
        IndexBundle { pos_idx: 0, tex_idx: 0, nor_idx: 0 }
    }

    /// Resolve negative (relative) indices against the array lengths.
    pub fn normalize(&mut self, pos_len: i32, tex_len: i32, nor_len: i32)
        requires
            pos_len >= 0,
            tex_len >= 0,
            nor_len >= 0,
        ensures
            *final(self) == old(self).normalized(pos_len as int, tex_len as int, nor_len as int),
    {
        if self.pos_idx < 0 {
            self.pos_idx += pos_len;
        }
        if self.tex_idx < 0 {
            self.tex_idx += tex_len;
        }
        if self.nor_idx < 0 {
            self.nor_idx += nor_len;
        }
    }
}

/// An axis-aligned bounding box given by its two extreme corners.
#[derive(Clone, Copy, PartialEq, Eq, Structural, Debug)]
pub struct AABB {
    pub min: Vec3,
    pub max: Vec3,
}

impl AABB {
    /// The corners are in order: no component of `min` exceeds `max`.
    pub open spec fn ordered(self) -> bool {
        &&& self.min.x <= self.max.x
        &&& self.min.y <= self.max.y
        &&& self.min.z <= self.max.z
    }

    /// Corners ordered and within the centroid coordinate range, so that
    /// extents and the area score cannot overflow.
    pub open spec fn wf(self) -> bool {
        &&& centroid_in_range(self.min)
        &&& centroid_in_range(self.max)
        &&& self.ordered()
    }

    pub open spec fn contains_point(self, p: Vec3) -> bool {
        &&& self.min.x <= p.x <= self.max.x
        &&& self.min.y <= p.y <= self.max.y
        &&& self.min.z <= p.z <= self.max.z
    }

    pub open spec fn contains_box(self, inner: AABB) -> bool {
        &&& self.min.x <= inner.min.x
        &&& self.min.y <= inner.min.y
        &&& self.min.z <= inner.min.z
        &&& inner.max.x <= self.max.x
        &&& inner.max.y <= self.max.y
        &&& inner.max.z <= self.max.z
    }

    /// The SAH area score `ex*ey + ey*ez + ez*ex` with `e = max - min`:
    /// half the true surface area.  Only ever compared against itself, so the
    /// missing factor of two is deliberate and must stay.
    pub open spec fn spec_area(self) -> int {
        let ex = self.max.x - self.min.x;
        let ey = self.max.y - self.min.y;
        let ez = self.max.z - self.min.z;
        ex * ey + ey * ez + ez * ex
    }

    pub fn new(min: Vec3, max: Vec3) -> (bb: AABB)
        ensures
            bb == (AABB { min, max }),
    {
        AABB { min, max }
    }

    /// Grow the box so that it also covers `point`.
    pub fn expand(&mut self, point: &Vec3)
        ensures
            final(self).min.x == if point.x < old(self).min.x { point.x } else { old(self).min.x },
            final(self).min.y == if point.y < old(self).min.y { point.y } else { old(self).min.y },
            final(self).min.z == if point.z < old(self).min.z { point.z } else { old(self).min.z },
            final(self).max.x == if point.x > old(self).max.x { point.x } else { old(self).max.x },
            final(self).max.y == if point.y > old(self).max.y { point.y } else { old(self).max.y },
            final(self).max.z == if point.z > old(self).max.z { point.z } else { old(self).max.z },
            final(self).contains_point(*point),
            final(self).contains_box(*old(self)),
    {
        if point.x < self.min.x {
            self.min.x = point.x;
        }
        if point.y < self.min.y {
            self.min.y = point.y;
        }
        if point.z < self.min.z {
            self.min.z = point.z;
        }
        if point.x > self.max.x {
            self.max.x = point.x;
        }
        if point.y > self.max.y {
            self.max.y = point.y;
        }
        if point.z > self.max.z {
            self.max.z = point.z;
        }
    }

    /// The area score, computed in 128-bit arithmetic.
    pub fn area(&self) -> (a: u128)
        requires
            self.wf(),
        ensures
            a as int == self.spec_area(),
    {
        let ex = (self.max.x - self.min.x) as u128;
        let ey = (self.max.y - self.min.y) as u128;
        let ez = (self.max.z - self.min.z) as u128;
        proof {
            assert(ex <= 6_000_000_000 && ey <= 6_000_000_000 && ez <= 6_000_000_000);
            assert(ex * ey <= 36_000_000_000_000_000_000u128 && ey * ez
                <= 36_000_000_000_000_000_000u128 && ez * ex <= 36_000_000_000_000_000_000u128)
                by (nonlinear_arith)
                requires
                    ex <= 6_000_000_000 && ey <= 6_000_000_000 && ez <= 6_000_000_000,
            ;
        }
        ex * ey + ey * ez + ez * ex
    }
}

/// Incremental bounding-box accumulator: starts empty, absorbs points.
/// An accumulator that has absorbed nothing is a distinct empty state, never
/// a zero-sized box at the origin.
#[derive(Clone, Copy, PartialEq, Eq, Structural, Debug)]
pub struct AABBBuilder {
    pub aabb: Option<AABB>,
}

impl AABBBuilder {
    pub open spec fn wf(self) -> bool {
        match self.aabb {
            Option::None => true,
            Option::Some(bb) => bb.wf(),
        }
    }

    pub open spec fn ordered(self) -> bool {
        match self.aabb {
            Option::None => true,
            Option::Some(bb) => bb.ordered(),
        }
    }

    /// Every point absorbed so far lies inside the accumulated box.
    pub open spec fn covers(self, p: Vec3) -> bool {
        match self.aabb {
            Option::None => false,
            Option::Some(bb) => bb.contains_point(p),
        }
    }

    pub fn new() -> (b: AABBBuilder)
        ensures
            b.aabb is None,
    {
        AABBBuilder { aabb: None }
    }

    /// Absorb one point, expanding the extent.
    pub fn expand(&mut self, point: &Vec3)
        ensures
            final(self).aabb is Some,
            old(self).aabb is None ==> final(self).aabb == Some(
                AABB { min: *point, max: *point },
            ),
            old(self).aabb is Some ==> {
                let mut prev = old(self).aabb->0;
                let mut cur = final(self).aabb->0;
                &&& cur.contains_box(prev)
                &&& cur.contains_point(*point)
                &&& cur.min.x == if point.x < prev.min.x { point.x } else { prev.min.x }
                &&& cur.min.y == if point.y < prev.min.y { point.y } else { prev.min.y }
                &&& cur.min.z == if point.z < prev.min.z { point.z } else { prev.min.z }
                &&& cur.max.x == if point.x > prev.max.x { point.x } else { prev.max.x }
                &&& cur.max.y == if point.y > prev.max.y { point.y } else { prev.max.y }
                &&& cur.max.z == if point.z > prev.max.z { point.z } else { prev.max.z }
            },
    {
        match &mut self.aabb {
            None => self.aabb = Some(AABB { min: *point, max: *point }),
            Some(bb) => bb.expand(point),
        }
    }

    /// Merge another accumulator's absorbed extent, if any.
    pub fn expand_other(&mut self, other: &AABBBuilder)
        requires
            other.ordered(),
        ensures
            other.aabb is None ==> *final(self) == *old(self),
            other.aabb is Some && old(self).aabb is None ==> final(self).aabb == Some(
                other.aabb->0,
            ),
            other.aabb is Some && old(self).aabb is Some ==> {
                let mut prev = old(self).aabb->0;
                let mut ob = other.aabb->0;
                let mut cur = final(self).aabb->0;
                &&& final(self).aabb is Some
                &&& cur.contains_box(prev)
                &&& cur.contains_box(ob)
                &&& cur.min.x == if ob.min.x < prev.min.x { ob.min.x } else { prev.min.x }
                &&& cur.min.y == if ob.min.y < prev.min.y { ob.min.y } else { prev.min.y }
                &&& cur.min.z == if ob.min.z < prev.min.z { ob.min.z } else { prev.min.z }
                &&& cur.max.x == if ob.max.x > prev.max.x { ob.max.x } else { prev.max.x }
                &&& cur.max.y == if ob.max.y > prev.max.y { ob.max.y } else { prev.max.y }
                &&& cur.max.z == if ob.max.z > prev.max.z { ob.max.z } else { prev.max.z }
            },
    {
        match other.aabb {
            None => {},
            Some(bb) => {
                self.expand(&bb.min);
                self.expand(&bb.max);
            },
        }
    }

    /// Finalize: an accumulator that absorbed nothing yields the degenerate
    /// zero box, used only as a safe default.
    pub fn build(self) -> (bb: AABB)
        ensures
            self.aabb is Some ==> bb == self.aabb->0,
            self.aabb is None ==> bb == (AABB {
                min: Vec3 { x: 0, y: 0, z: 0 },
                max: Vec3 { x: 0, y: 0, z: 0 },
            }),
    {
        match self.aabb {
            None => AABB::new(Vec3::new(0, 0, 0), Vec3::new(0, 0, 0)),
            Some(bb) => bb,
        }
    }

    /// Area score of the absorbed extent; an empty accumulator scores zero.
    pub fn area(&self) -> (a: u128)
        requires
            self.wf(),
        ensures
            self.aabb is Some ==> a as int == self.aabb->0.spec_area(),
            self.aabb is None ==> a == 0,
    {
        match &self.aabb {
            None => 0,
            Some(bb) => bb.area(),
        }
    }
}

/// Per-axis binning record used inside one split evaluation: a triangle
/// count and the bounds of the triangles that fell into the bin.
#[derive(Clone, Copy, PartialEq, Eq, Structural, Debug)]
pub struct Bin {
    pub bounds: AABBBuilder,
    pub tri_count: u32,
}

impl Bin {
    pub fn new() -> (b: Bin)
        ensures
            b.bounds.aabb is None,
            b.tri_count == 0,
    {
        Bin { bounds: AABBBuilder::new(), tri_count: 0 }
    }
}

/// A flat BVH node.  `is_leaf` is a 32-bit tag so the record keeps the
/// fixed field order (bounds, tag, a, b) required for verbatim upload.
/// For a leaf, `a`/`b` hold (first-triangle-index, triangle-count); for an
/// interior node they hold the two child node indices.
#[derive(Clone, Copy, PartialEq, Eq, Structural, Debug)]
pub struct BVHNode {
    pub bounds: AABB,
    pub is_leaf: u32,
    pub a: u32,
    pub b: u32,
}

impl BVHNode {
    pub open spec fn leaf(self) -> bool {
        self.is_leaf != 0
    }

    pub fn new_leaf(bounds: AABB, first_triangle: u32, triangle_count: u32) -> (n: BVHNode)
        ensures
            n == (BVHNode { bounds, is_leaf: 1u32, a: first_triangle, b: triangle_count }),
    {
        BVHNode { bounds, is_leaf: 1, a: first_triangle, b: triangle_count }
    }

    /// The sentinel node appended after the root so sibling pairs share a
    /// cache line: a zero-area, zero-count leaf with no semantic meaning.
    pub fn new_dummy() -> (n: BVHNode)
        ensures
            n == (BVHNode {
                bounds: AABB {
                    min: Vec3 { x: 0, y: 0, z: 0 },
                    max: Vec3 { x: 0, y: 0, z: 0 },
                },
                is_leaf: 1u32,
                a: 0u32,
                b: 0u32,
            }),
    {
        BVHNode {
            bounds: AABB::new(Vec3::new(0, 0, 0), Vec3::new(0, 0, 0)),
            is_leaf: 1,
            a: 0,
            b: 0,
        }
    }

    /// The one state transition a node ever takes: leaf to interior,
    /// keeping its bounds and adopting its two children.
    pub fn convert_to_node(&mut self, right_node: u32, left_node: u32)
        ensures
            *final(self) == (BVHNode {
                bounds: old(self).bounds,
                is_leaf: 0u32,
                a: right_node,
                b: left_node,
            }),
    {
        self.is_leaf = 0;
        self.a = right_node;
        self.b = left_node;
    }

    pub fn bounds(&self) -> (bb: &AABB)
        ensures
            *bb == self.bounds,
    {
        &self.bounds
    }

    pub fn first_triangle(&self) -> (r: u32)
        ensures
            r == self.a,
    {
        self.a
    }

    pub fn triangle_count(&self) -> (r: u32)
        ensures
            r == self.b,
    {
        self.b
    }
}

} // verus!
