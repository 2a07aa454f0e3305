//! Mesh model assembly: the face records a parser hands in, the builder
//! that welds shared vertex references into one indexed vertex array, and
//! the finished model that owns the geometry the BVH is built over.

use vstd::prelude::*;
use crate::types::{Vec2, Vec3, Triangle, IndexBundle, point_in_range};
use crate::bvh::{
    BVH, BVHBuilder, bvh_wf, tris_of, work_of, spec_best_split, spec_build, count_below,
    subtree, MAX_TRIANGLES,
};

verus! {

/// One face as parsed: three vertex-reference bundles and the material
/// active when the face was read.
#[derive(Clone, Copy, PartialEq, Eq, Structural, Debug)]
pub struct IBTriangle {
    pub i0: IndexBundle,
    pub i1: IndexBundle,
    pub i2: IndexBundle,
    pub mat_idx: u32,
}

impl IBTriangle {
    pub fn new(i0: IndexBundle, i1: IndexBundle, i2: IndexBundle, mat_idx: u32) -> (r: IBTriangle)
        ensures
            r == (IBTriangle { i0, i1, i2, mat_idx }),
    {
        IBTriangle { i0, i1, i2, mat_idx }
    }
}

/// A finished mesh model: triangles over one welded vertex array, the raw
/// index stream for upload, optional texture coordinates and normals, the
/// names of the material libraries and materials it uses, and the BVH once
/// it has been built.
pub struct Model {
    pub triangles: Vec<Triangle>,
    pub indices: Vec<u32>,
    pub positions: Vec<Vec3>,
    pub tex_coords: Option<Vec<Vec2>>,
    pub normals: Option<Vec<Vec3>>,
    pub material_libs: Vec<String>,
    pub materials: Vec<String>,
    pub bvh: Option<BVH>,
}

impl Model {
    /// Geometry is well formed: every triangle references the vertex array
    /// and the sizes stay within the builder's caps.
    pub open spec fn wf(self) -> bool {
        &&& self.positions@.len() <= u32::MAX
        &&& self.triangles@.len() <= MAX_TRIANGLES
        &&& forall|i: int|
            0 <= i < self.positions@.len() ==> point_in_range(#[trigger] self.positions@[i])
        &&& forall|t: int|
            0 <= t < self.triangles@.len() ==> (#[trigger] self.triangles@[t]).p0
                < self.positions@.len() && self.triangles@[t].p1 < self.positions@.len()
                && self.triangles@[t].p2 < self.positions@.len()
    }

    pub fn triangles(&self) -> (r: &Vec<Triangle>)
        ensures
            r == &self.triangles,
    {
        &self.triangles
    }

    pub fn indices(&self) -> (r: &Vec<u32>)
        ensures
            r == &self.indices,
    {
        &self.indices
    }

    pub fn positions(&self) -> (r: &Vec<Vec3>)
        ensures
            r == &self.positions,
    {
        &self.positions
    }

    pub fn tex_coords(&self) -> (r: &Option<Vec<Vec2>>)
        ensures
            r == &self.tex_coords,
    {
        &self.tex_coords
    }

    pub fn normals(&self) -> (r: &Option<Vec<Vec3>>)
        ensures
            r == &self.normals,
    {
        &self.normals
    }

    pub fn has_tex_coords(&self) -> (r: bool)
        ensures
            r == (self.tex_coords is Some),
    {
        self.tex_coords.is_some()
    }

    pub fn has_normals(&self) -> (r: bool)
        ensures
            r == (self.normals is Some),
    {
        self.normals.is_some()
    }

    pub fn set_triangles(&mut self, triangles: Vec<Triangle>)
        ensures
            *final(self) == (Model { triangles, ..*old(self) }),
    {
        self.triangles = triangles;
    }

    pub fn set_indices(&mut self, indices: Vec<u32>)
        ensures
            *final(self) == (Model { indices, ..*old(self) }),
    {
        self.indices = indices;
    }

    pub fn get_material_libs(&self) -> (r: &Vec<String>)
        ensures
            r == &self.material_libs,
    {
        &self.material_libs
    }

    pub fn get_materials(&self) -> (r: &Vec<String>)
        ensures
            r == &self.materials,
    {
        &self.materials
    }

    pub fn get_bvh(&self) -> (r: Option<&BVH>)
        ensures
            r is Some <==> self.bvh is Some,
            r matches Some(b) ==> *b == self.bvh->0,
    {
        self.bvh.as_ref()
    }

    /// Build the BVH over this model's triangles.
    ///
    /// The model adopts the leaf-contiguous triangle order the builder
    /// produces — the same triangles, only reordered — and keeps the
    /// finished tree: a well-formed hierarchy over `[0, n)` with at most
    /// `2n` nodes (sentinel included), every node but the sentinel hanging
    /// off the root.  Tree and order equal `spec_build` over the model's
    /// geometry, so rebuilding an identical model gives identical results.
    pub fn build_bvh(&mut self)
        requires
            old(self).wf(),
        ensures
            final(self).wf(),
            final(self).bvh is Some,
            bvh_wf(final(self).bvh->0.nodes@, final(self).triangles@.len() as int),
            final(self).triangles@.len() == old(self).triangles@.len(),
            final(self).triangles@.to_multiset() == old(self).triangles@.to_multiset(),
            old(self).triangles@.len() == 0 ==> final(self).bvh->0.nodes@.len() == 2,
            old(self).triangles@.len() >= 1 ==> final(self).bvh->0.nodes@.len() <= 2 * old(
                self,
            ).triangles@.len(),
            final(self).positions == old(self).positions,
            final(self).indices == old(self).indices,
            final(self).tex_coords == old(self).tex_coords,
            final(self).normals == old(self).normals,
            final(self).material_libs == old(self).material_libs,
            final(self).materials == old(self).materials,
            forall|j: int|
                0 <= j < final(self).bvh->0.nodes@.len() && j != 1 ==> #[trigger] subtree(
                    final(self).bvh->0.nodes@,
                    0,
                ).contains(j),
            ({
                let n = old(self).triangles@.len() as int;
                let w = work_of(old(self).triangles@, old(self).positions@);
                let best = spec_best_split(w, old(self).positions@, 0, n);
                final(self).bvh->0.nodes@[0].leaf() <==> (n <= 1 || best is None || (
                best matches Some(t) && (n * final(self).bvh->0.nodes@[0].bounds.spec_area()
                    <= t.2 as int || count_below(w, 0, n, t.0 as int, t.1 as int) == 0
                    || count_below(w, 0, n, t.0 as int, t.1 as int) == n)))
            }),
            final(self).bvh->0.nodes@ == spec_build(
                work_of(old(self).triangles@, old(self).positions@),
                old(self).positions@,
            ).1,
            final(self).triangles@ == tris_of(
                spec_build(
                    work_of(old(self).triangles@, old(self).positions@),
                    old(self).positions@,
                ).0,
            ),
    {
        let positions = self.positions.clone();
        proof {
            assert(positions@ =~= self.positions@);
        }
        let builder = BVHBuilder::new(&self.triangles, positions);
        let ghost work = builder.triangles@;
        let (bvh, tris) = builder.build();
        proof {
            broadcast use vstd::seq_lib::group_to_multiset_ensures;

            assert(tris_of(work) == self.triangles@);
            assert(tris@.to_multiset() == self.triangles@.to_multiset());
            assert forall|t: int|
                0 <= t < tris@.len() implies (#[trigger] tris@[t]).p0 < self.positions@.len()
                && tris@[t].p1 < self.positions@.len() && tris@[t].p2
                < self.positions@.len() by {
                assert(tris@.contains(tris@[t]));
                assert(self.triangles@.to_multiset().count(tris@[t]) > 0);
                assert(self.triangles@.contains(tris@[t]));
                let j = choose|j: int|
                    0 <= j < self.triangles@.len() && self.triangles@[j] == tris@[t];
            }
        }
        self.triangles = tris;
        self.bvh = Some(bvh);
    }
}

/// Position of `ib` among the bundles welded so far, if it is one of them.
fn find_bundle(seen: &Vec<IndexBundle>, ib: IndexBundle) -> (r: Option<usize>)
    ensures
        r matches Some(e) ==> e < seen@.len() && seen@[e as int] == ib,
        r is None ==> forall|j: int| 0 <= j < seen@.len() ==> seen@[j] != ib,
{
    let n = seen.len();
    let mut i: usize = 0;
    while i < n
        invariant
            n == seen@.len(),
            i <= n,
            forall|j: int| 0 <= j < i ==> seen@[j] != ib,
        decreases n - i,
    {
        if seen[i] == ib {
            return Some(i);
        }
        i += 1;
    }
    None
}

/// Accumulates parsed mesh data — positions, texture coordinates, normals,
/// faces, material names — and welds it into a `Model`.
pub struct ModelBuilder {
    pub indices: Vec<IBTriangle>,
    pub positions: Vec<Vec3>,
    pub tex_coords: Vec<Vec2>,
    pub normals: Vec<Vec3>,
    pub material_libs: Vec<String>,
    pub materials: Vec<String>,
    pub current_mat: u32,
}

impl ModelBuilder {
    /// Accumulated data stays within the caps the weld needs.
    pub open spec fn wf(self) -> bool {
        &&& self.indices@.len() <= MAX_TRIANGLES
        &&& self.positions@.len() <= i32::MAX
        &&& self.tex_coords@.len() <= i32::MAX
        &&& self.normals@.len() <= i32::MAX
        &&& self.materials@.len() <= u32::MAX
        &&& forall|i: int|
            0 <= i < self.positions@.len() ==> point_in_range(#[trigger] self.positions@[i])
    }

    /// Bundle `k` (0, 1 or 2) of face `t`, with negative indices resolved.
    pub open spec fn face_bundle(self, t: int, k: int) -> IndexBundle {
        let f = self.indices@[t];
        let ib = if k == 0 {
            f.i0
        } else if k == 1 {
            f.i1
        } else {
            f.i2
        };
        ib.normalized(
            self.positions@.len() as int,
            self.tex_coords@.len() as int,
            self.normals@.len() as int,
        )
    }

    /// Every face references existing positions, and — where the builder
    /// holds texture coordinates or normals at all — existing entries of
    /// those arrays too.  The weld requires this of its input.
    pub open spec fn faces_valid(self) -> bool {
        forall|t: int, k: int|
            0 <= t < self.indices@.len() && 0 <= k < 3 ==> {
                let ib = #[trigger] self.face_bundle(t, k);
                &&& 0 <= ib.pos_idx < self.positions@.len()
                &&& self.tex_coords@.len() > 0 ==> 0 <= ib.tex_idx < self.tex_coords@.len()
                &&& self.normals@.len() > 0 ==> 0 <= ib.nor_idx < self.normals@.len()
            }
    }

    pub fn new() -> (b: ModelBuilder)
        ensures
            b.indices@.len() == 0,
            b.positions@.len() == 0,
            b.tex_coords@.len() == 0,
            b.normals@.len() == 0,
            b.material_libs@.len() == 0,
            b.materials@.len() == 0,
            b.current_mat == 0,
            b.wf(),
    {
        ModelBuilder {
            indices: Vec::new(),
            positions: Vec::new(),
            tex_coords: Vec::new(),
            normals: Vec::new(),
            material_libs: Vec::new(),
            materials: Vec::new(),
            current_mat: 0,
        }
    }

    /// Record one face under the current material.
    pub fn add_indices(&mut self, i0: IndexBundle, i1: IndexBundle, i2: IndexBundle)
        requires
            old(self).indices@.len() < MAX_TRIANGLES,
        ensures
            *final(self) == (ModelBuilder {
                indices: final(self).indices,
                ..*old(self)
            }),
            final(self).indices@ == old(self).indices@.push(
                IBTriangle { i0, i1, i2, mat_idx: old(self).current_mat },
            ),
    {
        let mat_idx = self.current_mat;
        self.indices.push(IBTriangle { i0, i1, i2, mat_idx });
    }

    pub fn add_position(&mut self, position: Vec3)
        requires
            point_in_range(position),
            old(self).positions@.len() < i32::MAX,
        ensures
            *final(self) == (ModelBuilder {
                positions: final(self).positions,
                ..*old(self)
            }),
            final(self).positions@ == old(self).positions@.push(position),
    {
        self.positions.push(position);
    }

    pub fn add_tex_coord(&mut self, tex_coord: Vec2)
        requires
            old(self).tex_coords@.len() < i32::MAX,
        ensures
            *final(self) == (ModelBuilder {
                tex_coords: final(self).tex_coords,
                ..*old(self)
            }),
            final(self).tex_coords@ == old(self).tex_coords@.push(tex_coord),
    {
        self.tex_coords.push(tex_coord);
    }

    pub fn add_normal(&mut self, normal: Vec3)
        requires
            old(self).normals@.len() < i32::MAX,
        ensures
            *final(self) == (ModelBuilder {
                normals: final(self).normals,
                ..*old(self)
            }),
            final(self).normals@ == old(self).normals@.push(normal),
    {
        self.normals.push(normal);
    }

    /// Record a material library, once per name.
    pub fn add_material_lib(&mut self, lib: String)
        ensures
            *final(self) == (ModelBuilder {
                material_libs: final(self).material_libs,
                ..*old(self)
            }),
            (exists|j: int|
                0 <= j < old(self).material_libs@.len() && (
                #[trigger] old(self).material_libs@[j])@ == lib@) ==> final(self).material_libs
                == old(self).material_libs,
            !(exists|j: int|
                0 <= j < old(self).material_libs@.len() && (
                #[trigger] old(self).material_libs@[j])@ == lib@) ==> final(self).material_libs@
                == old(self).material_libs@.push(lib),
    {
        let n = self.material_libs.len();
        let mut i: usize = 0;
        while i < n
            invariant
                *self == *old(self),
                n == self.material_libs@.len(),
                i <= n,
                forall|j: int| 0 <= j < i ==> (#[trigger] self.material_libs@[j])@ != lib@,
            decreases n - i,
        {
            if self.material_libs[i].eq(&lib) {
                return ;
            }
            i += 1;
        }
        self.material_libs.push(lib);
    }

    /// Make `mat` the current material, assigning it the next fresh index
    /// the first time it is seen.
    pub fn add_material(&mut self, mat: String)
        requires
            old(self).materials@.len() < u32::MAX,
        ensures
            *final(self) == (ModelBuilder {
                materials: final(self).materials,
                current_mat: final(self).current_mat,
                ..*old(self)
            }),
            final(self).current_mat < final(self).materials@.len(),
            final(self).materials@[final(self).current_mat as int]@ == mat@,
            forall|j: int|
                0 <= j < old(self).materials@.len() ==> #[trigger] final(self).materials@[j]
                    == old(self).materials@[j],
            final(self).materials@.len() == old(self).materials@.len() || final(self).materials@.len() == old(self).materials@.len() + 1,
    {
        let n = self.materials.len();
        let mut i: usize = 0;
        while i < n
            invariant
                *self == *old(self),
                n == self.materials@.len() < u32::MAX,
                i <= n,
            decreases n - i,
        {
            if self.materials[i].eq(&mat) {
                self.current_mat = i as u32;
                return ;
            }
            i += 1;
        }
        self.current_mat = self.materials.len() as u32;
        self.materials.push(mat);
    }

    /// Weld the accumulated data into a `Model`.
    ///
    /// Every face bundle is resolved, each distinct bundle gets exactly one
    /// slot in the welded vertex arrays, and each face becomes one triangle
    /// over the welded indices, carrying its material.  The welded arrays
    /// reference back into the accumulated data slot by slot.
    #[verifier::rlimit(50)]
    pub fn build(self) -> (r: Model)
        requires
            self.wf(),
            self.faces_valid(),
        ensures
            r.wf(),
            r.bvh is None,
            r.triangles@.len() == self.indices@.len(),
            r.indices@.len() == 3 * self.indices@.len(),
            forall|t: int|
                0 <= t < self.indices@.len() ==> (#[trigger] r.triangles@[t]).mat_idx
                    == self.indices@[t].mat_idx,
            forall|t: int|
                0 <= t < self.indices@.len() ==> {
                    let tri = #[trigger] r.triangles@[t];
                    &&& r.indices@[3 * t] == tri.p0
                    &&& r.indices@[3 * t + 1] == tri.p1
                    &&& r.indices@[3 * t + 2] == tri.p2
                    &&& r.positions@[tri.p0 as int] == self.positions@[self.face_bundle(
                        t,
                        0,
                    ).pos_idx as int]
                    &&& r.positions@[tri.p1 as int] == self.positions@[self.face_bundle(
                        t,
                        1,
                    ).pos_idx as int]
                    &&& r.positions@[tri.p2 as int] == self.positions@[self.face_bundle(
                        t,
                        2,
                    ).pos_idx as int]
                },
            r.tex_coords is Some <==> self.tex_coords@.len() > 0,
            r.normals is Some <==> self.normals@.len() > 0,
            r.tex_coords matches Some(tc) ==> tc@.len() == r.positions@.len(),
            r.normals matches Some(nc) ==> nc@.len() == r.positions@.len(),
            self.tex_coords@.len() > 0 ==> forall|t: int|
                0 <= t < self.indices@.len() ==> {
                    let tri = #[trigger] r.triangles@[t];
                    &&& r.tex_coords->0@[tri.p0 as int] == self.tex_coords@[self.face_bundle(
                        t,
                        0,
                    ).tex_idx as int]
                    &&& r.tex_coords->0@[tri.p1 as int] == self.tex_coords@[self.face_bundle(
                        t,
                        1,
                    ).tex_idx as int]
                    &&& r.tex_coords->0@[tri.p2 as int] == self.tex_coords@[self.face_bundle(
                        t,
                        2,
                    ).tex_idx as int]
                },
            self.normals@.len() > 0 ==> forall|t: int|
                0 <= t < self.indices@.len() ==> {
                    let tri = #[trigger] r.triangles@[t];
                    &&& r.normals->0@[tri.p0 as int] == self.normals@[self.face_bundle(
                        t,
                        0,
                    ).nor_idx as int]
                    &&& r.normals->0@[tri.p1 as int] == self.normals@[self.face_bundle(
                        t,
                        1,
                    ).nor_idx as int]
                    &&& r.normals->0@[tri.p2 as int] == self.normals@[self.face_bundle(
                        t,
                        2,
                    ).nor_idx as int]
                },
            r.material_libs == self.material_libs,
            r.materials == self.materials,
    {
        let face_count = self.indices.len();
        let pos_len = self.positions.len() as i32;
        let tex_len = self.tex_coords.len() as i32;
        let nor_len = self.normals.len() as i32;
        let has_tex = self.tex_coords.len() > 0;
        let has_nor = self.normals.len() > 0;

        // resolve every face bundle, in face order
        let mut bundles: Vec<IndexBundle> = Vec::new();
        let mut t: usize = 0;
        while t < face_count
            invariant
                self.wf(),
                face_count == self.indices@.len(),
                pos_len == self.positions@.len(),
                tex_len == self.tex_coords@.len(),
                nor_len == self.normals@.len(),
                t <= face_count,
                bundles@.len() == 3 * t,
                forall|tt: int, k: int|
                    0 <= tt < t && 0 <= k < 3 ==> bundles@[3 * tt + k] == #[trigger] self.face_bundle(
                        tt,
                        k,
                    ),
            decreases face_count - t,
        {
            let f = self.indices[t];
            let mut b0 = f.i0;
            b0.normalize(pos_len, tex_len, nor_len);
            bundles.push(b0);
            let mut b1 = f.i1;
            b1.normalize(pos_len, tex_len, nor_len);
            bundles.push(b1);
            let mut b2 = f.i2;
            b2.normalize(pos_len, tex_len, nor_len);
            bundles.push(b2);
            t += 1;
        }

        // weld: one slot per distinct bundle, in first-seen order
        let mut seen: Vec<IndexBundle> = Vec::new();
        let mut new_positions: Vec<Vec3> = Vec::new();
        let mut new_tex: Vec<Vec2> = Vec::new();
        let mut new_nor: Vec<Vec3> = Vec::new();
        let mut new_indices: Vec<u32> = Vec::new();
        let mut q: usize = 0;
        while q < bundles.len()
            invariant
                self.wf(),
                self.faces_valid(),
                face_count == self.indices@.len(),
                pos_len == self.positions@.len(),
                tex_len == self.tex_coords@.len(),
                nor_len == self.normals@.len(),
                has_tex == (self.tex_coords@.len() > 0),
                has_nor == (self.normals@.len() > 0),
                bundles@.len() == 3 * face_count,
                forall|tt: int, k: int|
                    0 <= tt < face_count && 0 <= k < 3 ==> bundles@[3 * tt + k]
                        == #[trigger] self.face_bundle(tt, k),
                q <= bundles@.len(),
                seen@.len() == new_positions@.len(),
                seen@.len() <= q,
                has_tex ==> new_tex@.len() == seen@.len(),
                has_nor ==> new_nor@.len() == seen@.len(),
                forall|e: int|
                    0 <= e < seen@.len() ==> #[trigger] new_positions@[e]
                        == self.positions@[seen@[e].pos_idx as int],
                has_tex ==> forall|e: int|
                    0 <= e < seen@.len() ==> #[trigger] new_tex@[e]
                        == self.tex_coords@[seen@[e].tex_idx as int],
                has_nor ==> forall|e: int|
                    0 <= e < seen@.len() ==> #[trigger] new_nor@[e]
                        == self.normals@[seen@[e].nor_idx as int],
                forall|e: int|
                    0 <= e < seen@.len() ==> point_in_range(#[trigger] new_positions@[e]),
                new_indices@.len() == q,
                forall|p: int| 0 <= p < q ==> (#[trigger] new_indices@[p]) < seen@.len(),
                forall|p: int|
                    0 <= p < q ==> seen@[(#[trigger] new_indices@[p]) as int] == bundles@[p],
            decreases bundles@.len() - q,
        {
            let ib = bundles[q];
            proof {
                let tt = q as int / 3;
                let k = q as int % 3;
                assert(0 <= tt < face_count && 0 <= k < 3 && 3 * tt + k == q);
                assert(bundles@[q as int] == self.face_bundle(tt, k));
            }
            match find_bundle(&seen, ib) {
                Option::Some(e) => {
                    new_indices.push(e as u32);
                },
                Option::None => {
                    let e = seen.len();
                    seen.push(ib);
                    new_positions.push(self.positions[ib.pos_idx as usize]);
                    if has_tex {
                        new_tex.push(self.tex_coords[ib.tex_idx as usize]);
                    }
                    if has_nor {
                        new_nor.push(self.normals[ib.nor_idx as usize]);
                    }
                    new_indices.push(e as u32);
                },
            }
            q += 1;
        }

        // one triangle per face over the welded indices
        let mut new_triangles: Vec<Triangle> = Vec::new();
        let mut t: usize = 0;
        while t < face_count
            invariant
                self.wf(),
                face_count == self.indices@.len(),
                t <= face_count,
                new_indices@.len() == 3 * face_count,
                seen@.len() == new_positions@.len() <= 3 * face_count,
                forall|p: int|
                    0 <= p < new_indices@.len() ==> (#[trigger] new_indices@[p]) < seen@.len(),
                new_triangles@.len() == t,
                forall|tt: int|
                    0 <= tt < t ==> (#[trigger] new_triangles@[tt]) == (Triangle {
                        p0: new_indices@[3 * tt],
                        p1: new_indices@[3 * tt + 1],
                        p2: new_indices@[3 * tt + 2],
                        mat_idx: self.indices@[tt].mat_idx,
                    }),
            decreases face_count - t,
        {
            let f = self.indices[t];
            let tri = Triangle::new(
                new_indices[3 * t],
                new_indices[3 * t + 1],
                new_indices[3 * t + 2],
                f.mat_idx,
            );
            new_triangles.push(tri);
            t += 1;
        }

        Model {
            triangles: new_triangles,
            indices: new_indices,
            positions: new_positions,
            tex_coords: if has_tex {
                Some(new_tex)
            } else {
                None
            },
            normals: if has_nor {
                Some(new_nor)
            } else {
                None
            },
            material_libs: self.material_libs,
            materials: self.materials,
            bvh: None,
        }
    }

    pub fn get_current_mat(&self) -> (r: u32)
        ensures
            r == self.current_mat,
    {
        self.current_mat
    }
}

} // verus!

