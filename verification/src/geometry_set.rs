//! Records of a vertex-array object and of the buffer/attribute layout a
//! geometry set is built from.  The layout arithmetic (attribute sizes,
//! strides, offsets) is computed here; the driver calls that apply it stay
//! with the caller.

use vstd::prelude::*;
use crate::buffer::{IndexBuffer, VertexBuffer};
use crate::gl_types::{AttributeType, Primitive};

verus! {

/// Cap on one attribute's component count, so layout sums stay in `i32`.
pub const MAX_ATTRIBUTE_DIMENSION: i32 = 4096;

/// Cap on the number of attributes of one buffer.
pub const MAX_ATTRIBUTES: usize = 4096;

/// A drawable geometry set: its vertex-array object, how many indices to
/// draw and with which primitive topology.
#[derive(Debug)]
pub struct GeometrySet {
    pub vao: u32,
    pub draw_count: i32,
    pub primitives: Primitive,
}

impl GeometrySet {
    pub fn new(vao: u32, draw_count: i32, primitives: Primitive) -> (g: GeometrySet)
        ensures
            g == (GeometrySet { vao, draw_count, primitives }),
    {
        GeometrySet { vao, draw_count, primitives }
    }

    pub fn vao(&self) -> (r: u32)
        ensures
            r == self.vao,
    {
        self.vao
    }

    pub fn draw_count(&self) -> (r: i32)
        ensures
            r == self.draw_count,
    {
        self.draw_count
    }
}

/// One vertex attribute: its component count and component type.
#[derive(Clone, Copy, PartialEq, Eq, Structural, Debug)]
pub struct Attribute {
    pub dimension: i32,
    pub attr_type: AttributeType,
}

impl Attribute {
    /// Size in bytes of one vertex's worth of this attribute.
    pub open spec fn spec_size(self) -> int {
        self.dimension * self.attr_type.spec_size()
    }

    pub open spec fn wf(self) -> bool {
        0 <= self.dimension <= MAX_ATTRIBUTE_DIMENSION
    }

    pub fn size(&self) -> (s: i32)
        requires
            self.wf(),
        ensures
            s == self.spec_size(),
            0 <= s <= 8 * MAX_ATTRIBUTE_DIMENSION,
    {
        self.dimension * self.attr_type.size()
    }
}

/// Total size in bytes of the first `k` attributes.
pub open spec fn layout_size(attributes: Seq<Attribute>, k: int) -> int
    decreases k,
{
    if k <= 0 {
        0
    } else {
        layout_size(attributes, k - 1) + attributes[k - 1].spec_size()
    }
}

/// The byte sizes of a prefix of well-formed attributes stay small.
pub proof fn lemma_layout_size_bound(attributes: Seq<Attribute>, k: int)
    requires
        0 <= k <= attributes.len() <= MAX_ATTRIBUTES,
        forall|i: int| 0 <= i < attributes.len() ==> (#[trigger] attributes[i]).wf(),
    ensures
        0 <= layout_size(attributes, k) <= k * 8 * (MAX_ATTRIBUTE_DIMENSION as int),
    decreases k,
{
    if k > 0 {
        lemma_layout_size_bound(attributes, k - 1);
        assert(attributes[k - 1].spec_size() <= 8 * (MAX_ATTRIBUTE_DIMENSION as int)
            && attributes[k - 1].spec_size() >= 0) by (nonlinear_arith)
            requires
                attributes[k - 1].wf(),
                1 <= attributes[k - 1].attr_type.spec_size() <= 8,
        ;
    }
}

/// One vertex buffer with the attributes laid out in it.
#[derive(Debug)]
pub struct Buffer {
    pub vbo: u32,
    pub attributes: Vec<Attribute>,
}

impl Buffer {
    pub open spec fn wf(self) -> bool {
        &&& self.attributes@.len() <= MAX_ATTRIBUTES
        &&& forall|i: int| 0 <= i < self.attributes@.len() ==> (#[trigger] self.attributes@[i]).wf()
    }

    /// Distance in bytes between two vertices of this buffer: the sum of
    /// all its attribute sizes.
    pub fn stride(&self) -> (s: i32)
        requires
            self.wf(),
        ensures
            s == layout_size(self.attributes@, self.attributes@.len() as int),
    {
        let n = self.attributes.len();
        let mut total: i32 = 0;
        let mut i: usize = 0;
        while i < n
            invariant
                self.wf(),
                n == self.attributes@.len(),
                i <= n,
                total == layout_size(self.attributes@, i as int),
            decreases n - i,
        {
            proof {
                lemma_layout_size_bound(self.attributes@, i as int);
                lemma_layout_size_bound(self.attributes@, i + 1);
            }
            total = total + self.attributes[i].size();
            i += 1;
        }
        total
    }

    /// Offset in bytes of attribute `k` within one vertex: the sum of the
    /// sizes before it.
    pub fn offset_of(&self, k: usize) -> (s: i32)
        requires
            self.wf(),
            k <= self.attributes@.len(),
        ensures
            s == layout_size(self.attributes@, k as int),
    {
        let mut total: i32 = 0;
        let mut i: usize = 0;
        while i < k
            invariant
                self.wf(),
                k <= self.attributes@.len(),
                i <= k,
                total == layout_size(self.attributes@, i as int),
            decreases k - i,
        {
            proof {
                lemma_layout_size_bound(self.attributes@, i as int);
                lemma_layout_size_bound(self.attributes@, i + 1);
            }
            total = total + self.attributes[i].size();
            i += 1;
        }
        total
    }
}

/// Collects vertex buffers and their attribute layouts before a geometry
/// set is assembled.
#[derive(Debug)]
pub struct GeometrySetBuilder {
    pub buffers: Vec<Buffer>,
}

impl GeometrySetBuilder {
    pub open spec fn wf(self) -> bool {
        forall|i: int| 0 <= i < self.buffers@.len() ==> (#[trigger] self.buffers@[i]).wf()
    }

    pub fn new() -> (b: GeometrySetBuilder)
        ensures
            b.buffers@.len() == 0,
            b.wf(),
    {
        GeometrySetBuilder { buffers: Vec::new() }
    }

    /// Start laying out attributes in a further vertex buffer.
    pub fn add_buffer(self, buffer: &VertexBuffer) -> (r: GeometrySetBuilder)
        requires
            self.wf(),
        ensures
            r.wf(),
            r.buffers@.len() == self.buffers@.len() + 1,
            forall|i: int| 0 <= i < self.buffers@.len() ==> r.buffers@[i] == self.buffers@[i],
            r.buffers@.last().vbo == buffer.vbo,
            r.buffers@.last().attributes@.len() == 0,
    {
        let mut b = self;
        b.buffers.push(Buffer { vbo: buffer.id(), attributes: Vec::new() });
        b
    }

    /// Append one attribute to the buffer added last.  With no buffer yet,
    /// the call changes nothing.
    pub fn add_attribute(self, dimension: i32, attr_type: AttributeType) -> (r: GeometrySetBuilder)
        requires
            self.wf(),
            0 <= dimension <= MAX_ATTRIBUTE_DIMENSION,
        ensures
            r.wf(),
            self.buffers@.len() == 0 ==> r.buffers@ == self.buffers@,
            self.buffers@.len() > 0 ==> {
                let li = self.buffers@.len() - 1;
                &&& r.buffers@.len() == self.buffers@.len()
                &&& forall|i: int| 0 <= i < li ==> r.buffers@[i] == self.buffers@[i]
                &&& r.buffers@[li].vbo == self.buffers@[li].vbo
                &&& (self.buffers@[li].attributes@.len() < MAX_ATTRIBUTES
                    ==> r.buffers@[li].attributes@ == self.buffers@[li].attributes@.push(
                    (Attribute { dimension, attr_type }),
                ))
                &&& (self.buffers@[li].attributes@.len() >= MAX_ATTRIBUTES
                    ==> r.buffers@[li].attributes@ == self.buffers@[li].attributes@)
            },
    {
        let mut b = self;
        let n = b.buffers.len();
        if n > 0 {
            let mut last = Buffer { vbo: b.buffers[n - 1].vbo, attributes: Vec::new() };
            core::mem::swap(&mut last, &mut b.buffers[n - 1]);
            if last.attributes.len() < MAX_ATTRIBUTES {
                last.attributes.push(Attribute { dimension, attr_type });
            }
            core::mem::swap(&mut last, &mut b.buffers[n - 1]);
        }
        b
    }

    pub fn buffer_layouts(&self) -> (r: &Vec<Buffer>)
        ensures
            r == &self.buffers,
    {
        &self.buffers
    }

    /// Assemble the records of a full-screen square: six indices over the
    /// four corners of the unit square, laid out as one two-component
    /// float attribute in one vertex buffer.  The caller supplies the
    /// generated object ids, scales the corners to its vertex format,
    /// uploads both arrays and applies the returned layout.
    pub fn create_square_geometry(vao: u32, ibo: u32, vbo: u32) -> (r: (
        GeometrySet,
        IndexBuffer,
        VertexBuffer,
        GeometrySetBuilder,
    ))
        ensures
            r.0 == (GeometrySet { vao, draw_count: 6, primitives: Primitive::Triangles }),
            r.1.ibo == ibo,
            r.1.size == 6,
            r.2.vbo == vbo,
            r.3.wf(),
            r.3.buffers@.len() == 1,
            r.3.buffers@[0].vbo == vbo,
            r.3.buffers@[0].attributes@ =~= seq![
                (Attribute { dimension: 2, attr_type: AttributeType::Float }),
            ],
    {
        let vertex_buffer = VertexBuffer::new(vbo);
        let mut index_buffer = IndexBuffer::new(ibo);
        index_buffer.buffer_data(6);
        let layout = GeometrySetBuilder::new().add_buffer(&vertex_buffer).add_attribute(
            2,
            AttributeType::Float,
        );
        let set = GeometrySet::new(vao, index_buffer.size(), Primitive::Triangles);
        (set, index_buffer, vertex_buffer, layout)
    }
}

/// The index array of the full-screen square: two triangles over its four
/// corners.
pub fn square_indices() -> (r: Vec<i32>)
    ensures
        r@ =~= seq![0i32, 2i32, 1i32, 0i32, 2i32, 3i32],
{
    let mut v: Vec<i32> = Vec::new();
    v.push(0);
    v.push(2);
    v.push(1);
    v.push(0);
    v.push(2);
    v.push(3);
    v
}

/// The corner array of the unit square, one `(x, y)` pair per corner; a
/// caller scales these to its vertex format.
pub fn square_corners() -> (r: Vec<(i64, i64)>)
    ensures
        r@ =~= seq![(-1i64, -1i64), (-1i64, 1i64), (1i64, 1i64), (1i64, -1i64)],
{
    let mut v: Vec<(i64, i64)> = Vec::new();
    v.push((-1, -1));
    v.push((-1, 1));
    v.push((1, 1));
    v.push((1, -1));
    v
}

} // verus!
