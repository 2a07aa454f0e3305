//! Records of index and vertex buffer objects: the buffer name handed out
//! by the driver and the bookkeeping that goes with it.  The driver calls
//! themselves (generate, bind, upload) stay with the caller, which hands
//! the resulting ids and lengths in as plain values.

use vstd::prelude::*;

verus! {

/// An element (index) buffer: its object id and the number of indices last
/// uploaded to it.
#[derive(Debug)]
pub struct IndexBuffer {
    pub ibo: u32,
    pub size: i32,
}

impl IndexBuffer {
    /// Wrap a freshly generated buffer object; nothing uploaded yet.
    pub fn new(ibo: u32) -> (b: IndexBuffer)
        ensures
            b == (IndexBuffer { ibo, size: 0 }),
    {
        IndexBuffer { ibo, size: 0 }
    }

    /// Record that `data_len` indices were uploaded.
    pub fn buffer_data(&mut self, data_len: usize)
        requires
            data_len <= i32::MAX,
        ensures
            *final(self) == (IndexBuffer { ibo: old(self).ibo, size: data_len as i32 }),
    {
        self.size = data_len as i32;
    }

    pub fn size(&self) -> (s: i32)
        ensures
            s == self.size,
    {
        self.size
    }

    pub fn id(&self) -> (r: u32)
        ensures
            r == self.ibo,
    {
        self.ibo
    }
}

/// A vertex buffer: its object id.
#[derive(Debug)]
pub struct VertexBuffer {
    pub vbo: u32,
}

impl VertexBuffer {
    pub fn new(vbo: u32) -> (b: VertexBuffer)
        ensures
            b == (VertexBuffer { vbo }),
    {
        VertexBuffer { vbo }
    }

    pub fn id(&self) -> (r: u32)
        ensures
            r == self.vbo,
    {
        self.vbo
    }
}

} // verus!
