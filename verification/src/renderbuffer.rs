//! Record of a renderbuffer: its object id and the storage it was last
//! given.  The caller asks `needs_reformat` before issuing the driver
//! call, then records the new storage here.

use vstd::prelude::*;
use crate::gl_types::TextureFormat;

verus! {

/// A renderbuffer with its current storage parameters.
#[derive(Debug)]
pub struct Renderbuffer {
    pub rbo: u32,
    pub width: u32,
    pub height: u32,
    pub format: TextureFormat,
}

impl Renderbuffer {
    /// Wrap a renderbuffer object that was just given this storage.
    pub fn new(rbo: u32, width: u32, height: u32, format: TextureFormat) -> (r: Renderbuffer)
        ensures
            r == (Renderbuffer { rbo, width, height, format }),
    {
        Renderbuffer { rbo, width, height, format }
    }

    /// Whether new storage parameters differ from the current ones, so the
    /// driver would have to reallocate.
    pub fn needs_reformat(&self, width: u32, height: u32, format: &TextureFormat) -> (r: bool)
        ensures
            r == !(self.width == width && self.height == height && self.format == *format),
    {
        self.width != width || self.height != height || self.format != *format
    }

    /// Adopt new storage parameters; a no-change request leaves the record
    /// untouched.
    pub fn reformat(&mut self, width: u32, height: u32, format: TextureFormat)
        ensures
            *final(self) == (Renderbuffer { rbo: old(self).rbo, width, height, format }),
    {
        if self.width != width || self.height != height || self.format != format {
            self.width = width;
            self.height = height;
            self.format = format;
        }
    }

    /// Adopt a new size, keeping the format.
    pub fn resize(&mut self, width: u32, height: u32)
        ensures
            *final(self) == (Renderbuffer {
                rbo: old(self).rbo,
                width,
                height,
                format: old(self).format,
            }),
    {
        let format = self.format;
        self.reformat(width, height, format);
    }

    pub fn id(&self) -> (r: u32)
        ensures
            r == self.rbo,
    {
        self.rbo
    }
}

} // verus!
