//! Record of a texture: its object id, extent, format and filter.  The
//! caller asks the `needs_*` queries before issuing driver calls, then
//! records the new state here; a no-change request changes nothing.

use vstd::prelude::*;
use crate::gl_types::{TextureFilter, TextureFormat};

verus! {

/// A texture with its current storage and sampling state.
#[derive(Debug)]
pub struct Texture {
    pub texture: u32,
    pub width: u32,
    pub height: u32,
    pub format: TextureFormat,
    pub filter: TextureFilter,
}

impl Texture {
    /// Wrap a texture object that was just given this storage and filter.
    pub fn new(texture: u32, width: u32, height: u32, format: TextureFormat, filter: TextureFilter)
        -> (t: Texture)
        ensures
            t == (Texture { texture, width, height, format, filter }),
    {
        Texture { texture, width, height, format, filter }
    }

    /// Whether new storage parameters differ from the current ones.
    pub fn needs_reformat(&self, width: u32, height: u32, format: &TextureFormat) -> (r: bool)
        ensures
            r == !(self.width == width && self.height == height && self.format == *format),
    {
        self.width != width || self.height != height || self.format != *format
    }

    /// Adopt new storage parameters; a no-change request leaves the record
    /// untouched.
    pub fn reformat(&mut self, width: u32, height: u32, format: TextureFormat)
        ensures
            *final(self) == (Texture {
                texture: old(self).texture,
                width,
                height,
                format,
                filter: old(self).filter,
            }),
    {
        if self.width != width || self.height != height || self.format != format {
            self.width = width;
            self.height = height;
            self.format = format;
        }
    }

    /// Adopt a new size, keeping the format.
    pub fn resize(&mut self, width: u32, height: u32)
        ensures
            *final(self) == (Texture {
                texture: old(self).texture,
                width,
                height,
                format: old(self).format,
                filter: old(self).filter,
            }),
    {
        if self.width != width || self.height != height {
            self.width = width;
            self.height = height;
        }
    }

    /// Adopt a new sampling filter.
    pub fn change_filter(&mut self, filter: TextureFilter)
        ensures
            *final(self) == (Texture { filter, ..*old(self) }),
    {
        if self.filter != filter {
            self.filter = filter;
        }
    }

    pub fn id(&self) -> (r: u32)
        ensures
            r == self.texture,
    {
        self.texture
    }

    pub fn width(&self) -> (r: u32)
        ensures
            r == self.width,
    {
        self.width
    }

    pub fn height(&self) -> (r: u32)
        ensures
            r == self.height,
    {
        self.height
    }
}

} // verus!
