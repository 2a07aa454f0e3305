//! Record of a framebuffer: its object id and which attachment points have
//! been filled.  The attachment bookkeeping here decides the draw-buffer
//! list; the caller translates each attachment to its driver constant.

use vstd::prelude::*;
use crate::gl_types::TextureAttachment;
use crate::renderbuffer::Renderbuffer;
use crate::texture::Texture;

verus! {

/// A framebuffer and the attachments recorded on it.
#[derive(Debug)]
pub struct Framebuffer {
    pub fbo: u32,
    pub color_textures: Vec<u32>,
    pub depth_texture: bool,
    pub stencil_texture: bool,
    pub depth_stencil_texture: bool,
}

/// The attachment bookkeeping one new attachment causes: a color
/// attachment joins the color list, the other kinds set their flag.
pub open spec fn attach_spec(
    pre: Framebuffer,
    post: Framebuffer,
    attachment: TextureAttachment,
) -> bool {
    &&& post.fbo == pre.fbo
    &&& match attachment {
        TextureAttachment::Color(idx) => {
            &&& post.color_textures@ == pre.color_textures@.push(idx)
            &&& post.depth_texture == pre.depth_texture
            &&& post.stencil_texture == pre.stencil_texture
            &&& post.depth_stencil_texture == pre.depth_stencil_texture
        },
        TextureAttachment::Depth => post == (Framebuffer { depth_texture: true, ..pre }),
        TextureAttachment::Stencil => post == (Framebuffer { stencil_texture: true, ..pre }),
        TextureAttachment::DepthStencil => post == (Framebuffer {
            depth_stencil_texture: true,
            ..pre
        }),
    }
}

impl Framebuffer {
    /// Wrap a freshly generated framebuffer object with no attachments.
    pub fn new(fbo: u32) -> (fb: Framebuffer)
        ensures
            fb.fbo == fbo,
            fb.color_textures@.len() == 0,
            !fb.depth_texture,
            !fb.stencil_texture,
            !fb.depth_stencil_texture,
    {
        Framebuffer {
            fbo,
            color_textures: Vec::new(),
            depth_texture: false,
            stencil_texture: false,
            depth_stencil_texture: false,
        }
    }

    /// Record that `texture` was attached at `attachment`.
    pub fn attach_texture(&mut self, texture: &Texture, attachment: TextureAttachment)
        ensures
            attach_spec(*old(self), *final(self), attachment),
    {
        self.attach(&attachment);
    }

    /// Record that `rbo` was attached at `attachment`.
    pub fn attach_renderbuffer(&mut self, rbo: &Renderbuffer, attachment: TextureAttachment)
        ensures
            attach_spec(*old(self), *final(self), attachment),
    {
        self.attach(&attachment);
    }

    fn attach(&mut self, attachment: &TextureAttachment)
        ensures
            attach_spec(*old(self), *final(self), *attachment),
    {
        match attachment {
            TextureAttachment::Color(idx) => self.color_textures.push(*idx),
            TextureAttachment::Depth => self.depth_texture = true,
            TextureAttachment::Stencil => self.stencil_texture = true,
            TextureAttachment::DepthStencil => self.depth_stencil_texture = true,
        }
    }

    /// The attachments to enable for drawing, in order: every color
    /// attachment recorded, then depth, stencil and depth-stencil where
    /// attached.
    pub fn draw_buffer_list(&self) -> (r: Vec<TextureAttachment>)
        ensures
            ({
                let colors = self.color_textures@.len() as int;
                &&& r@.len() == colors + (if self.depth_texture { 1int } else { 0 }) + (
                    if self.stencil_texture { 1int } else { 0 }) + (
                    if self.depth_stencil_texture { 1int } else { 0 })
                &&& forall|i: int|
                    0 <= i < colors ==> r@[i] == TextureAttachment::Color(
                        self.color_textures@[i],
                    )
                &&& self.depth_texture ==> r@[colors] == TextureAttachment::Depth
                &&& self.stencil_texture ==> r@[colors + (
                    if self.depth_texture { 1int } else { 0 })] == TextureAttachment::Stencil
                &&& self.depth_stencil_texture ==> r@[r@.len() - 1]
                    == TextureAttachment::DepthStencil
            }),
    {
        let mut buffers: Vec<TextureAttachment> = Vec::new();
        let n = self.color_textures.len();
        let mut i: usize = 0;
        while i < n
            invariant
                n == self.color_textures@.len(),
                i <= n,
                buffers@.len() == i,
                forall|j: int|
                    0 <= j < i ==> buffers@[j] == TextureAttachment::Color(
                        self.color_textures@[j],
                    ),
            decreases n - i,
        {
            buffers.push(TextureAttachment::Color(self.color_textures[i]));
            i += 1;
        }
        if self.depth_texture {
            buffers.push(TextureAttachment::Depth);
        }
        if self.stencil_texture {
            buffers.push(TextureAttachment::Stencil);
        }
        if self.depth_stencil_texture {
            buffers.push(TextureAttachment::DepthStencil);
        }
        buffers
    }

    pub fn id(&self) -> (r: u32)
        ensures
            r == self.fbo,
    {
        self.fbo
    }
}

} // verus!
