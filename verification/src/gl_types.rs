//! The drawing-side vocabulary: primitive topologies, vertex attribute
//! types, shader stages, texture filters, formats and attachment points.
//!
//! These are plain tags; translating each to its driver constant is the
//! caller's concern, outside the verified library.

use vstd::prelude::*;

verus! {

/// Primitive topology of a draw call.
#[derive(Clone, Copy, PartialEq, Eq, Structural, Debug)]
pub enum Primitive {
    Points,
    LineStrip,
    LineLoop,
    Lines,
    LineStripAdjacency,
    LinesAdjacency,
    TriangleStrip,
    TriangleFan,
    Triangles,
    TriangleStripAdjacency,
    TrianglesAdjacency,
    Patches,
}

/// Scalar type of one vertex attribute component.
#[derive(Clone, Copy, PartialEq, Eq, Structural, Debug)]
pub enum AttributeType {
    Byte,
    UByte,
    Short,
    UShort,
    Int,
    UInt,
    Half,
    Float,
    Double,
}

impl AttributeType {
    /// Size in bytes of one component of this type.
    pub open spec fn spec_size(self) -> int {
        match self {
            AttributeType::Byte => 1,
            AttributeType::UByte => 1,
            AttributeType::Short => 2,
            AttributeType::UShort => 2,
            AttributeType::Int => 4,
            AttributeType::UInt => 4,
            AttributeType::Half => 2,
            AttributeType::Float => 4,
            AttributeType::Double => 8,
        }
    }

    pub fn size(&self) -> (s: i32)
        ensures
            s == self.spec_size(),
            1 <= s <= 8,
    {
        match self {
            AttributeType::Byte | AttributeType::UByte => 1,
            AttributeType::Short | AttributeType::UShort => 2,
            AttributeType::Int | AttributeType::UInt => 4,
            AttributeType::Half => 2,
            AttributeType::Float => 4,
            AttributeType::Double => 8,
        }
    }
}

/// Pipeline stage a shader object belongs to.
#[derive(Clone, Copy, PartialEq, Eq, Structural, Debug)]
pub enum ShaderType {
    ComputeShader,
    VertexShader,
    TessCtrlShader,
    TessEvalShader,
    GeometryShader,
    FragmentShader,
}

/// Sampling filter of a texture.
#[derive(Clone, Copy, PartialEq, Eq, Structural, Debug)]
pub enum TextureFilter {
    Nearest,
    Linear,
}

/// Internal storage format of a texture or renderbuffer.
#[derive(Clone, Copy, PartialEq, Eq, Structural, Debug)]
pub enum TextureFormat {
    Depth,
    DepthStencil,
    R8,
    R8I,
    R8UI,
    R16,
    R16I,
    R16UI,
    R16F,
    R32I,
    R32UI,
    R32F,
    RG8,
    RG8I,
    RG8UI,
    RG16,
    RG16I,
    RG16UI,
    RG16F,
    RG32I,
    RG32UI,
    RG32F,
    RGB8,
    RGB8I,
    RGB8UI,
    RGB16,
    RGB16I,
    RGB16UI,
    RGB16F,
    RGB32I,
    RGB32UI,
    RGB32F,
    RGBA8,
    RGBA8I,
    RGBA8UI,
    RGBA16,
    RGBA16I,
    RGBA16UI,
    RGBA16F,
    RGBA32I,
    RGBA32UI,
    RGBA32F,
}

/// Attachment point of a framebuffer.
#[derive(Clone, Copy, PartialEq, Eq, Structural, Debug)]
pub enum TextureAttachment {
    Color(u32),
    Depth,
    Stencil,
    DepthStencil,
}

} // verus!
