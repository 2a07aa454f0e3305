//! Error kinds reported by the window layer, the resource parsers, shader
//! compilation and framebuffer completion.

use vstd::prelude::*;

verus! {

/// Failures while bringing up the window and its graphics context.
#[derive(Debug)]
pub enum WindowError {
    GlfwInitError,
    CreateWindowError,
}

/// Failures while parsing a model or material-library source.
#[derive(Debug)]
pub enum ResourceParseError {
    /// A field that should have been a whole number was not.
    ParseIntError { line: String },
    /// A line carried the wrong number of arguments.
    InvalidLineArgCount { count: usize, line: String },
    /// A material statement appeared before any material was named.
    NoMaterialNamed,
}

/// Failures while compiling or linking shaders.
#[derive(Debug)]
pub enum ShaderError {
    InvalidFileExtension(String),
    CompileError(String),
    LinkError(String),
}

/// An incomplete framebuffer, carrying the driver's status code.
#[derive(Debug)]
pub enum FramebufferError {
    Error(u32),
}

} // verus!
