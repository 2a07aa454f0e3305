//! A CPU-side scene library for a hybrid rasterization + ray-tracing renderer.
//!
//! The heart of the crate is the construction of a bounding volume hierarchy
//! (BVH) over a triangle mesh with a binned surface-area-heuristic cost model
//! (`bvh`), together with the mesh/model bookkeeping around it.  All geometry
//! is carried as fixed-point integer coordinates (`types::Vec3`), so every
//! arithmetic step of the build is checked; callers quantize world coordinates
//! once when a mesh is loaded.
//!
//! GPU resource state records (`buffer`, `framebuffer`, `texture`, ...) track
//! the bookkeeping half of the render-side wrappers; the driver calls
//! themselves live with the caller.

pub mod types;
pub mod bvh;
pub mod error;
pub mod gl_types;
pub mod buffer;
pub mod shader;
pub mod renderbuffer;
pub mod texture;
pub mod framebuffer;
pub mod geometry_set;
pub mod model;
pub mod texture_manager;
pub mod resource;
pub mod resource_parser;
