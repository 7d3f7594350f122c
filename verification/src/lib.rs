//! A software triangle rasterizer, verified.
//!
//! The crate covers the screen-space half of a CPU rendering pipeline: the
//! point-in-triangle edge tests, bounding-box culling, the color framebuffer
//! with its byte-level pixel conversion, and the per-triangle fill loop.
//! Vertices arrive already projected to integer screen coordinates; colors
//! arrive already quantized to one byte per channel.

pub mod raster;
pub mod render;
pub mod render_target;
pub mod vmath;

pub use vmath::IVec2;
