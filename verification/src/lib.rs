//! Verified core of the InsploRay path tracer: the integer logic of the
//! renderer (BxDF flag sets, image and tile buffers, the flattened BVH,
//! mesh import and render-job planning), with floating-point shading left
//! to the application around it.

pub mod base;
pub mod geometry;
pub mod acceleration_structure;
pub mod image_buffer;
pub mod accumulators;
pub mod renderer;
pub mod scene;
pub mod cli;
pub mod utils;

pub use image_buffer::ImageBuffer;
