//! A path tracer's discrete core: the partitioning that builds its bounding
//! volume hierarchy, the scheduling of image rows into render bands and the
//! order of the pixel buffer, the termination rule of the path integrator, the
//! permutation tables behind Perlin noise, and texel lookup in image textures.
//!
//! The numeric kernels (vector algebra, ray intersection, scattering) live
//! with the application; they reach this library through plain integer keys,
//! closures and the `PathSampler` trait.
pub mod bvh;
pub mod integrator;
pub mod path_log;
pub mod perlin;
pub mod raster;
pub mod texture;
mod trusted;
