//! A software rasterizer that draws triangle meshes as glyph art.
//!
//! The crate is the discrete core of a terminal model viewer:
//!
//! - [`framebuffer`]: the glyph grid with its depth grid, and its text;
//! - [`raster`]: triangle fill on a fixed-point pixel grid, with depth
//!   interpolation;
//! - [`shading`]: the step function from brightness to glyph;
//! - [`viewport`]: the mapping from device coordinates to the screen;
//! - [`pipeline`]: one frame, from clearing to the finished text;
//! - [`shape`] and [`object`]: meshes, and their placement in the world
//!   with a cache of transformed vertices;
//! - [`transform`]: the two operations taken from `glam`;
//! - [`controls`]: how the viewer reacts to input.
//!
//! Every function is verified against a contract stated over a
//! mathematical model of its data; the calls into `glam` alone are taken on
//! trust.
//!
//! Floating-point work (the orbit camera, face normals, lighting, the
//! perspective divide) happens outside the crate. Its results enter as
//! integers: device coordinates in steps of `1 / NDC_ONE`, brightness in
//! steps of `1 / BRIGHTNESS_ONE`, depth in steps of `1 / DEPTH_ONE`.

pub mod controls;
pub mod framebuffer;
pub mod object;
pub mod pipeline;
pub mod raster;
pub mod shading;
pub mod shape;
pub mod transform;
pub mod viewport;
