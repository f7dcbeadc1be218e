//! Escape-time rasters: a grid of pixels over a region of the plane, rendered
//! into a row-major buffer of one byte per pixel, each byte the escape time of
//! its pixel's point, capped at 255.
//!
//! The library owns the counting, the layout of the buffer, the narrowing to
//! bytes and the choice of workers. The arithmetic of the plane is the
//! caller's, handed over as a [`raster::Plane`].

pub mod escape;
pub mod grid;
pub mod parallel;
pub mod quantize;
pub mod raster;
