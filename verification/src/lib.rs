//! Verified pixel-buffer core of a small sphere ray tracer.
//!
//! The floating-point geometry (camera rays, sphere intersection, shading)
//! lives in the unverified front end; this library owns the raster buffer the
//! renderer writes into, its bounds discipline, and its byte serialization.

pub mod ppm;
pub mod render;
