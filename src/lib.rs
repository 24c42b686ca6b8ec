//! Integer core of a sphere ray tracer: the path integrator's control rules,
//! the scanline render session that assembles a frame from worker rows, and
//! the plain-text PPM encoding of the finished pixels.

pub mod ppm;
pub mod render;
pub mod path;
pub mod material;
