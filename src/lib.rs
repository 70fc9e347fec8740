//! A double-ring solid exposed through a signed distance field.
//!
//! All coordinates and distances are fixed-point numbers: one unit of the
//! shape's frame is `SCALE` steps of the integer representation. The frame has
//! `y` up; the rings turn about the `y` axis.
pub mod sqrt;
pub mod vector;
pub mod ring;
pub mod surface;
pub mod laws;
