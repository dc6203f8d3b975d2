//! Decision logic of a ray-traced torus renderer for text terminals.
//!
//! The floating-point geometry is done by the caller. This crate holds what is
//! decided about its results: which root of the intersection quartic is the
//! first hit along the viewing ray, which of several independently computed
//! surface points is trusted, which byte a pixel gets, and how the bytes are
//! laid out, traversed and turned into glyphs.
//!
//! Double-precision values cross the boundary as [`binary64::Binary64`], that
//! is as their IEEE 754 bit patterns, whose sign and order are defined here
//! on integers.

pub mod binary64;
pub mod frame;
pub mod glyph;
pub mod intersection;
pub mod shader;
