//! Perceptual pixel-level comparison of two RGBA images.
//!
//! The colour metric works in exact integer arithmetic: every channel is
//! composited over white at 255 times its value, the YIQ coefficients are
//! scaled by 10^8 and the weights of the distance by 10^4. Threshold and
//! opacity are given in millionths.
pub mod color;
pub mod raster;
pub mod antialias;
pub mod compare;
pub mod laws;
pub mod png;
