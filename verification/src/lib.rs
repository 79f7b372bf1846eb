//! Core of a raster image resizing library.
//!
//! The crate provides the typed image containers, the fixed-point coefficient
//! tables that drive a separable convolution resampler, the horizontal
//! convolution kernels for the 16-bit pixel formats, and the alpha
//! premultiplication pipeline for two-channel 8-bit pixels.

pub mod alpha;
pub mod coefficients;
pub mod convolution;
pub mod dyn_image;
pub mod errors;
pub mod pixels;
pub mod typed_image;
