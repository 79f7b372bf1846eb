//! Horizontal convolution kernels: each destination pixel is the fixed-point
//! weighted sum of the source pixels in its record's window, one module per
//! pixel layout.

pub mod u16x1;
pub mod u16x2;
pub mod u16x3;
pub mod u16x4;
