//! Stitch a sequence of RGBA pixel buffers into one canvas, side by side or
//! stacked, with exact contracts on every output pixel.

pub mod buffer;
pub mod stitcher;
