//! Real-time image preprocessing for a depth-estimation pipeline.
//!
//! The library converts a planar YUV 4:2:0 camera frame into interleaved
//! RGB and RGBA images, and resamples an RGB image into a normalized,
//! channel-planar tensor. A reusable scratch arena keeps per-frame
//! allocation bounded; the caller owns it and passes it into every call.

pub mod color;
pub mod pipeline;
pub mod resample;
pub mod scratch;
