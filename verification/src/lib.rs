//! An ordered parallel frame-transcoding pipeline that re-renders video
//! frames as text-glyph art: frames are sampled from a source at a target
//! rate, each sampled frame is transformed independently (resize, luminance
//! quantization, glyph rasterization), and the results are reassembled in
//! original order for a sequential encoder.
pub mod frame;
pub mod palette;
pub mod ascii;
pub mod resize;
pub mod sampler;
pub mod rasterize;
pub mod transform;
pub mod schedule;
pub mod timer;
pub mod resolution;
