//! Frame-processing core of a single-camera motion detector: a stride-aware
//! pixel view, a box-blur downsampler, an edge-based frame difference scorer,
//! a YUYV to RGB converter and the decisions of the capture, score and
//! persist stages.
pub mod pixels;
pub mod blur;
pub mod detect;
pub mod convert;
pub mod config;
pub mod pipeline;
