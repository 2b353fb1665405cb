//! Structural metadata extraction from MP4/MOV and Matroska/WebM byte buffers.

pub mod common;
pub mod model;
pub mod text;
pub mod float;
pub mod mp4;
pub mod ebml;
pub mod matroska;
pub mod probe;
pub mod frames;
