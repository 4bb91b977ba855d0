//! Batch audio transcoding library: plans conversions of a tree of reference
//! audio files into derived encodings (codec, bit depth, sample rate), and
//! models the conversion pipeline that executes such a plan.

pub mod types;
pub mod bitdepth;
pub mod buf;
pub mod samplerate;
pub mod pathutil;
pub mod plan;
pub mod engine;
pub mod codecs;
pub mod outside;

