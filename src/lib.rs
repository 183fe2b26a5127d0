//! Long-form text-to-speech core: chunking of arbitrary text, phoneme
//! tokenization, voice-style blending, crossfade stitching of segment audio,
//! gain, and the interruptible streaming controller.
//!
//! Audio is carried as fixed-point samples (`i32`, with `audio::SAMPLE_UNIT`
//! standing for full scale 1.0), so that every stage of the pipeline can be
//! stated and proved exactly.

pub mod audio;
pub mod chunker;
pub mod engine;
pub mod error;
pub mod presets;
pub mod random;
pub mod segment;
pub mod streaming;
pub mod vocab;
pub mod voice;
pub mod text;
