//! Errors of the synthesis pipeline.

use vstd::prelude::*;

verus! {

/// What can go wrong in synthesis or streaming.
#[derive(Debug, Clone)]
pub enum TtsError {
    /// A voice named in a voice specification is not in the voice table.
    VoiceNotFound(String),
    /// A part of a voice specification, or its weight, has the wrong shape.
    MalformedVoiceSpec(String),
    /// The phonemizer rejected the text or the language tag.
    PhonemizationFailed(String),
    /// An input tensor for the model could not be built.
    TensorConstructionFailed(String),
    /// The inference engine reported an error.
    InferenceFailed(String),
    /// There is nothing to synthesize.
    EmptyInput,
    /// A stream was requested while another one is still in progress.
    AlreadySpeaking,
    /// The voice model is not loaded.
    ModelUnavailable,
}

} // verus!
