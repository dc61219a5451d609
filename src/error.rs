//! Errors of the synthesis pipeline.
use vstd::prelude::*;
use vstd::string::*;

verus! {

/// `std::io::Error`, held opaque and carried by `TtsError::IoError`.
#[verifier::external_type_specification]
#[verifier::external_body]
pub struct ExIoError(std::io::Error);

/// A failure of the synthesis pipeline, with a human-readable cause.
#[derive(Debug)]
pub enum TtsError {
    /// The inference engine or its artifact could not be initialized.
    ModelLoadError(String),
    /// The phonemizer failed on the given text and language.
    PhonemeError(String),
    /// Reserved: tokenization drops unknown symbols and never fails.
    TokenizationError(String),
    /// The engine failed, or its output could not be used.
    InferenceError(String),
    /// A voice embedding is missing, has the wrong size, or is unknown.
    VoiceDataError(String),
    /// Reading a file failed.
    IoError(std::io::Error),
    /// Fetching an asset failed.
    DownloadError(String),
    /// A request was rejected before any work: speed out of range or unknown
    /// voice.
    ValidationError(String),
}

/// Prefix of the message of each kind of error.
pub open spec fn message_prefix(e: &TtsError) -> Seq<char> {
    match e {
        TtsError::ModelLoadError(_) => "Failed to load model: "@,
        TtsError::PhonemeError(_) => "Failed to generate phonemes: "@,
        TtsError::TokenizationError(_) => "Failed to tokenize text: "@,
        TtsError::InferenceError(_) => "Inference error: "@,
        TtsError::VoiceDataError(_) => "Failed to load voice data: "@,
        TtsError::IoError(_) => "I/O error: "@,
        TtsError::DownloadError(_) => "Download error: "@,
        TtsError::ValidationError(_) => "Invalid request: "@,
    }
}

impl From<std::io::Error> for TtsError {
    fn from(e: std::io::Error) -> (r: TtsError)
        ensures
            r == TtsError::IoError(e),
    {
        TtsError::IoError(e)
    }
}

impl vstd::std_specs::convert::FromSpecImpl<std::io::Error> for TtsError {
    open spec fn obeys_from_spec() -> bool {
        true
    }

    open spec fn from_spec(v: std::io::Error) -> TtsError {
        TtsError::IoError(v)
    }
}

impl TtsError {
    /// The error's message: the prefix of its kind, then its cause.
    pub fn message(&self) -> (r: String)
        ensures
            r@.len() >= message_prefix(self).len(),
            r@.subrange(0, message_prefix(self).len() as int) == message_prefix(self),
            match self {
                TtsError::IoError(_) => true,
                TtsError::ModelLoadError(m) | TtsError::PhonemeError(m)
                | TtsError::TokenizationError(m) | TtsError::InferenceError(m)
                | TtsError::VoiceDataError(m) | TtsError::DownloadError(m)
                | TtsError::ValidationError(m) => r@ == message_prefix(self) + m@,
            },
    {
        let (prefix, cause): (&str, String) = match self {
            TtsError::ModelLoadError(m) => ("Failed to load model: ", m.clone()),
            TtsError::PhonemeError(m) => ("Failed to generate phonemes: ", m.clone()),
            TtsError::TokenizationError(m) => ("Failed to tokenize text: ", m.clone()),
            TtsError::InferenceError(m) => ("Inference error: ", m.clone()),
            TtsError::VoiceDataError(m) => ("Failed to load voice data: ", m.clone()),
            TtsError::IoError(e) => ("I/O error: ", e.to_string()),
            TtsError::DownloadError(m) => ("Download error: ", m.clone()),
            TtsError::ValidationError(m) => ("Invalid request: ", m.clone()),
        };
        let mut r = String::from_str(prefix);
        r.append(cause.as_str());
        assert(r@.subrange(0, prefix@.len() as int) =~= prefix@);
        r
    }
}

} // verus!
