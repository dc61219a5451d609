use ipa_navigator_kokoro::error::TtsError;
use std::io;

#[test]
fn test_error_conversion() {
    let io_error = io::Error::new(io::ErrorKind::NotFound, "file not found");
    let tts_error: TtsError = io_error.into();

    match tts_error {
        TtsError::IoError(_) => assert!(true),
        _ => assert!(false, "Expected IoError variant"),
    }
}

#[test]
fn test_error_display() {
    let error = TtsError::ModelLoadError("test error".to_string());
    assert_eq!(error.message(), "Failed to load model: test error");

    let error = TtsError::PhonemeError("phoneme error".to_string());
    assert_eq!(error.message(), "Failed to generate phonemes: phoneme error");
}

#[test]
fn error_messages_of_each_kind() {
    assert_eq!(
        TtsError::TokenizationError("x".to_string()).message(),
        "Failed to tokenize text: x"
    );
    assert_eq!(TtsError::InferenceError("x".to_string()).message(), "Inference error: x");
    assert_eq!(
        TtsError::VoiceDataError("x".to_string()).message(),
        "Failed to load voice data: x"
    );
    assert_eq!(TtsError::DownloadError("x".to_string()).message(), "Download error: x");
    assert_eq!(TtsError::ValidationError("x".to_string()).message(), "Invalid request: x");
    let io_error = io::Error::new(io::ErrorKind::NotFound, "file not found");
    assert_eq!(TtsError::IoError(io_error).message(), "I/O error: file not found");
}
