use loud_mouth::{AppError, RejectReason, Rejection};

#[test]
fn test_app_error_creation() {
    let error = AppError::new("TEST_ERROR", "Test message");
    assert_eq!(error.code, "TEST_ERROR");
    assert_eq!(error.message, "Test message");
    assert_eq!(error.details, None);
}

#[test]
fn test_app_error_with_details() {
    let error = AppError::new("TEST_ERROR", "Test message").with_details("Additional details");
    assert_eq!(error.code, "TEST_ERROR");
    assert_eq!(error.message, "Test message");
    assert_eq!(error.details, Some("Additional details".to_string()));
}

#[test]
fn test_app_error_display() {
    let error = AppError::new("TEST_ERROR", "Test message");
    assert_eq!(error.display_text(), "[TEST_ERROR] Test message");

    let error_with_details = AppError::new("TEST_ERROR", "Test message").with_details("Details");
    assert_eq!(error_with_details.display_text(), "[TEST_ERROR] Test message - Details");
}

#[test]
fn test_app_error_macro() {
    let error = AppError::new("CODE", "Message");
    assert_eq!(error.code, "CODE");
    assert_eq!(error.message, "Message");
    assert_eq!(error.details, None);

    let error_with_details = AppError::new("CODE", "Message").with_details("Details");
    assert_eq!(error_with_details.code, "CODE");
    assert_eq!(error_with_details.message, "Message");
    assert_eq!(error_with_details.details, Some("Details".to_string()));
}

#[test]
fn rejection_becomes_app_error_with_code_message_and_detail() {
    let e = Rejection::new(RejectReason::SilentAudio, "too quiet").into_app_error();
    assert_eq!(e.code, "SILENT_AUDIO");
    assert_eq!(e.message, "Audio appears to be silent or too quiet");
    assert_eq!(e.details, Some("too quiet".to_string()));
}

#[test]
fn every_reason_has_its_code() {
    let cases = [
        (RejectReason::AudioDecodeError, "AUDIO_ERROR"),
        (RejectReason::RecognitionError, "TRANSCRIPTION_ERROR"),
        (RejectReason::SilentAudio, "SILENT_AUDIO"),
        (RejectReason::NoValidSegments, "NO_VALID_SEGMENTS"),
        (RejectReason::EmptyTranscription, "EMPTY_TRANSCRIPTION"),
        (RejectReason::InsufficientSpeech, "INSUFFICIENT_SPEECH"),
        (RejectReason::HallucinationDetected, "HALLUCINATION_DETECTED"),
        (RejectReason::LowQualityTranscription, "LOW_QUALITY_TRANSCRIPTION"),
        (RejectReason::AbnormalSpeechRate, "ABNORMAL_SPEECH_RATE"),
        (RejectReason::RepetitiveText, "REPETITIVE_TEXT"),
    ];
    for (reason, code) in cases {
        assert_eq!(reason.code(), code);
        assert!(!reason.message().is_empty());
    }
}
