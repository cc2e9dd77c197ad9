use vstd::prelude::*;
use vstd::string::*;

verus! {

/// Error reported to the caller: a machine-readable code, a message for
/// people, and optional details.
#[derive(Debug)]
pub struct AppError {
    pub message: String,
    pub code: String,
    pub details: Option<String>,
}

/// What `display_text` renders for an error with the given parts.
pub open spec fn error_text(code: Seq<char>, message: Seq<char>, details: Option<Seq<char>>) -> Seq<
    char,
> {
    let head = seq!['['] + code + seq![']', ' '] + message;
    match details {
        Some(d) => head + seq![' ', '-', ' '] + d,
        None => head,
    }
}

impl AppError {
    pub fn new(code: &str, message: &str) -> (r: Self)
        ensures
            r.code@ == code@,
            r.message@ == message@,
            r.details is None,
    {
        AppError { message: String::from_str(message), code: String::from_str(code), details: None }
    }

    pub fn with_details(self, details: &str) -> (r: Self)
        ensures
            r.code@ == self.code@,
            r.message@ == self.message@,
            r.details is Some,
            r.details->Some_0@ == details@,
    {
        let mut e = self;
        e.details = Some(String::from_str(details));
        e
    }

    /// The error as one line: `[CODE] message`, followed by ` - details`
    /// when there are details.
    pub fn display_text(&self) -> (r: String)
        ensures
            r@ == error_text(
                self.code@,
                self.message@,
                match self.details {
                    Some(d) => Some(d@),
                    None => None,
                },
            ),
    {
        let mut r = String::from_str("[");
        r.append(self.code.as_str());
        r.append("] ");
        r.append(self.message.as_str());
        match &self.details {
            Some(d) => {
                r.append(" - ");
                r.append(d.as_str());
            },
            None => {},
        }
        proof {
            reveal_strlit("[");
            reveal_strlit("] ");
            reveal_strlit(" - ");
        }
        r
    }
}

/// Why a transcription request ended without a transcript.
#[derive(Clone, Copy, Debug, PartialEq, Eq, Structural)]
pub enum RejectReason {
    AudioDecodeError,
    RecognitionError,
    SilentAudio,
    NoValidSegments,
    EmptyTranscription,
    InsufficientSpeech,
    HallucinationDetected,
    LowQualityTranscription,
    AbnormalSpeechRate,
    RepetitiveText,
}

pub open spec fn reason_code(r: RejectReason) -> Seq<char> {
    match r {
        RejectReason::AudioDecodeError => "AUDIO_ERROR"@,
        RejectReason::RecognitionError => "TRANSCRIPTION_ERROR"@,
        RejectReason::SilentAudio => "SILENT_AUDIO"@,
        RejectReason::NoValidSegments => "NO_VALID_SEGMENTS"@,
        RejectReason::EmptyTranscription => "EMPTY_TRANSCRIPTION"@,
        RejectReason::InsufficientSpeech => "INSUFFICIENT_SPEECH"@,
        RejectReason::HallucinationDetected => "HALLUCINATION_DETECTED"@,
        RejectReason::LowQualityTranscription => "LOW_QUALITY_TRANSCRIPTION"@,
        RejectReason::AbnormalSpeechRate => "ABNORMAL_SPEECH_RATE"@,
        RejectReason::RepetitiveText => "REPETITIVE_TEXT"@,
    }
}

pub open spec fn reason_message(r: RejectReason) -> Seq<char> {
    match r {
        RejectReason::AudioDecodeError => "Failed to read audio data"@,
        RejectReason::RecognitionError => "Failed to transcribe audio"@,
        RejectReason::SilentAudio => "Audio appears to be silent or too quiet"@,
        RejectReason::NoValidSegments => "No valid speech segments detected"@,
        RejectReason::EmptyTranscription => "No speech was transcribed"@,
        RejectReason::InsufficientSpeech => "Transcription too short"@,
        RejectReason::HallucinationDetected => "Speech recognition produced unreliable result"@,
        RejectReason::LowQualityTranscription => "Transcription quality is too low"@,
        RejectReason::AbnormalSpeechRate => "Detected abnormal speech rate"@,
        RejectReason::RepetitiveText => "Speech recognition produced repetitive result"@,
    }
}

impl RejectReason {
    /// The code under which the reason is reported.
    pub fn code(&self) -> (r: &'static str)
        ensures
            r@ == reason_code(*self),
    {
        match self {
            RejectReason::AudioDecodeError => "AUDIO_ERROR",
            RejectReason::RecognitionError => "TRANSCRIPTION_ERROR",
            RejectReason::SilentAudio => "SILENT_AUDIO",
            RejectReason::NoValidSegments => "NO_VALID_SEGMENTS",
            RejectReason::EmptyTranscription => "EMPTY_TRANSCRIPTION",
            RejectReason::InsufficientSpeech => "INSUFFICIENT_SPEECH",
            RejectReason::HallucinationDetected => "HALLUCINATION_DETECTED",
            RejectReason::LowQualityTranscription => "LOW_QUALITY_TRANSCRIPTION",
            RejectReason::AbnormalSpeechRate => "ABNORMAL_SPEECH_RATE",
            RejectReason::RepetitiveText => "REPETITIVE_TEXT",
        }
    }

    /// A short sentence for people.
    pub fn message(&self) -> (r: &'static str)
        ensures
            r@ == reason_message(*self),
    {
        match self {
            RejectReason::AudioDecodeError => "Failed to read audio data",
            RejectReason::RecognitionError => "Failed to transcribe audio",
            RejectReason::SilentAudio => "Audio appears to be silent or too quiet",
            RejectReason::NoValidSegments => "No valid speech segments detected",
            RejectReason::EmptyTranscription => "No speech was transcribed",
            RejectReason::InsufficientSpeech => "Transcription too short",
            RejectReason::HallucinationDetected => "Speech recognition produced unreliable result",
            RejectReason::LowQualityTranscription => "Transcription quality is too low",
            RejectReason::AbnormalSpeechRate => "Detected abnormal speech rate",
            RejectReason::RepetitiveText => "Speech recognition produced repetitive result",
        }
    }
}

/// A typed rejection with a detail that names the condition that failed.
#[derive(Debug)]
pub struct Rejection {
    pub reason: RejectReason,
    pub detail: String,
}

impl Rejection {
    pub fn new(reason: RejectReason, detail: &str) -> (r: Self)
        ensures
            r.reason == reason,
            r.detail@ == detail@,
    {
        Rejection { reason, detail: String::from_str(detail) }
    }

    /// The rejection as the error reported at the request boundary.
    pub fn into_app_error(self) -> (r: AppError)
        ensures
            r.code@ == reason_code(self.reason),
            r.message@ == reason_message(self.reason),
            r.details is Some,
            r.details->Some_0@ == self.detail@,
    {
        AppError::new(self.reason.code(), self.reason.message()).with_details(self.detail.as_str())
    }
}

} // verus!
