//! On-device speech transcription core: audio conditioning and the quality
//! checks that classify recognizer output as accepted or rejected.

pub mod audio;
pub mod endings;
pub mod entropy;
pub mod error;
pub mod natural;
pub mod quality;
pub mod repetition;
pub mod text;

pub use audio::{
    check_audio_has_content, condition_samples, convert_to_whisper_format, decode_audio_payload,
    down_mix_samples, high_pass_filter, normalize_amplitude, prepare_audio, prepare_samples,
    resample_to_target, split_into_windows,
    RecognizerKind, WavAudio, STREAM_WINDOW, TARGET_RATE,
};
pub use error::{AppError, RejectReason, Rejection};
pub use endings::{clean_hallucinated_endings, lowered_suffix_matches};
pub use entropy::{is_entropy_out_of_band, letter_counts, LetterCount};
pub use quality::{
    abnormal_speech_rate, finish_transcript, is_denylisted_key, is_exact_hallucination,
    screen_transcript,
    segment_is_usable, validate_transcription, TranscriptionResult,
};
pub use repetition::{all_same_words, is_pure_repetition, is_repetitive, repetitive_words};
