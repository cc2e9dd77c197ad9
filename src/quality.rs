//! The quality checks on recognizer output, in their fixed order: segment
//! filtering, sign-off removal, minimum content, known artifacts, pure
//! repetition, letter entropy, speech rate and repetitiveness.

use vstd::prelude::*;
use vstd::string::*;
use crate::audio::RecognizerKind;
use crate::endings::{cleaned_endings, clean_hallucinated_endings};
use crate::entropy::{entropy_out_of_band, is_entropy_out_of_band};
use crate::error::{RejectReason, Rejection};
use crate::repetition::{is_pure_repetition, pure_repetition, repetitive, repetitive_chars};
use crate::text::{
    chars_eq_str, chars_of, has_alphabetic, has_alphabetic_char, lower_of, lowercase, split_words,
    string_of, trim, trim_chars, words,
};

verus! {

/// Whole transcripts that recognizers produce without any speech behind them
/// (lower-cased, trimmed): video sign-offs, non-speech markers, short
/// repetitions, bare punctuation, and a sign-off phrase standing alone.
pub open spec fn exact_hallucinations() -> Seq<Seq<char>> {
    seq![
        "thanks for watching"@,
        "thank you for watching"@,
        "please subscribe"@,
        "like and subscribe"@,
        "don't forget to subscribe"@,
        "hit the bell"@,
        "hit that bell"@,
        "welcome back everybody"@,
        "hey guys"@,
        "what's up guys"@,
        "like comment and subscribe"@,
        "smash that like button"@,
        "[music]"@,
        "[applause]"@,
        "[laughter]"@,
        "[inaudible]"@,
        "[silence]"@,
        "[background music]"@,
        "[noise]"@,
        "audio jungle"@,
        "audiojungle"@,
        "you you you"@,
        "you you you you"@,
        "the the the"@,
        "the the the the"@,
        "and and and"@,
        "and and and and"@,
        "."@,
        ".."@,
        "..."@,
        "...."@,
        "thank you"@,
        "thank you."@,
        "thank you!"@,
        "thanks"@,
        "thanks."@,
        "thanks!"@,
        "you're welcome"@,
        "you're welcome."@,
        "you're welcome!"@,
        "bye"@,
        "bye."@,
        "bye!"@,
        "bye bye"@,
        "bye bye."@,
        "bye bye!"@,
        "goodbye"@,
        "goodbye."@,
        "goodbye!"@,
        "see you"@,
        "see you."@,
        "see you!"@,
        "see you later"@,
        "see you later."@,
        "see you later!"@,
    ]
}

fn exact_hallucination_table() -> (r: Vec<&'static str>)
    ensures
        r@.map_values(|p: &str| p@) == exact_hallucinations(),
{
    let r = vec![
        "thanks for watching",
        "thank you for watching",
        "please subscribe",
        "like and subscribe",
        "don't forget to subscribe",
        "hit the bell",
        "hit that bell",
        "welcome back everybody",
        "hey guys",
        "what's up guys",
        "like comment and subscribe",
        "smash that like button",
        "[music]",
        "[applause]",
        "[laughter]",
        "[inaudible]",
        "[silence]",
        "[background music]",
        "[noise]",
        "audio jungle",
        "audiojungle",
        "you you you",
        "you you you you",
        "the the the",
        "the the the the",
        "and and and",
        "and and and and",
        ".",
        "..",
        "...",
        "....",
        "thank you",
        "thank you.",
        "thank you!",
        "thanks",
        "thanks.",
        "thanks!",
        "you're welcome",
        "you're welcome.",
        "you're welcome!",
        "bye",
        "bye.",
        "bye!",
        "bye bye",
        "bye bye.",
        "bye bye!",
        "goodbye",
        "goodbye.",
        "goodbye!",
        "see you",
        "see you.",
        "see you!",
        "see you later",
        "see you later.",
        "see you later!",
    ];
    assert(r@.map_values(|p: &str| p@) =~= exact_hallucinations());
    r
}

/// The whole text, lower-cased and trimmed, is a known artifact.
pub open spec fn denylisted(t: Seq<char>) -> bool {
    exact_hallucinations().contains(trim(lower_of(t)))
}

/// Whether a text that is already lower-cased and trimmed is one of the
/// known recognizer artifacts.
pub fn is_denylisted_key(key: &Vec<char>) -> (r: bool)
    ensures
        r == exact_hallucinations().contains(key@),
{
    let table = exact_hallucination_table();
    let ghost tv = table@.map_values(|p: &str| p@);
    let mut i: usize = 0;
    while i < table.len()
        invariant
            tv == table@.map_values(|p: &str| p@),
            tv == exact_hallucinations(),
            i <= table@.len(),
            forall|k: int| 0 <= k < i ==> #[trigger] tv[k] != key@,
        decreases table.len() - i,
    {
        if chars_eq_str(key, table[i]) {
            assert(tv[i as int] == key@);
            return true;
        }
        i += 1;
    }
    false
}

/// Whether the whole text, lower-cased and trimmed, is one of the known
/// recognizer artifacts. Only a full match counts.
pub fn is_exact_hallucination(text: &str) -> (r: bool)
    ensures
        r == denylisted(text@),
{
    let s = chars_of(text);
    let l = lowercase(&s);
    let key = trim_chars(&l);
    is_denylisted_key(&key)
}

/// A segment worth keeping: not repetitive, and once trimmed at least three
/// characters and two words long, with a letter in it.
pub open spec fn usable_segment(seg: Seq<char>) -> bool {
    let t = trim(seg);
    !repetitive(seg) && t.len() >= 3 && words(t).len() >= 2 && has_alphabetic(t)
}

/// The usable segments, in their order.
pub open spec fn kept_segments(segs: Seq<Seq<char>>) -> Seq<Seq<char>>
    decreases segs.len(),
{
    if segs.len() == 0 {
        seq![]
    } else {
        let k = kept_segments(segs.drop_last());
        if usable_segment(segs.last()) {
            k.push(segs.last())
        } else {
            k
        }
    }
}

/// The segments joined by single spaces.
pub open spec fn join_spaced(segs: Seq<Seq<char>>) -> Seq<char>
    decreases segs.len(),
{
    if segs.len() == 0 {
        seq![]
    } else if segs.len() == 1 {
        segs[0]
    } else {
        join_spaced(segs.drop_last()) + seq![' '] + segs.last()
    }
}

pub open spec fn string_views(v: Seq<String>) -> Seq<Seq<char>> {
    v.map_values(|s: String| s@)
}

/// The candidate transcript that the recognizer's segments make: for the
/// batch recognizer only its usable segments, of which there must be one.
pub open spec fn assembled(segs: Seq<Seq<char>>, kind: RecognizerKind) -> Result<
    Seq<char>,
    RejectReason,
> {
    match kind {
        RecognizerKind::BatchDecode => {
            let k = kept_segments(segs);
            if k.len() == 0 {
                Err(RejectReason::NoValidSegments)
            } else {
                Ok(trim(join_spaced(k)))
            }
        },
        RecognizerKind::StreamingAccept => Ok(trim(join_spaced(segs))),
    }
}

/// The quality checks up to and including the hallucination checks: the cleaned
/// transcript, or the first reason to reject it.
pub open spec fn screened(segs: Seq<Seq<char>>, kind: RecognizerKind) -> Result<
    Seq<char>,
    RejectReason,
> {
    match assembled(segs, kind) {
        Err(e) => Err(e),
        Ok(t) => {
            let c = cleaned_endings(t);
            if c.len() == 0 {
                Err(RejectReason::EmptyTranscription)
            } else if c.len() < 5 || words(c).len() < 2 {
                Err(RejectReason::InsufficientSpeech)
            } else if denylisted(c) || pure_repetition(c) {
                Err(RejectReason::HallucinationDetected)
            } else {
                Ok(c)
            }
        },
    }
}

/// Whether a segment of recognizer output is worth keeping.
pub fn segment_is_usable(segment: &str) -> (r: bool)
    ensures
        r == usable_segment(segment@),
{
    let s = chars_of(segment);
    if repetitive_chars(&s) {
        return false;
    }
    let t = trim_chars(&s);
    if t.len() < 3 {
        return false;
    }
    if split_words(&t).len() < 2 {
        return false;
    }
    has_alphabetic_char(&t)
}

fn append_chars(r: &mut Vec<char>, s: &str)
    ensures
        final(r)@ == old(r)@ + s@,
{
    let mut c = chars_of(s);
    r.append(&mut c);
}

fn assemble(segments: &Vec<String>, kind: RecognizerKind) -> (r: Result<Vec<char>, Rejection>)
    ensures
        match r {
            Ok(t) => assembled(string_views(segments@), kind) == Ok::<Seq<char>, RejectReason>(t@),
            Err(e) => assembled(string_views(segments@), kind) == Err::<Seq<char>, RejectReason>(
                e.reason,
            ),
        },
{
    let ghost sv = string_views(segments@);
    let batch = match kind {
        RecognizerKind::BatchDecode => true,
        RecognizerKind::StreamingAccept => false,
    };
    let mut joined: Vec<char> = Vec::new();
    let mut kept: usize = 0;
    let ghost mut chosen: Seq<Seq<char>> = seq![];
    let mut i: usize = 0;
    while i < segments.len()
        invariant
            sv == string_views(segments@),
            i <= segments@.len(),
            batch ==> chosen == kept_segments(sv.subrange(0, i as int)),
            !batch ==> chosen == sv.subrange(0, i as int),
            kept == chosen.len(),
            kept <= i,
            joined@ == join_spaced(chosen),
        decreases segments.len() - i,
    {
        let seg = segments[i].as_str();
        assert(sv.subrange(0, i + 1).drop_last() =~= sv.subrange(0, i as int));
        assert(sv.subrange(0, i + 1).last() == sv[i as int]);
        if !batch || segment_is_usable(seg) {
            proof {
                let next = chosen.push(seg@);
                assert(next.drop_last() =~= chosen);
                chosen = next;
            }
            if kept > 0 {
                joined.push(' ');
            }
            append_chars(&mut joined, seg);
            kept += 1;
        }
        i += 1;
    }
    assert(sv.subrange(0, segments@.len() as int) =~= sv);
    if batch && kept == 0 {
        return Err(
            Rejection::new(
                RejectReason::NoValidSegments,
                "Every segment was repetitive, shorter than three characters or two words, or had no letters: please speak more clearly",
            ),
        );
    }
    Ok(trim_chars(&joined))
}

/// Runs the quality checks on the recognizer's segments, up to and including
/// the hallucination checks, and returns the cleaned transcript.
pub fn screen_transcript(segments: &Vec<String>, kind: RecognizerKind) -> (r: Result<
    String,
    Rejection,
>)
    ensures
        match r {
            Ok(t) => screened(string_views(segments@), kind) == Ok::<Seq<char>, RejectReason>(t@),
            Err(e) => screened(string_views(segments@), kind) == Err::<Seq<char>, RejectReason>(
                e.reason,
            ),
        },
{
    let joined = match assemble(segments, kind) {
        Ok(t) => t,
        Err(e) => {
            return Err(e);
        },
    };
    let joined_text = string_of(&joined);
    let text = clean_hallucinated_endings(joined_text.as_str());
    let c = chars_of(text.as_str());
    if c.len() == 0 {
        return Err(
            Rejection::new(
                RejectReason::EmptyTranscription,
                "No recognizable speech was detected. Please speak clearly into the microphone.",
            ),
        );
    }
    if c.len() < 5 || split_words(&c).len() < 2 {
        return Err(
            Rejection::new(
                RejectReason::InsufficientSpeech,
                "Fewer than five characters or two words: please speak a complete sentence or phrase.",
            ),
        );
    }
    if is_exact_hallucination(text.as_str()) || is_pure_repetition(text.as_str()) {
        let mut detail = String::from_str("Detected phrase '");
        detail.append(text.as_str());
        detail.append("' which appears to be a hallucination. Please try again.");
        return Err(Rejection::new(RejectReason::HallucinationDetected, detail.as_str()));
    }
    Ok(text)
}

/// More than two seconds of audio, and fewer than 0.3 or more than 8 words
/// per second.
pub open spec fn abnormal_rate(word_count: nat, sample_count: nat) -> bool {
    sample_count > 32000 && (160000 * word_count < 3 * sample_count || 2000 * word_count
        > sample_count)
}

/// The last quality checks, on the screened transcript: letter entropy
/// (only for texts of more than 30 characters), speech rate, repetition.
pub open spec fn final_rejection(t: Seq<char>, sample_count: nat) -> Option<RejectReason> {
    if t.len() > 30 && entropy_out_of_band(t) {
        Some(RejectReason::LowQualityTranscription)
    } else if abnormal_rate(words(t).len(), sample_count) {
        Some(RejectReason::AbnormalSpeechRate)
    } else if repetitive(t) {
        Some(RejectReason::RepetitiveText)
    } else {
        None
    }
}

/// A transcript that passed every quality check.
#[derive(Debug)]
pub struct TranscriptionResult {
    pub text: String,
    pub language: Option<String>,
}

/// Whether `word_count` words over `sample_count` samples at 16 kHz is an
/// abnormal speech rate for a clip longer than two seconds.
pub fn abnormal_speech_rate(word_count: usize, sample_count: usize) -> (r: bool)
    ensures
        r == abnormal_rate(word_count as nat, sample_count as nat),
{
    let w = word_count as u128;
    let n = sample_count as u128;
    n > 32000 && (160000 * w < 3 * n || 2000 * w > n)
}

/// Runs the last quality checks on a screened transcript of a clip of
/// `sample_count` samples at 16 kHz.
pub fn finish_transcript(text: String, sample_count: usize) -> (r: Result<
    TranscriptionResult,
    Rejection,
>)
    ensures
        match r {
            Ok(t) => final_rejection(text@, sample_count as nat) is None && t.text@ == text@
                && t.language is Some && t.language->Some_0@ == "en"@,
            Err(e) => final_rejection(text@, sample_count as nat) == Some(e.reason),
        },
{
    let c = chars_of(text.as_str());
    if c.len() > 30 && is_entropy_out_of_band(text.as_str()) {
        return Err(
            Rejection::new(
                RejectReason::LowQualityTranscription,
                "Letter entropy outside 1.0 to 5.5 bits: please try speaking more clearly with complete sentences",
            ),
        );
    }
    if abnormal_speech_rate(split_words(&c).len(), sample_count) {
        return Err(
            Rejection::new(
                RejectReason::AbnormalSpeechRate,
                "Speech rate outside 0.3 to 8.0 words per second: please speak at a normal pace.",
            ),
        );
    }
    if repetitive_chars(&c) {
        return Err(
            Rejection::new(
                RejectReason::RepetitiveText,
                "The transcription appears to be repetitive. Please try again.",
            ),
        );
    }
    Ok(TranscriptionResult { text, language: Some(String::from_str("en")) })
}

/// The verdict of every quality check, in order, on the recognizer's
/// segments for a clip of `sample_count` samples at 16 kHz.
pub open spec fn quality_verdict(segs: Seq<Seq<char>>, kind: RecognizerKind, sample_count: nat) -> Result<
    Seq<char>,
    RejectReason,
> {
    match screened(segs, kind) {
        Err(e) => Err(e),
        Ok(t) => match final_rejection(t, sample_count) {
            Some(e) => Err(e),
            None => Ok(t),
        },
    }
}

/// Classifies the recognizer's output: the accepted transcript, or the
/// first check that rejects it.
pub fn validate_transcription(
    segments: &Vec<String>,
    kind: RecognizerKind,
    sample_count: usize,
) -> (r: Result<TranscriptionResult, Rejection>)
    ensures
        match r {
            Ok(t) => quality_verdict(string_views(segments@), kind, sample_count as nat) == Ok::<
                Seq<char>,
                RejectReason,
            >(t.text@) && t.language is Some && t.language->Some_0@ == "en"@,
            Err(e) => quality_verdict(string_views(segments@), kind, sample_count as nat) == Err::<
                Seq<char>,
                RejectReason,
            >(e.reason),
        },
{
    let text = screen_transcript(segments, kind)?;
    finish_transcript(text, sample_count)
}

} // verus!
