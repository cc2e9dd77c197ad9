use loud_mouth::{
    all_same_words, is_denylisted_key, lowered_suffix_matches, repetitive_words,
    abnormal_speech_rate, clean_hallucinated_endings, finish_transcript, is_entropy_out_of_band,
    is_exact_hallucination, is_pure_repetition, is_repetitive, letter_counts, screen_transcript, segment_is_usable,
    validate_transcription, RecognizerKind, RejectReason,
};

fn segs(v: &[&str]) -> Vec<String> {
    v.iter().map(|s| s.to_string()).collect()
}

#[test]
fn sign_off_after_complete_sentence_is_trimmed() {
    assert_eq!(
        clean_hallucinated_endings("I had a great day today. Thank you."),
        "I had a great day today."
    );
}

#[test]
fn trimmed_transcript_is_accepted() {
    let text = screen_transcript(
        &segs(&["I had a great day today. Thank you."]),
        RecognizerKind::BatchDecode,
    )
    .unwrap();
    assert_eq!(text, "I had a great day today.");
    let r = finish_transcript(text, 48000).unwrap();
    assert_eq!(r.text, "I had a great day today.");
    assert_eq!(r.language, Some("en".to_string()));
}

#[test]
fn lone_sign_off_is_not_trimmed() {
    assert_eq!(clean_hallucinated_endings("Thank you."), "Thank you.");
    assert_eq!(clean_hallucinated_endings("Okay then. Bye!"), "Okay then. Bye!");
}

#[test]
fn long_sentence_without_punctuation_gets_a_period() {
    assert_eq!(
        clean_hallucinated_endings("we walked along the river all afternoon thanks"),
        "we walked along the river all afternoon."
    );
    assert_eq!(
        clean_hallucinated_endings("we walked home thanks"),
        "we walked home thanks"
    );
}

#[test]
fn one_phrase_per_family_is_removed() {
    assert_eq!(
        clean_hallucinated_endings("I had a great day today. Thanks. Bye."),
        "I had a great day today. Thanks."
    );
    assert_eq!(
        clean_hallucinated_endings("It was a lovely evening with friends. Thank you. See you later!"),
        "It was a lovely evening with friends. Thank you."
    );
}

#[test]
fn music_marker_is_an_exact_hallucination() {
    assert!(is_exact_hallucination("[music]"));
    assert!(is_exact_hallucination("  [Music] "));
    assert!(is_exact_hallucination("Thanks for watching"));
}

#[test]
fn marker_inside_real_text_is_not_an_exact_hallucination() {
    assert!(!is_exact_hallucination("I went to [music] festival and loved the music"));
    let text = screen_transcript(
        &segs(&["I went to [music] festival and loved the music"]),
        RecognizerKind::StreamingAccept,
    )
    .unwrap();
    assert_eq!(text, "I went to [music] festival and loved the music");
}

#[test]
fn three_identical_words_are_pure_repetition() {
    assert!(is_pure_repetition("go go go"));
    assert!(is_pure_repetition("Go GO go"));
    assert!(!is_pure_repetition("go go stop"));
    assert!(!is_pure_repetition("go go"));
    let r = screen_transcript(&segs(&["go go go"]), RecognizerKind::BatchDecode);
    assert_eq!(r.unwrap_err().reason, RejectReason::HallucinationDetected);
    let s = screen_transcript(&segs(&["go go stop"]), RecognizerKind::BatchDecode);
    assert_eq!(s.unwrap(), "go go stop");
}

#[test]
fn one_word_in_ten_seconds_is_abnormal() {
    assert!(abnormal_speech_rate(1, 160000));
    let r = finish_transcript("Hello".to_string(), 160000);
    assert_eq!(r.unwrap_err().reason, RejectReason::AbnormalSpeechRate);
}

#[test]
fn twenty_words_in_ten_seconds_is_normal() {
    assert!(!abnormal_speech_rate(20, 160000));
    let text = "one two three four five six seven eight nine ten eleven twelve thirteen \
                fourteen fifteen sixteen seventeen eighteen nineteen twenty";
    let r = finish_transcript(text.to_string(), 160000).unwrap();
    assert_eq!(r.text, text);
}

#[test]
fn speech_rate_is_ignored_for_short_clips() {
    assert!(!abnormal_speech_rate(1, 32000));
    assert!(abnormal_speech_rate(100, 160000));
    assert!(!abnormal_speech_rate(80, 160000));
}

#[test]
fn repeated_letter_has_zero_entropy_and_is_rejected() {
    let text = "a".repeat(40);
    assert!(is_entropy_out_of_band(&text));
    let r = finish_transcript(text, 48000);
    assert_eq!(r.unwrap_err().reason, RejectReason::LowQualityTranscription);
    let spaced = "aaaa aaaa aaaa aaaa aaaa aaaa aaaa";
    assert!(is_entropy_out_of_band(spaced));
}

#[test]
fn ordinary_prose_is_within_the_entropy_band() {
    let long = "the quick brown fox jumps over the lazy dog again";
    assert!(!is_entropy_out_of_band(long));
    assert!(finish_transcript(long.to_string(), 48000).is_ok());
}

#[test]
fn entropy_is_only_checked_above_thirty_characters() {
    let short = "aaaa aaaa aaaa aaaa aaaa";
    assert!(is_entropy_out_of_band(short));
    let r = finish_transcript(short.to_string(), 16000);
    assert_eq!(r.unwrap_err().reason, RejectReason::RepetitiveText);
    let digits = "1234 5678 9012 3456 7890 1234 5678";
    assert!(is_entropy_out_of_band(digits));
    let d = finish_transcript(digits.to_string(), 48000);
    assert_eq!(d.unwrap_err().reason, RejectReason::LowQualityTranscription);
}

#[test]
fn fifty_distinct_letters_exceed_the_entropy_ceiling() {
    let text = "abcdefghijklmnopqrstuvwxyz \u{3b1}\u{3b2}\u{3b3}\u{3b4}\u{3b5}\u{3b6}\u{3b7}\u{3b8}\u{3b9}\u{3ba}\u{3bb}\u{3bc}\u{3bd}\u{3be}\u{3bf}\u{3c0}\u{3c1}\u{3c3}\u{3c4}\u{3c5}\u{3c6}\u{3c7}\u{3c8}\u{3c9}";
    assert_eq!(letter_counts(text).len(), 50);
    assert!(is_entropy_out_of_band(text));
    let forty = "abcdefghijklmnopqrstuvwxyz \u{3b1}\u{3b2}\u{3b3}\u{3b4}\u{3b5}\u{3b6}\u{3b7}\u{3b8}\u{3b9}\u{3ba}\u{3bb}\u{3bc}\u{3bd}\u{3be}";
    assert_eq!(letter_counts(forty).len(), 40);
    assert!(!is_entropy_out_of_band(forty));
}

#[test]
fn repeated_letter_has_a_single_class() {
    let text = "a".repeat(40);
    let counts = letter_counts(&text);
    assert_eq!(counts.len(), 1);
    assert_eq!(counts[0].letter, "a");
    assert_eq!(counts[0].count, 40);
    let mixed = letter_counts("AaA a!");
    assert_eq!(mixed.len(), 1);
    assert_eq!(mixed[0].count, 4);
}

#[test]
fn letter_counts_skip_non_letters() {
    let counts = letter_counts("Ab, ba 12");
    assert_eq!(counts.len(), 2);
    assert_eq!(counts[0].letter, "a");
    assert_eq!(counts[0].count, 2);
    assert_eq!(counts[1].letter, "b");
    assert_eq!(counts[1].count, 2);
    assert!(letter_counts("123 !?").is_empty());
}

#[test]
fn repetition_heuristic() {
    assert!(is_repetitive("the cat the cat sat"));
    assert!(is_repetitive("yes yes yes no"));
    assert!(!is_repetitive("I like apples and I like pears"));
    assert!(!is_repetitive("go go go"));
}

#[test]
fn segment_filter() {
    assert!(segment_is_usable(" Hello there."));
    assert!(!segment_is_usable("Hi"));
    assert!(!segment_is_usable("Hello"));
    assert!(!segment_is_usable("... !!"));
    assert!(!segment_is_usable(" la la la la"));
}

#[test]
fn no_usable_segment_is_rejected() {
    let r = screen_transcript(&segs(&["Hi", "...", "[music]"]), RecognizerKind::BatchDecode);
    assert_eq!(r.unwrap_err().reason, RejectReason::NoValidSegments);
}

#[test]
fn segments_are_joined_in_order() {
    let text = screen_transcript(
        &segs(&[" Good morning everyone.", "Hi", " How are you today?"]),
        RecognizerKind::BatchDecode,
    )
    .unwrap();
    assert_eq!(text, "Good morning everyone.  How are you today?");
}

#[test]
fn short_or_empty_transcripts_are_rejected() {
    let e = screen_transcript(&segs(&["   "]), RecognizerKind::StreamingAccept);
    assert_eq!(e.unwrap_err().reason, RejectReason::EmptyTranscription);
    let s = screen_transcript(&segs(&["Yes"]), RecognizerKind::StreamingAccept);
    assert_eq!(s.unwrap_err().reason, RejectReason::InsufficientSpeech);
    let m = screen_transcript(&segs(&["[music]"]), RecognizerKind::StreamingAccept);
    assert_eq!(m.unwrap_err().reason, RejectReason::InsufficientSpeech);
}

#[test]
fn denylisted_transcript_is_a_hallucination() {
    let r = screen_transcript(&segs(&["Thanks for watching!"]), RecognizerKind::StreamingAccept);
    assert!(r.is_ok());
    let h = screen_transcript(&segs(&[" Thanks for watching"]), RecognizerKind::StreamingAccept);
    let err = h.unwrap_err();
    assert_eq!(err.reason, RejectReason::HallucinationDetected);
    assert!(err.detail.contains("Thanks for watching"));
}

#[test]
fn repetitive_final_text_is_rejected() {
    let r = finish_transcript("we can we can do it".to_string(), 48000);
    assert_eq!(r.unwrap_err().reason, RejectReason::RepetitiveText);
}

#[test]
fn whole_check_accepts_clean_speech_and_trims_sign_off() {
    let r = validate_transcription(
        &segs(&[" I had a great day today.", " Thank you."]),
        RecognizerKind::BatchDecode,
        48000,
    )
    .unwrap();
    assert_eq!(r.text, "I had a great day today.");
    assert_eq!(r.language, Some("en".to_string()));
}

#[test]
fn whole_check_stops_at_first_failing_stage() {
    let r = validate_transcription(&segs(&["Hello"]), RecognizerKind::StreamingAccept, 160000);
    assert_eq!(r.unwrap_err().reason, RejectReason::InsufficientSpeech);
    let s = validate_transcription(&segs(&["Hello there"]), RecognizerKind::StreamingAccept, 160000);
    assert_eq!(s.unwrap_err().reason, RejectReason::AbnormalSpeechRate);
}

#[test]
fn lone_sign_off_is_rejected_as_hallucination() {
    for kind in [RecognizerKind::BatchDecode, RecognizerKind::StreamingAccept] {
        let r = validate_transcription(&segs(&["Thank you."]), kind, 16000);
        assert_eq!(r.unwrap_err().reason, RejectReason::HallucinationDetected);
        let s = validate_transcription(&segs(&[" See you later!"]), kind, 48000);
        assert_eq!(s.unwrap_err().reason, RejectReason::HallucinationDetected);
    }
    assert!(is_exact_hallucination("Thank you."));
    assert!(is_exact_hallucination("thanks"));
}

fn chars(s: &str) -> Vec<char> {
    s.chars().collect()
}

fn word_list(v: &[&str]) -> Vec<Vec<char>> {
    v.iter().map(|w| chars(w)).collect()
}

#[test]
fn pure_repetition_rule_on_lowered_words() {
    assert!(all_same_words(&word_list(&["go", "go", "go"])));
    assert!(!all_same_words(&word_list(&["go", "go", "stop"])));
    assert!(!all_same_words(&word_list(&["go", "go"])));
}

#[test]
fn repetition_rule_on_lowered_words() {
    assert!(repetitive_words(&word_list(&["a", "b", "a", "b", "c"])));
    assert!(repetitive_words(&word_list(&["x", "y", "x", "z", "x"])));
    assert!(!repetitive_words(&word_list(&["x", "y", "x", "z", "w"])));
    assert!(!repetitive_words(&word_list(&["x", "x", "x"])));
}

#[test]
fn denylist_matches_whole_keys_only() {
    assert!(is_denylisted_key(&chars("[music]")));
    assert!(is_denylisted_key(&chars("thank you.")));
    assert!(!is_denylisted_key(&chars("i went to [music] festival and loved the music")));
    assert!(!is_denylisted_key(&chars("[music] ")));
}

#[test]
fn sign_off_suffix_on_lowered_characters() {
    let lowered: Vec<Vec<char>> = "I had fun. thank you.".chars().map(|c| vec![c]).collect();
    assert!(lowered_suffix_matches(&lowered, &chars("thank you.")));
    assert!(!lowered_suffix_matches(&lowered, &chars("thank you!")));
    let expanded = vec![vec!['i', '\u{307}'], vec!['x']];
    assert!(!lowered_suffix_matches(&expanded, &chars("ix")));
    assert!(lowered_suffix_matches(&expanded, &chars("x")));
}
