use loud_mouth::{
    check_audio_has_content, condition_samples, convert_to_whisper_format, decode_audio_payload,
    down_mix_samples, high_pass_filter, normalize_amplitude, prepare_audio, prepare_samples,
    resample_to_target, split_into_windows,
    RecognizerKind, RejectReason, STREAM_WINDOW,
};

fn wav_bytes(channels: u16, rate: u32, samples: &[i16]) -> Vec<u8> {
    let data_len = (samples.len() * 2) as u32;
    let block_align = channels * 2;
    let mut b = Vec::new();
    b.extend_from_slice(b"RIFF");
    b.extend_from_slice(&(36 + data_len).to_le_bytes());
    b.extend_from_slice(b"WAVE");
    b.extend_from_slice(b"fmt ");
    b.extend_from_slice(&16u32.to_le_bytes());
    b.extend_from_slice(&1u16.to_le_bytes());
    b.extend_from_slice(&channels.to_le_bytes());
    b.extend_from_slice(&rate.to_le_bytes());
    b.extend_from_slice(&(rate * block_align as u32).to_le_bytes());
    b.extend_from_slice(&block_align.to_le_bytes());
    b.extend_from_slice(&16u16.to_le_bytes());
    b.extend_from_slice(b"data");
    b.extend_from_slice(&data_len.to_le_bytes());
    for s in samples {
        b.extend_from_slice(&s.to_le_bytes());
    }
    b
}

#[test]
fn resampling_at_target_rate_is_identity() {
    let v: Vec<i16> = vec![5, -7, 32767, -32768, 0, 12];
    assert_eq!(resample_to_target(&v, 16000), v);
}

#[test]
fn down_mix_then_resample_twice_changes_nothing() {
    let stereo: Vec<i16> = vec![100, 300, -50, -51, 7000, 6000, 1, 2];
    let once = resample_to_target(&down_mix_samples(&stereo, 2), 8000);
    let twice = resample_to_target(&down_mix_samples(&once, 1), 16000);
    assert_eq!(once, twice);
}

#[test]
fn resampling_interpolates_linearly() {
    let v: Vec<i16> = vec![0, 1000];
    assert_eq!(resample_to_target(&v, 8000), vec![0, 500, 1000, 1000]);
    let w: Vec<i16> = vec![0, 300, 600, 900];
    assert_eq!(resample_to_target(&w, 32000), vec![0, 600]);
}

#[test]
fn stereo_down_mix_averages_toward_zero() {
    let v: Vec<i16> = vec![100, 201, -3, 0, 32767, 32767, -32768, -32768];
    assert_eq!(down_mix_samples(&v, 2), vec![150, -1, 32767, -32768]);
    assert_eq!(down_mix_samples(&v, 1), v);
}

#[test]
fn all_zero_buffer_is_silent() {
    assert!(!check_audio_has_content(&vec![0i16; 16000]));
    assert!(!check_audio_has_content(&Vec::new()));
}

#[test]
fn one_sample_at_two_percent_is_content() {
    let mut v = vec![0i16; 48000];
    v[1234] = 656;
    assert!(check_audio_has_content(&v));
    let mut w = vec![0i16; 48000];
    w[0] = -656;
    assert!(check_audio_has_content(&w));
}

#[test]
fn quiet_steady_signal_passes_on_rms() {
    assert!(check_audio_has_content(&vec![40i16; 1000]));
    assert!(!check_audio_has_content(&vec![30i16; 1000]));
}

#[test]
fn normalization_scales_peak_to_95_percent() {
    assert_eq!(normalize_amplitude(&vec![1000, -500]), vec![31128, -15564]);
    assert_eq!(normalize_amplitude(&vec![0, 0]), vec![0, 0]);
}

#[test]
fn high_pass_filter_decays_a_constant() {
    assert_eq!(high_pass_filter(&vec![100, 100, 100]), vec![100, 98, 96]);
    assert_eq!(high_pass_filter(&Vec::new()), Vec::<i16>::new());
}

#[test]
fn unsupported_channel_count_is_a_decode_error() {
    let r = condition_samples(3, 16000, &vec![1000, 1000, 1000], RecognizerKind::BatchDecode);
    assert_eq!(r.unwrap_err().reason, RejectReason::AudioDecodeError);
    let z = condition_samples(1, 0, &vec![1000], RecognizerKind::BatchDecode);
    assert_eq!(z.unwrap_err().reason, RejectReason::AudioDecodeError);
}

#[test]
fn silent_three_second_clip_is_rejected_for_both_backends() {
    let bytes = wav_bytes(1, 16000, &vec![0i16; 48000]);
    for kind in [RecognizerKind::BatchDecode, RecognizerKind::StreamingAccept] {
        let r = prepare_audio(&bytes, kind);
        assert_eq!(r.unwrap_err().reason, RejectReason::SilentAudio);
        let c = convert_to_whisper_format(&bytes, kind).unwrap();
        assert_eq!(c, vec![0i16; 48000]);
    }
}

#[test]
fn wav_clip_is_decoded_and_conditioned() {
    let bytes = wav_bytes(2, 8000, &[1000, 3000, -2000, -4000]);
    let r = convert_to_whisper_format(&bytes, RecognizerKind::BatchDecode).unwrap();
    assert_eq!(r, vec![2000, -500, -3000, -3000]);
    let mono = wav_bytes(1, 16000, &[0, 20000, -20000, 0]);
    let s = convert_to_whisper_format(&mono, RecognizerKind::BatchDecode).unwrap();
    assert_eq!(s, vec![0, 20000, -20000, 0]);
}

#[test]
fn streaming_backend_gets_normalized_filtered_samples() {
    let mono = wav_bytes(1, 16000, &[1000, 1000, 1000]);
    let s = convert_to_whisper_format(&mono, RecognizerKind::StreamingAccept).unwrap();
    assert_eq!(s, vec![31128, 30505, 29894]);
}

#[test]
fn malformed_container_is_a_decode_error() {
    let r = convert_to_whisper_format(b"not a wav file", RecognizerKind::BatchDecode);
    assert_eq!(r.unwrap_err().reason, RejectReason::AudioDecodeError);
}

#[test]
fn base64_payload_is_decoded() {
    assert_eq!(decode_audio_payload("aGk=").unwrap(), vec![104u8, 105u8]);
    let e = decode_audio_payload("!!!").unwrap_err();
    assert_eq!(e.code, "DECODE_ERROR");
    assert_eq!(decode_audio_payload("").unwrap(), Vec::<u8>::new());
    assert_eq!(decode_audio_payload("AAEC/w==").unwrap(), vec![0u8, 1, 2, 255]);
}

#[test]
fn only_canonical_padded_base64_is_accepted() {
    assert!(decode_audio_payload("aGk").is_err());
    assert!(decode_audio_payload("aGl=").is_err());
    assert!(decode_audio_payload(" aGk=").is_err());
}

#[test]
fn streaming_windows_cover_the_clip_in_order() {
    let v: Vec<i16> = (0..20000).map(|i| (i % 1000) as i16).collect();
    let ws = split_into_windows(&v);
    assert_eq!(ws.len(), 3);
    assert_eq!(ws[0].len(), STREAM_WINDOW);
    assert_eq!(ws[1].len(), STREAM_WINDOW);
    assert_eq!(ws[2].len(), 4000);
    assert_eq!(ws.concat(), v);
    assert!(split_into_windows(&Vec::new()).is_empty());
    assert_eq!(split_into_windows(&vec![1i16; 8000]).len(), 1);
}

#[test]
fn silence_check_runs_before_recognizer_specific_steps() {
    let loud = prepare_samples(1, 16000, &vec![1000, 1000, 1000], RecognizerKind::StreamingAccept);
    assert_eq!(loud.unwrap(), vec![31128, 30505, 29894]);
    let quiet = prepare_samples(2, 8000, &vec![0, 0, 0, 0], RecognizerKind::BatchDecode);
    assert_eq!(quiet.unwrap_err().reason, RejectReason::SilentAudio);
    let stereo = condition_samples(2, 16000, &vec![0, 0, 3, -4], RecognizerKind::BatchDecode);
    assert_eq!(stereo.unwrap(), vec![0, 0]);
}
