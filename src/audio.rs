use vstd::prelude::*;
use crate::error::{AppError, RejectReason, Rejection};

verus! {

/// The two recognizer families; which one runs is fixed at configuration time.
#[derive(Clone, Copy, Debug, PartialEq, Eq, Structural)]
pub enum RecognizerKind {
    /// Beam-search decoding over the whole clip of normalized samples.
    BatchDecode,
    /// Incremental recognition fed with 16-bit samples in windows.
    StreamingAccept,
}

/// The sample rate that both recognizers expect.
pub const TARGET_RATE: u32 = 16000;

/// Division rounding toward zero, as integer division in Rust does.
pub open spec fn trunc_div(a: int, d: int) -> int {
    if a >= 0 {
        a / d
    } else {
        -((-a) / d)
    }
}

pub open spec fn clamp16(v: int) -> i16 {
    if v > 32767 {
        32767i16
    } else if v < -32768 {
        -32768i16
    } else {
        v as i16
    }
}

pub open spec fn abs(v: int) -> int {
    if v < 0 {
        -v
    } else {
        v
    }
}

/// Mono as it is; stereo as the mean of each left/right pair, rounded toward
/// zero.
pub open spec fn down_mix(s: Seq<i16>, channels: u16) -> Seq<i16> {
    if channels == 2 {
        Seq::new(
            s.len() / 2,
            |i: int| trunc_div(s[2 * i] as int + s[2 * i + 1] as int, 2) as i16,
        )
    } else {
        s
    }
}

/// How many samples a clip of `n` samples at `rate` has at 16 kHz.
pub open spec fn resampled_len(n: nat, rate: nat) -> nat {
    (n * 16000 / rate) as nat
}

/// Output sample `i`: source position `i * rate / 16000`, blended linearly
/// between the samples on either side of it.
pub open spec fn resample_at(s: Seq<i16>, rate: nat, i: int) -> i16 {
    let q = i * rate;
    let idx = q / 16000;
    let frac = q % 16000;
    if idx + 1 < s.len() {
        trunc_div(s[idx] * (16000 - frac) + s[idx + 1] * frac, 16000) as i16
    } else {
        s[idx]
    }
}

/// Linear-interpolation resampling from `rate` to 16 kHz.
pub open spec fn resample(s: Seq<i16>, rate: nat) -> Seq<i16> {
    Seq::new(resampled_len(s.len(), rate), |i: int| resample_at(s, rate, i))
}

pub open spec fn sum_squares(s: Seq<i16>) -> int
    decreases s.len(),
{
    if s.len() == 0 {
        0
    } else {
        sum_squares(s.drop_last()) + s.last() * s.last()
    }
}

/// The clip is not silent: with samples read as `s / 32768`, the RMS is
/// above 0.001 or some sample's magnitude is above 0.01.
pub open spec fn has_content(s: Seq<i16>) -> bool {
    s.len() > 0 && (sum_squares(s) * 1_000_000 > s.len() * (32768 * 32768) || exists|i: int|
        0 <= i < s.len() && 100 * abs(#[trigger] s[i] as int) > 32768)
}

pub open spec fn max_abs(s: Seq<i16>) -> int
    decreases s.len(),
{
    if s.len() == 0 {
        0
    } else {
        let m = max_abs(s.drop_last());
        let a = abs(s.last() as int);
        if a > m {
            a
        } else {
            m
        }
    }
}

/// Amplitude normalization: every sample scaled by `0.95 * 32767 / peak`,
/// rounded toward zero and clamped; a silent buffer is left alone.
pub open spec fn normalize(s: Seq<i16>) -> Seq<i16> {
    let m = max_abs(s);
    if m == 0 {
        s
    } else {
        Seq::new(s.len(), |i: int| clamp16(trunc_div(s[i] * (32767 * 95), m * 100)))
    }
}

/// The state of the single-pole high-pass filter at sample `n`:
/// `f[n] = 0.98 * (f[n-1] + x[n] - x[n-1])`, rounded toward zero, with
/// `f[0] = x[0]`.
pub open spec fn high_pass_state(x: Seq<i16>, n: int) -> int
    decreases n,
{
    if n <= 0 {
        x[0] as int
    } else {
        trunc_div(98 * (high_pass_state(x, n - 1) + x[n] - x[n - 1]), 100)
    }
}

pub open spec fn high_pass(x: Seq<i16>) -> Seq<i16> {
    Seq::new(x.len(), |n: int| clamp16(high_pass_state(x, n)))
}

/// Decoded audio as 16 kHz mono, or why its layout cannot be used.
pub open spec fn mono_at_target(channels: u16, rate: u32, s: Seq<i16>) -> Result<
    Seq<i16>,
    RejectReason,
> {
    if !(channels == 1 || channels == 2) || rate == 0 {
        Err(RejectReason::AudioDecodeError)
    } else {
        let m = down_mix(s, channels);
        if resampled_len(m.len(), rate as nat) > usize::MAX {
            Err(RejectReason::AudioDecodeError)
        } else {
            Ok(resample(m, rate as nat))
        }
    }
}

/// The recognizer-specific steps on 16 kHz mono audio: the streaming
/// recognizer gets it normalized and high-pass filtered.
pub open spec fn adapted(r: Seq<i16>, kind: RecognizerKind) -> Seq<i16> {
    match kind {
        RecognizerKind::BatchDecode => r,
        RecognizerKind::StreamingAccept => high_pass(normalize(r)),
    }
}

/// What the signal conditioner makes of decoded audio, or why it refuses it.
pub open spec fn conditioned(channels: u16, rate: u32, s: Seq<i16>, kind: RecognizerKind) -> Result<
    Seq<i16>,
    RejectReason,
> {
    match mono_at_target(channels, rate, s) {
        Err(e) => Err(e),
        Ok(r) => Ok(adapted(r, kind)),
    }
}

/// Conditioning with the content check in between: a silent clip is refused
/// before any recognizer-specific step.
pub open spec fn prepared(channels: u16, rate: u32, s: Seq<i16>, kind: RecognizerKind) -> Result<
    Seq<i16>,
    RejectReason,
> {
    match mono_at_target(channels, rate, s) {
        Err(e) => Err(e),
        Ok(r) => if has_content(r) {
            Ok(adapted(r, kind))
        } else {
            Err(RejectReason::SilentAudio)
        },
    }
}

fn trunc_div_exec(a: i64, d: i64) -> (r: i64)
    requires
        d > 0,
        a > i64::MIN,
    ensures
        r == trunc_div(a as int, d as int),
{
    if a >= 0 {
        a / d
    } else {
        -((-a) / d)
    }
}

fn clamp16_exec(v: i64) -> (r: i16)
    ensures
        r == clamp16(v as int),
{
    if v > 32767 {
        32767
    } else if v < -32768 {
        -32768
    } else {
        v as i16
    }
}

/// Averages the channels of interleaved audio: mono is copied, stereo pairs
/// are averaged.
pub fn down_mix_samples(samples: &Vec<i16>, channels: u16) -> (r: Vec<i16>)
    requires
        channels == 1 || channels == 2,
    ensures
        r@ == down_mix(samples@, channels),
{
    let mut r: Vec<i16> = Vec::new();
    if channels == 1 {
        let mut i: usize = 0;
        while i < samples.len()
            invariant
                i <= samples.len(),
                r@ == samples@.subrange(0, i as int),
            decreases samples.len() - i,
        {
            r.push(samples[i]);
            i += 1;
            assert(r@ =~= samples@.subrange(0, i as int));
        }
        assert(r@ =~= samples@);
        return r;
    }
    let len = samples.len();
    let n = len / 2;
    let mut i: usize = 0;
    while i < n
        invariant
            len == samples@.len(),
            n == samples@.len() / 2,
            i <= n,
            r@.len() == i,
            forall|k: int|
                0 <= k < i ==> #[trigger] r@[k] == trunc_div(
                    samples@[2 * k] as int + samples@[2 * k + 1] as int,
                    2,
                ) as i16,
        decreases n - i,
    {
        assert(2 * i + 1 < samples@.len());
        let sum = samples[2 * i] as i64 + samples[2 * i + 1] as i64;
        let m = trunc_div_exec(sum, 2);
        assert(-32768 <= m <= 32767);
        r.push(m as i16);
        i += 1;
    }
    assert(r@ =~= down_mix(samples@, channels));
    r
}

proof fn lemma_blend_bounds(a: int, b: int, f: int)
    requires
        -32768 <= a <= 32767,
        -32768 <= b <= 32767,
        0 <= f < 16000,
    ensures
        -32768 * 16000 <= a * (16000 - f) <= 32768 * 16000,
        -32768 * 16000 <= b * f <= 32768 * 16000,
        -32768 * 16000 <= a * (16000 - f) + b * f <= 32767 * 16000,
        -32768 <= trunc_div(a * (16000 - f) + b * f, 16000) <= 32767,
{
    assert(-32768 * 16000 <= a * (16000 - f) <= 32768 * 16000) by (nonlinear_arith)
        requires
            -32768 <= a <= 32767,
            0 <= f < 16000,
    ;
    assert(-32768 * 16000 <= b * f <= 32768 * 16000) by (nonlinear_arith)
        requires
            -32768 <= b <= 32767,
            0 <= f < 16000,
    ;
    assert(-32768 * 16000 <= a * (16000 - f) + b * f <= 32767 * 16000) by (nonlinear_arith)
        requires
            -32768 <= a <= 32767,
            -32768 <= b <= 32767,
            0 <= f < 16000,
    ;
}

proof fn lemma_scale_back(a: int)
    ensures
        trunc_div(a * 16000, 16000) == a,
{
    if a >= 0 {
        assert((a * 16000) / 16000 == a) by (nonlinear_arith);
    } else {
        assert(-(a * 16000) == (-a) * 16000) by (nonlinear_arith);
        assert(((-a) * 16000) / 16000 == -a) by (nonlinear_arith);
    }
}

/// Resampling a buffer that is already at 16 kHz gives it back unchanged.
pub proof fn lemma_resample_identity(s: Seq<i16>)
    ensures
        resample(s, 16000) == s,
{
    assert(s.len() * 16000 / 16000 == s.len()) by (nonlinear_arith);
    assert forall|i: int| 0 <= i < s.len() implies #[trigger] resample_at(s, 16000, i) == s[i] by {
        assert((i * 16000) / 16000 == i) by (nonlinear_arith);
        assert((i * 16000) % 16000 == 0) by (nonlinear_arith);
        if i + 1 < s.len() {
            assert(s[i] * (16000 - 0) + s[i + 1] * 0 == s[i] * 16000) by (nonlinear_arith);
            lemma_scale_back(s[i] as int);
        }
    }
    assert(resample(s, 16000) =~= s);
}

/// Resamples to 16 kHz by linear interpolation; at 16 kHz the samples are
/// copied unchanged.
pub fn resample_to_target(samples: &Vec<i16>, rate: u32) -> (r: Vec<i16>)
    requires
        rate > 0,
        resampled_len(samples@.len(), rate as nat) <= usize::MAX,
    ensures
        r@ == resample(samples@, rate as nat),
{
    let mut r: Vec<i16> = Vec::new();
    let n = samples.len();
    if rate == TARGET_RATE {
        let mut i: usize = 0;
        while i < n
            invariant
                n == samples@.len(),
                i <= n,
                r@ == samples@.subrange(0, i as int),
            decreases n - i,
        {
            r.push(samples[i]);
            i += 1;
            assert(r@ =~= samples@.subrange(0, i as int));
        }
        assert(r@ =~= samples@);
        proof {
            lemma_resample_identity(samples@);
        }
        return r;
    }
    let new_len = ((n as u128) * 16000 / (rate as u128)) as usize;
    let mut i: usize = 0;
    while i < new_len
        invariant
            n == samples@.len(),
            rate > 0,
            new_len == resampled_len(n as nat, rate as nat),
            i <= new_len,
            r@.len() == i,
            forall|k: int| 0 <= k < i ==> #[trigger] r@[k] == resample_at(samples@, rate as nat, k),
        decreases new_len - i,
    {
        assert((i as u128) * (rate as u128) <= 0xffff_ffff_ffff_ffff * 0xffff_ffffu128) by (nonlinear_arith)
            requires
                i <= 0xffff_ffff_ffff_ffffu128,
                rate <= 0xffff_ffffu128,
        ;
        let q: u128 = (i as u128) * (rate as u128);
        proof {
            let ii = i as int;
            let rr = rate as int;
            let nn = n as int;
            assert(ii + 1 <= nn * 16000 / rr);
            assert((ii + 1) * rr <= nn * 16000) by (nonlinear_arith)
                requires
                    ii + 1 <= nn * 16000 / rr,
                    rr > 0,
            ;
            assert(ii * rr / 16000 < nn) by (nonlinear_arith)
                requires
                    (ii + 1) * rr <= nn * 16000,
                    rr > 0,
                    ii >= 0,
            ;
            assert(q == ii * rr) by (nonlinear_arith)
                requires
                    q == ii * rr,
            ;
        }
        let idx = (q / 16000) as usize;
        let frac = (q % 16000) as i64;
        if idx + 1 < n {
            let a = samples[idx] as i64;
            let b = samples[idx + 1] as i64;
            proof {
                lemma_blend_bounds(a as int, b as int, frac as int);
            }
            let v = a * (16000 - frac) + b * frac;
            let m = trunc_div_exec(v, 16000);
            r.push(m as i16);
        } else {
            r.push(samples[idx]);
        }
        i += 1;
    }
    assert(r@ =~= resample(samples@, rate as nat));
    r
}

/// Whether the clip holds more than silence: RMS above 0.001 or a peak above
/// 0.01, on samples read as `s / 32768`. An empty clip holds nothing.
pub fn check_audio_has_content(samples: &Vec<i16>) -> (r: bool)
    ensures
        r == has_content(samples@),
{
    let n = samples.len();
    if n == 0 {
        return false;
    }
    let mut sum: u128 = 0;
    let mut loud = false;
    let mut i: usize = 0;
    while i < n
        invariant
            n == samples@.len(),
            i <= n,
            sum == sum_squares(samples@.subrange(0, i as int)),
            sum <= i * 1073741824,
            loud == exists|k: int| 0 <= k < i && 100 * abs(#[trigger] samples@[k] as int) > 32768,
        decreases n - i,
    {
        let v = samples[i] as i64;
        assert(0 <= v * v <= 1073741824) by (nonlinear_arith)
            requires
                -32768 <= v <= 32767,
        ;
        assert(samples@.subrange(0, i + 1).drop_last() =~= samples@.subrange(0, i as int));
        sum = sum + (v * v) as u128;
        let a = if v < 0 {
            -v
        } else {
            v
        };
        if 100 * a > 32768 {
            loud = true;
        }
        i += 1;
    }
    assert(samples@ =~= samples@.subrange(0, n as int));
    loud || sum * 1_000_000 > (n as u128) * (32768 * 32768)
}

/// Scales the samples so that the loudest one reaches 95% of full scale.
pub fn normalize_amplitude(samples: &Vec<i16>) -> (r: Vec<i16>)
    ensures
        r@ == normalize(samples@),
{
    let n = samples.len();
    let mut m: i64 = 0;
    let mut i: usize = 0;
    while i < n
        invariant
            n == samples@.len(),
            i <= n,
            m == max_abs(samples@.subrange(0, i as int)),
            0 <= m <= 32768,
        decreases n - i,
    {
        assert(samples@.subrange(0, i + 1).drop_last() =~= samples@.subrange(0, i as int));
        let v = samples[i] as i64;
        let a = if v < 0 {
            -v
        } else {
            v
        };
        if a > m {
            m = a;
        }
        i += 1;
    }
    assert(samples@ =~= samples@.subrange(0, n as int));
    let mut r: Vec<i16> = Vec::new();
    let mut i: usize = 0;
    while i < n
        invariant
            n == samples@.len(),
            i <= n,
            m == max_abs(samples@),
            0 <= m <= 32768,
            r@.len() == i,
            m == 0 ==> forall|k: int| 0 <= k < i ==> #[trigger] r@[k] == samples@[k],
            m != 0 ==> forall|k: int|
                0 <= k < i ==> #[trigger] r@[k] == clamp16(
                    trunc_div(samples@[k] * (32767 * 95), m * 100),
                ),
        decreases n - i,
    {
        if m == 0 {
            r.push(samples[i]);
        } else {
            let v = samples[i] as i64;
            assert(-32768 * 3112865 <= v * 3112865 <= 32767 * 3112865) by (nonlinear_arith)
                requires
                    -32768 <= v <= 32767,
            ;
            let q = trunc_div_exec(v * 3112865, m * 100);
            r.push(clamp16_exec(q));
        }
        i += 1;
    }
    assert(r@ =~= normalize(samples@));
    r
}

proof fn lemma_trunc_div_bound(a: int, d: int, b: int)
    requires
        d > 0,
        b >= 0,
        -(b * d) <= a <= b * d,
    ensures
        -b <= trunc_div(a, d) <= b,
{
    if a >= 0 {
        assert(a / d <= b) by (nonlinear_arith)
            requires
                0 <= a <= b * d,
                d > 0,
        ;
        assert(a / d >= 0) by (nonlinear_arith)
            requires
                0 <= a,
                d > 0,
        ;
    } else {
        assert((-a) / d <= b) by (nonlinear_arith)
            requires
                0 <= -a <= b * d,
                d > 0,
        ;
        assert((-a) / d >= 0) by (nonlinear_arith)
            requires
                0 <= -a,
                d > 0,
        ;
    }
}

/// Removes DC offset and low-frequency rumble with a single-pole high-pass
/// filter (coefficient 0.98); the output is clamped to the 16-bit range.
pub fn high_pass_filter(samples: &Vec<i16>) -> (r: Vec<i16>)
    ensures
        r@ == high_pass(samples@),
{
    let n = samples.len();
    let mut r: Vec<i16> = Vec::new();
    if n == 0 {
        assert(r@ =~= high_pass(samples@));
        return r;
    }
    let mut prev: i64 = samples[0] as i64;
    r.push(clamp16_exec(prev));
    let mut i: usize = 1;
    while i < n
        invariant
            n == samples@.len(),
            1 <= i <= n,
            prev == high_pass_state(samples@, i - 1),
            -3_300_000 <= prev <= 3_300_000,
            r@.len() == i,
            forall|k: int| 0 <= k < i ==> #[trigger] r@[k] == clamp16(high_pass_state(samples@, k)),
        decreases n - i,
    {
        let t = prev + samples[i] as i64 - samples[i - 1] as i64;
        proof {
            lemma_trunc_div_bound(98 * t, 100, 3_300_000);
        }
        prev = trunc_div_exec(98 * t, 100);
        r.push(clamp16_exec(prev));
        i += 1;
    }
    assert(r@ =~= high_pass(samples@));
    r
}

fn to_mono_target(channels: u16, rate: u32, samples: &Vec<i16>) -> (r: Result<
    Vec<i16>,
    Rejection,
>)
    ensures
        match r {
            Ok(v) => mono_at_target(channels, rate, samples@) == Ok::<Seq<i16>, RejectReason>(v@),
            Err(e) => mono_at_target(channels, rate, samples@) == Err::<Seq<i16>, RejectReason>(
                e.reason,
            ),
        },
{
    if !(channels == 1 || channels == 2) {
        return Err(
            Rejection::new(
                RejectReason::AudioDecodeError,
                "Unsupported channel count: only mono and stereo audio is accepted",
            ),
        );
    }
    if rate == 0 {
        return Err(Rejection::new(RejectReason::AudioDecodeError, "Sample rate is zero"));
    }
    let mono = down_mix_samples(samples, channels);
    if (mono.len() as u128) * 16000 / (rate as u128) > usize::MAX as u128 {
        return Err(Rejection::new(RejectReason::AudioDecodeError, "Audio clip is too long"));
    }
    Ok(resample_to_target(&mono, rate))
}

fn adapt(r: Vec<i16>, kind: RecognizerKind) -> (v: Vec<i16>)
    ensures
        v@ == adapted(r@, kind),
{
    match kind {
        RecognizerKind::BatchDecode => r,
        RecognizerKind::StreamingAccept => {
            let normalized = normalize_amplitude(&r);
            high_pass_filter(&normalized)
        },
    }
}

/// The signal conditioner: down-mixes, resamples to 16 kHz, and for the
/// streaming recognizer normalizes and high-pass filters. Only a channel
/// layout other than mono or stereo, a zero sample rate, or a clip too long
/// to hold is refused.
pub fn condition_samples(
    channels: u16,
    rate: u32,
    samples: &Vec<i16>,
    kind: RecognizerKind,
) -> (r: Result<Vec<i16>, Rejection>)
    ensures
        match r {
            Ok(v) => conditioned(channels, rate, samples@, kind) == Ok::<Seq<i16>, RejectReason>(v@),
            Err(e) => conditioned(channels, rate, samples@, kind) == Err::<Seq<i16>, RejectReason>(
                e.reason,
            ),
        },
{
    let mono = to_mono_target(channels, rate, samples)?;
    Ok(adapt(mono, kind))
}

/// Conditioning with the content check run on the 16 kHz mono clip before
/// the recognizer-specific steps: a silent clip is refused as `SilentAudio`.
pub fn prepare_samples(
    channels: u16,
    rate: u32,
    samples: &Vec<i16>,
    kind: RecognizerKind,
) -> (r: Result<Vec<i16>, Rejection>)
    ensures
        match r {
            Ok(v) => prepared(channels, rate, samples@, kind) == Ok::<Seq<i16>, RejectReason>(v@),
            Err(e) => prepared(channels, rate, samples@, kind) == Err::<Seq<i16>, RejectReason>(
                e.reason,
            ),
        },
{
    let mono = to_mono_target(channels, rate, samples)?;
    if !check_audio_has_content(&mono) {
        return Err(
            Rejection::new(
                RejectReason::SilentAudio,
                "RMS at most 0.001 and peak at most 0.01: please speak louder and ensure your microphone is working",
            ),
        );
    }
    Ok(adapt(mono, kind))
}

/// Audio read from a WAV container: interleaved 16-bit samples.
pub struct WavAudio {
    pub channels: u16,
    pub sample_rate: u32,
    pub samples: Vec<i16>,
}

/// Channel count, sample rate and samples that hound reads from a WAV
/// container, or `None` where it refuses the bytes.
pub uninterp spec fn wav_decoded(bytes: Seq<u8>) -> Option<(u16, u32, Seq<i16>)>;

/// Relies on hound's `WavReader::new`, `WavReader::spec` and
/// `WavReader::into_samples::<i16>`: the header's channel count and sample
/// rate and every sample as `i16`, or the reader's error as text.
#[verifier::external_body]
fn read_wav(bytes: &[u8]) -> (r: Result<WavAudio, String>)
    ensures
        r is Ok <==> wav_decoded(bytes@) is Some,
        r is Ok ==> wav_decoded(bytes@) == Some(
            (r->Ok_0.channels, r->Ok_0.sample_rate, r->Ok_0.samples@),
        ),
{
    let reader = hound::WavReader::new(std::io::Cursor::new(bytes)).map_err(|e| e.to_string())?;
    let spec = reader.spec();
    let samples = reader.into_samples::<i16>().collect::<Result<Vec<i16>, hound::Error>>().map_err(
        |e| e.to_string(),
    )?;
    Ok(WavAudio { channels: spec.channels, sample_rate: spec.sample_rate, samples })
}

/// The samples a recognizer of the given kind receives for a WAV clip.
pub open spec fn recognizer_input(bytes: Seq<u8>, kind: RecognizerKind) -> Result<
    Seq<i16>,
    RejectReason,
> {
    match wav_decoded(bytes) {
        None => Err(RejectReason::AudioDecodeError),
        Some((channels, rate, s)) => conditioned(channels, rate, s, kind),
    }
}

/// What a recognizer of the given kind receives for a WAV clip once the
/// silence check has passed.
pub open spec fn prepared_input(bytes: Seq<u8>, kind: RecognizerKind) -> Result<
    Seq<i16>,
    RejectReason,
> {
    match wav_decoded(bytes) {
        None => Err(RejectReason::AudioDecodeError),
        Some((channels, rate, s)) => prepared(channels, rate, s, kind),
    }
}

/// Decodes a WAV clip and conditions it for the recognizer: 16 kHz mono
/// 16-bit samples (the batch recognizer reads each as `s / 32768`). Only an
/// unreadable container or an unusable layout is refused; silence is not
/// checked here.
pub fn convert_to_whisper_format(audio_data: &[u8], kind: RecognizerKind) -> (r: Result<
    Vec<i16>,
    Rejection,
>)
    ensures
        match r {
            Ok(v) => recognizer_input(audio_data@, kind) == Ok::<Seq<i16>, RejectReason>(v@),
            Err(e) => recognizer_input(audio_data@, kind) == Err::<Seq<i16>, RejectReason>(
                e.reason,
            ),
        },
{
    match read_wav(audio_data) {
        Ok(wav) => condition_samples(wav.channels, wav.sample_rate, &wav.samples, kind),
        Err(msg) => Err(Rejection::new(RejectReason::AudioDecodeError, msg.as_str())),
    }
}

/// Decodes a WAV clip, checks that it is not silent, and conditions it for
/// the recognizer.
pub fn prepare_audio(audio_data: &[u8], kind: RecognizerKind) -> (r: Result<Vec<i16>, Rejection>)
    ensures
        match r {
            Ok(v) => prepared_input(audio_data@, kind) == Ok::<Seq<i16>, RejectReason>(v@),
            Err(e) => prepared_input(audio_data@, kind) == Err::<Seq<i16>, RejectReason>(e.reason),
        },
{
    match read_wav(audio_data) {
        Ok(wav) => prepare_samples(wav.channels, wav.sample_rate, &wav.samples, kind),
        Err(msg) => Err(Rejection::new(RejectReason::AudioDecodeError, msg.as_str())),
    }
}

/// The standard base64 alphabet.
pub open spec fn base64_alphabet() -> Seq<char> {
    "ABCDEFGHIJKLMNOPQRSTUVWXYZabcdefghijklmnopqrstuvwxyz0123456789+/"@
}

/// Standard base64 with padding: each group of three bytes becomes four
/// digits of six bits; a final group of one or two bytes is padded with `=`
/// and its unused low bits are zero.
pub open spec fn base64_encoded(b: Seq<u8>) -> Seq<char>
    decreases b.len(),
{
    let a = base64_alphabet();
    if b.len() == 0 {
        seq![]
    } else if b.len() == 1 {
        let x = b[0] as int;
        seq![a[x / 4], a[(x % 4) * 16], '=', '=']
    } else if b.len() == 2 {
        let x = b[0] as int;
        let y = b[1] as int;
        seq![a[x / 4], a[(x % 4) * 16 + y / 16], a[(y % 16) * 4], '=']
    } else {
        let x = b[0] as int;
        let y = b[1] as int;
        let z = b[2] as int;
        seq![a[x / 4], a[(x % 4) * 16 + y / 16], a[(y % 16) * 4 + z / 64], a[z % 64]]
            + base64_encoded(b.subrange(3, b.len() as int))
    }
}

/// Relies on base64's `general_purpose::STANDARD` engine and `Engine::decode`:
/// with canonical padding required and no stray trailing bits allowed, it
/// accepts exactly the padded encodings and returns the bytes encoded.
#[verifier::external_body]
fn decode_base64(text: &str) -> (r: Result<Vec<u8>, String>)
    ensures
        r is Ok ==> base64_encoded(r->Ok_0@) == text@,
        r is Err ==> forall|b: Seq<u8>| #[trigger] base64_encoded(b) != text@,
{
    base64::Engine::decode(&base64::engine::general_purpose::STANDARD, text).map_err(
        |e| e.to_string(),
    )
}

/// Decodes the transport encoding of an audio payload.
pub fn decode_audio_payload(audio_base64: &str) -> (r: Result<Vec<u8>, AppError>)
    ensures
        r is Ok ==> base64_encoded(r->Ok_0@) == audio_base64@,
        r is Err ==> r->Err_0.code@ == "DECODE_ERROR"@ && forall|b: Seq<u8>|
            #[trigger] base64_encoded(b) != audio_base64@,
{
    match decode_base64(audio_base64) {
        Ok(bytes) => Ok(bytes),
        Err(msg) => Err(
            AppError::new("DECODE_ERROR", "Failed to decode audio data").with_details(msg.as_str()),
        ),
    }
}

/// Down-mixing and resampling are idempotent: once a buffer has been
/// down-mixed and resampled to 16 kHz, doing both again (as mono audio at
/// 16 kHz) gives it back unchanged.
pub proof fn lemma_conditioning_idempotent(s: Seq<i16>, channels: u16, rate: u32)
    requires
        channels == 1 || channels == 2,
        rate > 0,
    ensures
        resample(down_mix(resample(down_mix(s, channels), rate as nat), 1), 16000) == resample(
            down_mix(s, channels),
            rate as nat,
        ),
{
    lemma_resample_identity(resample(down_mix(s, channels), rate as nat));
}

proof fn lemma_sum_squares_zero(s: Seq<i16>)
    requires
        forall|i: int| 0 <= i < s.len() ==> s[i] == 0,
    ensures
        sum_squares(s) == 0,
    decreases s.len(),
{
    if s.len() > 0 {
        lemma_sum_squares_zero(s.drop_last());
    }
}

/// The silence rule: a buffer of zeros never has content, and a buffer with
/// a sample of magnitude at least 0.02 (read as `s / 32768`) always has.
pub proof fn lemma_silence_rule(s: Seq<i16>)
    ensures
        (forall|i: int| 0 <= i < s.len() ==> s[i] == 0) ==> !has_content(s),
        (exists|i: int| 0 <= i < s.len() && 50 * abs(#[trigger] s[i] as int) >= 32768)
            ==> has_content(s),
{
    if forall|i: int| 0 <= i < s.len() ==> s[i] == 0 {
        lemma_sum_squares_zero(s);
        assert(!exists|i: int| 0 <= i < s.len() && 100 * abs(#[trigger] s[i] as int) > 32768) by {
            assert forall|i: int| 0 <= i < s.len() implies !(100 * abs(#[trigger] s[i] as int)
                > 32768) by {
                assert(s[i] == 0);
            }
        }
    }
    if exists|i: int| 0 <= i < s.len() && 50 * abs(#[trigger] s[i] as int) >= 32768 {
        let i = choose|i: int| 0 <= i < s.len() && 50 * abs(#[trigger] s[i] as int) >= 32768;
        assert(100 * abs(s[i] as int) > 32768);
    }
}

/// A silent clip (mono, 16 kHz, all samples zero) is rejected as silent,
/// whichever recognizer is configured.
pub proof fn lemma_silent_clip_rejected(bytes: Seq<u8>, s: Seq<i16>, kind: RecognizerKind)
    requires
        wav_decoded(bytes) == Some((1u16, 16000u32, s)),
        s.len() <= usize::MAX,
        forall|i: int| 0 <= i < s.len() ==> s[i] == 0,
    ensures
        prepared_input(bytes, kind) == Err::<Seq<i16>, RejectReason>(RejectReason::SilentAudio),
{
    lemma_resample_identity(s);
    assert(s.len() * 16000 / 16000 == s.len()) by (nonlinear_arith);
    lemma_silence_rule(s);
}

/// A mono clip already at 16 kHz reaches the batch recognizer unchanged,
/// silent or not.
pub proof fn lemma_target_rate_mono_unchanged(bytes: Seq<u8>, s: Seq<i16>)
    requires
        wav_decoded(bytes) == Some((1u16, 16000u32, s)),
        s.len() <= usize::MAX,
    ensures
        recognizer_input(bytes, RecognizerKind::BatchDecode) == Ok::<Seq<i16>, RejectReason>(s),
{
    lemma_resample_identity(s);
    assert(s.len() * 16000 / 16000 == s.len()) by (nonlinear_arith);
}

/// Samples in one window fed to the streaming recognizer: half a second.
pub const STREAM_WINDOW: usize = 8000;

pub open spec fn concat_windows(ws: Seq<Seq<i16>>) -> Seq<i16>
    decreases ws.len(),
{
    if ws.len() == 0 {
        seq![]
    } else {
        concat_windows(ws.drop_last()) + ws.last()
    }
}

pub open spec fn window_views(ws: Seq<Vec<i16>>) -> Seq<Seq<i16>> {
    ws.map_values(|w: Vec<i16>| w@)
}

/// Cuts conditioned audio into the consecutive windows that the streaming
/// recognizer accepts: all of `STREAM_WINDOW` samples but the last, which
/// holds the rest.
pub fn split_into_windows(samples: &Vec<i16>) -> (r: Vec<Vec<i16>>)
    ensures
        concat_windows(window_views(r@)) == samples@,
        forall|k: int| 0 <= k < r@.len() ==> 0 < (#[trigger] r@[k])@.len() <= STREAM_WINDOW,
        forall|k: int| 0 <= k < r@.len() - 1 ==> (#[trigger] r@[k])@.len() == STREAM_WINDOW,
{
    let n = samples.len();
    let mut r: Vec<Vec<i16>> = Vec::new();
    let mut start: usize = 0;
    assert(samples@.subrange(0, 0) =~= Seq::<i16>::empty());
    while start < n
        invariant
            n == samples@.len(),
            start <= n,
            concat_windows(window_views(r@)) == samples@.subrange(0, start as int),
            forall|k: int| 0 <= k < r@.len() ==> (#[trigger] r@[k])@.len() == STREAM_WINDOW,
        decreases n - start,
    {
        let end = if n - start > STREAM_WINDOW {
            start + STREAM_WINDOW
        } else {
            n
        };
        let mut w: Vec<i16> = Vec::new();
        let mut i: usize = start;
        while i < end
            invariant
                start <= i <= end <= n,
                n == samples@.len(),
                w@ == samples@.subrange(start as int, i as int),
            decreases end - i,
        {
            w.push(samples[i]);
            i += 1;
            assert(w@ =~= samples@.subrange(start as int, i as int));
        }
        let ghost before = window_views(r@);
        r.push(w);
        assert(window_views(r@).drop_last() =~= before);
        assert(samples@.subrange(0, end as int) =~= samples@.subrange(0, start as int)
            + samples@.subrange(start as int, end as int));
        if end < n {
            start = end;
        } else {
            assert(samples@.subrange(0, n as int) =~= samples@);
            return r;
        }
    }
    assert(samples@.subrange(0, n as int) =~= samples@);
    r
}

} // verus!
