//! The real-time audio analysis pipeline.
//!
//! Samples, window weights and feature values are fixed-point microunits
//! (`AMP_SCALE` is `1.0`); frequencies are millihertz (`FREQ_SCALE` is
//! `1 Hz`). The forward spectral transform itself works on machine floats
//! and therefore lives outside this crate: a caller runs it between
//! [`AudioAnalyzer::prepare_frame`] and [`AudioAnalyzer::complete_frame`]
//! and hands back the complex bins, scaled to microunits. Everything on
//! either side of that call is exact integer arithmetic, verified here.

use vstd::prelude::*;

verus! {

use crate::AMP_SCALE;
use crate::config::{AudioConfig, ConfigError, audio_config_valid};
use crate::fixed::{div_trunc, spec_hann_weight, hann_window};
use std::collections::VecDeque;

/// Largest magnitude the pipeline accepts for an incoming mono sample:
/// two full-scale units. Keeps every energy sum inside `i128`.
pub const SAMPLE_LIMIT: i64 = 2_000_000;

/// Largest magnitude accepted for a real or imaginary part of a spectral
/// bin: `fft_size` full-scale units at the largest transform size + headroom.
pub const REAL_LIMIT: i64 = 5_000_000_000;

/// Sum of a sequence of samples.
pub open spec fn sum_of(s: Seq<i64>) -> int
    decreases s.len(),
{
    if s.len() == 0 {
        0
    } else {
        sum_of(s.drop_last()) + s.last()
    }
}

/// Sum of squares of a sequence of samples.
pub open spec fn sum_sq(s: Seq<i64>) -> int
    decreases s.len(),
{
    if s.len() == 0 {
        0
    } else {
        sum_sq(s.drop_last()) + s.last() * s.last()
    }
}

/// Sum of pairwise products of two equally long sequences.
pub open spec fn sum_prod(a: Seq<i64>, b: Seq<i64>) -> int
    recommends
        a.len() == b.len(),
    decreases a.len(),
{
    if a.len() == 0 {
        0
    } else {
        sum_prod(a.drop_last(), b.drop_last()) + a.last() * b.last()
    }
}

/// Number of adjacent pairs whose product is negative: the sign changes.
pub open spec fn count_crossings(s: Seq<i64>) -> int
    decreases s.len(),
{
    if s.len() < 2 {
        0
    } else {
        count_crossings(s.drop_last()) + if s[s.len() - 2] * s.last() < 0 {
            1int
        } else {
            0int
        }
    }
}

pub proof fn lemma_sum_of_take_step(s: Seq<i64>, i: int)
    requires
        0 <= i < s.len(),
    ensures
        sum_of(s.take(i + 1)) == sum_of(s.take(i)) + s[i],
{
    assert(s.take(i + 1).drop_last() =~= s.take(i));
    assert(s.take(i + 1).last() == s[i]);
}

pub proof fn lemma_sum_sq_take_step(s: Seq<i64>, i: int)
    requires
        0 <= i < s.len(),
    ensures
        sum_sq(s.take(i + 1)) == sum_sq(s.take(i)) + s[i] * s[i],
{
    assert(s.take(i + 1).drop_last() =~= s.take(i));
    assert(s.take(i + 1).last() == s[i]);
}

pub proof fn lemma_sum_prod_take_step(a: Seq<i64>, b: Seq<i64>, i: int)
    requires
        a.len() == b.len(),
        0 <= i < a.len(),
    ensures
        sum_prod(a.take(i + 1), b.take(i + 1)) == sum_prod(a.take(i), b.take(i)) + a[i] * b[i],
{
    assert(a.take(i + 1).drop_last() =~= a.take(i));
    assert(b.take(i + 1).drop_last() =~= b.take(i));
    assert(a.take(i + 1).last() == a[i]);
    assert(b.take(i + 1).last() == b[i]);
}

pub proof fn lemma_count_crossings_take_step(s: Seq<i64>, i: int)
    requires
        1 <= i < s.len(),
    ensures
        count_crossings(s.take(i + 1)) == count_crossings(s.take(i)) + if s[i - 1] * s[i] < 0 {
            1int
        } else {
            0int
        },
{
    assert(s.take(i + 1).drop_last() =~= s.take(i));
    assert(s.take(i + 1).last() == s[i]);
    assert(s.take(i + 1)[i - 1] == s[i - 1]);
}

/// A sum of values each bounded by `b` in magnitude is bounded by `len * b`.
pub proof fn lemma_sum_of_bound(s: Seq<i64>, b: int)
    requires
        forall|i: int| 0 <= i < s.len() ==> -b <= #[trigger] s[i] <= b,
        b >= 0,
    ensures
        -((s.len() as int) * b) <= sum_of(s) <= (s.len() as int) * b,
    decreases s.len(),
{
    let n = s.len() as int;
    if s.len() == 0 {
        assert(n * b == 0) by (nonlinear_arith)
            requires
                n == 0,
        ;
    } else {
        lemma_sum_of_bound(s.drop_last(), b);
        assert(s.drop_last().len() as int == n - 1);
        assert((n - 1) * b + b == n * b && -((n - 1) * b) - b == -(n * b)) by (nonlinear_arith);
    }
}

/// The mono downmix of interleaved samples: frame `f` is the truncating
/// average of its `ch` channel samples.
pub open spec fn channel_sum(s: Seq<i64>, ch: int, f: int, c: int) -> int
    decreases c,
{
    if c <= 0 {
        0
    } else {
        channel_sum(s, ch, f, c - 1) + s[f * ch + (c - 1)]
    }
}

pub open spec fn spec_mono_at(s: Seq<i64>, ch: int, f: int) -> int {
    div_trunc(channel_sum(s, ch, f, ch), ch)
}

pub proof fn lemma_channel_sum_bound(s: Seq<i64>, ch: int, f: int, c: int, lo: int, hi: int)
    requires
        forall|i: int| 0 <= i < s.len() ==> lo <= #[trigger] s[i] <= hi,
        lo <= 0 <= hi,
        0 <= c <= ch,
        0 <= f,
        f * ch + ch <= s.len(),
    ensures
        c * lo <= channel_sum(s, ch, f, c) <= c * hi,
    decreases c,
{
    if c > 0 {
        lemma_channel_sum_bound(s, ch, f, c - 1, lo, hi);
        assert(0 <= f * ch) by (nonlinear_arith)
            requires
                0 <= f,
                0 < ch,
        ;
        assert((c - 1) * lo + lo == c * lo) by (nonlinear_arith);
        assert((c - 1) * hi + hi == c * hi) by (nonlinear_arith);
    }
}

/// The truncating average of values in `[lo, hi]` (with `lo <= 0 <= hi`)
/// stays in `[lo, hi]`.
pub proof fn lemma_mono_at_bound(s: Seq<i64>, ch: int, f: int, lo: int, hi: int)
    requires
        forall|i: int| 0 <= i < s.len() ==> lo <= #[trigger] s[i] <= hi,
        lo <= 0 <= hi,
        ch >= 1,
        0 <= f,
        f * ch + ch <= s.len(),
    ensures
        lo <= spec_mono_at(s, ch, f) <= hi,
{
    lemma_channel_sum_bound(s, ch, f, ch, lo, hi);
    let acc = channel_sum(s, ch, f, ch);
    if acc >= 0 {
        crate::fixed::lemma_div_le(acc, ch * hi, ch);
        vstd::arithmetic::div_mod::lemma_div_multiples_vanish(hi, ch);
    } else {
        assert(-(ch * lo) == ch * (-lo)) by (nonlinear_arith);
        crate::fixed::lemma_div_le(-acc, ch * (-lo), ch);
        vstd::arithmetic::div_mod::lemma_div_multiples_vanish(-lo, ch);
    }
}

/// Frequency-domain data derived from one windowed transform.
#[derive(Debug, Clone)]
pub struct FrequencyData {
    /// Magnitude of each bin, in microunits.
    pub bins: Vec<i64>,
    /// Center frequency of each bin, in millihertz.
    pub bin_frequencies: Vec<i64>,
    /// Frequency of the first bin with maximal magnitude, in millihertz.
    pub peak_frequency: i64,
    /// Magnitude-weighted average frequency, in millihertz.
    pub spectral_centroid: i64,
    /// Sum of squared bin magnitudes, in microunits.
    pub spectral_energy: i64,
}

/// Extracted perceptual features for one frame.
#[derive(Debug, Clone)]
pub struct AudioFeatures {
    /// RMS volume, microunits.
    pub volume: i64,
    /// Peak amplitude, microunits.
    pub peak: i64,
    /// Band energy 20-60 Hz, microunits in `[0, AMP_SCALE]`.
    pub sub_bass: i64,
    /// Band energy 60-250 Hz.
    pub bass: i64,
    /// Band energy 250-500 Hz.
    pub low_mid: i64,
    /// Band energy 500-2000 Hz.
    pub mid: i64,
    /// Band energy 2000-4000 Hz.
    pub high_mid: i64,
    /// Band energy 4000-6000 Hz.
    pub presence: i64,
    /// Band energy 6000 Hz to Nyquist.
    pub brilliance: i64,
    /// Beat detection confidence, microunits in `[0, AMP_SCALE]`.
    pub beat_confidence: i64,
    /// Estimated tempo in milli-BPM, `0` while unknown.
    pub tempo: i64,
    /// Fraction of adjacent sample pairs that change sign, microunits.
    pub zero_crossing_rate: i64,
    /// Magnitude-weighted average frequency, millihertz.
    pub spectral_centroid: i64,
    /// Frequency below which 85% of spectral energy lies, millihertz.
    pub spectral_rolloff: i64,
}

/// One interleaved frame of captured audio, as handed in by the capture
/// boundary; samples are microunits.
#[derive(Debug, Clone)]
pub struct AudioFrame {
    pub samples: Vec<i64>,
    /// Capture time in milliseconds of an arbitrary but monotone clock.
    pub timestamp_ms: u64,
    pub sample_rate: u32,
    pub channels: u16,
}

/// Everything the pipeline derives from one input frame.
#[derive(Debug, Clone)]
pub struct AudioData {
    /// The mono waveform of this frame.
    pub waveform: Vec<i64>,
    /// The magnitude spectrum.
    pub spectrum: FrequencyData,
    /// The extracted features.
    pub features: AudioFeatures,
    /// Capture time of the input frame, milliseconds.
    pub timestamp_ms: u64,
}

/// Center frequency of bin `i`, in millihertz.
pub open spec fn spec_bin_freq(i: int, sample_rate: int, fft_size: int) -> int {
    i * sample_rate * 1000 / fft_size
}

/// The sliding buffer after `new` arrives: the most recent `buf.len()`
/// samples of the concatenation.
pub open spec fn spec_buffer_after(buf: Seq<i64>, new: Seq<i64>) -> Seq<i64> {
    (buf + new).skip(new.len() as int)
}

/// The real-time analyzer: sliding sample history, precomputed window and
/// bin frequencies, and the rolling state of the beat detector.
pub struct AudioAnalyzer {
    pub config: AudioConfig,
    /// The most recent `buffer_size` mono samples, oldest first.
    pub input_buffer: Vec<i64>,
    /// Hann weights for the transform input, microunits.
    pub window: Vec<i64>,
    /// Center frequency of each spectral bin, millihertz.
    pub bin_frequencies: Vec<i64>,
    /// Rolling volume history, newest last, at most 100 entries.
    pub volume_history: VecDeque<i64>,
    /// Rolling bass-energy history, newest last, at most 100 entries.
    pub bass_history: VecDeque<i64>,
    /// Time of the last accepted beat, milliseconds.
    pub last_beat_time: u64,
    /// The most recent inter-beat intervals, milliseconds, at most 32.
    pub tempo_buffer: VecDeque<u64>,
}

impl AudioAnalyzer {
    /// Every internal invariant of a live analyzer.
    pub open spec fn wf(self) -> bool {
        &&& audio_config_valid(self.config)
        &&& self.input_buffer@.len() == self.config.buffer_size
        &&& forall|i: int|
            0 <= i < self.input_buffer@.len() ==> -SAMPLE_LIMIT
                <= #[trigger] self.input_buffer@[i] <= SAMPLE_LIMIT
        &&& self.window@.len() == self.config.fft_size
        &&& forall|i: int|
            0 <= i < self.window@.len() ==> #[trigger] self.window@[i] == spec_hann_weight(
                i,
                self.config.fft_size as int,
            )
        &&& self.bin_frequencies@.len() == self.config.fft_size / 2 + 1
        &&& forall|i: int|
            0 <= i < self.bin_frequencies@.len() ==> #[trigger] self.bin_frequencies@[i]
                == spec_bin_freq(i, self.config.sample_rate as int, self.config.fft_size as int)
        &&& self.volume_history@.len() <= 100
        &&& forall|i: int|
            0 <= i < self.volume_history@.len() ==> 0 <= #[trigger] self.volume_history@[i]
                <= SAMPLE_LIMIT
        &&& self.bass_history@.len() <= 100
        &&& forall|i: int|
            0 <= i < self.bass_history@.len() ==> 0 <= #[trigger] self.bass_history@[i]
                <= AMP_SCALE
        &&& self.tempo_buffer@.len() <= 32
        &&& forall|i: int| 0 <= i < self.tempo_buffer@.len() ==> #[trigger] self.tempo_buffer@[i] >= 100
    }

    /// Builds an analyzer for a session, rejecting an audio configuration
    /// the pipeline cannot honor. The buffer starts silent, the window and
    /// bin frequencies are fixed for the session.
    pub fn new(config: AudioConfig) -> (r: Result<AudioAnalyzer, ConfigError>)
        ensures
            r is Ok <==> audio_config_valid(config),
            r matches Ok(a) ==> a.wf() && a.config == config && a.input_buffer@
                == Seq::<i64>::new(config.buffer_size as nat, |i: int| 0i64) && a.volume_history@
                =~= Seq::<i64>::empty() && a.bass_history@ =~= Seq::<i64>::empty()
                && a.tempo_buffer@ =~= Seq::<u64>::empty() && a.last_beat_time == 0,
    {
        if config.sample_rate == 0 {
            return Err(ConfigError::InvalidSampleRate);
        }
        if !crate::config::check_pow2(config.buffer_size) {
            return Err(ConfigError::InvalidBufferSize);
        }
        if !(crate::config::check_pow2(config.fft_size) && config.fft_size
            <= crate::config::MAX_FFT_SIZE) {
            return Err(ConfigError::InvalidFftSize);
        }
        let mut input_buffer: Vec<i64> = Vec::new();
        let mut i: usize = 0;
        while i < config.buffer_size
            invariant
                i <= config.buffer_size,
                input_buffer@.len() == i,
                forall|j: int| 0 <= j < i ==> #[trigger] input_buffer@[j] == 0i64,
            decreases config.buffer_size - i,
        {
            input_buffer.push(0);
            i = i + 1;
        }
        let window = hann_window(config.fft_size);
        let bin_frequencies = Self::compute_bin_frequencies(config.sample_rate, config.fft_size);
        proof {
            assert(input_buffer@ =~= Seq::<i64>::new(config.buffer_size as nat, |j: int| 0i64));
            assert forall|j: int| 0 <= j < window@.len() implies 0 <= #[trigger] window@[j]
                <= AMP_SCALE by {
                crate::fixed::lemma_hann_weight_bounds(j, config.fft_size as int);
            };
        }
        Ok(
            AudioAnalyzer {
                config,
                input_buffer,
                window,
                bin_frequencies,
                volume_history: VecDeque::new(),
                bass_history: VecDeque::new(),
                last_beat_time: 0,
                tempo_buffer: VecDeque::new(),
            },
        )
    }

    /// The fixed center frequency of each of the `fft_size / 2 + 1` bins:
    /// `i * sample_rate / fft_size`, in millihertz.
    fn compute_bin_frequencies(sample_rate: u32, fft_size: usize) -> (r: Vec<i64>)
        requires
            1 <= fft_size <= crate::config::MAX_FFT_SIZE,
        ensures
            r@.len() == fft_size / 2 + 1,
            forall|i: int|
                0 <= i < r@.len() ==> #[trigger] r@[i] == spec_bin_freq(
                    i,
                    sample_rate as int,
                    fft_size as int,
                ),
    {
        let count = fft_size / 2 + 1;
        let mut r: Vec<i64> = Vec::new();
        let mut i: usize = 0;
        while i < count
            invariant
                i <= count,
                count == fft_size / 2 + 1,
                1 <= fft_size <= 65536,
                count <= 32769,
                r@.len() == i,
                forall|j: int|
                    0 <= j < i ==> #[trigger] r@[j] == spec_bin_freq(
                        j,
                        sample_rate as int,
                        fft_size as int,
                    ),
            decreases count - i,
        {
            proof {
                crate::fixed::lemma_mul_le(i as int, sample_rate as int, 32768, 4_294_967_295);
                crate::fixed::lemma_mul_le(
                    (i as int) * (sample_rate as int),
                    1000,
                    140_737_488_322_560,
                    1000,
                );
                vstd::arithmetic::div_mod::lemma_div_nonincreasing(
                    (i as int) * (sample_rate as int) * 1000,
                    fft_size as int,
                );
                vstd::arithmetic::div_mod::lemma_div_pos_is_pos(
                    (i as int) * (sample_rate as int) * 1000,
                    fft_size as int,
                );
            }
            let num: i128 = (i as i128) * (sample_rate as i128) * 1000;
            let f: i64 = (num / (fft_size as i128)) as i64;
            r.push(f);
            i = i + 1;
        }
        r
    }
}

/// Downmixes interleaved multi-channel samples to mono: each output frame
/// is the truncating average of its channel samples; a trailing partial
/// frame is dropped.
pub fn convert_to_mono(samples: &Vec<i64>, channels: u16) -> (mono: Vec<i64>)
    requires
        channels >= 1,
    ensures
        mono@.len() == samples@.len() as int / channels as int,
        forall|f: int|
            0 <= f < mono@.len() ==> #[trigger] mono@[f] == spec_mono_at(
                samples@,
                channels as int,
                f,
            ),
        channels == 1 ==> mono@ =~= samples@,
{
    let ch: usize = channels as usize;
    let total: usize = samples.len();
    let frame_count: usize = total / ch;
    let mut mono: Vec<i64> = Vec::new();
    let mut f: usize = 0;
    proof {
        vstd::arithmetic::div_mod::lemma_fundamental_div_mod(samples@.len() as int, ch as int);
        vstd::arithmetic::div_mod::lemma_mod_division_less_than_divisor(
            samples@.len() as int,
            ch as int,
        );
        assert((samples@.len() as int / ch as int) * (ch as int) == (ch as int) * (
        samples@.len() as int / ch as int)) by (nonlinear_arith);
    }
    while f < frame_count
        invariant
            channels >= 1,
            ch == channels as usize,
            total == samples@.len(),
            frame_count == samples@.len() as int / ch as int,
            (frame_count as int) * (ch as int) <= samples@.len(),
            f <= frame_count,
            mono@.len() == f,
            forall|g: int|
                0 <= g < f ==> #[trigger] mono@[g] == spec_mono_at(samples@, ch as int, g),
        decreases frame_count - f,
    {
        proof {
            assert((f as int + 1) * (ch as int) <= (frame_count as int) * (ch as int)
                && (f as int + 1) * (ch as int) == f as int * ch as int + ch as int
                && f as int * ch as int >= 0) by (nonlinear_arith)
                requires
                    f as int + 1 <= frame_count as int,
                    ch as int >= 1,
                    f >= 0,
            ;
            lemma_channel_sum_bound(
                samples@,
                ch as int,
                f as int,
                ch as int,
                i64::MIN as int,
                i64::MAX as int,
            );
        }
        let mut acc: i128 = 0;
        let mut c: usize = 0;
        while c < ch
            invariant
                channels >= 1,
                ch == channels as usize,
                c <= ch,
                total == samples@.len(),
                f as int * ch as int + ch as int <= samples@.len(),
                f as int * ch as int >= 0,
                acc == channel_sum(samples@, ch as int, f as int, c as int),
                (ch as int) * (i64::MIN as int) <= acc <= (ch as int) * (i64::MAX as int),
            decreases ch - c,
        {
            proof {
                lemma_channel_sum_bound(
                    samples@,
                    ch as int,
                    f as int,
                    c as int + 1,
                    i64::MIN as int,
                    i64::MAX as int,
                );
                assert((c as int + 1) * (i64::MIN as int) >= (ch as int) * (i64::MIN as int)
                    && (c as int + 1) * (i64::MAX as int) <= (ch as int) * (i64::MAX as int))
                    by (nonlinear_arith)
                    requires
                        0 <= c as int + 1 <= ch as int,
                ;
            }
            acc = acc + samples[f * ch + c] as i128;
            c = c + 1;
        }
        let q: i128 = if acc >= 0 {
            acc / (ch as i128)
        } else {
            -((-acc) / (ch as i128))
        };
        proof {
            assert(q == div_trunc(acc as int, ch as int));
            lemma_mono_at_bound(
                samples@,
                ch as int,
                f as int,
                i64::MIN as int,
                i64::MAX as int,
            );
        }
        mono.push(q as i64);
        f = f + 1;
    }
    proof {
        if channels == 1 {
            vstd::arithmetic::div_mod::lemma_div_basics(samples@.len() as int);
            assert forall|g: int| 0 <= g < mono@.len() implies mono@[g] == samples@[g] by {
                assert(channel_sum(samples@, 1, g, 1) == channel_sum(samples@, 1, g, 0)
                    + samples@[g]);
                vstd::arithmetic::div_mod::lemma_div_multiples_vanish(samples@[g] as int, 1);
                vstd::arithmetic::div_mod::lemma_div_multiples_vanish(-(samples@[g] as int), 1);
            };
        }
    }
    mono
}

/// Downmixing keeps every sample within the bound of the input samples.
pub proof fn lemma_mono_bounded(s: Seq<i64>, ch: int, m: Seq<i64>, b: int)
    requires
        ch >= 1,
        b >= 0,
        m.len() == s.len() as int / ch,
        forall|f: int| 0 <= f < m.len() ==> #[trigger] m[f] == spec_mono_at(s, ch, f),
        forall|i: int| 0 <= i < s.len() ==> -b <= #[trigger] s[i] <= b,
    ensures
        forall|f: int| 0 <= f < m.len() ==> -b <= #[trigger] m[f] <= b,
{
    vstd::arithmetic::div_mod::lemma_fundamental_div_mod(s.len() as int, ch);
    vstd::arithmetic::div_mod::lemma_mod_division_less_than_divisor(s.len() as int, ch);
    assert forall|f: int| 0 <= f < m.len() implies -b <= #[trigger] m[f] <= b by {
        assert((f + 1) * ch <= (s.len() as int / ch) * ch && (f + 1) * ch == f * ch + ch && f * ch >= 0)
            by (nonlinear_arith)
            requires
                f + 1 <= s.len() as int / ch,
                ch >= 1,
                f >= 0,
        ;
        lemma_mono_at_bound(s, ch, f, -b, b);
    };
}

/// Slides the fixed-length history buffer: afterwards it holds exactly the
/// most recent `buffer.len()` samples of the old contents followed by `mono`.
pub fn slide_buffer(buffer: &mut Vec<i64>, mono: &Vec<i64>)
    ensures
        final(buffer)@ =~= spec_buffer_after(old(buffer)@, mono@),
        final(buffer)@.len() == old(buffer)@.len(),
{
    let size: usize = buffer.len();
    let n: usize = mono.len();
    let mut nb: Vec<i64> = Vec::new();
    if n >= size {
        let mut i: usize = n - size;
        while i < n
            invariant
                n - size <= i <= n,
                n == mono@.len(),
                size <= n,
                nb@.len() == i - (n - size),
                forall|j: int|
                    0 <= j < nb@.len() ==> #[trigger] nb@[j] == mono@[n as int - size as int + j],
            decreases n - i,
        {
            nb.push(mono[i]);
            i = i + 1;
        }
    } else {
        let mut i: usize = n;
        while i < size
            invariant
                n <= i <= size,
                n == mono@.len(),
                size == buffer@.len(),
                n < size,
                nb@.len() == i - n,
                forall|j: int| 0 <= j < nb@.len() ==> #[trigger] nb@[j] == buffer@[n as int + j],
            decreases size - i,
        {
            nb.push(buffer[i]);
            i = i + 1;
        }
        let mut j: usize = 0;
        while j < n
            invariant
                j <= n,
                n == mono@.len(),
                size == buffer@.len(),
                n < size,
                nb@.len() == size - n + j,
                forall|k: int|
                    0 <= k < size - n ==> #[trigger] nb@[k] == buffer@[n as int + k],
                forall|k: int|
                    size - n <= k < nb@.len() ==> #[trigger] nb@[k] == mono@[k - (size as int
                        - n as int)],
            decreases n - j,
        {
            nb.push(mono[j]);
            j = j + 1;
        }
    }
    *buffer = nb;
}

/// The sample the transform sees at index `i`: the most recent `n` buffer
/// samples, left-padded with zeros when the buffer is shorter than `n`.
pub open spec fn spec_extracted_at(buf: Seq<i64>, n: int, i: int) -> int
    recommends
        0 <= i < n,
{
    if buf.len() >= n {
        buf[buf.len() - n + i] as int
    } else if i < n - buf.len() {
        0
    } else {
        buf[i - (n - buf.len())] as int
    }
}

/// The windowed transform input at index `i`.
pub open spec fn spec_windowed_at(buf: Seq<i64>, w: Seq<i64>, n: int, i: int) -> int
    recommends
        0 <= i < n,
        w.len() == n,
{
    div_trunc(spec_extracted_at(buf, n, i) * w[i], 1_000_000)
}

/// Scaling by a window weight in `[0, 1]` cannot grow a sample.
pub proof fn lemma_window_scale_bound(x: int, w: int, l: int)
    requires
        0 <= w <= 1_000_000,
        -l <= x <= l,
        0 <= l,
    ensures
        -l <= div_trunc(x * w, 1_000_000) <= l,
{
    if x >= 0 {
        crate::fixed::lemma_mul_le(x, w, l, 1_000_000);
        assert(x * w <= 1_000_000 * l) by (nonlinear_arith)
            requires
                0 <= x <= l,
                0 <= w <= 1_000_000,
        ;
        crate::fixed::lemma_div_le(x * w, 1_000_000 * l, 1_000_000);
        vstd::arithmetic::div_mod::lemma_div_multiples_vanish(l, 1_000_000);
    } else {
        assert(0 <= (-x) * w <= 1_000_000 * l) by (nonlinear_arith)
            requires
                0 < -x <= l,
                0 <= w <= 1_000_000,
        ;
        assert(-(x * w) == (-x) * w) by (nonlinear_arith);
        crate::fixed::lemma_div_le((-x) * w, 1_000_000 * l, 1_000_000);
        vstd::arithmetic::div_mod::lemma_div_multiples_vanish(l, 1_000_000);
    }
}

impl AudioAnalyzer {
    /// One step of the sample assembler: downmixes the incoming frame to
    /// mono and slides it into the history buffer, so the buffer again
    /// holds exactly the most recent `buffer_size` samples. Empty input
    /// leaves the buffer unchanged.
    pub fn ingest(&mut self, samples: &Vec<i64>, channels: u16) -> (mono: Vec<i64>)
        requires
            old(self).wf(),
            channels >= 1,
            forall|i: int|
                0 <= i < samples@.len() ==> -SAMPLE_LIMIT <= #[trigger] samples@[i]
                    <= SAMPLE_LIMIT,
        ensures
            final(self).wf(),
            mono@.len() == samples@.len() as int / channels as int,
            forall|f: int|
                0 <= f < mono@.len() ==> #[trigger] mono@[f] == spec_mono_at(
                    samples@,
                    channels as int,
                    f,
                ),
            channels == 1 ==> mono@ =~= samples@,
            forall|f: int| 0 <= f < mono@.len() ==> -SAMPLE_LIMIT <= #[trigger] mono@[f] <= SAMPLE_LIMIT,
            final(self).input_buffer@ =~= spec_buffer_after(old(self).input_buffer@, mono@),
            final(self).config == old(self).config,
            final(self).window == old(self).window,
            final(self).bin_frequencies == old(self).bin_frequencies,
            final(self).volume_history == old(self).volume_history,
            final(self).bass_history == old(self).bass_history,
            final(self).last_beat_time == old(self).last_beat_time,
            final(self).tempo_buffer == old(self).tempo_buffer,
    {
        let mono = convert_to_mono(samples, channels);
        proof {
            lemma_mono_bounded(samples@, channels as int, mono@, SAMPLE_LIMIT as int);
        }
        let ghost oldbuf = self.input_buffer@;
        slide_buffer(&mut self.input_buffer, &mono);
        proof {
            let n = mono@.len() as int;
            assert forall|i: int| 0 <= i < self.input_buffer@.len() implies -SAMPLE_LIMIT
                <= #[trigger] self.input_buffer@[i] <= SAMPLE_LIMIT by {
                assert(self.input_buffer@[i] == (oldbuf + mono@)[i + n]);
            };
        }
        mono
    }

    /// The transform input for the current buffer state: the most recent
    /// `fft_size` samples (zero-padded on the left if the buffer is
    /// shorter), each scaled by its Hann window weight.
    pub fn windowed_input(&self) -> (out: Vec<i64>)
        requires
            self.wf(),
        ensures
            out@.len() == self.config.fft_size,
            forall|i: int|
                0 <= i < out@.len() ==> #[trigger] out@[i] == spec_windowed_at(
                    self.input_buffer@,
                    self.window@,
                    self.config.fft_size as int,
                    i,
                ),
            forall|i: int| 0 <= i < out@.len() ==> -SAMPLE_LIMIT <= #[trigger] out@[i] <= SAMPLE_LIMIT,
    {
        let n: usize = self.config.fft_size;
        let size: usize = self.input_buffer.len();
        let mut out: Vec<i64> = Vec::new();
        let mut i: usize = 0;
        while i < n
            invariant
                self.wf(),
                n == self.config.fft_size,
                size == self.input_buffer@.len(),
                i <= n,
                out@.len() == i,
                forall|j: int|
                    0 <= j < i ==> #[trigger] out@[j] == spec_windowed_at(
                        self.input_buffer@,
                        self.window@,
                        n as int,
                        j,
                    ),
                forall|j: int| 0 <= j < i ==> -SAMPLE_LIMIT <= #[trigger] out@[j] <= SAMPLE_LIMIT,
            decreases n - i,
        {
            let x: i64 = if size >= n {
                self.input_buffer[size - n + i]
            } else if i < n - size {
                0
            } else {
                self.input_buffer[i - (n - size)]
            };
            let w: i64 = self.window[i];
            proof {
                crate::fixed::lemma_hann_weight_bounds(i as int, n as int);
                lemma_window_scale_bound(x as int, w as int, SAMPLE_LIMIT as int);
                crate::fixed::lemma_mul_le(
                    if x >= 0 {
                        x as int
                    } else {
                        -(x as int)
                    },
                    w as int,
                    SAMPLE_LIMIT as int,
                    1_000_000,
                );
                assert((-(x as int)) * (w as int) == -((x as int) * (w as int))
                    && (x >= 0 ==> (x as int) * (w as int) >= 0)
                    && (x < 0 ==> (x as int) * (w as int) <= 0)) by (nonlinear_arith)
                    requires
                        w >= 0,
                ;
            }
            let y: i64 = if x >= 0 {
                x * w / 1_000_000
            } else {
                -((-x) * w / 1_000_000)
            };
            proof {
                assert(y == div_trunc((x as int) * (w as int), 1_000_000));
                assert(x as int == spec_extracted_at(self.input_buffer@, n as int, i as int));
            }
            out.push(y);
            i = i + 1;
        }
        out
    }
}


/// Magnitude of one complex bin after normalization by the transform size:
/// `|re + i im| / n`, with the integer square root.
pub open spec fn spec_mag(re: int, im: int, n: int) -> int {
    crate::fixed::spec_sqrt((re * re + im * im) as nat) as int / n
}

/// Index of the first bin holding the maximal value.
pub open spec fn first_max_idx(s: Seq<i64>) -> int
    decreases s.len(),
{
    if s.len() <= 1 {
        0
    } else {
        let m = first_max_idx(s.drop_last());
        if s.last() > s[m] {
            s.len() - 1
        } else {
            m
        }
    }
}

pub proof fn lemma_first_max_range(s: Seq<i64>)
    requires
        s.len() >= 1,
    ensures
        0 <= first_max_idx(s) < s.len(),
    decreases s.len(),
{
    if s.len() > 1 {
        lemma_first_max_range(s.drop_last());
    }
}

pub proof fn lemma_first_max_step(s: Seq<i64>, i: int)
    requires
        1 <= i < s.len(),
    ensures
        first_max_idx(s.take(i + 1)) == if s[i] > s[first_max_idx(s.take(i))] {
            i
        } else {
            first_max_idx(s.take(i))
        },
{
    assert(s.take(i + 1).drop_last() =~= s.take(i));
    assert(s.take(i + 1).last() == s[i]);
    lemma_first_max_range(s.take(i));
    assert(s.take(i + 1)[first_max_idx(s.take(i))] == s[first_max_idx(s.take(i))]);
}

/// The energy-weighted average frequency; zero when the spectrum is silent.
pub open spec fn spec_centroid(bins: Seq<i64>, freqs: Seq<i64>) -> int {
    if sum_of(bins) > 0 {
        sum_prod(bins, freqs) / sum_of(bins)
    } else {
        0
    }
}

/// Total spectral energy: the sum of squared magnitudes, microunits.
pub open spec fn spec_energy(bins: Seq<i64>) -> int {
    sum_sq(bins) / 1_000_000
}

pub proof fn lemma_sum_sq_bound(s: Seq<i64>, b: int)
    requires
        forall|i: int| 0 <= i < s.len() ==> -b <= #[trigger] s[i] <= b,
        b >= 0,
    ensures
        0 <= sum_sq(s) <= (s.len() as int) * (b * b),
    decreases s.len(),
{
    let n = s.len() as int;
    if s.len() == 0 {
        assert(n * (b * b) == 0) by (nonlinear_arith)
            requires
                n == 0,
        ;
    } else {
        lemma_sum_sq_bound(s.drop_last(), b);
        assert(0 <= s.last() * s.last() <= b * b && (n - 1) * (b * b) + b * b == n * (b * b))
            by (nonlinear_arith)
            requires
                -b <= s.last() <= b,
                b >= 0,
                n >= 1,
        ;
    }
}

pub proof fn lemma_sum_prod_bound(a: Seq<i64>, b: Seq<i64>, ba: int, bb: int)
    requires
        a.len() == b.len(),
        forall|i: int| 0 <= i < a.len() ==> 0 <= #[trigger] a[i] <= ba,
        forall|i: int| 0 <= i < b.len() ==> 0 <= #[trigger] b[i] <= bb,
        ba >= 0,
        bb >= 0,
    ensures
        0 <= sum_prod(a, b) <= (a.len() as int) * (ba * bb),
    decreases a.len(),
{
    let n = a.len() as int;
    if a.len() == 0 {
        assert(n * (ba * bb) == 0) by (nonlinear_arith)
            requires
                n == 0,
        ;
    } else {
        lemma_sum_prod_bound(a.drop_last(), b.drop_last(), ba, bb);
        assert(0 <= a.last() * b.last() <= ba * bb && (n - 1) * (ba * bb) + ba * bb == n * (ba
            * bb)) by (nonlinear_arith)
            requires
                0 <= a.last() <= ba,
                0 <= b.last() <= bb,
                n >= 1,
        ;
    }
}

/// A weighted sum is at most the total weight times the largest value.
pub proof fn lemma_sum_prod_le_sum_max(a: Seq<i64>, b: Seq<i64>, mx: int)
    requires
        a.len() == b.len(),
        forall|i: int| 0 <= i < a.len() ==> 0 <= #[trigger] a[i],
        forall|i: int| 0 <= i < b.len() ==> 0 <= #[trigger] b[i] <= mx,
        mx >= 0,
    ensures
        sum_prod(a, b) <= sum_of(a) * mx,
    decreases a.len(),
{
    if a.len() == 0 {
        assert(sum_of(a) * mx == 0) by (nonlinear_arith)
            requires
                sum_of(a) == 0,
        ;
    } else {
        lemma_sum_prod_le_sum_max(a.drop_last(), b.drop_last(), mx);
        assert(a.last() * b.last() <= a.last() * mx && sum_of(a.drop_last()) * mx + a.last() * mx
            == (sum_of(a.drop_last()) + a.last()) * mx) by (nonlinear_arith)
            requires
                0 <= a.last(),
                0 <= b.last() <= mx,
        ;
    }
}

pub proof fn lemma_bin_freq_bound(i: int, sr: int, fft: int)
    requires
        0 <= i <= 32768,
        0 <= sr <= 4_294_967_295,
        1 <= fft,
    ensures
        0 <= spec_bin_freq(i, sr, fft) <= 140_737_488_322_560_000,
{
    crate::fixed::lemma_mul_le(i, sr, 32768, 4_294_967_295);
    crate::fixed::lemma_mul_le(i * sr, 1000, 140_737_488_322_560, 1000);
    vstd::arithmetic::div_mod::lemma_div_nonincreasing(i * sr * 1000, fft);
    vstd::arithmetic::div_mod::lemma_div_pos_is_pos(i * sr * 1000, fft);
}

/// Largest possible bin magnitude: `isqrt(2 * REAL_LIMIT^2)`.
pub const BIN_LIMIT: i64 = 7_071_067_811;

impl AudioAnalyzer {
    /// Everything the transform stage derives from the complex output of
    /// the forward transform: normalized bin magnitudes, the session's bin
    /// frequencies, the first-maximum peak frequency, the spectral
    /// centroid and the spectral energy.
    pub fn spectrum(&self, re: &Vec<i64>, im: &Vec<i64>) -> (sp: FrequencyData)
        requires
            self.wf(),
            re@.len() == self.config.fft_size / 2 + 1,
            im@.len() == re@.len(),
            forall|i: int| 0 <= i < re@.len() ==> -REAL_LIMIT <= #[trigger] re@[i] <= REAL_LIMIT,
            forall|i: int| 0 <= i < im@.len() ==> -REAL_LIMIT <= #[trigger] im@[i] <= REAL_LIMIT,
        ensures
            sp.bins@.len() == re@.len(),
            forall|i: int|
                0 <= i < sp.bins@.len() ==> #[trigger] sp.bins@[i] == spec_mag(
                    re@[i] as int,
                    im@[i] as int,
                    self.config.fft_size as int,
                ),
            forall|i: int| 0 <= i < sp.bins@.len() ==> 0 <= #[trigger] sp.bins@[i] <= BIN_LIMIT,
            sp.bin_frequencies@ =~= self.bin_frequencies@,
            sp.peak_frequency == self.bin_frequencies@[first_max_idx(sp.bins@)],
            sp.spectral_centroid == spec_centroid(sp.bins@, self.bin_frequencies@),
            sp.spectral_energy == spec_energy(sp.bins@),
            0 <= sp.spectral_energy <= 1_638_449_999_598_918_310,
    {
        let count: usize = re.len();
        let fft: usize = self.config.fft_size;
        let mut bins: Vec<i64> = Vec::new();
        let mut i: usize = 0;
        while i < count
            invariant
                count == re@.len(),
                im@.len() == count,
                fft >= 1,
                forall|j: int| 0 <= j < count ==> -REAL_LIMIT <= #[trigger] re@[j] <= REAL_LIMIT,
                forall|j: int| 0 <= j < count ==> -REAL_LIMIT <= #[trigger] im@[j] <= REAL_LIMIT,
                i <= count,
                bins@.len() == i,
                forall|j: int|
                    0 <= j < i ==> #[trigger] bins@[j] == spec_mag(
                        re@[j] as int,
                        im@[j] as int,
                        fft as int,
                    ),
                forall|j: int| 0 <= j < i ==> 0 <= #[trigger] bins@[j] <= BIN_LIMIT,
            decreases count - i,
        {
            let rr: i128 = re[i] as i128;
            let ii: i128 = im[i] as i128;
            proof {
                assert(0 <= rr * rr <= 25_000_000_000_000_000_000 && 0 <= ii * ii
                    <= 25_000_000_000_000_000_000) by (nonlinear_arith)
                    requires
                        -5_000_000_000 <= rr <= 5_000_000_000,
                        -5_000_000_000 <= ii <= 5_000_000_000,
                ;
            }
            let s: i128 = rr * rr + ii * ii;
            let m: u128 = crate::fixed::isqrt(s as u128);
            proof {
                assert(m <= 7_071_067_811) by (nonlinear_arith)
                    requires
                        (m as nat) * (m as nat) <= s as nat,
                        s as nat <= 50_000_000_000_000_000_000,
                ;
                crate::fixed::lemma_div_le(m as int, 7_071_067_811, fft as int);
            }
            let b: i64 = (m / (fft as u128)) as i64;
            bins.push(b);
            i = i + 1;
        }
        // The session's bin frequencies accompany every spectrum.
        let mut freqs: Vec<i64> = Vec::new();
        i = 0;
        while i < count
            invariant
                self.wf(),
                count == self.config.fft_size / 2 + 1,
                i <= count,
                freqs@.len() == i,
                forall|j: int| 0 <= j < i ==> #[trigger] freqs@[j] == self.bin_frequencies@[j],
            decreases count - i,
        {
            freqs.push(self.bin_frequencies[i]);
            i = i + 1;
        }
        proof {
            assert(freqs@ =~= self.bin_frequencies@);
        }
        // First maximum wins ties for the peak.
        let mut best: usize = 0;
        i = 1;
        proof {
            assert(first_max_idx(bins@.take(1)) == 0);
        }
        while i < count
            invariant
                count == bins@.len(),
                1 <= i <= count,
                best < i,
                best as int == first_max_idx(bins@.take(i as int)),
            decreases count - i,
        {
            proof {
                lemma_first_max_step(bins@, i as int);
            }
            if bins[i] > bins[best] {
                best = i;
            }
            i = i + 1;
        }
        proof {
            assert(bins@.take(count as int) =~= bins@);
        }
        let peak_frequency: i64 = self.bin_frequencies[best];
        proof {
            assert forall|j: int| 0 <= j < count implies 0 <= #[trigger] freqs@[j]
                <= 140_737_488_322_560_000 by {
                lemma_bin_freq_bound(
                    j,
                    self.config.sample_rate as int,
                    self.config.fft_size as int,
                );
            };
        }
        // One pass for the three spectral sums.
        let mut total: i128 = 0;
        let mut num: i128 = 0;
        let mut ssq: i128 = 0;
        i = 0;
        while i < count
            invariant
                self.wf(),
                count == bins@.len(),
                freqs@.len() == count,
                count <= 32769,
                forall|j: int| 0 <= j < count ==> 0 <= #[trigger] bins@[j] <= BIN_LIMIT,
                forall|j: int| 0 <= j < count ==> #[trigger] freqs@[j] == self.bin_frequencies@[j],
                forall|j: int|
                    0 <= j < count ==> 0 <= #[trigger] freqs@[j] <= 140_737_488_322_560_000,
                i <= count,
                total == sum_of(bins@.take(i as int)),
                num == sum_prod(bins@.take(i as int), freqs@.take(i as int)),
                ssq == sum_sq(bins@.take(i as int)),
            decreases count - i,
        {
            proof {
                lemma_sum_of_take_step(bins@, i as int);
                lemma_sum_prod_take_step(bins@, freqs@, i as int);
                lemma_sum_sq_take_step(bins@, i as int);
                lemma_sum_of_bound(bins@.take(i as int), BIN_LIMIT as int);
                lemma_sum_sq_bound(bins@.take(i as int), BIN_LIMIT as int);
                lemma_sum_prod_bound(
                    bins@.take(i as int),
                    freqs@.take(i as int),
                    BIN_LIMIT as int,
                    140_737_488_322_560_000,
                );
                crate::fixed::lemma_mul_le(i as int, BIN_LIMIT as int, 32769, BIN_LIMIT as int);
                crate::fixed::lemma_mul_le(
                    i as int,
                    (BIN_LIMIT as int) * (BIN_LIMIT as int),
                    32769,
                    (BIN_LIMIT as int) * (BIN_LIMIT as int),
                );
                crate::fixed::lemma_mul_le(
                    i as int,
                    (BIN_LIMIT as int) * 140_737_488_322_560_000,
                    32769,
                    (BIN_LIMIT as int) * 140_737_488_322_560_000,
                );
                crate::fixed::lemma_mul_le(
                    bins@[i as int] as int,
                    freqs@[i as int] as int,
                    BIN_LIMIT as int,
                    140_737_488_322_560_000,
                );
                crate::fixed::lemma_mul_le(
                    bins@[i as int] as int,
                    bins@[i as int] as int,
                    BIN_LIMIT as int,
                    BIN_LIMIT as int,
                );
            }
            let b: i64 = bins[i];
            let fr: i64 = freqs[i];
            total = total + b as i128;
            num = num + (b as i128) * (fr as i128);
            ssq = ssq + (b as i128) * (b as i128);
            i = i + 1;
        }
        proof {
            assert(bins@.take(count as int) =~= bins@);
            assert(freqs@.take(count as int) =~= freqs@);
            lemma_sum_of_bound(bins@, BIN_LIMIT as int);
            lemma_sum_sq_bound(bins@, BIN_LIMIT as int);
            crate::fixed::lemma_mul_le(
                bins@.len() as int,
                (BIN_LIMIT as int) * (BIN_LIMIT as int),
                32769,
                (BIN_LIMIT as int) * (BIN_LIMIT as int),
            );
            crate::fixed::lemma_div_le(sum_sq(bins@), 1_638_449_999_598_918_310_165_449, 1_000_000);
        }
        let spectral_energy: i64 = (ssq / 1_000_000) as i64;
        let spectral_centroid: i64 = if total > 0 {
            proof {
                lemma_sum_prod_le_sum_max(bins@, freqs@, 140_737_488_322_560_000);
                vstd::arithmetic::div_mod::lemma_multiply_divide_le(
                    num as int,
                    total as int,
                    140_737_488_322_560_000,
                );
                lemma_sum_prod_bound(bins@, freqs@, BIN_LIMIT as int, 140_737_488_322_560_000);
                vstd::arithmetic::div_mod::lemma_div_pos_is_pos(num as int, total as int);
            }
            (num / total) as i64
        } else {
            0
        };
        FrequencyData {
            bins,
            bin_frequencies: freqs,
            peak_frequency,
            spectral_centroid,
            spectral_energy,
        }
    }
}


/// Smaller of two integers.
pub open spec fn imin(a: int, b: int) -> int {
    if a < b {
        a
    } else {
        b
    }
}

/// First bin index of a band: the band edge mapped by linear proportion of
/// frequency over Nyquist, clamped into the bin range.
pub open spec fn spec_band_lo(low: int, sr: int, len: int) -> int {
    imin(2 * low * len / sr, len - 1)
}

/// One-past-the-last bin index of a band.
pub open spec fn spec_band_hi(high: int, sr: int, len: int) -> int {
    imin(2 * high * len / sr, len)
}

/// The perceptual weight of a band: low bands are boosted, high bands
/// slightly reduced; thousandths.
pub open spec fn spec_band_weight(low: int, high: int) -> int {
    let center = (low + high) / 2;
    if center < 1000 {
        1500
    } else if center < 4000 {
        1000
    } else {
        800
    }
}

/// Energy of the band `[low, high)` Hz: mean magnitude over its bins,
/// log-compressed, perceptually weighted, clamped to one. A degenerate
/// (empty) bin range has energy zero.
pub open spec fn spec_band_energy(bins: Seq<i64>, low: int, high: int, sr: int) -> int {
    let len = bins.len() as int;
    let lo = spec_band_lo(low, sr, len);
    let hi = spec_band_hi(high, sr, len);
    if hi <= lo {
        0
    } else {
        let avg = sum_of(bins.subrange(lo, hi)) / (hi - lo);
        let weighted = crate::fixed::spec_compress(avg) * spec_band_weight(low, high) / 1000;
        imin(weighted, 1_000_000)
    }
}

pub proof fn lemma_sum_of_subrange_step(s: Seq<i64>, lo: int, k: int)
    requires
        0 <= lo <= k < s.len(),
    ensures
        sum_of(s.subrange(lo, k + 1)) == sum_of(s.subrange(lo, k)) + s[k],
{
    assert(s.subrange(lo, k + 1).drop_last() =~= s.subrange(lo, k));
    assert(s.subrange(lo, k + 1).last() == s[k]);
}

/// The seven perceptual band energies of one spectrum.
#[derive(Debug, Clone, PartialEq, Eq, Structural)]
pub struct BandEnergies {
    pub sub_bass: i64,
    pub bass: i64,
    pub low_mid: i64,
    pub mid: i64,
    pub high_mid: i64,
    pub presence: i64,
    pub brilliance: i64,
}

impl AudioAnalyzer {
    /// Energy of one frequency band of the spectrum, `[low_hz, high_hz)`:
    /// mean bin magnitude, compressed with `ln(avg + 1) / 10`, weighted by
    /// band position, clamped to `1.0` — in that order.
    pub fn extract_frequency_band(&self, spectrum: &FrequencyData, low_hz: i64, high_hz: i64) -> (r:
        i64)
        requires
            self.wf(),
            0 <= low_hz <= 3_000_000_000,
            0 <= high_hz <= 3_000_000_000,
            spectrum.bins@.len() == self.config.fft_size / 2 + 1,
            forall|i: int|
                0 <= i < spectrum.bins@.len() ==> 0 <= #[trigger] spectrum.bins@[i] <= BIN_LIMIT,
        ensures
            r == spec_band_energy(
                spectrum.bins@,
                low_hz as int,
                high_hz as int,
                self.config.sample_rate as int,
            ),
            0 <= r <= AMP_SCALE,
    {
        let len: usize = spectrum.bins.len();
        let sr: i64 = self.config.sample_rate as i64;
        proof {
            crate::fixed::lemma_mul_le(2 * low_hz as int, len as int, 6_000_000_000, 32769);
            crate::fixed::lemma_mul_le(2 * high_hz as int, len as int, 6_000_000_000, 32769);
            vstd::arithmetic::div_mod::lemma_div_pos_is_pos(
                2 * (low_hz as int) * (len as int),
                sr as int,
            );
            vstd::arithmetic::div_mod::lemma_div_pos_is_pos(
                2 * (high_hz as int) * (len as int),
                sr as int,
            );
            vstd::arithmetic::div_mod::lemma_div_nonincreasing(
                2 * (low_hz as int) * (len as int),
                sr as int,
            );
            vstd::arithmetic::div_mod::lemma_div_nonincreasing(
                2 * (high_hz as int) * (len as int),
                sr as int,
            );
        }
        let lo_raw: i64 = 2 * low_hz * (len as i64) / sr;
        let hi_raw: i64 = 2 * high_hz * (len as i64) / sr;
        let lo: usize = if lo_raw < (len - 1) as i64 {
            lo_raw as usize
        } else {
            len - 1
        };
        let hi: usize = if hi_raw < len as i64 {
            hi_raw as usize
        } else {
            len
        };
        if hi <= lo {
            return 0;
        }
        let mut acc: i128 = 0;
        let mut k: usize = lo;
        while k < hi
            invariant
                lo <= k <= hi,
                hi <= spectrum.bins@.len(),
                spectrum.bins@.len() <= 32769,
                forall|i: int|
                    0 <= i < spectrum.bins@.len() ==> 0 <= #[trigger] spectrum.bins@[i]
                        <= BIN_LIMIT,
                acc == sum_of(spectrum.bins@.subrange(lo as int, k as int)),
                0 <= acc <= (k - lo) * (BIN_LIMIT as int),
            decreases hi - k,
        {
            proof {
                lemma_sum_of_subrange_step(spectrum.bins@, lo as int, k as int);
                assert((k - lo) * (BIN_LIMIT as int) + BIN_LIMIT as int == (k + 1 - lo) * (
                BIN_LIMIT as int)) by (nonlinear_arith);
                crate::fixed::lemma_mul_le(k + 1 - lo, BIN_LIMIT as int, 32769, BIN_LIMIT as int);
            }
            acc = acc + spectrum.bins[k] as i128;
            k = k + 1;
        }
        let width: i128 = (hi - lo) as i128;
        proof {
            crate::fixed::lemma_mul_le(hi as int - lo as int, BIN_LIMIT as int, 32769, BIN_LIMIT as int);
            crate::fixed::lemma_div_le(acc as int, (hi as int - lo as int) * (BIN_LIMIT as int), hi as int - lo as int);
            vstd::arithmetic::div_mod::lemma_div_multiples_vanish(BIN_LIMIT as int, hi as int - lo as int);
        }
        let avg: i64 = (acc / width) as i64;
        let compressed: i64 = crate::fixed::compress_energy(avg);
        let center: i64 = (low_hz + high_hz) / 2;
        let weight: i64 = if center < 1000 {
            1500
        } else if center < 4000 {
            1000
        } else {
            800
        };
        proof {
            crate::fixed::lemma_mul_le(compressed as int, weight as int, 2_900_000, 1500);
            crate::fixed::lemma_div_le((compressed as int) * (weight as int), 4_350_000_000, 1000);
        }
        let weighted: i64 = compressed * weight / 1000;
        if weighted < 1_000_000 {
            weighted
        } else {
            1_000_000
        }
    }

    /// All seven perceptual bands, from sub-bass up to brilliance, the
    /// last one reaching the Nyquist frequency.
    pub fn extract_bands(&self, spectrum: &FrequencyData) -> (r: BandEnergies)
        requires
            self.wf(),
            spectrum.bins@.len() == self.config.fft_size / 2 + 1,
            forall|i: int|
                0 <= i < spectrum.bins@.len() ==> 0 <= #[trigger] spectrum.bins@[i] <= BIN_LIMIT,
        ensures
            r.sub_bass == spec_band_energy(spectrum.bins@, 20, 60, self.config.sample_rate as int),
            r.bass == spec_band_energy(spectrum.bins@, 60, 250, self.config.sample_rate as int),
            r.low_mid == spec_band_energy(spectrum.bins@, 250, 500, self.config.sample_rate as int),
            r.mid == spec_band_energy(spectrum.bins@, 500, 2000, self.config.sample_rate as int),
            r.high_mid == spec_band_energy(
                spectrum.bins@,
                2000,
                4000,
                self.config.sample_rate as int,
            ),
            r.presence == spec_band_energy(
                spectrum.bins@,
                4000,
                6000,
                self.config.sample_rate as int,
            ),
            r.brilliance == spec_band_energy(
                spectrum.bins@,
                6000,
                self.config.sample_rate as int / 2,
                self.config.sample_rate as int,
            ),
            0 <= r.sub_bass <= AMP_SCALE,
            0 <= r.bass <= AMP_SCALE,
            0 <= r.low_mid <= AMP_SCALE,
            0 <= r.mid <= AMP_SCALE,
            0 <= r.high_mid <= AMP_SCALE,
            0 <= r.presence <= AMP_SCALE,
            0 <= r.brilliance <= AMP_SCALE,
    {
        let nyquist: i64 = (self.config.sample_rate / 2) as i64;
        BandEnergies {
            sub_bass: self.extract_frequency_band(spectrum, 20, 60),
            bass: self.extract_frequency_band(spectrum, 60, 250),
            low_mid: self.extract_frequency_band(spectrum, 250, 500),
            mid: self.extract_frequency_band(spectrum, 500, 2000),
            high_mid: self.extract_frequency_band(spectrum, 2000, 4000),
            presence: self.extract_frequency_band(spectrum, 4000, 6000),
            brilliance: self.extract_frequency_band(spectrum, 6000, nyquist),
        }
    }
}

/// The first index at which the cumulative magnitude, starting from `cum`
/// at index `i`, reaches the threshold `t`; the last bin if none does.
pub open spec fn spec_rolloff_index(bins: Seq<i64>, t: int, i: int, cum: int) -> int
    decreases bins.len() - i,
{
    if i < 0 || i >= bins.len() {
        bins.len() - 1
    } else if cum + bins[i] >= t {
        i
    } else {
        spec_rolloff_index(bins, t, i + 1, cum + bins[i])
    }
}

pub proof fn lemma_rolloff_index_range(bins: Seq<i64>, t: int, i: int, cum: int)
    requires
        bins.len() >= 1,
    ensures
        0 <= spec_rolloff_index(bins, t, i, cum) < bins.len(),
    decreases bins.len() - i,
{
    if 0 <= i < bins.len() && !(cum + bins[i] >= t) {
        lemma_rolloff_index_range(bins, t, i + 1, cum + bins[i]);
    }
}

/// The rolloff bin: the first bin at which the cumulative magnitude
/// reaches 85% of the spectral energy. When the energy is exactly zero no
/// bin counts as reaching the threshold: the highest bin is reported, as
/// it also is when the cumulative sum never gets there.
pub open spec fn spec_rolloff_bin(bins: Seq<i64>, energy: int) -> int {
    if energy == 0 {
        bins.len() - 1
    } else {
        spec_rolloff_index(bins, energy * 85 / 100, 0, 0)
    }
}

/// The spectral rolloff: the frequency of the first bin at which the
/// running magnitude sum reaches 85% of the total spectral energy; the
/// highest bin's frequency on a zero-energy spectrum, or when no bin
/// reaches the threshold.
pub fn calculate_spectral_rolloff(spectrum: &FrequencyData) -> (r: i64)
    requires
        spectrum.bins@.len() >= 1,
        spectrum.bin_frequencies@.len() == spectrum.bins@.len(),
        forall|i: int|
            0 <= i < spectrum.bins@.len() ==> 0 <= #[trigger] spectrum.bins@[i] <= BIN_LIMIT,
        spectrum.bins@.len() <= 32769,
        0 <= spectrum.spectral_energy <= 1_638_449_999_598_918_310,
    ensures
        r == spectrum.bin_frequencies@[spec_rolloff_bin(
            spectrum.bins@,
            spectrum.spectral_energy as int,
        )],
{
    let len_full: usize = spectrum.bins.len();
    if spectrum.spectral_energy == 0 {
        return spectrum.bin_frequencies[len_full - 1];
    }
    let threshold: i64 = ((spectrum.spectral_energy as i128) * 85 / 100) as i64;
    proof {
        assert(threshold as int == spectrum.spectral_energy as int * 85 / 100);
    }
    let ghost t = spectrum.spectral_energy as int * 85 / 100;
    let len: usize = spectrum.bins.len();
    let mut cum: i64 = 0;
    let mut i: usize = 0;
    proof {
        lemma_rolloff_index_range(spectrum.bins@, t, 0, 0);
    }
    while i < len
        invariant
            len == spectrum.bins@.len(),
            spectrum.bin_frequencies@.len() == len,
            1 <= len,
            forall|j: int|
                0 <= j < spectrum.bins@.len() ==> 0 <= #[trigger] spectrum.bins@[j] <= BIN_LIMIT,
            threshold == t,
            t == spectrum.spectral_energy as int * 85 / 100,
            spectrum.spectral_energy != 0,
            0 <= i <= len,
            len <= 32769,
            0 <= cum <= (i as int) * (BIN_LIMIT as int),
            spec_rolloff_index(spectrum.bins@, t, i as int, cum as int) == spec_rolloff_index(
                spectrum.bins@,
                t,
                0,
                0,
            ),
        decreases len - i,
    {
        proof {
            assert((i as int) * (BIN_LIMIT as int) + BIN_LIMIT as int == (i as int + 1) * (
            BIN_LIMIT as int)) by (nonlinear_arith);
            assert(0 <= (i as int) * (BIN_LIMIT as int)) by (nonlinear_arith)
                requires
                    i >= 0,
            ;
        }
        proof {
            crate::fixed::lemma_mul_le(i as int + 1, BIN_LIMIT as int, 32769, BIN_LIMIT as int);
        }
        let b: i64 = spectrum.bins[i];
        if cum + b >= threshold {
            proof {
                assert(spec_rolloff_index(spectrum.bins@, t, i as int, cum as int) == i as int);
                assert(spec_rolloff_index(spectrum.bins@, t, 0, 0) == i as int);
                assert(t == spectrum.spectral_energy as int * 85 / 100);
            }
            return spectrum.bin_frequencies[i];
        }
        cum = cum + b;
        i = i + 1;
    }
    spectrum.bin_frequencies[len - 1]
}


/// The largest absolute sample value; zero for an empty waveform.
pub open spec fn spec_peak(s: Seq<i64>) -> int
    decreases s.len(),
{
    if s.len() == 0 {
        0
    } else {
        let p = spec_peak(s.drop_last());
        let a = if s.last() >= 0 {
            s.last() as int
        } else {
            -(s.last() as int)
        };
        if a > p {
            a
        } else {
            p
        }
    }
}

pub proof fn lemma_peak_take_step(s: Seq<i64>, i: int)
    requires
        0 <= i < s.len(),
    ensures
        spec_peak(s.take(i + 1)) == ({
            let p = spec_peak(s.take(i));
            let a = if s[i] >= 0 {
                s[i] as int
            } else {
                -(s[i] as int)
            };
            if a > p {
                a
            } else {
                p
            }
        }),
{
    assert(s.take(i + 1).drop_last() =~= s.take(i));
    assert(s.take(i + 1).last() == s[i]);
}

/// RMS volume of a waveform in microunits; zero when empty.
pub open spec fn spec_volume(s: Seq<i64>) -> int {
    if s.len() == 0 {
        0
    } else {
        crate::fixed::spec_sqrt((sum_sq(s) / s.len() as int) as nat) as int
    }
}

/// Zero-crossing rate in microunits: the fraction of adjacent pairs whose
/// product is negative; zero for fewer than two samples.
pub open spec fn spec_zcr(s: Seq<i64>) -> int {
    if s.len() < 2 {
        0
    } else {
        count_crossings(s) * 1_000_000 / (s.len() - 1) as int
    }
}

pub proof fn lemma_count_crossings_le(s: Seq<i64>)
    ensures
        0 <= count_crossings(s),
        s.len() >= 1 ==> count_crossings(s) <= s.len() - 1,
    decreases s.len(),
{
    if s.len() >= 2 {
        lemma_count_crossings_le(s.drop_last());
    }
}

/// The time-domain features of one mono waveform: RMS volume, peak
/// amplitude and zero-crossing rate, each an exact integer function of the
/// samples.
pub fn extract_time_domain(waveform: &Vec<i64>) -> (r: (i64, i64, i64))
    requires
        forall|i: int|
            0 <= i < waveform@.len() ==> -SAMPLE_LIMIT <= #[trigger] waveform@[i] <= SAMPLE_LIMIT,
    ensures
        r.0 == spec_volume(waveform@),
        r.1 == spec_peak(waveform@),
        r.2 == spec_zcr(waveform@),
        0 <= r.0 <= SAMPLE_LIMIT,
        0 <= r.1 <= SAMPLE_LIMIT,
        0 <= r.2 <= AMP_SCALE,
{
    let len: usize = waveform.len();
    if len == 0 {
        return (0, 0, 0);
    }
    let mut ssq: i128 = 0;
    let mut peak: i64 = 0;
    let mut i: usize = 0;
    while i < len
        invariant
            len == waveform@.len(),
            forall|j: int|
                0 <= j < waveform@.len() ==> -SAMPLE_LIMIT <= #[trigger] waveform@[j]
                    <= SAMPLE_LIMIT,
            i <= len,
            ssq == sum_sq(waveform@.take(i as int)),
            0 <= ssq <= (i as int) * ((SAMPLE_LIMIT as int) * (SAMPLE_LIMIT as int)),
            peak == spec_peak(waveform@.take(i as int)),
            0 <= peak <= SAMPLE_LIMIT,
        decreases len - i,
    {
        proof {
            lemma_sum_sq_take_step(waveform@, i as int);
            lemma_peak_take_step(waveform@, i as int);
            assert(0 <= waveform@[i as int] * waveform@[i as int] <= (SAMPLE_LIMIT as int) * (
            SAMPLE_LIMIT as int) && (i as int) * ((SAMPLE_LIMIT as int) * (SAMPLE_LIMIT as int))
                + (SAMPLE_LIMIT as int) * (SAMPLE_LIMIT as int) == (i as int + 1) * ((
            SAMPLE_LIMIT as int) * (SAMPLE_LIMIT as int))) by (nonlinear_arith)
                requires
                    -SAMPLE_LIMIT <= waveform@[i as int] <= SAMPLE_LIMIT,
                    SAMPLE_LIMIT == 2_000_000,
            ;
        }
        let x: i64 = waveform[i];
        ssq = ssq + (x as i128) * (x as i128);
        let a: i64 = if x >= 0 {
            x
        } else {
            -x
        };
        if a > peak {
            peak = a;
        }
        i = i + 1;
    }
    proof {
        assert(waveform@.take(len as int) =~= waveform@);
        crate::fixed::lemma_div_le(
            ssq as int,
            (len as int) * ((SAMPLE_LIMIT as int) * (SAMPLE_LIMIT as int)),
            len as int,
        );
        vstd::arithmetic::div_mod::lemma_div_multiples_vanish(
            (SAMPLE_LIMIT as int) * (SAMPLE_LIMIT as int),
            len as int,
        );
    }
    let mean: i128 = ssq / (len as i128);
    let root: u128 = crate::fixed::isqrt(mean as u128);
    proof {
        assert(root <= SAMPLE_LIMIT) by (nonlinear_arith)
            requires
                (root as nat) * (root as nat) <= mean as nat,
                mean as nat <= (SAMPLE_LIMIT as nat) * (SAMPLE_LIMIT as nat),
                SAMPLE_LIMIT == 2_000_000,
        ;
    }
    let volume: i64 = root as i64;
    // Zero crossings over adjacent pairs.
    let mut cnt: usize = 0;
    let mut k: usize = 1;
    proof {
        lemma_count_crossings_le(waveform@);
        assert(count_crossings(waveform@.take(1)) == 0);
    }
    while k < len
        invariant
            len == waveform@.len(),
            forall|j: int|
                0 <= j < waveform@.len() ==> -SAMPLE_LIMIT <= #[trigger] waveform@[j]
                    <= SAMPLE_LIMIT,
            1 <= k <= len,
            cnt == count_crossings(waveform@.take(k as int)),
            0 <= cnt <= k - 1,
        decreases len - k,
    {
        proof {
            lemma_count_crossings_take_step(waveform@, k as int);
            assert((waveform@[k as int - 1] as int) * (waveform@[k as int] as int) <= (
            SAMPLE_LIMIT as int) * (SAMPLE_LIMIT as int) && -((SAMPLE_LIMIT as int) * (
            SAMPLE_LIMIT as int)) <= (waveform@[k as int - 1] as int) * (waveform@[k as int] as int))
                by (nonlinear_arith)
                requires
                    -SAMPLE_LIMIT <= waveform@[k as int - 1] <= SAMPLE_LIMIT,
                    -SAMPLE_LIMIT <= waveform@[k as int] <= SAMPLE_LIMIT,
                    SAMPLE_LIMIT == 2_000_000,
            ;
        }
        if waveform[k - 1] * waveform[k] < 0 {
            cnt = cnt + 1;
        }
        k = k + 1;
    }
    let zcr: i64 = if len < 2 {
        0
    } else {
        proof {
            assert(waveform@.take(len as int) =~= waveform@);
            crate::fixed::lemma_mul_le(cnt as int, 1_000_000, len as int - 1, 1_000_000);
            vstd::arithmetic::div_mod::lemma_multiply_divide_le(
                (cnt as int) * 1_000_000,
                len as int - 1,
                1_000_000,
            );
            vstd::arithmetic::div_mod::lemma_div_pos_is_pos(
                (cnt as int) * 1_000_000,
                len as int - 1,
            );
        }
        (((cnt as u128) * 1_000_000) / ((len - 1) as u128)) as i64
    };
    (volume, peak, zcr)
}


/// A bounded FIFO push: append, then evict the oldest entry if the
/// capacity is exceeded.
pub open spec fn push_capped<T>(s: Seq<T>, x: T, cap: int) -> Seq<T> {
    let p = s.push(x);
    if p.len() > cap {
        p.skip(1)
    } else {
        p
    }
}

/// Sum of the last five history entries.
pub open spec fn spec_recent_sum(h: Seq<i64>) -> int {
    sum_of(h.skip(h.len() as int - 5))
}

/// The ratio of a current value to the recent five-entry average, in
/// microunits; `1.0` when the recent history is silent.
pub open spec fn spec_ratio_micro(x: int, recent_sum: int) -> int {
    if recent_sum > 0 {
        x * 5_000_000 / recent_sum
    } else {
        1_000_000
    }
}

/// The beat trigger: enough history, both ratios above their
/// thresholds, and the 100 ms debounce elapsed.
pub open spec fn spec_beat_trigger(
    vh: Seq<i64>,
    bh: Seq<i64>,
    volume: int,
    bass: int,
    last: int,
    now: int,
) -> bool {
    &&& vh.len() > 10
    &&& bh.len() > 10
    &&& spec_ratio_micro(volume, spec_recent_sum(vh)) > 1_500_000
    &&& spec_ratio_micro(bass, spec_recent_sum(bh)) > 1_300_000
    &&& now - last >= 100
}

/// Beat confidence: the mean excess of the two ratios over their
/// thresholds, capped at `1.0`; zero when the trigger condition fails.
pub open spec fn spec_confidence(
    vh: Seq<i64>,
    bh: Seq<i64>,
    volume: int,
    bass: int,
    last: int,
    now: int,
) -> int {
    if spec_beat_trigger(vh, bh, volume, bass, last, now) {
        let vr = spec_ratio_micro(volume, spec_recent_sum(vh));
        let br = spec_ratio_micro(bass, spec_recent_sum(bh));
        let raw = ((vr - 1_500_000) + (br - 1_300_000)) / 2;
        if raw < 1_000_000 {
            raw
        } else {
            1_000_000
        }
    } else {
        0
    }
}

/// A beat is accepted — it advances the debounce clock and feeds the tempo
/// history — only when its confidence exceeds `0.3`.
pub open spec fn spec_beat_accepted(
    vh: Seq<i64>,
    bh: Seq<i64>,
    volume: int,
    bass: int,
    last: int,
    now: int,
) -> bool {
    spec_confidence(vh, bh, volume, bass, last, now) > 300_000
}

/// Sum of recorded inter-beat intervals.
pub open spec fn sum_u64(s: Seq<u64>) -> int
    decreases s.len(),
{
    if s.len() == 0 {
        0
    } else {
        sum_u64(s.drop_last()) + s.last()
    }
}

pub proof fn lemma_sum_u64_take_step(s: Seq<u64>, i: int)
    requires
        0 <= i < s.len(),
    ensures
        sum_u64(s.take(i + 1)) == sum_u64(s.take(i)) + s[i],
{
    assert(s.take(i + 1).drop_last() =~= s.take(i));
    assert(s.take(i + 1).last() == s[i]);
}

pub proof fn lemma_sum_u64_bounds(s: Seq<u64>, lo: int)
    requires
        forall|i: int| 0 <= i < s.len() ==> #[trigger] s[i] >= lo,
        lo >= 0,
    ensures
        sum_u64(s) >= s.len() as int * lo,
        sum_u64(s) >= 0,
    decreases s.len(),
{
    let n = s.len() as int;
    if s.len() == 0 {
        assert(n * lo == 0) by (nonlinear_arith)
            requires
                n == 0,
        ;
    } else {
        lemma_sum_u64_bounds(s.drop_last(), lo);
        assert((n - 1) * lo + lo == n * lo) by (nonlinear_arith);
    }
}

/// The tempo estimate in milli-BPM: `60e6 * count / sum` over the
/// recorded intervals (milliseconds), `0` until four intervals exist.
pub open spec fn spec_tempo(tb: Seq<u64>) -> int {
    if tb.len() < 4 {
        0
    } else {
        60_000_000 * tb.len() as int / sum_u64(tb)
    }
}

/// Sum of the newest five entries of a rolling history.
fn recent_sum5(h: &VecDeque<i64>) -> (s: i64)
    requires
        h@.len() >= 5,
        forall|i: int| 0 <= i < h@.len() ==> 0 <= #[trigger] h@[i] <= SAMPLE_LIMIT,
    ensures
        s == spec_recent_sum(h@),
        0 <= s <= 10_000_000,
{
    let len: usize = h.len();
    let ghost tail = h@.skip(h@.len() as int - 5);
    let mut acc: i64 = 0;
    let mut j: usize = 0;
    while j < 5
        invariant
            len == h@.len(),
            h@.len() >= 5,
            forall|i: int| 0 <= i < h@.len() ==> 0 <= #[trigger] h@[i] <= SAMPLE_LIMIT,
            tail == h@.skip(h@.len() as int - 5),
            j <= 5,
            acc == sum_of(tail.take(j as int)),
            0 <= acc <= (j as int) * (SAMPLE_LIMIT as int),
        decreases 5 - j,
    {
        proof {
            lemma_sum_of_take_step(tail, j as int);
            assert(tail[j as int] == h@[h@.len() - 5 + j as int]);
        }
        acc = acc + h[len - 5 + j];
        j = j + 1;
    }
    proof {
        assert(tail.take(5) =~= tail);
    }
    acc
}

impl AudioAnalyzer {
    /// One transition of the beat detector. Needs more than ten
    /// entries in both rolling histories before it reports anything but
    /// zero; an accepted beat records its interval and advances the
    /// debounce clock, a weaker one changes no state.
    pub fn detect_beat(&mut self, current_volume: i64, current_bass: i64, now_ms: u64) -> (conf:
        i64)
        requires
            old(self).wf(),
            0 <= current_volume <= SAMPLE_LIMIT,
            0 <= current_bass <= AMP_SCALE,
            now_ms >= old(self).last_beat_time,
        ensures
            final(self).wf(),
            final(self).config == old(self).config,
            final(self).input_buffer == old(self).input_buffer,
            final(self).window == old(self).window,
            final(self).bin_frequencies == old(self).bin_frequencies,
            final(self).volume_history == old(self).volume_history,
            final(self).bass_history == old(self).bass_history,
            conf == spec_confidence(
                old(self).volume_history@,
                old(self).bass_history@,
                current_volume as int,
                current_bass as int,
                old(self).last_beat_time as int,
                now_ms as int,
            ),
            0 <= conf <= AMP_SCALE,
            old(self).volume_history@.len() <= 10 || old(self).bass_history@.len() <= 10 ==> conf
                == 0,
            spec_beat_accepted(
                old(self).volume_history@,
                old(self).bass_history@,
                current_volume as int,
                current_bass as int,
                old(self).last_beat_time as int,
                now_ms as int,
            ) ==> final(self).tempo_buffer@ =~= push_capped(
                old(self).tempo_buffer@,
                (now_ms - old(self).last_beat_time) as u64,
                32,
            ) && final(self).last_beat_time == now_ms,
            !spec_beat_accepted(
                old(self).volume_history@,
                old(self).bass_history@,
                current_volume as int,
                current_bass as int,
                old(self).last_beat_time as int,
                now_ms as int,
            ) ==> final(self).tempo_buffer == old(self).tempo_buffer && final(self).last_beat_time
                == old(self).last_beat_time,
    {
        if !(self.volume_history.len() > 10 && self.bass_history.len() > 10) {
            return 0;
        }
        let vsum: i64 = recent_sum5(&self.volume_history);
        let bsum: i64 = recent_sum5(&self.bass_history);
        proof {
            if vsum > 0 {
                crate::fixed::lemma_mul_le(current_volume as int, 5_000_000, SAMPLE_LIMIT as int, 5_000_000);
                crate::fixed::lemma_div_le(
                    (current_volume as int) * 5_000_000,
                    10_000_000_000_000,
                    vsum as int,
                );
            }
            if bsum > 0 {
                crate::fixed::lemma_mul_le(current_bass as int, 5_000_000, SAMPLE_LIMIT as int, 5_000_000);
                crate::fixed::lemma_div_le(
                    (current_bass as int) * 5_000_000,
                    10_000_000_000_000,
                    bsum as int,
                );
            }
        }
        let vr: i64 = if vsum > 0 {
            current_volume * 5_000_000 / vsum
        } else {
            1_000_000
        };
        let br: i64 = if bsum > 0 {
            current_bass * 5_000_000 / bsum
        } else {
            1_000_000
        };
        if !(vr > 1_500_000 && br > 1_300_000) {
            return 0;
        }
        let elapsed: u64 = now_ms - self.last_beat_time;
        if !(elapsed >= 100) {
            return 0;
        }
        let raw: i64 = ((vr - 1_500_000) + (br - 1_300_000)) / 2;
        let conf: i64 = if raw < 1_000_000 {
            raw
        } else {
            1_000_000
        };
        if conf > 300_000 {
            self.tempo_buffer.push_back(elapsed);
            if self.tempo_buffer.len() > 32 {
                self.tempo_buffer.pop_front();
            }
            self.last_beat_time = now_ms;
        }
        conf
    }

    /// The tempo estimate in milli-BPM: unknown (zero) until at least four
    /// inter-beat intervals have been recorded, then `60e6 * count / sum`.
    pub fn estimate_tempo(&self) -> (tempo: i64)
        requires
            self.wf(),
        ensures
            tempo == spec_tempo(self.tempo_buffer@),
            0 <= tempo <= 600_000,
            self.tempo_buffer@.len() < 4 ==> tempo == 0,
    {
        let len: usize = self.tempo_buffer.len();
        if len < 4 {
            return 0;
        }
        let mut acc: u128 = 0;
        let mut j: usize = 0;
        while j < len
            invariant
                self.wf(),
                len == self.tempo_buffer@.len(),
                j <= len,
                acc == sum_u64(self.tempo_buffer@.take(j as int)),
                0 <= acc <= (j as int) * 0xFFFF_FFFF_FFFF_FFFF,
            decreases len - j,
        {
            proof {
                lemma_sum_u64_take_step(self.tempo_buffer@, j as int);
                assert((j as int) * 0xFFFF_FFFF_FFFF_FFFF + 0xFFFF_FFFF_FFFF_FFFF == (j as int + 1)
                    * 0xFFFF_FFFF_FFFF_FFFF) by (nonlinear_arith);
                crate::fixed::lemma_mul_le(j as int + 1, 0xFFFF_FFFF_FFFF_FFFF, 32, 0xFFFF_FFFF_FFFF_FFFF);
            }
            acc = acc + self.tempo_buffer[j] as u128;
            j = j + 1;
        }
        proof {
            assert(self.tempo_buffer@.take(len as int) =~= self.tempo_buffer@);
            lemma_sum_u64_bounds(self.tempo_buffer@, 100);
            assert(60_000_000 * (len as int) <= 60_000_000 * 32) by (nonlinear_arith)
                requires
                    len <= 32,
            ;
            assert(60_000_000 * (len as int) >= 0) by (nonlinear_arith)
                requires
                    len >= 0,
            ;
            assert((len as int) * 100 >= 400) by (nonlinear_arith)
                requires
                    len >= 4,
            ;
            crate::fixed::lemma_div_le(60_000_000 * (len as int), 1_920_000_000, acc as int);
        }
        let tempo: i64 = ((60_000_000u128 * (len as u128)) / acc) as i64;
        proof {
            assert(60_000_000 * (len as int) <= (acc as int) * 600_000) by (nonlinear_arith)
                requires
                    acc as int >= (len as int) * 100,
                    len >= 4,
            ;
            vstd::arithmetic::div_mod::lemma_multiply_divide_le(
                60_000_000 * (len as int),
                acc as int,
                600_000,
            );
        }
        tempo
    }

    /// Appends the frame's volume and bass energy to the rolling histories,
    /// evicting the oldest entries beyond 100. This runs after beat
    /// detection — read the recent averages first, append after.
    pub fn update_history(&mut self, volume: i64, bass: i64)
        requires
            old(self).wf(),
            0 <= volume <= SAMPLE_LIMIT,
            0 <= bass <= AMP_SCALE,
        ensures
            final(self).wf(),
            final(self).config == old(self).config,
            final(self).input_buffer == old(self).input_buffer,
            final(self).window == old(self).window,
            final(self).bin_frequencies == old(self).bin_frequencies,
            final(self).last_beat_time == old(self).last_beat_time,
            final(self).tempo_buffer == old(self).tempo_buffer,
            final(self).volume_history@ =~= push_capped(old(self).volume_history@, volume, 100),
            final(self).bass_history@ =~= push_capped(old(self).bass_history@, bass, 100),
    {
        self.volume_history.push_back(volume);
        if self.volume_history.len() > 100 {
            self.volume_history.pop_front();
        }
        self.bass_history.push_back(bass);
        if self.bass_history.len() > 100 {
            self.bass_history.pop_front();
        }
    }
}


/// An element-for-element copy of a sample vector.
fn copy_samples(v: &Vec<i64>) -> (out: Vec<i64>)
    ensures
        out@ =~= v@,
{
    let mut out: Vec<i64> = Vec::new();
    let mut i: usize = 0;
    while i < v.len()
        invariant
            i <= v@.len(),
            out@.len() == i,
            forall|j: int| 0 <= j < i ==> #[trigger] out@[j] == v@[j],
        decreases v@.len() - i,
    {
        out.push(v[i]);
        i = i + 1;
    }
    out
}

impl AudioAnalyzer {
    /// The first half of one frame of analysis: assembles the mono
    /// waveform into the sliding buffer and returns it together with the
    /// windowed transform input. The caller runs the forward transform on
    /// the second vector and hands the complex bins to
    /// [`AudioAnalyzer::complete_frame`].
    pub fn prepare_frame(&mut self, frame: &AudioFrame) -> (r: (Vec<i64>, Vec<i64>))
        requires
            old(self).wf(),
            frame.channels >= 1,
            forall|i: int|
                0 <= i < frame.samples@.len() ==> -SAMPLE_LIMIT <= #[trigger] frame.samples@[i]
                    <= SAMPLE_LIMIT,
        ensures
            final(self).wf(),
            r.0@.len() == frame.samples@.len() as int / frame.channels as int,
            forall|f: int|
                0 <= f < r.0@.len() ==> #[trigger] r.0@[f] == spec_mono_at(
                    frame.samples@,
                    frame.channels as int,
                    f,
                ),
            forall|f: int| 0 <= f < r.0@.len() ==> -SAMPLE_LIMIT <= #[trigger] r.0@[f] <= SAMPLE_LIMIT,
            final(self).input_buffer@ =~= spec_buffer_after(old(self).input_buffer@, r.0@),
            r.1@.len() == old(self).config.fft_size,
            forall|i: int|
                0 <= i < r.1@.len() ==> #[trigger] r.1@[i] == spec_windowed_at(
                    final(self).input_buffer@,
                    final(self).window@,
                    final(self).config.fft_size as int,
                    i,
                ),
            forall|i: int| 0 <= i < r.1@.len() ==> -SAMPLE_LIMIT <= #[trigger] r.1@[i] <= SAMPLE_LIMIT,
            final(self).config == old(self).config,
            final(self).window == old(self).window,
            final(self).bin_frequencies == old(self).bin_frequencies,
            final(self).volume_history == old(self).volume_history,
            final(self).bass_history == old(self).bass_history,
            final(self).last_beat_time == old(self).last_beat_time,
            final(self).tempo_buffer == old(self).tempo_buffer,
    {
        let mono = self.ingest(&frame.samples, frame.channels);
        let windowed = self.windowed_input();
        (mono, windowed)
    }

    /// The second half of one frame of analysis, after the forward
    /// transform: derives the spectrum, the band and time-domain features,
    /// steps the beat detector, and appends to the rolling histories —
    /// read the recent averages first, append the current values after.
    pub fn complete_frame(&mut self, mono: &Vec<i64>, re: &Vec<i64>, im: &Vec<i64>, now_ms: u64) -> (data:
        AudioData)
        requires
            old(self).wf(),
            forall|i: int|
                0 <= i < mono@.len() ==> -SAMPLE_LIMIT <= #[trigger] mono@[i] <= SAMPLE_LIMIT,
            re@.len() == old(self).config.fft_size / 2 + 1,
            im@.len() == re@.len(),
            forall|i: int| 0 <= i < re@.len() ==> -REAL_LIMIT <= #[trigger] re@[i] <= REAL_LIMIT,
            forall|i: int| 0 <= i < im@.len() ==> -REAL_LIMIT <= #[trigger] im@[i] <= REAL_LIMIT,
            now_ms >= old(self).last_beat_time,
        ensures
            final(self).wf(),
            final(self).config == old(self).config,
            final(self).input_buffer == old(self).input_buffer,
            final(self).window == old(self).window,
            final(self).bin_frequencies == old(self).bin_frequencies,
            data.timestamp_ms == now_ms,
            data.waveform@ =~= mono@,
            // The spectrum, exactly as `spectrum` states it.
            data.spectrum.bins@.len() == re@.len(),
            forall|i: int|
                0 <= i < data.spectrum.bins@.len() ==> #[trigger] data.spectrum.bins@[i]
                    == spec_mag(re@[i] as int, im@[i] as int, old(self).config.fft_size as int),
            data.spectrum.bin_frequencies@ =~= old(self).bin_frequencies@,
            data.spectrum.peak_frequency == old(self).bin_frequencies@[first_max_idx(
                data.spectrum.bins@,
            )],
            data.spectrum.spectral_centroid == spec_centroid(
                data.spectrum.bins@,
                old(self).bin_frequencies@,
            ),
            data.spectrum.spectral_energy == spec_energy(data.spectrum.bins@),
            // Time-domain features.
            data.features.volume == spec_volume(mono@),
            data.features.peak == spec_peak(mono@),
            data.features.zero_crossing_rate == spec_zcr(mono@),
            // Band energies.
            data.features.sub_bass == spec_band_energy(
                data.spectrum.bins@,
                20,
                60,
                old(self).config.sample_rate as int,
            ),
            data.features.bass == spec_band_energy(
                data.spectrum.bins@,
                60,
                250,
                old(self).config.sample_rate as int,
            ),
            data.features.low_mid == spec_band_energy(
                data.spectrum.bins@,
                250,
                500,
                old(self).config.sample_rate as int,
            ),
            data.features.mid == spec_band_energy(
                data.spectrum.bins@,
                500,
                2000,
                old(self).config.sample_rate as int,
            ),
            data.features.high_mid == spec_band_energy(
                data.spectrum.bins@,
                2000,
                4000,
                old(self).config.sample_rate as int,
            ),
            data.features.presence == spec_band_energy(
                data.spectrum.bins@,
                4000,
                6000,
                old(self).config.sample_rate as int,
            ),
            data.features.brilliance == spec_band_energy(
                data.spectrum.bins@,
                6000,
                old(self).config.sample_rate as int / 2,
                old(self).config.sample_rate as int,
            ),
            data.features.spectral_centroid == data.spectrum.spectral_centroid,
            data.features.spectral_rolloff == data.spectrum.bin_frequencies@[spec_rolloff_bin(
                data.spectrum.bins@,
                data.spectrum.spectral_energy as int,
            )],
            // Beat, tempo and the history transition.
            data.features.beat_confidence == spec_confidence(
                old(self).volume_history@,
                old(self).bass_history@,
                spec_volume(mono@),
                data.features.bass as int,
                old(self).last_beat_time as int,
                now_ms as int,
            ),
            spec_beat_accepted(
                old(self).volume_history@,
                old(self).bass_history@,
                spec_volume(mono@),
                data.features.bass as int,
                old(self).last_beat_time as int,
                now_ms as int,
            ) ==> final(self).tempo_buffer@ =~= push_capped(
                old(self).tempo_buffer@,
                (now_ms - old(self).last_beat_time) as u64,
                32,
            ) && final(self).last_beat_time == now_ms,
            !spec_beat_accepted(
                old(self).volume_history@,
                old(self).bass_history@,
                spec_volume(mono@),
                data.features.bass as int,
                old(self).last_beat_time as int,
                now_ms as int,
            ) ==> final(self).tempo_buffer == old(self).tempo_buffer && final(self).last_beat_time
                == old(self).last_beat_time,
            data.features.tempo == spec_tempo(final(self).tempo_buffer@),
            final(self).volume_history@ =~= push_capped(
                old(self).volume_history@,
                data.features.volume,
                100,
            ),
            final(self).bass_history@ =~= push_capped(
                old(self).bass_history@,
                data.features.bass,
                100,
            ),
    {
        let spectrum = self.spectrum(re, im);
        let (volume, peak, zcr) = extract_time_domain(mono);
        let bands = self.extract_bands(&spectrum);
        let beat_confidence = self.detect_beat(volume, bands.bass, now_ms);
        let tempo = self.estimate_tempo();
        self.update_history(volume, bands.bass);
        let spectral_rolloff = calculate_spectral_rolloff(&spectrum);
        let features = AudioFeatures {
            volume,
            peak,
            sub_bass: bands.sub_bass,
            bass: bands.bass,
            low_mid: bands.low_mid,
            mid: bands.mid,
            high_mid: bands.high_mid,
            presence: bands.presence,
            brilliance: bands.brilliance,
            beat_confidence,
            tempo,
            zero_crossing_rate: zcr,
            spectral_centroid: spectrum.spectral_centroid,
            spectral_rolloff,
        };
        AudioData { waveform: copy_samples(mono), spectrum, features, timestamp_ms: now_ms }
    }
}


/// On a stereo frame, the mono downmix averages each left/right pair.
pub proof fn lemma_stereo_downmix(s: Seq<i64>, f: int)
    requires
        0 <= f,
        2 * f + 2 <= s.len(),
    ensures
        spec_mono_at(s, 2, f) == div_trunc(s[2 * f] as int + s[2 * f + 1] as int, 2),
{
    assert(f * 2 == 2 * f && f * 2 + 0 == 2 * f && f * 2 + 1 == 2 * f + 1) by (nonlinear_arith);
    assert(channel_sum(s, 2, f, 1) == channel_sum(s, 2, f, 0) + s[f * 2 + 0]);
    assert(channel_sum(s, 2, f, 2) == channel_sum(s, 2, f, 1) + s[f * 2 + 1]);
}

pub proof fn lemma_count_crossings_zero(s: Seq<i64>)
    requires
        forall|i: int| 0 <= i < s.len() - 1 ==> #[trigger] (s[i] * s[i + 1]) >= 0,
    ensures
        count_crossings(s) == 0,
    decreases s.len(),
{
    if s.len() >= 2 {
        let d = s.drop_last();
        assert forall|i: int| 0 <= i < d.len() - 1 implies #[trigger] (d[i] * d[i + 1]) >= 0 by {
            assert(d[i] == s[i] && d[i + 1] == s[i + 1]);
        };
        lemma_count_crossings_zero(d);
        let k = s.len() - 2;
        assert(s[k as int] * s[k as int + 1] >= 0);
        assert(s.len() - 1 == k + 1);
    }
}

/// A waveform whose adjacent samples never change sign — a strictly
/// monotone one in particular — has zero crossing rate `0`.
pub proof fn lemma_zcr_no_sign_change(s: Seq<i64>)
    requires
        forall|i: int| 0 <= i < s.len() - 1 ==> #[trigger] (s[i] * s[i + 1]) >= 0,
    ensures
        spec_zcr(s) == 0,
{
    lemma_count_crossings_zero(s);
    if s.len() >= 2 {
        assert(0 * 1_000_000 == 0) by (nonlinear_arith);
        vstd::arithmetic::div_mod::lemma_div_of0(s.len() as int - 1);
    }
}

/// A spectrum with energy whose first bin alone reaches the rolloff
/// threshold rolls off at bin `0`: the lowest-frequency bin at which the
/// cumulative magnitude reaches the threshold wins.
pub proof fn lemma_rolloff_first_bin(bins: Seq<i64>, energy: int)
    requires
        bins.len() >= 1,
        energy > 0,
        bins[0] >= energy * 85 / 100,
    ensures
        spec_rolloff_bin(bins, energy) == 0,
{
}

/// A silent spectrum rolls off at the highest bin: with zero energy, no
/// bin counts as reaching the threshold.
pub proof fn lemma_rolloff_of_silence(bins: Seq<i64>)
    requires
        bins.len() >= 1,
    ensures
        spec_rolloff_bin(bins, 0) == bins.len() - 1,
{
}

/// The time-domain extractor is pure: two results derived from the same
/// waveform are bit-identical.
pub proof fn lemma_time_domain_idempotent(
    s: Seq<i64>,
    r1: (i64, i64, i64),
    r2: (i64, i64, i64),
)
    requires
        r1.0 == spec_volume(s) && r1.1 == spec_peak(s) && r1.2 == spec_zcr(s),
        r2.0 == spec_volume(s) && r2.1 == spec_peak(s) && r2.2 == spec_zcr(s),
    ensures
        r1 == r2,
{
}

/// The band extractor is pure: two results derived from the same spectrum
/// and sample rate are bit-identical.
pub proof fn lemma_bands_idempotent(bins: Seq<i64>, sr: int, r1: BandEnergies, r2: BandEnergies)
    requires
        r1.sub_bass == spec_band_energy(bins, 20, 60, sr),
        r1.bass == spec_band_energy(bins, 60, 250, sr),
        r1.low_mid == spec_band_energy(bins, 250, 500, sr),
        r1.mid == spec_band_energy(bins, 500, 2000, sr),
        r1.high_mid == spec_band_energy(bins, 2000, 4000, sr),
        r1.presence == spec_band_energy(bins, 4000, 6000, sr),
        r1.brilliance == spec_band_energy(bins, 6000, sr / 2, sr),
        r2.sub_bass == spec_band_energy(bins, 20, 60, sr),
        r2.bass == spec_band_energy(bins, 60, 250, sr),
        r2.low_mid == spec_band_energy(bins, 250, 500, sr),
        r2.mid == spec_band_energy(bins, 500, 2000, sr),
        r2.high_mid == spec_band_energy(bins, 2000, 4000, sr),
        r2.presence == spec_band_energy(bins, 4000, 6000, sr),
        r2.brilliance == spec_band_energy(bins, 6000, sr / 2, sr),
    ensures
        r1 == r2,
{
}


/// `first_max_idx` picks a maximal bin, and ties resolve to the first
/// maximum found: every earlier bin is strictly smaller.
pub proof fn lemma_first_max_correct(s: Seq<i64>)
    requires
        s.len() >= 1,
    ensures
        0 <= first_max_idx(s) < s.len(),
        forall|j: int| 0 <= j < s.len() ==> #[trigger] s[j] <= s[first_max_idx(s)],
        forall|j: int| 0 <= j < first_max_idx(s) ==> #[trigger] s[j] < s[first_max_idx(s)],
    decreases s.len(),
{
    lemma_first_max_range(s);
    if s.len() > 1 {
        let d = s.drop_last();
        lemma_first_max_correct(d);
        let m = first_max_idx(d);
        assert forall|j: int| 0 <= j < s.len() implies #[trigger] s[j] <= s[first_max_idx(s)] by {
            if j < s.len() - 1 {
                assert(d[j] == s[j]);
            }
        };
        assert forall|j: int| 0 <= j < first_max_idx(s) implies #[trigger] s[j] < s[first_max_idx(
            s,
        )] by {
            if j < s.len() - 1 {
                assert(d[j] == s[j]);
            }
        };
    }
}

proof fn lemma_rolloff_reaches_from(bins: Seq<i64>, t: int, m: int, i: int)
    requires
        0 <= i <= m < bins.len(),
        sum_of(bins.take(m + 1)) >= t,
        forall|j: int| 0 <= j < m ==> #[trigger] sum_of(bins.take(j + 1)) < t,
    ensures
        spec_rolloff_index(bins, t, i, sum_of(bins.take(i))) == m,
    decreases m - i,
{
    lemma_sum_of_take_step(bins, i);
    if i == m {
        assert(sum_of(bins.take(i)) + bins[i] == sum_of(bins.take(m + 1)));
    } else {
        assert(sum_of(bins.take(i)) + bins[i] == sum_of(bins.take(i + 1)));
        assert(sum_of(bins.take(i + 1)) < t);
        lemma_rolloff_reaches_from(bins, t, m, i + 1);
    }
}

/// With nonzero energy, the rolloff bin is exactly the first
/// (lowest-frequency) bin at which the cumulative magnitude reaches the
/// 85% threshold, whenever any bin does.
pub proof fn lemma_rolloff_is_first_reaching(bins: Seq<i64>, energy: int, m: int)
    requires
        0 <= m < bins.len(),
        energy > 0,
        sum_of(bins.take(m + 1)) >= energy * 85 / 100,
        forall|j: int| 0 <= j < m ==> #[trigger] sum_of(bins.take(j + 1)) < energy * 85 / 100,
    ensures
        spec_rolloff_bin(bins, energy) == m,
{
    assert(sum_of(bins.take(0)) == 0);
    lemma_rolloff_reaches_from(bins, energy * 85 / 100, m, 0);
}

} // verus!
