use wcr_viz::analysis::{
    calculate_spectral_rolloff, convert_to_mono, extract_time_domain, AudioAnalyzer, AudioFrame,
    FrequencyData,
};
use wcr_viz::config::{AudioCaptureMode, AudioConfig};
use wcr_viz::fixed::hann_window;
use realfft::RealFftPlanner;

fn test_config() -> AudioConfig {
    AudioConfig {
        device_name: None,
        sample_rate: 44100,
        buffer_size: 1024,
        fft_size: 2048,
        capture_mode: AudioCaptureMode::Input,
        enable_loopback: false,
        target_latency_ms: 50,
    }
}

#[test]
fn test_audio_analyzer_creation() {
    let analyzer = AudioAnalyzer::new(test_config());
    assert!(analyzer.is_ok());
}

#[test]
fn test_mono_conversion() {
    // Stereo [1.0, 2.0, 3.0, 4.0] downmixes to [1.5, 3.5], in microunits.
    let stereo_samples = vec![1_000_000i64, 2_000_000, 3_000_000, 4_000_000];
    let mono = convert_to_mono(&stereo_samples, 2);
    assert_eq!(mono.len(), 2);
    assert_eq!(mono[0], 1_500_000);
    assert_eq!(mono[1], 3_500_000);
}

#[test]
fn test_hann_window() {
    let window = hann_window(8);
    assert_eq!(window.len(), 8);
    // The Hann window starts and ends at zero ...
    assert_eq!(window[0], 0);
    assert_eq!(window[7], 0);
    // ... and has its maximum near 1.0 at the center.
    let max_val = *window.iter().max().unwrap();
    assert!(max_val > 900_000 && max_val <= 1_000_000);
}

#[test]
fn hann_window_center_is_exactly_one_for_odd_sizes() {
    let window = hann_window(9);
    assert_eq!(window[0], 0);
    assert_eq!(window[8], 0);
    assert_eq!(window[4], 1_000_000);
    // Symmetry about the center.
    for i in 0..9 {
        assert_eq!(window[i], window[8 - i]);
    }
}

#[test]
fn mono_conversion_single_channel_is_identity() {
    let samples = vec![5i64, -7, 9];
    let mono = convert_to_mono(&samples, 1);
    assert_eq!(mono, samples);
}

#[test]
fn mono_conversion_truncates_partial_frame() {
    // Five samples at two channels: the trailing odd sample is dropped.
    let samples = vec![1_000_000i64, 1_000_000, 2_000_000, 2_000_000, 3_000_000];
    let mono = convert_to_mono(&samples, 2);
    assert_eq!(mono, vec![1_000_000, 2_000_000]);
}

#[test]
fn sliding_buffer_keeps_most_recent_samples() {
    let mut config = test_config();
    config.buffer_size = 4;
    let mut analyzer = AudioAnalyzer::new(config).unwrap();
    let mono = analyzer.ingest(&vec![1, 2], 1);
    assert_eq!(mono, vec![1, 2]);
    // Buffer started as four zeros; after [1, 2] it is [0, 0, 1, 2].
    assert_eq!(analyzer.input_buffer, vec![0, 0, 1, 2]);
    // A chunk at least as long as the buffer replaces it with its tail.
    analyzer.ingest(&vec![10, 20, 30, 40, 50], 1);
    assert_eq!(analyzer.input_buffer, vec![20, 30, 40, 50]);
}

#[test]
fn time_domain_features_exact_values() {
    // Constant full-scale waveform: RMS and peak are 1.0, no crossings.
    let w = vec![1_000_000i64; 4];
    let (volume, peak, zcr) = extract_time_domain(&w);
    assert_eq!(volume, 1_000_000);
    assert_eq!(peak, 1_000_000);
    assert_eq!(zcr, 0);
}

#[test]
fn zero_crossing_rate_of_monotonic_sequence_is_zero() {
    let w = vec![1i64, 2, 1_000, 2_000, 3_000];
    let (_, _, zcr) = extract_time_domain(&w);
    assert_eq!(zcr, 0);
}

#[test]
fn zero_crossing_rate_of_alternating_sequence_is_one() {
    let w = vec![1_000_000i64, -1_000_000, 1_000_000, -1_000_000];
    let (_, _, zcr) = extract_time_domain(&w);
    assert_eq!(zcr, 1_000_000);
}

#[test]
fn extractors_are_idempotent() {
    let w = vec![123_456i64, -654_321, 42, 999_999, -1];
    let first = extract_time_domain(&w);
    let second = extract_time_domain(&w);
    assert_eq!(first, second);

    let analyzer = AudioAnalyzer::new(test_config()).unwrap();
    let mut bins = vec![0i64; 1025];
    for (i, b) in bins.iter_mut().enumerate() {
        *b = (i as i64 * 37) % 1_000_000;
    }
    let re = bins.clone();
    let im = vec![0i64; 1025];
    let sp1 = analyzer.spectrum(&re, &im);
    let sp2 = analyzer.spectrum(&re, &im);
    assert_eq!(sp1.bins, sp2.bins);
    let b1 = analyzer.extract_bands(&sp1);
    let b2 = analyzer.extract_bands(&sp2);
    assert_eq!(b1, b2);
}

#[test]
fn spectrum_peak_and_centroid_of_single_tone_bin() {
    let analyzer = AudioAnalyzer::new(test_config()).unwrap();
    let mut re = vec![0i64; 1025];
    let im = vec![0i64; 1025];
    re[1] = 1_000_000_000;
    let sp = analyzer.spectrum(&re, &im);
    // Magnitude of bin 1 is 1000.0 / 2048 units.
    assert_eq!(sp.bins[1], 1_000_000_000 / 2048);
    // Bin 1 sits at 1 * 44100 / 2048 Hz, in millihertz.
    assert_eq!(sp.bin_frequencies[1], 44_100_000 / 2048);
    assert_eq!(sp.peak_frequency, 44_100_000 / 2048);
    // All weight on one bin: the centroid is that bin's frequency.
    assert_eq!(sp.spectral_centroid, 44_100_000 / 2048);
}

#[test]
fn band_energy_exact_compression_value() {
    // All bins at 1.0: every band's average is 1.0, compressed to
    // ln(2) / 10 = 0.069314, then weighted 1.5 for the sub-bass band.
    let analyzer = AudioAnalyzer::new(test_config()).unwrap();
    let re = vec![0i64; 1025];
    let im = vec![0i64; 1025];
    let mut sp = analyzer.spectrum(&re, &im);
    sp.bins = vec![1_000_000i64; 1025];
    let sub_bass = analyzer.extract_frequency_band(&sp, 20, 60);
    assert_eq!(sub_bass, 693_147 / 10 * 1500 / 1000);
}

#[test]
fn band_energy_of_silence_is_zero() {
    let analyzer = AudioAnalyzer::new(test_config()).unwrap();
    let re = vec![0i64; 1025];
    let im = vec![0i64; 1025];
    let sp = analyzer.spectrum(&re, &im);
    let bands = analyzer.extract_bands(&sp);
    assert_eq!(bands.sub_bass, 0);
    assert_eq!(bands.bass, 0);
    assert_eq!(bands.brilliance, 0);
}

#[test]
fn rolloff_of_energy_in_first_bin_is_first_bin_frequency() {
    let sp = FrequencyData {
        bins: vec![1_000_000, 0, 0, 0],
        bin_frequencies: vec![0, 21_533, 43_066, 64_599],
        peak_frequency: 0,
        spectral_centroid: 0,
        spectral_energy: 1_000_000,
    };
    // Threshold is 850_000; bin 0 alone reaches it.
    assert_eq!(calculate_spectral_rolloff(&sp), 0);
}

#[test]
fn rolloff_walks_to_the_first_bin_reaching_the_threshold() {
    let sp = FrequencyData {
        bins: vec![100, 100, 1_000_000, 0],
        bin_frequencies: vec![0, 21_533, 43_066, 64_599],
        peak_frequency: 0,
        spectral_centroid: 0,
        spectral_energy: 1_000_000,
    };
    // Cumulative magnitude first reaches 850_000 at bin 2.
    assert_eq!(calculate_spectral_rolloff(&sp), 43_066);
}

#[test]
fn beat_confidence_is_zero_without_history() {
    let mut analyzer = AudioAnalyzer::new(test_config()).unwrap();
    // Fewer than 11 history entries: no detection, however loud.
    for _ in 0..10 {
        analyzer.update_history(1, 1);
    }
    let conf = analyzer.detect_beat(2_000_000, 1_000_000, 500);
    assert_eq!(conf, 0);
    assert_eq!(analyzer.tempo_buffer.len(), 0);
}

#[test]
fn beat_detection_accepts_a_loud_beat_and_records_the_interval() {
    let mut analyzer = AudioAnalyzer::new(test_config()).unwrap();
    for _ in 0..11 {
        analyzer.update_history(100_000, 100_000);
    }
    let conf = analyzer.detect_beat(1_000_000, 1_000_000, 200);
    // Ratios are 10.0 against both thresholds: confidence caps at 1.0.
    assert_eq!(conf, 1_000_000);
    assert_eq!(analyzer.tempo_buffer.len(), 1);
    assert_eq!(analyzer.tempo_buffer[0], 200);
    assert_eq!(analyzer.last_beat_time, 200);
}

#[test]
fn beat_detection_debounces_within_100_ms() {
    let mut analyzer = AudioAnalyzer::new(test_config()).unwrap();
    for _ in 0..11 {
        analyzer.update_history(100_000, 100_000);
    }
    assert_eq!(analyzer.detect_beat(1_000_000, 1_000_000, 200), 1_000_000);
    // 50 ms later: gate closed, no state change.
    assert_eq!(analyzer.detect_beat(1_000_000, 1_000_000, 250), 0);
    assert_eq!(analyzer.tempo_buffer.len(), 1);
    assert_eq!(analyzer.last_beat_time, 200);
}

#[test]
fn tempo_is_zero_below_four_intervals_and_exact_at_four() {
    let mut analyzer = AudioAnalyzer::new(test_config()).unwrap();
    for _ in 0..3 {
        analyzer.tempo_buffer.push_back(500);
    }
    assert_eq!(analyzer.estimate_tempo(), 0);
    analyzer.tempo_buffer.push_back(500);
    // Four intervals of 0.5 s: 120 BPM, in milli-BPM.
    assert_eq!(analyzer.estimate_tempo(), 120_000);
}

#[test]
fn history_is_bounded_to_100_entries() {
    let mut analyzer = AudioAnalyzer::new(test_config()).unwrap();
    for i in 0..150 {
        analyzer.update_history(i as i64, (i % 7) as i64);
    }
    assert_eq!(analyzer.volume_history.len(), 100);
    assert_eq!(analyzer.bass_history.len(), 100);
    // Oldest entries were evicted first.
    assert_eq!(analyzer.volume_history[0], 50);
    assert_eq!(analyzer.volume_history[99], 149);
}

#[test]
fn analyzer_rejects_invalid_configurations() {
    let mut c = test_config();
    c.sample_rate = 0;
    assert!(AudioAnalyzer::new(c).is_err());
    let mut c = test_config();
    c.buffer_size = 1000;
    assert!(AudioAnalyzer::new(c).is_err());
    let mut c = test_config();
    c.fft_size = 1000;
    assert!(AudioAnalyzer::new(c).is_err());
    let mut c = test_config();
    c.fft_size = 1 << 20;
    assert!(AudioAnalyzer::new(c).is_err());
}

fn run_sine_frame(freq_hz: f32) -> wcr_viz::analysis::AudioData {
    let mut config = test_config();
    config.buffer_size = 2048;
    config.fft_size = 2048;
    let mut analyzer = AudioAnalyzer::new(config).unwrap();

    let sample_rate = 44100.0f32;
    let samples: Vec<i64> = (0..2048)
        .map(|i| {
            let v = (2.0 * std::f32::consts::PI * freq_hz * i as f32 / sample_rate).sin();
            (v * 1_000_000.0) as i64
        })
        .collect();
    let frame = AudioFrame { samples, timestamp_ms: 100, sample_rate: 44100, channels: 1 };
    let (mono, windowed) = analyzer.prepare_frame(&frame);

    let mut planner = RealFftPlanner::<f32>::new();
    let r2c = planner.plan_fft_forward(2048);
    let mut input: Vec<f32> = windowed.iter().map(|&x| x as f32 / 1_000_000.0).collect();
    let mut output = r2c.make_output_vec();
    r2c.process(&mut input, &mut output).unwrap();

    let re: Vec<i64> = output.iter().map(|c| (c.re as f64 * 1_000_000.0) as i64).collect();
    let im: Vec<i64> = output.iter().map(|c| (c.im as f64 * 1_000_000.0) as i64).collect();
    analyzer.complete_frame(&mono, &re, &im, 100)
}

#[test]
fn sine_tone_peaks_within_one_bin_of_its_frequency() {
    let data = run_sine_frame(100.0);
    // One bin is 44100 / 2048 Hz wide; frequencies are in millihertz.
    let bin_width = 44_100_000i64 / 2048;
    let peak = data.spectrum.peak_frequency;
    assert!(
        (peak - 100_000).abs() <= bin_width,
        "peak {} not within one bin of 100 Hz",
        peak
    );
    // A 100 Hz tone leaves the bands above 4000 Hz essentially empty.
    assert!(data.features.presence < 5_000);
    assert!(data.features.brilliance < 5_000);
    // And the low end is where the energy is.
    assert!(data.features.sub_bass > 0 || data.features.bass > 0);
}

#[test]
fn complete_frame_is_deterministic() {
    let a = run_sine_frame(440.0);
    let b = run_sine_frame(440.0);
    assert_eq!(a.features.volume, b.features.volume);
    assert_eq!(a.features.peak, b.features.peak);
    assert_eq!(a.spectrum.bins, b.spectrum.bins);
    assert_eq!(a.features.sub_bass, b.features.sub_bass);
    assert_eq!(a.features.brilliance, b.features.brilliance);
}

#[test]
fn beat_confidence_exact_uncapped_value() {
    let mut analyzer = AudioAnalyzer::new(test_config()).unwrap();
    for _ in 0..11 {
        analyzer.update_history(500_000, 500_000);
    }
    // Recent five-entry sums are 2_500_000. Volume ratio 2.0, bass ratio
    // 1.6: confidence is ((2.0 - 1.5) + (1.6 - 1.3)) / 2 = 0.4.
    let conf = analyzer.detect_beat(1_000_000, 800_000, 100);
    assert_eq!(conf, 400_000);
    // Above 0.3: accepted, interval recorded.
    assert_eq!(analyzer.tempo_buffer.len(), 1);
    assert_eq!(analyzer.last_beat_time, 100);
}

#[test]
fn beat_debounce_allows_exactly_100_ms() {
    let mut analyzer = AudioAnalyzer::new(test_config()).unwrap();
    for _ in 0..11 {
        analyzer.update_history(100_000, 100_000);
    }
    assert_eq!(analyzer.detect_beat(1_000_000, 1_000_000, 150), 1_000_000);
    // 99 ms later the trigger stays closed; at exactly 100 ms it opens.
    assert_eq!(analyzer.detect_beat(1_000_000, 1_000_000, 249), 0);
    assert_eq!(analyzer.detect_beat(1_000_000, 1_000_000, 250), 1_000_000);
    assert_eq!(analyzer.tempo_buffer.len(), 2);
    assert_eq!(analyzer.tempo_buffer[1], 100);
}

#[test]
fn weak_beat_is_reported_but_does_not_advance_state() {
    let mut analyzer = AudioAnalyzer::new(test_config()).unwrap();
    for _ in 0..11 {
        analyzer.update_history(500_000, 500_000);
    }
    // Ratios 1.6 and 1.4: confidence ((0.1) + (0.1)) / 2 = 0.1, below the
    // 0.3 acceptance bar — reported, but no interval and no debounce reset.
    let conf = analyzer.detect_beat(800_000, 700_000, 100);
    assert_eq!(conf, 100_000);
    assert_eq!(analyzer.tempo_buffer.len(), 0);
    assert_eq!(analyzer.last_beat_time, 0);
}

#[test]
fn rolloff_of_zero_energy_spectrum_is_highest_bin() {
    // Silence: no bin counts as reaching the threshold, so the rolloff
    // falls back to the highest bin's frequency.
    let sp = FrequencyData {
        bins: vec![0, 0, 0, 0],
        bin_frequencies: vec![0, 21_533, 43_066, 64_599],
        peak_frequency: 0,
        spectral_centroid: 0,
        spectral_energy: 0,
    };
    assert_eq!(calculate_spectral_rolloff(&sp), 64_599);
}
