//! Preprocessing and frame scanning on concrete buffers, and input
//! decoding.

use audio_labeling::config::AnalysisConfig;
use audio_labeling::decode::decode_audio_base64;
use audio_labeling::events::PipelineError;
use audio_labeling::preprocess::{apply_lowpass_filter, normalize_audio};
use audio_labeling::scan::{scan_frames, window_is_silent};

fn standard_config() -> AnalysisConfig {
    AnalysisConfig::standard(44100).unwrap()
}

#[test]
fn normalization_scales_peak_to_target() {
    // Peak 0.4 of full scale is scaled to exactly 0.95; the others keep
    // their ratios, magnitudes rounded down.
    let mut samples = vec![100_000i64, -400_000, 200_000];
    normalize_audio(&mut samples);
    assert_eq!(samples, vec![237_500, -950_000, 475_000]);
    assert_eq!(samples.iter().map(|s| s.abs()).max(), Some(950_000));
}

#[test]
fn normalization_raises_quiet_buffers() {
    let mut samples = vec![1_000i64, -2_000];
    normalize_audio(&mut samples);
    assert_eq!(samples, vec![475_000, -950_000]);
}

#[test]
fn normalization_leaves_silence_alone() {
    let mut samples = vec![0i64; 64];
    normalize_audio(&mut samples);
    assert_eq!(samples, vec![0i64; 64]);
}

#[test]
fn normalization_handles_extreme_magnitudes() {
    // The largest accepted raw magnitude scales to the target peak; a tiny
    // sample next to it rounds down to zero.
    let mut samples = vec![1_000_000_000_000i64, -1];
    normalize_audio(&mut samples);
    assert_eq!(samples, vec![950_000, 0]);
}

#[test]
fn lowpass_handles_full_scale_swing() {
    // A swing across the whole accepted range stays within it.
    let mut samples = vec![-1_000_000i64, 1_000_000];
    apply_lowpass_filter(&mut samples, 44100);
    // The step of 2_000_000 is scaled by 50265 / 94365.
    assert_eq!(samples, vec![-1_000_000, -1_000_000 + 2_000_000 * 50_265 / 94_365]);
}

#[test]
fn lowpass_passes_first_sample_and_smooths_step() {
    // At 44100 Hz the filter fraction is 50265 / 94365; a step from 0 to
    // 100000 moves the output by floor(100000 * 50265 / 94365) = 53266.
    let mut samples = vec![0i64, 100_000];
    apply_lowpass_filter(&mut samples, 44100);
    assert_eq!(samples, vec![0, 53_266]);
}

#[test]
fn lowpass_keeps_constant_signal() {
    let mut samples = vec![7_000i64; 16];
    apply_lowpass_filter(&mut samples, 44100);
    assert_eq!(samples, vec![7_000i64; 16]);
}

#[test]
fn silence_gate_compares_rms_against_threshold() {
    let cfg = standard_config();
    // Constant amplitude 3000 is below the -50 dB threshold of 3162...
    let quiet = vec![3_000i64; 1024];
    assert!(window_is_silent(&quiet, 0, &cfg));
    // ...and 3200 is above it.
    let loud = vec![3_200i64; 1024];
    assert!(!window_is_silent(&loud, 0, &cfg));
}

#[test]
fn silence_gate_boundary_is_exclusive() {
    // A window sitting exactly on the threshold RMS is not silent: the
    // criterion is a strict less-than.
    let cfg = standard_config();
    let at_threshold = vec![3_162i64; 1024];
    assert!(!window_is_silent(&at_threshold, 0, &cfg));
}

#[test]
fn pure_silence_yields_no_frames() {
    // An all-zero buffer longer than one window produces nothing to
    // analyze, hence an empty event list downstream.
    let cfg = standard_config();
    let samples = vec![0i64; 2048];
    let starts = scan_frames(&samples, &cfg);
    assert!(starts.is_empty());
}

#[test]
fn scanner_walks_hops_and_skips_quiet_windows() {
    let cfg = standard_config();
    // Three full windows fit (starts 0, 512, 1024); the first 1536 samples
    // are loud, the tail is silent, so the last window (1024..2048, half
    // quiet) still passes while nothing beyond start 1024 fits.
    let mut samples = vec![500_000i64; 1536];
    samples.extend(vec![0i64; 512]);
    let starts = scan_frames(&samples, &cfg);
    assert_eq!(starts, vec![0, 512, 1024]);
}

#[test]
fn scanner_skips_a_quiet_middle_window() {
    let cfg = standard_config();
    let mut samples = vec![500_000i64; 512];
    samples.extend(vec![0i64; 1024]);
    samples.extend(vec![500_000i64; 512]);
    let starts = scan_frames(&samples, &cfg);
    // Window at 512 is fully quiet; windows at 0 and 1024 are half loud.
    assert_eq!(starts, vec![0, 1024]);
}

#[test]
fn decode_accepts_plain_base64() {
    let out = decode_audio_base64(&b"aGVsbG8=".to_vec()).unwrap();
    assert_eq!(out, b"hello".to_vec());
}

#[test]
fn decode_strips_data_url_prefix() {
    let out = decode_audio_base64(&b"data:audio/ogg;base64,aGVsbG8=".to_vec()).unwrap();
    assert_eq!(out, b"hello".to_vec());
}

#[test]
fn decode_round_trips_binary_data() {
    let payload: Vec<u8> = (0u16..=255).map(|b| b as u8).collect();
    let encoded = base64::Engine::encode(&base64::engine::general_purpose::STANDARD, &payload);
    let out = decode_audio_base64(&encoded.into_bytes()).unwrap();
    assert_eq!(out, payload);
}

#[test]
fn decode_rejects_invalid_base64() {
    let err = decode_audio_base64(&b"!!!not base64!!!".to_vec()).unwrap_err();
    assert_eq!(err, PipelineError::InvalidBase64);
}

#[test]
fn config_rejects_bad_window_geometry() {
    assert_eq!(
        AnalysisConfig::new(4, 8, 44100).unwrap_err(),
        PipelineError::InvalidConfig
    );
    assert_eq!(
        AnalysisConfig::new(1024, 0, 44100).unwrap_err(),
        PipelineError::InvalidConfig
    );
    assert_eq!(
        AnalysisConfig::standard(0).unwrap_err(),
        PipelineError::InvalidConfig
    );
}

#[test]
fn standard_config_carries_documented_defaults() {
    let cfg = standard_config();
    assert_eq!(cfg.buf_size, 1024);
    assert_eq!(cfg.hop_size, 512);
    assert_eq!(cfg.sample_rate, 44100);
    assert_eq!(cfg.silence_threshold_amp, 3_162);
    assert_eq!(cfg.min_onset_gap, 2_205);
    assert_eq!(cfg.onset_velocity_threshold, 300);
    assert_eq!(cfg.sustained_velocity_threshold, 500);
    assert_eq!(cfg.merge_time_window, 2_205);
    assert_eq!(cfg.merge_pitch_window, 2_000);
}
