//! The weather-picture decoder on machine floats.

use sdr_dsp::apt;
use sdr_dsp::apt::{
    build_padded_sync_a_template, build_square_template, SyncChannel, SyncMatch,
    INTERMEDIATE_RATE_HZ, LINES_PER_SECOND, LINE_PIXELS, MIN_INPUT_RATE_HZ, PIXELS_PER_SECOND, READY_QUEUE_CAP, SAMPLES_PER_LINE, SAMPLES_PER_PIXEL,
    SAMPLES_PER_SYNC_A_CYCLE, SAMPLES_PER_SYNC_B_CYCLE, SUBCARRIER_HZ, SYNC_A_FIELD_PX,
    SYNC_A_FIRST_HIGH_OFFSET_SAMPLES, SYNC_A_HZ, SYNC_A_LEADING_PAD_PX,
    SYNC_A_LEADING_PAD_SAMPLES, SYNC_A_TEMPLATE_LEN, SYNC_A_TOTAL_PX, SYNC_BURST_CYCLES,
    SYNC_B_TEMPLATE_LEN,
};
use sdr_dsp::apt::decoder::{
    decimate_into_pixels, DECODER_BUFFER_CAP, MAX_NOMINAL_FALLBACKS, MAX_SYNC_DRIFT_SAMPLES,
    MIN_ACCUMULATOR_FOR_DECODE,
};
use sdr_dsp::arith::{Arithmetic, Widening};
use sdr_dsp::decim_taps::{plan_stages, DecimTables, PLAN_COUNT};
use sdr_dsp::taps::low_pass;
use sdr_dsp::types::DspError;
use std::f32::consts::TAU;

type AptDecoder = apt::AptDecoder<F32>;
type AptLine = apt::AptLine<F32>;
type Apt137Demodulator = apt::Apt137Demodulator<F32>;
type EnvelopeDetector = apt::EnvelopeDetector<F32>;
type RealResampler = apt::RealResampler<F32>;
type SyncDetector = apt::SyncDetector<F32>;

/// Arithmetic on `f32`.
struct F32;

impl Arithmetic for F32 {
    type R = f32;

    fn integer(n: i64) -> f32 {
        n as f32
    }
    fn count(n: usize) -> f32 {
        n as f32
    }
    fn fraction(n: i64, d: i64) -> f32 {
        n as f32 / d as f32
    }
    fn plus(a: f32, b: f32) -> f32 {
        a + b
    }
    fn minus(a: f32, b: f32) -> f32 {
        a - b
    }
    fn times(a: f32, b: f32) -> f32 {
        a * b
    }
    fn over(a: f32, b: f32) -> f32 {
        a / b
    }
    fn mul_add(a: f32, b: f32, c: f32) -> f32 {
        a.mul_add(b, c)
    }
    fn midpoint(a: f32, b: f32) -> f32 {
        f32::midpoint(a, b)
    }
    fn neg(a: f32) -> f32 {
        -a
    }
    fn abs(a: f32) -> f32 {
        a.abs()
    }
    fn signum(a: f32) -> f32 {
        a.signum()
    }
    fn min(a: f32, b: f32) -> f32 {
        a.min(b)
    }
    fn max(a: f32, b: f32) -> f32 {
        a.max(b)
    }
    fn floor(a: f32) -> f32 {
        a.floor()
    }
    fn round(a: f32) -> f32 {
        a.round()
    }
    fn rem_euclid(a: f32, b: f32) -> f32 {
        a.rem_euclid(b)
    }
    fn sqrt(a: f32) -> f32 {
        a.sqrt()
    }
    fn sin(a: f32) -> f32 {
        a.sin()
    }
    fn cos(a: f32) -> f32 {
        a.cos()
    }
    fn atan2(y: f32, x: f32) -> f32 {
        y.atan2(x)
    }
    fn exp(a: f32) -> f32 {
        a.exp()
    }
    fn exp10(a: f32) -> f32 {
        (10.0 as f32).powf(a)
    }
    fn log10(a: f32) -> f32 {
        a.log10()
    }
    fn log2(a: f32) -> f32 {
        a.log2()
    }
    fn tanh(a: f32) -> f32 {
        a.tanh()
    }
    fn pi() -> f32 {
        std::f32::consts::PI
    }
    fn frac_1_sqrt_2() -> f32 {
        std::f32::consts::FRAC_1_SQRT_2
    }
    fn min_positive() -> f32 {
        f32::MIN_POSITIVE
    }
    fn neg_infinity() -> f32 {
        f32::NEG_INFINITY
    }
    fn nan() -> f32 {
        f32::NAN
    }
    fn lt(a: f32, b: f32) -> bool {
        a < b
    }
    fn le(a: f32, b: f32) -> bool {
        a <= b
    }
    fn same(a: f32, b: f32) -> bool {
        a == b
    }
    fn is_finite(a: f32) -> bool {
        a.is_finite()
    }
    fn to_i64(a: f32) -> i64 {
        a as i64
    }
    fn to_u64(a: f32) -> u64 {
        a as u64
    }
    fn to_text(a: f32) -> String {
        a.to_string()
    }
}

/// Arithmetic on `f64`.
struct F64;

impl Arithmetic for F64 {
    type R = f64;

    fn integer(n: i64) -> f64 {
        n as f64
    }
    fn count(n: usize) -> f64 {
        n as f64
    }
    fn fraction(n: i64, d: i64) -> f64 {
        n as f64 / d as f64
    }
    fn plus(a: f64, b: f64) -> f64 {
        a + b
    }
    fn minus(a: f64, b: f64) -> f64 {
        a - b
    }
    fn times(a: f64, b: f64) -> f64 {
        a * b
    }
    fn over(a: f64, b: f64) -> f64 {
        a / b
    }
    fn mul_add(a: f64, b: f64, c: f64) -> f64 {
        a.mul_add(b, c)
    }
    fn midpoint(a: f64, b: f64) -> f64 {
        f64::midpoint(a, b)
    }
    fn neg(a: f64) -> f64 {
        -a
    }
    fn abs(a: f64) -> f64 {
        a.abs()
    }
    fn signum(a: f64) -> f64 {
        a.signum()
    }
    fn min(a: f64, b: f64) -> f64 {
        a.min(b)
    }
    fn max(a: f64, b: f64) -> f64 {
        a.max(b)
    }
    fn floor(a: f64) -> f64 {
        a.floor()
    }
    fn round(a: f64) -> f64 {
        a.round()
    }
    fn rem_euclid(a: f64, b: f64) -> f64 {
        a.rem_euclid(b)
    }
    fn sqrt(a: f64) -> f64 {
        a.sqrt()
    }
    fn sin(a: f64) -> f64 {
        a.sin()
    }
    fn cos(a: f64) -> f64 {
        a.cos()
    }
    fn atan2(y: f64, x: f64) -> f64 {
        y.atan2(x)
    }
    fn exp(a: f64) -> f64 {
        a.exp()
    }
    fn exp10(a: f64) -> f64 {
        (10.0 as f64).powf(a)
    }
    fn log10(a: f64) -> f64 {
        a.log10()
    }
    fn log2(a: f64) -> f64 {
        a.log2()
    }
    fn tanh(a: f64) -> f64 {
        a.tanh()
    }
    fn pi() -> f64 {
        std::f64::consts::PI
    }
    fn frac_1_sqrt_2() -> f64 {
        std::f64::consts::FRAC_1_SQRT_2
    }
    fn min_positive() -> f64 {
        f64::MIN_POSITIVE
    }
    fn neg_infinity() -> f64 {
        f64::NEG_INFINITY
    }
    fn nan() -> f64 {
        f64::NAN
    }
    fn lt(a: f64, b: f64) -> bool {
        a < b
    }
    fn le(a: f64, b: f64) -> bool {
        a <= b
    }
    fn same(a: f64, b: f64) -> bool {
        a == b
    }
    fn is_finite(a: f64) -> bool {
        a.is_finite()
    }
    fn to_i64(a: f64) -> i64 {
        a as i64
    }
    fn to_u64(a: f64) -> u64 {
        a as u64
    }
    fn to_text(a: f64) -> String {
        a.to_string()
    }
}

impl Widening<F32> for F64 {
    fn narrow(a: f64) -> f32 {
        a as f32
    }
    fn widen(a: f32) -> f64 {
        f64::from(a)
    }
}

/// Low-pass filters with room below the Nyquist rate of their first stage.
fn tables() -> DecimTables<F32> {
    let mut all = Vec::new();
    for i in 0..PLAN_COUNT {
        let d = plan_stages(i)[0].decimation as f64;
        all.push(low_pass::<F32, F64>(0.4 / d, 0.2 / d, 1.0, true).unwrap());
    }
    DecimTables::new(all).unwrap()
}

const TEST_INPUT_RATE_HZ: u32 = 48_000;
const TEST_REALISTIC_CHUNK: usize = 1_024;
const TEST_ODD_PRIME_CHUNK: usize = 513;
const TEST_OUTPUT_CAPACITY: usize = 16;
const TEST_GREY_LEVEL: f32 = 0.7;
const TEST_GRADIENT_START: f32 = 0.2;
const TEST_GRADIENT_END: f32 = 0.9;
const TEST_SYNC_QUALITY_THRESHOLD: f32 = 0.5;
const TEST_SYNC_QUALITY_THRESHOLD_TIGHT: f32 = 0.6;
const TEST_SYNC_NOISE_CEILING: f32 = 0.5;
const TEST_SYNC_GOOD_LOCK: f32 = 0.95;
const TEST_NOISE_DURATION_SEC: usize = 5;

fn lcg_step(state: &mut u32) -> f32 {
    *state = state.wrapping_mul(1_103_515_245).wrapping_add(12_345);
    ((*state >> 16) & 0x7fff) as f32 / 32_767.0 - 0.5
}

fn synth_am_wave(
    sample_rate: f64,
    carrier_hz: f64,
    msg_hz: f64,
    depth: f32,
    n_samples: usize,
) -> Vec<f32> {
    let dt = 1.0 / sample_rate;
    let omega_c = 2.0 * core::f64::consts::PI * carrier_hz;
    let omega_m = 2.0 * core::f64::consts::PI * msg_hz;
    (0..n_samples)
        .map(|i| {
            let t = i as f64 * dt;
            let envelope = 1.0 + f64::from(depth) * (omega_m * t).cos();
            let carrier = (omega_c * t).cos();
            (envelope * carrier) as f32
        })
        .collect()
}

#[test]
fn apt137_demod_recovers_constant_envelope() {
    let fs = 12_480.0_f64;
    let fc = 2_400.0_f64;
    let n = 256_usize;
    let amplitude = 0.7_f32;
    let signal: Vec<f32> = synth_am_wave(fs, fc, 0.0, 0.0, n)
        .iter()
        .map(|s| s * amplitude)
        .collect();
    let mut demod = Apt137Demodulator::new::<F64>(fs, fc).unwrap();
    let mut out = vec![0.0_f32; n];
    let written = demod.process(&signal, &mut out).unwrap();
    assert_eq!(written, n);
    for &v in &out[5..] {
        assert!(
            (v - amplitude).abs() < 0.01,
            "expected ~{amplitude}, got {v}"
        );
    }
}

#[test]
fn apt137_demod_recovers_modulated_envelope() {
    let fs = 12_480.0_f64;
    let fc = 2_400.0_f64;
    let msg = 100.0_f64;
    let depth = 0.5_f32;
    let n = 4_096_usize;
    let signal = synth_am_wave(fs, fc, msg, depth, n);
    let mut demod = Apt137Demodulator::new::<F64>(fs, fc).unwrap();
    let mut out = vec![0.0_f32; n];
    demod.process(&signal, &mut out).unwrap();

    let peak_i = 250;
    let trough_i = 250 + 62;
    let peak = out[peak_i];
    let trough = out[trough_i];
    assert!((peak - 1.5).abs() < 0.05, "peak = {peak}, expected ~1.5");
    assert!(
        (trough - 0.5).abs() < 0.05,
        "trough = {trough}, expected ~0.5"
    );
}

#[test]
fn apt137_demod_streaming_matches_batch() {
    let fs = 12_480.0_f64;
    let fc = 2_400.0_f64;
    let n = 1_024_usize;
    let signal = synth_am_wave(fs, fc, 50.0, 0.3, n);

    let mut demod_batch = Apt137Demodulator::new::<F64>(fs, fc).unwrap();
    let mut batch = vec![0.0_f32; n];
    demod_batch.process(&signal, &mut batch).unwrap();

    let mut demod_streamed = Apt137Demodulator::new::<F64>(fs, fc).unwrap();
    let mut streamed = vec![0.0_f32; n];
    let split_a = 137_usize;
    let split_b = split_a + 511_usize;
    demod_streamed
        .process(&signal[..split_a], &mut streamed[..split_a])
        .unwrap();
    demod_streamed
        .process(&signal[split_a..split_b], &mut streamed[split_a..split_b])
        .unwrap();
    demod_streamed
        .process(&signal[split_b..], &mut streamed[split_b..])
        .unwrap();

    for i in 1..n {
        assert!(
            (batch[i] - streamed[i]).abs() < 1e-4,
            "batch vs streamed at i={i}: {} vs {}",
            batch[i],
            streamed[i]
        );
    }
}

#[test]
fn apt137_demod_rejects_invalid_frequencies() {
    assert!(Apt137Demodulator::new::<F64>(0.0, 2_400.0).is_err());
    assert!(Apt137Demodulator::new::<F64>(-1.0, 2_400.0).is_err());
    assert!(Apt137Demodulator::new::<F64>(12_480.0, 0.0).is_err());
    assert!(Apt137Demodulator::new::<F64>(12_480.0, -100.0).is_err());
    assert!(Apt137Demodulator::new::<F64>(12_480.0, 6_240.0).is_err());
    assert!(Apt137Demodulator::new::<F64>(12_480.0, 7_000.0).is_err());
    assert!(Apt137Demodulator::new::<F64>(f64::NAN, 2_400.0).is_err());
    assert!(Apt137Demodulator::new::<F64>(12_480.0, f64::INFINITY).is_err());
}

#[test]
fn apt137_demod_dc_robust() {
    let fs = 12_480.0_f64;
    let fc = 2_400.0_f64;
    let n = 1_024_usize;
    let amplitude = 0.5_f32;
    let signal: Vec<f32> = synth_am_wave(fs, fc, 0.0, 0.0, n)
        .iter()
        .map(|s| s * amplitude)
        .collect();
    let signal_with_dc: Vec<f32> = signal.iter().map(|s| s + 0.1).collect();

    let mut demod = Apt137Demodulator::new::<F64>(fs, fc).unwrap();
    let mut clean = vec![0.0_f32; n];
    demod.process(&signal, &mut clean).unwrap();
    let mut demod = Apt137Demodulator::new::<F64>(fs, fc).unwrap();
    let mut biased = vec![0.0_f32; n];
    demod.process(&signal_with_dc, &mut biased).unwrap();

    for i in 50..n {
        let diff = (clean[i] - biased[i]).abs();
        assert!(
            diff < 0.3,
            "DC-biased envelope diverged too far at i={i}: |{} - {}| = {diff}",
            clean[i],
            biased[i]
        );
    }
}

#[test]
fn apt137_demod_reset_clears_state() {
    let fs = 12_480.0_f64;
    let fc = 2_400.0_f64;
    let n = 64_usize;
    let signal = synth_am_wave(fs, fc, 0.0, 0.0, n);
    let mut demod = Apt137Demodulator::new::<F64>(fs, fc).unwrap();
    let mut out = vec![0.0_f32; n];
    demod.process(&signal, &mut out).unwrap();
    assert_eq!(out[0], 0.0);
    out.fill(99.0);
    demod.reset();
    demod.process(&signal, &mut out).unwrap();
    assert_eq!(out[0], 0.0, "reset() failed to clear `prev` state");
}

#[test]
fn pixel_and_line_invariants_hold() {
    assert_eq!(PIXELS_PER_SECOND as usize, 4160);
    assert_eq!(SAMPLES_PER_LINE, 6_240);
    assert_eq!(SAMPLES_PER_PIXEL, 3);
    assert_eq!(
        INTERMEDIATE_RATE_HZ as usize,
        SAMPLES_PER_LINE * LINES_PER_SECOND as usize
    );
    assert_eq!(INTERMEDIATE_RATE_HZ, 12_480);
    assert_eq!(SYNC_A_TOTAL_PX, 38);
    assert_eq!(SYNC_A_TEMPLATE_LEN, SYNC_A_TOTAL_PX * SAMPLES_PER_PIXEL);
    assert_eq!(SYNC_A_TEMPLATE_LEN, 114);
    assert_eq!(
        SYNC_A_LEADING_PAD_SAMPLES,
        SYNC_A_LEADING_PAD_PX * SAMPLES_PER_PIXEL
    );
    assert_eq!(SYNC_A_LEADING_PAD_SAMPLES, 6);
    assert_eq!(
        SYNC_B_TEMPLATE_LEN,
        SYNC_BURST_CYCLES * SAMPLES_PER_SYNC_B_CYCLE
    );
    assert_eq!(SAMPLES_PER_SYNC_A_CYCLE, 12);
    assert_eq!(SAMPLES_PER_SYNC_B_CYCLE, 15);
}

#[test]
fn apt_decoder_rejects_rates_the_dc_bandpass_cannot_support() {
    for rate in [8_000, 9_600, 10_600] {
        let err = AptDecoder::new::<F64>(rate, &tables()).err().map(|e| e.message().to_string());
        assert!(err.is_some(), "rate {rate} must be rejected");
        let msg = err.unwrap_or_default();
        assert!(
            msg.contains("input_rate_hz") && msg.contains(&MIN_INPUT_RATE_HZ.to_string()),
            "rate {rate}: error must name the input-rate floor, got: {msg}"
        );
    }
    assert!(
        AptDecoder::new::<F64>(MIN_INPUT_RATE_HZ + 1, &tables()).is_ok(),
        "the floor is exclusive: {} Hz is accepted",
        MIN_INPUT_RATE_HZ + 1
    );
    assert!(
        AptDecoder::new::<F64>(11_025, &tables()).is_ok(),
        "11 025 Hz clears the floor"
    );
}

#[test]
fn envelope_detector_rejects_too_low_sample_rate() {
    assert!(EnvelopeDetector::new::<F64>(4_000).is_err());
}

#[test]
fn envelope_detector_accepts_intermediate_rate() {
    let det = EnvelopeDetector::new::<F64>(INTERMEDIATE_RATE_HZ).unwrap();
    assert!(det.lpf_tap_count() >= 10, "got {}", det.lpf_tap_count());
}

#[test]
fn envelope_recovers_constant_amplitude() {
    let rate = INTERMEDIATE_RATE_HZ;
    let n = 20_800;
    let input: Vec<f32> = (0..n)
        .map(|i| (TAU * SUBCARRIER_HZ as f32 * (i as f32) / rate as f32).cos())
        .collect();

    let mut detector = EnvelopeDetector::new::<F64>(rate).unwrap();
    let mut output = vec![0.0_f32; n];
    detector.process(&input, &mut output).unwrap();

    let steady = &output[n / 2..];
    let mean: f32 = steady.iter().sum::<f32>() / steady.len() as f32;
    let two_over_pi = 2.0 / core::f32::consts::PI;
    assert!(
        (mean - two_over_pi).abs() < 0.02,
        "expected DC ≈ 2/π ({two_over_pi:.4}), got {mean:.4}",
    );

    let (min, max) = steady
        .iter()
        .fold((f32::INFINITY, f32::NEG_INFINITY), |(lo, hi), &v| {
            (lo.min(v), hi.max(v))
        });
    assert!(
        (max - min) < 0.10,
        "LPF residual ripple too large: [{min:.4}, {max:.4}]"
    );
}

#[test]
fn envelope_follows_slow_ramp_modulation() {
    let rate = INTERMEDIATE_RATE_HZ;
    let n = SAMPLES_PER_LINE;
    let input: Vec<f32> = (0..n)
        .map(|i| {
            let env = (i as f32) / (n as f32);
            let carrier = (TAU * SUBCARRIER_HZ as f32 * (i as f32) / rate as f32).cos();
            env * carrier
        })
        .collect();

    let mut detector = EnvelopeDetector::new::<F64>(rate).unwrap();
    let mut output = vec![0.0_f32; n];
    detector.process(&input, &mut output).unwrap();

    let two_over_pi = 2.0 / core::f32::consts::PI;
    let delay = detector.lpf_tap_count() / 2;
    for &check in &[n / 4, n / 2, (3 * n) / 4] {
        let expected = (check as f32) / (n as f32) * two_over_pi;
        let measured = output[check + delay.min(n - check - 1)];
        assert!(
            (measured - expected).abs() < 0.05,
            "ramp point {check}: expected ~{expected:.3}, got {measured:.3}",
        );
    }

    assert!(
        output[n - 1] > 0.6 * two_over_pi,
        "end of ramp should be near full envelope, got {}",
        output[n - 1]
    );
}

#[test]
fn envelope_process_buffer_too_small_errors() {
    let mut detector = EnvelopeDetector::new::<F64>(INTERMEDIATE_RATE_HZ).unwrap();
    let input = vec![0.0_f32; 32];
    let mut output = vec![0.0_f32; 16];
    assert!(detector.process(&input, &mut output).is_err());
}

#[test]
fn envelope_process_handles_empty_input() {
    let mut detector = EnvelopeDetector::new::<F64>(INTERMEDIATE_RATE_HZ).unwrap();
    let mut output: [f32; 0] = [];
    let n = detector.process(&[], &mut output).unwrap();
    assert_eq!(n, 0);
}

#[test]
fn real_resampler_downsamples_tone() {
    let in_rate = 48_000.0_f64;
    let out_rate = f64::from(INTERMEDIATE_RATE_HZ);
    let n_in = 4800_usize;
    let tone_hz = 1_000.0_f32;

    let input: Vec<f32> = (0..n_in)
        .map(|i| (TAU * tone_hz * (i as f32) / (in_rate as f32)).cos())
        .collect();

    let mut r = RealResampler::new::<F64>(in_rate, out_rate, &tables()).unwrap();
    let mut output = vec![0.0_f32; 2100];
    let produced = r.process(&input, &mut output).unwrap();

    let expected = (n_in as f64 * out_rate / in_rate) as usize;
    assert!(
        produced.abs_diff(expected) <= 2,
        "expected ~{expected} out samples, got {produced}",
    );

    let skip = produced / 5;
    let steady = &output[skip..produced];
    let peak = steady.iter().map(|x| x.abs()).fold(0.0_f32, f32::max);
    assert!(peak > 0.3, "resampled tone peak too low: {peak}");

    let crossings = steady
        .windows(2)
        .filter(|w| (w[0] >= 0.0) != (w[1] >= 0.0))
        .count();
    assert!(crossings > 20, "expected oscillation, got {crossings}");
}

#[test]
fn real_resampler_passthrough_on_equal_rates() {
    let mut r = RealResampler::new::<F64>(48_000.0, 48_000.0, &tables()).unwrap();
    let input: Vec<f32> = (0..64).map(|i| i as f32).collect();
    let mut output = vec![0.0_f32; 64];
    let n = r.process(&input, &mut output).unwrap();
    assert_eq!(n, 64);
    for (i, &v) in output.iter().enumerate().take(64) {
        assert!((v - i as f32).abs() < 1e-5, "mismatch at {i}: {v}");
    }
}

#[test]
fn real_resampler_continuity_across_chunks() {
    let in_rate = 48_000.0_f64;
    let out_rate = f64::from(INTERMEDIATE_RATE_HZ);
    let n_in = 3_072_usize;
    let tone_hz = 500.0_f32;
    let input: Vec<f32> = (0..n_in)
        .map(|i| (TAU * tone_hz * (i as f32) / (in_rate as f32)).sin())
        .collect();

    let mut r_whole = RealResampler::new::<F64>(in_rate, out_rate, &tables()).unwrap();
    let mut one_shot = vec![0.0_f32; n_in];
    let n_whole = r_whole.process(&input, &mut one_shot).unwrap();

    let mut r_chunked = RealResampler::new::<F64>(in_rate, out_rate, &tables()).unwrap();
    let mut chunked: Vec<f32> = Vec::new();
    let mut tmp = vec![0.0_f32; n_in];
    for chunk in input.chunks(1024) {
        let c = r_chunked.process(chunk, &mut tmp).unwrap();
        chunked.extend_from_slice(&tmp[..c]);
    }

    assert!(
        n_whole.abs_diff(chunked.len()) <= 1,
        "one-shot produced {n_whole}, chunked produced {}",
        chunked.len(),
    );

    let steady_start = n_whole / 4;
    let common = n_whole.min(chunked.len());
    for i in steady_start..common {
        assert!(
            (one_shot[i] - chunked[i]).abs() < 1e-4,
            "chunk drift at {i}: one-shot {} vs chunked {}",
            one_shot[i],
            chunked[i],
        );
    }
}

#[test]
fn real_resampler_empty_input_is_zero() {
    let mut r = RealResampler::new::<F64>(48_000.0, f64::from(INTERMEDIATE_RATE_HZ), &tables()).unwrap();
    let mut output = vec![0.0_f32; 8];
    assert_eq!(r.process(&[], &mut output).unwrap(), 0);
}

#[test]
fn real_resampler_reset_clears_state() {
    let mut r = RealResampler::new::<F64>(48_000.0, f64::from(INTERMEDIATE_RATE_HZ), &tables()).unwrap();
    let hot = vec![1.0_f32; 256];
    let mut out = vec![0.0_f32; 256];
    r.process(&hot, &mut out).unwrap();
    r.reset();
    let zeros = vec![0.0_f32; 256];
    let mut out2 = vec![0.0_f32; 256];
    let n = r.process(&zeros, &mut out2).unwrap();
    for &v in &out2[..n] {
        assert!(v.abs() < 1e-4, "reset residual too large: {v}");
    }
}

fn synth_envelope_with_sync(
    total_len: usize,
    sync_offset: usize,
    samples_per_cycle: usize,
    cycles: usize,
    floor: f32,
    peak: f32,
) -> Vec<f32> {
    let mut buf = vec![floor; total_len];
    let sync_len = samples_per_cycle * cycles;
    assert!(sync_offset + sync_len <= total_len);
    for i in 0..sync_len {
        let phase = i % samples_per_cycle;
        let high = phase < samples_per_cycle / 2;
        buf[sync_offset + i] = if high { peak } else { floor };
    }
    buf
}

#[test]
fn sync_detector_template_lengths_match_constants() {
    let d = SyncDetector::new();
    assert_eq!(d.template_a_len(), SYNC_A_TEMPLATE_LEN);
    assert_eq!(d.template_b_len(), SYNC_B_TEMPLATE_LEN);
}

#[test]
fn sync_detector_returns_none_on_short_input() {
    let d = SyncDetector::new();
    let short = vec![0.0_f32; 10];
    assert!(d.find_best(&short, SyncChannel::A).is_none());
    assert!(d.find_best(&short, SyncChannel::B).is_none());
}

#[test]
fn sync_detector_locates_sync_a_exactly() {
    let burst_offset = 317;
    let buf = synth_envelope_with_sync(
        2_000,
        burst_offset,
        SAMPLES_PER_SYNC_A_CYCLE,
        SYNC_BURST_CYCLES,
        0.1,
        0.9,
    );
    let m = SyncDetector::new()
        .find_best(&buf, SyncChannel::A)
        .expect("should match");
    assert_eq!(m.channel, SyncChannel::A);
    let expected_template_start = burst_offset - SYNC_A_FIRST_HIGH_OFFSET_SAMPLES;
    assert_eq!(
        m.offset, expected_template_start,
        "expected template-start offset {expected_template_start} \
         (= burst_offset {burst_offset} − SYNC_A_FIRST_HIGH_OFFSET_SAMPLES \
         {SYNC_A_FIRST_HIGH_OFFSET_SAMPLES}), got {}",
        m.offset,
    );
    assert!(
        m.quality > TEST_SYNC_GOOD_LOCK,
        "quality too low: {:.3}",
        m.quality,
    );
}

#[test]
fn sync_detector_locates_sync_b_exactly() {
    let offset = 742;
    let buf = synth_envelope_with_sync(
        2_000,
        offset,
        SAMPLES_PER_SYNC_B_CYCLE,
        SYNC_BURST_CYCLES,
        0.1,
        0.9,
    );
    let m = SyncDetector::new()
        .find_best(&buf, SyncChannel::B)
        .expect("should match");
    assert_eq!(m.channel, SyncChannel::B);
    assert_eq!(m.offset, offset);
    assert!(
        m.quality > TEST_SYNC_GOOD_LOCK,
        "quality too low: {:.3}",
        m.quality,
    );
}

#[test]
fn sync_detector_is_dc_offset_invariant() {
    let offset = 200;
    let low = synth_envelope_with_sync(
        1_500,
        offset,
        SAMPLES_PER_SYNC_A_CYCLE,
        SYNC_BURST_CYCLES,
        0.0,
        1.0,
    );
    let high: Vec<f32> = low.iter().map(|v| v + 5.0).collect();
    let d = SyncDetector::new();
    let m_lo = d.find_best(&low, SyncChannel::A).unwrap();
    let m_hi = d.find_best(&high, SyncChannel::A).unwrap();
    assert_eq!(m_lo.offset, m_hi.offset);
    assert!((m_lo.quality - m_hi.quality).abs() < 0.01);
}

#[test]
fn sync_detector_noise_has_low_quality() {
    let mut state: u32 = 1;
    let buf: Vec<f32> = (0..2_000).map(|_| lcg_step(&mut state)).collect();
    let m = SyncDetector::new().find_best(&buf, SyncChannel::A).unwrap();
    assert!(
        m.quality < TEST_SYNC_NOISE_CEILING,
        "noise quality too high: {:.3} at offset {}",
        m.quality,
        m.offset,
    );
}

#[test]
fn sync_detector_picks_stronger_of_two_bursts() {
    let weak_burst_off = 200;
    let strong_burst_off = 1_000;
    let mut buf = vec![0.1_f32; 2_500];
    for i in 0..(SAMPLES_PER_SYNC_A_CYCLE * SYNC_BURST_CYCLES) {
        let phase = i % SAMPLES_PER_SYNC_A_CYCLE;
        let high = phase < SAMPLES_PER_SYNC_A_CYCLE / 2;
        buf[weak_burst_off + i] = if high { 0.11 } else { 0.10 };
    }
    for i in 0..(SAMPLES_PER_SYNC_A_CYCLE * SYNC_BURST_CYCLES) {
        let phase = i % SAMPLES_PER_SYNC_A_CYCLE;
        let high = phase < SAMPLES_PER_SYNC_A_CYCLE / 2;
        buf[strong_burst_off + i] = if high { 1.0 } else { 0.1 };
    }
    let m = SyncDetector::new().find_best(&buf, SyncChannel::A).unwrap();
    let weak_template_start = weak_burst_off - SYNC_A_FIRST_HIGH_OFFSET_SAMPLES;
    let strong_template_start = strong_burst_off - SYNC_A_FIRST_HIGH_OFFSET_SAMPLES;
    assert!(
        m.offset == weak_template_start || m.offset == strong_template_start,
        "expected one of {{{weak_template_start}, {strong_template_start}}}, \
         got {}",
        m.offset,
    );
    assert!(m.quality > 0.9, "quality too low: {:.3}", m.quality);
}

fn synth_line_audio(rate: u32, grey_level: f32) -> Vec<f32> {
    let rate_f = f64::from(rate);
    let line_dur = 1.0_f64 / f64::from(LINES_PER_SECOND);
    let n = (rate_f * line_dur).round() as usize;
    let mut out = Vec::with_capacity(n);
    let sync_samples = (rate_f * SYNC_BURST_CYCLES as f64 / f64::from(SYNC_A_HZ)).round() as usize;
    for i in 0..n {
        let t = (i as f64) / rate_f;
        let carrier = (core::f64::consts::TAU * f64::from(SUBCARRIER_HZ) * t).sin() as f32;
        let envelope = if i < sync_samples {
            let cyc_samples = rate_f / f64::from(SYNC_A_HZ);
            let phase = (i as f64 % cyc_samples) / cyc_samples;
            if phase < 0.5 { grey_level } else { 0.0 }
        } else {
            grey_level
        };
        out.push(envelope * carrier);
    }
    out
}

#[test]
fn apt_decoder_rejects_sub_nyquist_input_rate() {
    assert!(AptDecoder::new::<F64>(0, &tables()).is_err());
    assert!(AptDecoder::new::<F64>(4_799, &tables()).is_err());
    assert!(AptDecoder::new::<F64>(4_800, &tables()).is_err());
    assert!(AptDecoder::new::<F64>(8_000, &tables()).is_err());
    assert!(AptDecoder::new::<F64>(11_025, &tables()).is_ok());
    assert!(AptDecoder::new::<F64>(48_000, &tables()).is_ok());
}

#[test]
fn apt_decoder_emits_nothing_with_short_input() {
    let mut d = AptDecoder::new::<F64>(TEST_INPUT_RATE_HZ, &tables()).unwrap();
    let input = vec![0.0_f32; 128];
    let mut out = vec![AptLine::default(); TEST_OUTPUT_CAPACITY];
    let n = d.process(&input, &mut out).unwrap();
    assert_eq!(n, 0);
}

#[test]
fn apt_decoder_recovers_line_from_synthetic_audio() {
    let rate = TEST_INPUT_RATE_HZ;
    let mut d = AptDecoder::new::<F64>(rate, &tables()).unwrap();
    let one_line = synth_line_audio(rate, TEST_GREY_LEVEL);
    let mut three_lines = Vec::with_capacity(one_line.len() * 3);
    for _ in 0..3 {
        three_lines.extend_from_slice(&one_line);
    }
    let mut out = vec![AptLine::default(); TEST_OUTPUT_CAPACITY];
    let produced = d.process(&three_lines, &mut out).unwrap();
    assert!(
        produced > 0,
        "expected at least one decoded line from 3-line synthetic input",
    );
    for (i, line) in out[..produced].iter().enumerate() {
        assert_eq!(line.sync_channel, SyncChannel::A);
        assert!(
            line.sync_quality > TEST_SYNC_QUALITY_THRESHOLD_TIGHT,
            "line {i} quality too low: {:.3}",
            line.sync_quality,
        );
    }
}

#[test]
fn apt_decoder_chunked_matches_oneshot() {
    let rate = TEST_INPUT_RATE_HZ;
    let mut audio = Vec::new();
    for _ in 0..4 {
        audio.extend_from_slice(&synth_line_audio(rate, 0.6));
    }

    let mut one_shot_dec = AptDecoder::new::<F64>(rate, &tables()).unwrap();
    let mut lines_whole = vec![AptLine::default(); TEST_OUTPUT_CAPACITY];
    let n_whole = one_shot_dec.process(&audio, &mut lines_whole).unwrap();
    lines_whole.truncate(n_whole);

    let mut chunked_dec = AptDecoder::new::<F64>(rate, &tables()).unwrap();
    let mut lines_chunked: Vec<AptLine> = Vec::new();
    let mut chunk_out = vec![AptLine::default(); TEST_OUTPUT_CAPACITY];
    for chunk in audio.chunks(TEST_ODD_PRIME_CHUNK) {
        let n = chunked_dec.process(chunk, &mut chunk_out).unwrap();
        for line in &chunk_out[..n] {
            lines_chunked.push(line.clone());
        }
    }

    assert_eq!(
        lines_whole.len(),
        lines_chunked.len(),
        "chunked and one-shot produced different line counts",
    );
    for (w, c) in lines_whole.iter().zip(lines_chunked.iter()) {
        assert_eq!(w.pixels, c.pixels, "chunked pixels diverge from one-shot");
    }
}

#[test]
fn apt_decoder_reset_clears_pending_state() {
    let rate = TEST_INPUT_RATE_HZ;
    let mut d = AptDecoder::new::<F64>(rate, &tables()).unwrap();
    let partial = synth_line_audio(rate, TEST_GREY_LEVEL);
    let mut out = vec![AptLine::default(); TEST_OUTPUT_CAPACITY];
    d.process(&partial[..partial.len() / 4], &mut out).unwrap();

    d.reset();

    let silence = vec![0.0_f32; 2_048];
    let n = d.process(&silence, &mut out).unwrap();
    assert_eq!(n, 0);
}

#[test]
fn apt_decoder_bounds_accumulator_on_pure_noise() {
    let rate = TEST_INPUT_RATE_HZ;
    let mut d = AptDecoder::new::<F64>(rate, &tables()).unwrap();
    let mut state: u32 = 7;
    let noise: Vec<f32> = (0..(rate as usize * TEST_NOISE_DURATION_SEC))
        .map(|_| lcg_step(&mut state))
        .collect();
    let mut out = vec![AptLine::default(); TEST_OUTPUT_CAPACITY];
    for chunk in noise.chunks(TEST_REALISTIC_CHUNK) {
        let _ = d.process(chunk, &mut out).unwrap();
        assert!(
            d.accumulator.len() <= DECODER_BUFFER_CAP,
            "accumulator grew past cap: {}",
            d.accumulator.len(),
        );
    }
}

#[test]
fn apt_decoder_undersized_output_preserves_all_decoded_lines() {
    let rate = TEST_INPUT_RATE_HZ;

    let mut audio = Vec::new();
    for _ in 0..6 {
        audio.extend_from_slice(&synth_line_audio(rate, TEST_GREY_LEVEL));
    }
    let mut reference = AptDecoder::new::<F64>(rate, &tables()).unwrap();
    let mut ref_out = vec![AptLine::default(); TEST_OUTPUT_CAPACITY];
    let n_reference = reference.process(&audio, &mut ref_out).unwrap();
    assert!(
        n_reference > 1,
        "test setup needs to emit multiple lines; got {n_reference}",
    );

    let mut tight = AptDecoder::new::<F64>(rate, &tables()).unwrap();
    let mut tight_out = vec![AptLine::default(); 1];
    let n_first = tight.process(&audio, &mut tight_out).unwrap();
    assert_eq!(n_first, 1);
    let mut tight_total = 1_usize;

    loop {
        let n = tight.process(&[], &mut tight_out).unwrap();
        if n == 0 {
            break;
        }
        tight_total += n;
    }

    assert_eq!(
        tight_total, n_reference,
        "tight-output run produced {tight_total} lines, generous run produced \
         {n_reference} — surplus was silently dropped",
    );
}

#[test]
fn apt_decoder_accumulator_capacity_absorbs_intentional_overshoot() {
    let rate = TEST_INPUT_RATE_HZ;
    let mut d = AptDecoder::new::<F64>(rate, &tables()).unwrap();
    let initial_capacity = d.accumulator.capacity();
    assert!(
        initial_capacity >= DECODER_BUFFER_CAP + SAMPLES_PER_LINE,
        "initial accumulator capacity {initial_capacity} too small to \
         absorb the chunked-ingestion overshoot",
    );

    let mut audio = Vec::new();
    for _ in 0..8 {
        audio.extend_from_slice(&synth_line_audio(rate, TEST_GREY_LEVEL));
    }
    let mut tight_out = vec![AptLine::default(); 1];
    d.process(&audio, &mut tight_out).unwrap();

    assert_eq!(
        d.accumulator.capacity(),
        initial_capacity,
        "accumulator capacity grew under backpressure — Vec reallocated, \
         defeating bounded-memory intent",
    );
}

#[test]
fn apt_decoder_huge_chunk_keeps_resample_scratch_bounded() {
    let rate = TEST_INPUT_RATE_HZ;
    let mut d = AptDecoder::new::<F64>(rate, &tables()).unwrap();
    let resample_cap_before = d.resample_scratch.capacity();
    let envelope_cap_before = d.demod_scratch.capacity();

    let mut huge = Vec::new();
    for _ in 0..100 {
        huge.extend_from_slice(&synth_line_audio(rate, TEST_GREY_LEVEL));
    }
    let mut roomy_out = vec![AptLine::default(); TEST_OUTPUT_CAPACITY];
    d.process(&huge, &mut roomy_out).unwrap();

    assert_eq!(
        d.resample_scratch.capacity(),
        resample_cap_before,
        "resample_scratch reallocated under huge input — outer subchunk \
         bound is broken (cap was {resample_cap_before}, now {})",
        d.resample_scratch.capacity(),
    );
    assert_eq!(
        d.demod_scratch.capacity(),
        envelope_cap_before,
        "demod_scratch reallocated under huge input — outer subchunk \
         bound is broken (cap was {envelope_cap_before}, now {})",
        d.demod_scratch.capacity(),
    );
}

#[test]
fn apt_decoder_huge_chunk_keeps_accumulator_bounded() {
    let rate = TEST_INPUT_RATE_HZ;
    let mut d = AptDecoder::new::<F64>(rate, &tables()).unwrap();
    let mut huge = Vec::new();
    for _ in 0..100 {
        huge.extend_from_slice(&synth_line_audio(rate, TEST_GREY_LEVEL));
    }
    let mut tight_out = vec![AptLine::default(); 1];
    d.process(&huge, &mut tight_out).unwrap();
    assert!(
        d.accumulator.len() <= DECODER_BUFFER_CAP,
        "accumulator past cap after huge input: {}",
        d.accumulator.len(),
    );
    assert!(
        d.ready_lines.len() <= READY_QUEUE_CAP,
        "ready queue past cap: {}",
        d.ready_lines.len(),
    );
}

#[test]
fn envelope_detector_rejects_below_rectified_nyquist() {
    assert!(EnvelopeDetector::new::<F64>(8_000).is_err());
    assert!(EnvelopeDetector::new::<F64>(9_600).is_err());
    assert!(EnvelopeDetector::new::<F64>(16_000).is_ok());
}

fn synth_line_with_gradient(rate: u32, start_grey: f32, end_grey: f32) -> Vec<f32> {
    let rate_f = f64::from(rate);
    let line_dur = 1.0_f64 / f64::from(LINES_PER_SECOND);
    let n = (rate_f * line_dur).round() as usize;
    let sync_samples = (rate_f * SYNC_BURST_CYCLES as f64 / f64::from(SYNC_A_HZ)).round() as usize;
    let mut out = Vec::with_capacity(n);
    for i in 0..n {
        let t = (i as f64) / rate_f;
        let carrier = (core::f64::consts::TAU * f64::from(SUBCARRIER_HZ) * t).sin() as f32;
        let envelope = if i < sync_samples {
            let cyc_samples = rate_f / f64::from(SYNC_A_HZ);
            let phase = (i as f64 % cyc_samples) / cyc_samples;
            if phase < 0.5 { 1.0 } else { 0.0 }
        } else {
            let frac = (i - sync_samples) as f32 / (n - sync_samples) as f32;
            start_grey + frac * (end_grey - start_grey)
        };
        out.push(envelope * carrier);
    }
    out
}

#[test]
fn apt_decoder_end_to_end_gradient_is_monotonic() {
    let rate = TEST_INPUT_RATE_HZ;

    let mut audio = Vec::new();
    for _ in 0..6 {
        audio.extend_from_slice(&synth_line_with_gradient(
            rate,
            TEST_GRADIENT_START,
            TEST_GRADIENT_END,
        ));
    }

    let mut decoder = AptDecoder::new::<F64>(rate, &tables()).unwrap();
    let mut lines: Vec<AptLine> = Vec::new();
    let mut chunk_out = vec![AptLine::default(); TEST_OUTPUT_CAPACITY];
    for chunk in audio.chunks(TEST_REALISTIC_CHUNK) {
        let n = decoder.process(chunk, &mut chunk_out).unwrap();
        for line in &chunk_out[..n] {
            lines.push(line.clone());
        }
    }
    assert!(
        lines.len() >= 3,
        "expected >= 3 lines from 6-line input, got {}",
        lines.len(),
    );

    for (i, line) in lines.iter().enumerate() {
        assert!(
            line.sync_quality > TEST_SYNC_QUALITY_THRESHOLD,
            "line {i}: quality {:.3} below lock threshold",
            line.sync_quality,
        );
        assert_eq!(line.sync_channel, SyncChannel::A);
    }

    for pair in lines.windows(2) {
        assert!(
            pair[1].input_sample_index > pair[0].input_sample_index,
            "non-monotonic indices: {} → {}",
            pair[0].input_sample_index,
            pair[1].input_sample_index,
        );
    }

    let probe_early = LINE_PIXELS / 4;
    let probe_late = (LINE_PIXELS * 3) / 4;
    for (i, line) in lines.iter().enumerate() {
        let early = line.pixels[probe_early];
        let late = line.pixels[probe_late];
        assert!(
            late > early,
            "line {i}: gradient not increasing — pixels[{probe_early}]={early}, pixels[{probe_late}]={late}",
        );
    }
}

#[test]
fn envelope_detector_reset_clears_filter_state() {
    let mut detector = EnvelopeDetector::new::<F64>(INTERMEDIATE_RATE_HZ).unwrap();
    let input = vec![1.0_f32; 512];
    let mut output = vec![0.0_f32; 512];
    detector.process(&input, &mut output).unwrap();
    assert!(output.iter().any(|&v| v.abs() > 0.1));

    detector.reset();
    let zeros = vec![0.0_f32; 64];
    let mut out2 = vec![0.0_f32; 64];
    detector.process(&zeros, &mut out2).unwrap();
    for &v in &out2 {
        assert!(v.abs() < 1e-6, "reset should zero output, got {v}");
    }
}

#[test]
fn decoded_line_keeps_sync_a_in_the_first_columns() -> Result<(), DspError> {
    const SYNC_PROBE: std::ops::Range<usize> = 4..28;
    const SHIFTED_PROBE: std::ops::Range<usize> = 50..80;
    const VIDEO_PROBE: std::ops::Range<usize> = 60..90;
    const SYNC_SPREAD_RATIO: f32 = 4.0;
    const VIDEO_SPREAD_MAX: f32 = 16.0;
    let rate = TEST_INPUT_RATE_HZ;
    let mut d = AptDecoder::new::<F64>(rate, &tables())?;
    let one_line = synth_line_audio(rate, TEST_GREY_LEVEL);
    let mut audio = Vec::with_capacity(one_line.len() * 4);
    for _ in 0..4 {
        audio.extend_from_slice(&one_line);
    }
    let mut out = vec![AptLine::default(); TEST_OUTPUT_CAPACITY];
    let produced = d.process(&audio, &mut out)?;
    assert!(produced >= 2, "need a settled line, got {produced}");
    let line = &out[produced - 1];
    let spread = |r: std::ops::Range<usize>| -> f32 {
        let px = &line.pixels[r];
        let max = px.iter().copied().max().unwrap_or(0);
        let min = px.iter().copied().min().unwrap_or(0);
        f32::from(max - min)
    };
    assert!(
        spread(SYNC_PROBE) > SYNC_SPREAD_RATIO * spread(SHIFTED_PROBE).max(1.0),
        "Sync A burst must sit in the first columns: sync spread {}, shifted spread {}, pixels[..90] = {:?}",
        spread(SYNC_PROBE),
        spread(SHIFTED_PROBE),
        &line.pixels[..90]
    );
    assert!(
        spread(VIDEO_PROBE) < VIDEO_SPREAD_MAX,
        "video body flat by column 60: {:?}",
        &line.pixels[VIDEO_PROBE]
    );
    assert!(
        line.pixels[..8].iter().any(|&p| p > 0),
        "no zero ramp at the line start"
    );
    Ok(())
}

#[test]
fn sync_a_field_is_39_px_and_the_template_is_38() {
    assert_eq!(SYNC_A_FIELD_PX, 39);
    assert_eq!(SYNC_A_TOTAL_PX, 38);
}

#[test]
fn weak_sync_after_lock_keeps_nominal_line_spacing() -> Result<(), DspError> {
    const LINE_SPACING_TOLERANCE: f64 = 0.05;
    let rate = TEST_INPUT_RATE_HZ;
    let mut d = AptDecoder::new::<F64>(rate, &tables())?;
    let one_line = synth_line_audio(rate, TEST_GREY_LEVEL);
    let line_len = one_line.len();
    let mut audio = Vec::with_capacity(line_len * 9);
    for _ in 0..4 {
        audio.extend_from_slice(&one_line);
    }
    let mut state: u64 = 0x9E37_79B9_7F4A_7C15;
    for _ in 0..line_len {
        state = state
            .wrapping_mul(6_364_136_223_846_793_005)
            .wrapping_add(1);
        let u = ((state >> 40) as f32) / ((1u64 << 24) as f32);
        audio.push((u * 2.0 - 1.0) * TEST_GREY_LEVEL);
    }
    for _ in 0..4 {
        audio.extend_from_slice(&one_line);
    }
    let mut out = vec![AptLine::default(); 16];
    let produced = d.process(&audio, &mut out)?;
    assert!(produced >= 6, "got {produced} lines");
    let nominal = line_len as f64;
    for pair in out[..produced].windows(2) {
        let delta = pair[1]
            .input_sample_index
            .abs_diff(pair[0].input_sample_index) as f64;
        assert!(
            (delta - nominal).abs() <= nominal * LINE_SPACING_TOLERANCE,
            "line spacing {delta} strays from nominal {nominal}: {:?}",
            out[..produced]
                .iter()
                .map(|l| (l.input_sample_index, l.sync_quality))
                .collect::<Vec<_>>()
        );
    }
    Ok(())
}

#[test]
fn priming_context_is_shorter_than_a_line_and_tracks_the_drained_tail() -> Result<(), DspError> {
    let rate = TEST_INPUT_RATE_HZ;
    let mut d = AptDecoder::new::<F64>(rate, &tables())?;
    assert!(
        d.prime > 0 && d.prime <= SAMPLES_PER_LINE,
        "prime = {}",
        d.prime
    );
    assert_eq!(
        d.prime % SAMPLES_PER_PIXEL,
        0,
        "prime is a whole number of pixels"
    );
    assert!(
        d.history.iter().all(|&v| v == 0.0),
        "fresh decoder has a zero context"
    );

    let one_line = synth_line_audio(rate, TEST_GREY_LEVEL);
    let mut audio = Vec::with_capacity(one_line.len() * 3);
    for _ in 0..3 {
        audio.extend_from_slice(&one_line);
    }
    let mut out = vec![AptLine::default(); TEST_OUTPUT_CAPACITY];
    assert!(d.process(&audio, &mut out)? > 0);
    assert!(
        d.history.iter().any(|&v| v != 0.0),
        "history holds the drained tail"
    );
    Ok(())
}

#[test]
fn lock_is_dropped_after_exactly_max_nominal_fallbacks() -> Result<(), DspError> {
    let mut d = AptDecoder::new::<F64>(TEST_INPUT_RATE_HZ, &tables())?;
    d.accumulator = vec![0.0; MIN_ACCUMULATOR_FOR_DECODE + d.prime];
    d.locked = true;
    let drifted = SyncMatch {
        offset: MAX_SYNC_DRIFT_SAMPLES + 1,
        channel: SyncChannel::A,
        quality: 0.9,
    };
    for n in 1..MAX_NOMINAL_FALLBACKS {
        let m = d.gate_sync_match(drifted);
        assert_eq!(m.offset, 0, "fallback {n} slices at the nominal start");
        assert!(d.locked, "still locked after {n} fallbacks");
        assert_eq!(d.nominal_fallbacks, n);
    }
    let m = d.gate_sync_match(drifted);
    assert_eq!(
        m.offset, 0,
        "the eighth fallback still slices at the nominal start"
    );
    assert!(
        !d.locked,
        "lock dropped after exactly {MAX_NOMINAL_FALLBACKS}"
    );
    assert_eq!(d.nominal_fallbacks, 0);
    assert_eq!(d.gate_sync_match(drifted).offset, drifted.offset);
    assert!(d.locked, "a confident match re-locks");
    Ok(())
}

#[test]
fn quality_at_scores_sync_b_against_its_own_template() {
    const SELF_MATCH_MIN: f32 = 0.99;
    const CROSS_TEMPLATE_MARGIN: f32 = 0.1;
    let det = SyncDetector::new();
    let (tpl_b, _) = build_square_template::<F32>(SAMPLES_PER_SYNC_B_CYCLE, SYNC_BURST_CYCLES);
    let own = det.quality_at(&tpl_b, 0, SyncChannel::B).unwrap();
    assert!(
        own > SELF_MATCH_MIN,
        "Sync B template against itself: {own}"
    );
    let (tpl_a, _) = build_padded_sync_a_template::<F32>(SAMPLES_PER_PIXEL);
    let cross = det.quality_at(&tpl_a, 0, SyncChannel::B);
    assert!(
        cross.is_none_or(|q| q < own - CROSS_TEMPLATE_MARGIN),
        "Sync A content must not score as Sync B: {cross:?} vs {own}"
    );
    assert!(
        det.quality_at(&tpl_b, 1, SyncChannel::B).is_none(),
        "window past the end"
    );
}

#[test]
fn greys_span_the_full_range() {
    let mut pixels = [7_u8; LINE_PIXELS];
    decimate_into_pixels::<F32>(&[0.25, 0.5, 0.75], &mut pixels);
    assert_eq!(&pixels[..4], &[0, 128, 255, 0]);
    assert!(pixels[3..].iter().all(|&p| p == 0));
    decimate_into_pixels::<F32>(&[0.5; LINE_PIXELS], &mut pixels);
    assert!(pixels.iter().all(|&p| p == 0));
}

#[test]
fn square_template_has_no_mean() {
    let (template, norm) = build_square_template::<F32>(4, 2);
    assert_eq!(template, vec![1.0, 1.0, -1.0, -1.0, 1.0, 1.0, -1.0, -1.0]);
    assert_eq!(norm, 8.0_f32.sqrt());
    let (padded, _) = build_padded_sync_a_template::<F32>(SAMPLES_PER_PIXEL);
    assert_eq!(padded.len(), SYNC_A_TEMPLATE_LEN);
    assert!(padded.iter().sum::<f32>().abs() < 1e-4);
}

#[test]
fn apt_errors_name_the_fault() {
    assert_eq!(
        Apt137Demodulator::new::<F64>(0.0, 2_400.0).err(),
        Some(DspError::InvalidParameter(
            "sample_rate_hz must be positive and finite, got 0".to_string()
        ))
    );
    assert_eq!(
        Apt137Demodulator::new::<F64>(12_480.0, 7_000.0).err(),
        Some(DspError::InvalidParameter(
            "carrier_hz (7000) must be in (0, sample_rate_hz/2=6240) — at the boundaries \
             sin(φ) = 0 and the closed-form demod is undefined"
                .to_string()
        ))
    );
    let mut demod = Apt137Demodulator::new::<F64>(12_480.0, 2_400.0).unwrap();
    let mut short = [0.0; 1];
    assert_eq!(
        demod.process(&[1.0, 2.0], &mut short),
        Err(DspError::BufferTooSmall { need: 2, got: 1 })
    );
    assert!(EnvelopeDetector::new::<F64>(9_600)
        .err()
        .unwrap()
        .message()
        .contains("sample_rate_hz (9600) too low for APT envelope detection"));
}

#[test]
fn a_blank_line_is_black() {
    let line = AptLine::default();
    assert!(line.pixels.iter().all(|&p| p == 0));
    assert!(line.raw_samples.iter().all(|&s| s == 0.0));
    assert_eq!(line.sync_quality, 0.0);
    assert_eq!(line.sync_channel, SyncChannel::A);
    assert_eq!(line.input_sample_index, 0);
}

#[test]
fn apt_decoder_starts_over_after_reset() {
    let mut audio = Vec::new();
    for _ in 0..4 {
        audio.extend_from_slice(&synth_line_audio(TEST_INPUT_RATE_HZ, TEST_GREY_LEVEL));
    }
    let mut decoder = AptDecoder::new::<F64>(TEST_INPUT_RATE_HZ, &tables()).unwrap();
    let mut first = vec![AptLine::default(); TEST_OUTPUT_CAPACITY];
    let n = decoder.process(&audio, &mut first).unwrap();
    decoder.reset();
    let mut second = vec![AptLine::default(); TEST_OUTPUT_CAPACITY];
    assert_eq!(decoder.process(&audio, &mut second), Ok(n));
    for (a, b) in first[..n].iter().zip(&second[..n]) {
        assert_eq!(a.pixels, b.pixels);
        assert_eq!(a.input_sample_index, b.input_sample_index);
    }
}

#[test]
fn the_search_and_the_score_agree() {
    let burst_offset = 317;
    let buf = synth_envelope_with_sync(
        2_000,
        burst_offset,
        SAMPLES_PER_SYNC_A_CYCLE,
        SYNC_BURST_CYCLES,
        0.1,
        0.9,
    );
    let detector = SyncDetector::new();
    for channel in [SyncChannel::A, SyncChannel::B] {
        let found = detector.find_best(&buf, channel).unwrap();
        assert_eq!(detector.quality_at(&buf, found.offset, channel), Some(found.quality));
    }
}

#[test]
fn samples_past_the_line_give_no_grey() {
    let mut samples = vec![0.5_f32; LINE_PIXELS + 9];
    samples[0] = 0.0;
    samples[1] = 1.0;
    samples[LINE_PIXELS + 3] = 40.0;
    let mut pixels = [9_u8; LINE_PIXELS];
    decimate_into_pixels::<F32>(&samples, &mut pixels);
    let mut expected = [9_u8; LINE_PIXELS];
    decimate_into_pixels::<F32>(&samples[..LINE_PIXELS], &mut expected);
    assert_eq!(pixels, expected);
    assert_eq!(&pixels[..3], &[0, 255, 128]);
}

#[test]
fn a_refused_output_leaves_the_resampler_alone() {
    let input: Vec<f32> = (0..400).map(|i| (i as f32 * 0.05).sin()).collect();
    let mut refused = RealResampler::new::<F64>(8_000.0, 12_480.0, &tables()).unwrap();
    let mut fresh = RealResampler::new::<F64>(8_000.0, 12_480.0, &tables()).unwrap();
    let mut short = [7.0_f32; 3];
    assert!(matches!(
        refused.process(&input, &mut short),
        Err(DspError::BufferTooSmall { got: 3, .. })
    ));
    assert_eq!(short, [7.0; 3]);
    let mut a = vec![0.0_f32; 1_000];
    let mut b = vec![0.0_f32; 1_000];
    assert_eq!(refused.process(&input, &mut a), fresh.process(&input, &mut b));
    assert_eq!(a, b);
}

#[test]
fn lines_are_half_a_second_apart_and_graded() {
    let rate = TEST_INPUT_RATE_HZ;
    let mut decoder = AptDecoder::new::<F64>(rate, &tables()).unwrap();
    let one_line = synth_line_audio(rate, TEST_GREY_LEVEL);
    let mut audio: Vec<f32> = Vec::new();
    for _ in 0..6 {
        audio.extend_from_slice(&one_line);
    }
    let mut out = vec![AptLine::default(); TEST_OUTPUT_CAPACITY];
    let mut lines: Vec<AptLine> = Vec::new();
    for chunk in audio.chunks(TEST_ODD_PRIME_CHUNK) {
        let n = decoder.process(chunk, &mut out).unwrap();
        lines.extend_from_slice(&out[..n]);
    }
    assert!(lines.len() >= 3);
    for pair in lines.windows(2) {
        assert!(pair[1].input_sample_index >= pair[0].input_sample_index + u64::from(rate) / 2);
    }
    for line in &lines {
        assert!((0.0..=1.0).contains(&line.sync_quality));
        assert_eq!(line.sync_channel, SyncChannel::A);
    }
}

#[test]
fn the_best_match_has_no_better() {
    let detector = SyncDetector::new();
    let envelope: Vec<f32> = (0..detector.template_a_len() + 200)
        .map(|i| 0.5 + 0.4 * ((i * i) as f32 * 0.013).sin())
        .collect();
    let best = detector.find_best(&envelope, SyncChannel::A).unwrap();
    for offset in 0..=200 {
        let quality = detector.quality_at(&envelope, offset, SyncChannel::A).unwrap();
        assert!(quality <= best.quality);
        assert!(offset >= best.offset || quality < best.quality);
    }
}

#[test]
fn the_level_of_the_envelope_does_not_matter() {
    let detector = SyncDetector::new();
    let envelope: Vec<f32> = (0..detector.template_a_len() + 64)
        .map(|i| ((i * 7) % 32) as f32 / 32.0)
        .collect();
    let raised: Vec<f32> = envelope.iter().map(|x| x + 0.5).collect();
    let a = detector.find_best(&envelope, SyncChannel::A).unwrap();
    let b = detector.find_best(&raised, SyncChannel::A).unwrap();
    assert_eq!(a.offset, b.offset);
    assert!((a.quality - b.quality).abs() < 1e-4);
}
