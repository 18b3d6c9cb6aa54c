//! Angles, windows and filter design on machine floats.

use rustfft::num_complex::Complex;
use rustfft::FftPlanner;
use sdr_dsp::arith::{Arithmetic, Widening};
use sdr_dsp::math::{fast_atan2, hz_to_rads, normalize_phase, sinc};
use sdr_dsp::taps::{
    band_pass, estimate_tap_count, high_pass, low_pass, low_pass_dc_removal_kaiser,
    low_pass_kaiser, root_raised_cosine,
};
use sdr_dsp::types::DspError;
use sdr_dsp::window::{kaiser, kaiser_beta, kaiser_length, nuttall};
use std::f64::consts::PI;

/// Arithmetic on `f32`.
struct F32;

impl Arithmetic for F32 {
    type R = f32;

    fn integer(n: i64) -> f32 {
        n as f32
    }
    fn count(n: usize) -> f32 {
        n as f32
    }
    fn fraction(n: i64, d: i64) -> f32 {
        n as f32 / d as f32
    }
    fn plus(a: f32, b: f32) -> f32 {
        a + b
    }
    fn minus(a: f32, b: f32) -> f32 {
        a - b
    }
    fn times(a: f32, b: f32) -> f32 {
        a * b
    }
    fn over(a: f32, b: f32) -> f32 {
        a / b
    }
    fn mul_add(a: f32, b: f32, c: f32) -> f32 {
        a.mul_add(b, c)
    }
    fn midpoint(a: f32, b: f32) -> f32 {
        f32::midpoint(a, b)
    }
    fn neg(a: f32) -> f32 {
        -a
    }
    fn abs(a: f32) -> f32 {
        a.abs()
    }
    fn signum(a: f32) -> f32 {
        a.signum()
    }
    fn min(a: f32, b: f32) -> f32 {
        a.min(b)
    }
    fn max(a: f32, b: f32) -> f32 {
        a.max(b)
    }
    fn floor(a: f32) -> f32 {
        a.floor()
    }
    fn round(a: f32) -> f32 {
        a.round()
    }
    fn rem_euclid(a: f32, b: f32) -> f32 {
        a.rem_euclid(b)
    }
    fn sqrt(a: f32) -> f32 {
        a.sqrt()
    }
    fn sin(a: f32) -> f32 {
        a.sin()
    }
    fn cos(a: f32) -> f32 {
        a.cos()
    }
    fn atan2(y: f32, x: f32) -> f32 {
        y.atan2(x)
    }
    fn exp(a: f32) -> f32 {
        a.exp()
    }
    fn exp10(a: f32) -> f32 {
        (10.0 as f32).powf(a)
    }
    fn log10(a: f32) -> f32 {
        a.log10()
    }
    fn log2(a: f32) -> f32 {
        a.log2()
    }
    fn tanh(a: f32) -> f32 {
        a.tanh()
    }
    fn pi() -> f32 {
        std::f32::consts::PI
    }
    fn frac_1_sqrt_2() -> f32 {
        std::f32::consts::FRAC_1_SQRT_2
    }
    fn min_positive() -> f32 {
        f32::MIN_POSITIVE
    }
    fn neg_infinity() -> f32 {
        f32::NEG_INFINITY
    }
    fn nan() -> f32 {
        f32::NAN
    }
    fn lt(a: f32, b: f32) -> bool {
        a < b
    }
    fn le(a: f32, b: f32) -> bool {
        a <= b
    }
    fn same(a: f32, b: f32) -> bool {
        a == b
    }
    fn is_finite(a: f32) -> bool {
        a.is_finite()
    }
    fn to_i64(a: f32) -> i64 {
        a as i64
    }
    fn to_u64(a: f32) -> u64 {
        a as u64
    }
    fn to_text(a: f32) -> String {
        a.to_string()
    }
}

/// Arithmetic on `f64`.
struct F64;

impl Arithmetic for F64 {
    type R = f64;

    fn integer(n: i64) -> f64 {
        n as f64
    }
    fn count(n: usize) -> f64 {
        n as f64
    }
    fn fraction(n: i64, d: i64) -> f64 {
        n as f64 / d as f64
    }
    fn plus(a: f64, b: f64) -> f64 {
        a + b
    }
    fn minus(a: f64, b: f64) -> f64 {
        a - b
    }
    fn times(a: f64, b: f64) -> f64 {
        a * b
    }
    fn over(a: f64, b: f64) -> f64 {
        a / b
    }
    fn mul_add(a: f64, b: f64, c: f64) -> f64 {
        a.mul_add(b, c)
    }
    fn midpoint(a: f64, b: f64) -> f64 {
        f64::midpoint(a, b)
    }
    fn neg(a: f64) -> f64 {
        -a
    }
    fn abs(a: f64) -> f64 {
        a.abs()
    }
    fn signum(a: f64) -> f64 {
        a.signum()
    }
    fn min(a: f64, b: f64) -> f64 {
        a.min(b)
    }
    fn max(a: f64, b: f64) -> f64 {
        a.max(b)
    }
    fn floor(a: f64) -> f64 {
        a.floor()
    }
    fn round(a: f64) -> f64 {
        a.round()
    }
    fn rem_euclid(a: f64, b: f64) -> f64 {
        a.rem_euclid(b)
    }
    fn sqrt(a: f64) -> f64 {
        a.sqrt()
    }
    fn sin(a: f64) -> f64 {
        a.sin()
    }
    fn cos(a: f64) -> f64 {
        a.cos()
    }
    fn atan2(y: f64, x: f64) -> f64 {
        y.atan2(x)
    }
    fn exp(a: f64) -> f64 {
        a.exp()
    }
    fn exp10(a: f64) -> f64 {
        (10.0 as f64).powf(a)
    }
    fn log10(a: f64) -> f64 {
        a.log10()
    }
    fn log2(a: f64) -> f64 {
        a.log2()
    }
    fn tanh(a: f64) -> f64 {
        a.tanh()
    }
    fn pi() -> f64 {
        std::f64::consts::PI
    }
    fn frac_1_sqrt_2() -> f64 {
        std::f64::consts::FRAC_1_SQRT_2
    }
    fn min_positive() -> f64 {
        f64::MIN_POSITIVE
    }
    fn neg_infinity() -> f64 {
        f64::NEG_INFINITY
    }
    fn nan() -> f64 {
        f64::NAN
    }
    fn lt(a: f64, b: f64) -> bool {
        a < b
    }
    fn le(a: f64, b: f64) -> bool {
        a <= b
    }
    fn same(a: f64, b: f64) -> bool {
        a == b
    }
    fn is_finite(a: f64) -> bool {
        a.is_finite()
    }
    fn to_i64(a: f64) -> i64 {
        a as i64
    }
    fn to_u64(a: f64) -> u64 {
        a as u64
    }
    fn to_text(a: f64) -> String {
        a.to_string()
    }
}

impl Widening<F32> for F64 {
    fn narrow(a: f64) -> f32 {
        a as f32
    }
    fn widen(a: f32) -> f64 {
        f64::from(a)
    }
}

impl Widening<F64> for F64 {
    fn narrow(a: f64) -> f64 {
        a
    }
    fn widen(a: f64) -> f64 {
        a
    }
}


const EPS_F32: f32 = 1e-6;
const EPS_F64: f64 = 1e-10;
const FAST_ATAN2_MAX_ERROR: f32 = 0.08;

fn approx_eq_f32(a: f32, b: f32) -> bool {
    (a - b).abs() < EPS_F32
}

fn approx_eq_f64(a: f64, b: f64) -> bool {
    (a - b).abs() < EPS_F64
}

#[test]
fn test_hz_to_rads() {
    assert!(approx_eq_f64(hz_to_rads::<F64>(24_000.0, TEST_SAMPLE_RATE), PI));
    assert!(approx_eq_f64(hz_to_rads::<F64>(0.0, TEST_SAMPLE_RATE), 0.0));
    assert!(approx_eq_f64(
        hz_to_rads::<F64>(12_000.0, TEST_SAMPLE_RATE),
        PI / 2.0
    ));
}

#[test]
fn test_normalize_phase() {
    assert!(approx_eq_f32(normalize_phase::<F32>(1.0), 1.0));
    assert!(approx_eq_f32(normalize_phase::<F32>(-1.0), -1.0));
    assert!(approx_eq_f32(
        normalize_phase::<F32>(core::f32::consts::PI + 0.5),
        -core::f32::consts::PI + 0.5
    ));
    assert!(approx_eq_f32(
        normalize_phase::<F32>(-core::f32::consts::PI - 0.5),
        core::f32::consts::PI - 0.5
    ));
    assert!(approx_eq_f32(
        normalize_phase::<F32>(5.0 * core::f32::consts::PI),
        core::f32::consts::PI
    ));
    let result = normalize_phase::<F32>(-5.0 * core::f32::consts::PI);
    assert!(
        approx_eq_f32(result, core::f32::consts::PI),
        "expected pi, got {result}"
    );
    assert!(approx_eq_f32(normalize_phase::<F32>(0.0), 0.0));
}

#[test]
fn test_sinc() {
    assert_eq!(sinc::<F64>(0.0), 1.0);
    assert!(approx_eq_f64(sinc::<F64>(PI), 0.0));
    let x = 1.5;
    assert!(approx_eq_f64(sinc::<F64>(x), x.sin() / x));
}

#[test]
fn test_fast_atan2() {
    let cases: [(f32, f32); 7] = [
        (1.0, 0.0),
        (0.0, 1.0),
        (-1.0, 0.0),
        (0.0, -1.0),
        (1.0, 1.0),
        (-1.0, -1.0),
        (3.0, 4.0),
    ];
    for (x, y) in &cases {
        let fast = fast_atan2::<F32>(*x, *y);
        let exact = y.atan2(*x);
        let diff = (fast - exact).abs();
        assert!(
            diff < FAST_ATAN2_MAX_ERROR,
            "fast_atan2 error {diff} for ({x}, {y})"
        );
    }
    assert_eq!(fast_atan2::<F32>(0.0, 0.0), 0.0);
}


const TEST_SAMPLE_RATE: f64 = 48_000.0;

#[test]
fn tests_test_estimate_tap_count() {
    let count = estimate_tap_count::<F64>(1_000.0, TEST_SAMPLE_RATE).unwrap();
    assert_eq!(count, 182);
}

#[test]
fn taps_test_estimate_tap_count_invalid() {
    check_estimate_tap_count_invalid();
}

#[test]
fn tests_test_estimate_tap_count_invalid() {
    check_estimate_tap_count_invalid();
}

fn check_estimate_tap_count_invalid() {
    assert!(estimate_tap_count::<F64>(0.0, TEST_SAMPLE_RATE).is_err());
    assert!(estimate_tap_count::<F64>(-1.0, TEST_SAMPLE_RATE).is_err());
    assert!(estimate_tap_count::<F64>(1_000.0, 0.0).is_err());
    assert!(estimate_tap_count::<F64>(f64::NAN, TEST_SAMPLE_RATE).is_err());
    assert!(estimate_tap_count::<F64>(f64::INFINITY, TEST_SAMPLE_RATE).is_err());
    assert!(estimate_tap_count::<F64>(f64::NEG_INFINITY, TEST_SAMPLE_RATE).is_err());
    assert!(estimate_tap_count::<F64>(1_000_000.0, 1_000.0).is_err());
}

#[test]
fn taps_test_low_pass_basic() {
    check_low_pass_basic();
}

#[test]
fn tests_test_low_pass_basic() {
    check_low_pass_basic();
}

fn check_low_pass_basic() {
    let taps = low_pass::<F32, F64>(5_000.0, 1_000.0, TEST_SAMPLE_RATE, false).unwrap();
    assert!(!taps.is_empty());
    assert_symmetric(&taps);
}

#[test]
fn taps_test_low_pass_odd_tap_count() {
    check_low_pass_odd_tap_count();
}

#[test]
fn tests_test_low_pass_odd_tap_count() {
    check_low_pass_odd_tap_count();
}

fn check_low_pass_odd_tap_count() {
    let taps = low_pass::<F32, F64>(5_000.0, 1_000.0, TEST_SAMPLE_RATE, true).unwrap();
    assert!(taps.len() % 2 == 1, "expected odd, got {}", taps.len());
}

#[test]
fn taps_test_low_pass_dc_gain() {
    check_low_pass_dc_gain();
}

#[test]
fn tests_test_low_pass_dc_gain() {
    check_low_pass_dc_gain();
}

fn check_low_pass_dc_gain() {
    let taps = low_pass::<F32, F64>(5_000.0, 1_000.0, TEST_SAMPLE_RATE, false).unwrap();
    let sum: f32 = taps.iter().sum();
    assert!((sum - 1.0).abs() < 0.1, "DC gain should be ~1.0, got {sum}");
}

#[test]
fn taps_test_high_pass_basic() {
    check_high_pass_basic();
}

#[test]
fn tests_test_high_pass_basic() {
    check_high_pass_basic();
}

fn check_high_pass_basic() {
    let taps = high_pass::<F32, F64>(5_000.0, 1_000.0, TEST_SAMPLE_RATE).unwrap();
    assert!(!taps.is_empty());
    assert!(taps.len() % 2 == 1, "expected odd, got {}", taps.len());
    let sum: f32 = taps.iter().sum();
    assert!(sum.abs() < 0.1, "HP DC gain should be ~0, got {sum}");
}

#[test]
fn taps_test_high_pass_symmetry() {
    check_high_pass_symmetry();
}

#[test]
fn tests_test_high_pass_symmetry() {
    check_high_pass_symmetry();
}

fn check_high_pass_symmetry() {
    let taps = high_pass::<F32, F64>(5_000.0, 1_000.0, TEST_SAMPLE_RATE).unwrap();
    assert_symmetric(&taps);
}

#[test]
fn taps_test_band_pass_basic() {
    check_band_pass_basic();
}

#[test]
fn tests_test_band_pass_basic() {
    check_band_pass_basic();
}

fn check_band_pass_basic() {
    let taps = band_pass::<F32, F64>(5_000.0, 10_000.0, 1_000.0, TEST_SAMPLE_RATE, false).unwrap();
    assert!(!taps.is_empty());
    let sum: f32 = taps.iter().sum();
    assert!(sum.abs() < 0.2, "BP DC gain should be ~0, got {sum}");
}

#[test]
fn taps_test_band_pass_symmetry() {
    check_band_pass_symmetry();
}

#[test]
fn tests_test_band_pass_symmetry() {
    check_band_pass_symmetry();
}

fn check_band_pass_symmetry() {
    let taps = band_pass::<F32, F64>(5_000.0, 10_000.0, 1_000.0, TEST_SAMPLE_RATE, false).unwrap();
    assert_symmetric(&taps);
}

#[test]
fn taps_test_band_pass_invalid_range() {
    check_band_pass_invalid_range();
}

#[test]
fn tests_test_band_pass_invalid_range() {
    check_band_pass_invalid_range();
}

fn check_band_pass_invalid_range() {
    let result = band_pass::<F32, F64>(10_000.0, 5_000.0, 1_000.0, TEST_SAMPLE_RATE, false);
    assert!(result.is_err());
}

#[test]
fn taps_test_root_raised_cosine_basic() {
    check_root_raised_cosine_basic();
}

#[test]
fn tests_test_root_raised_cosine_basic() {
    check_root_raised_cosine_basic();
}

fn check_root_raised_cosine_basic() {
    let taps = root_raised_cosine::<F32, F64>(65, 0.35, 9600.0, TEST_SAMPLE_RATE).unwrap();
    assert_eq!(taps.len(), 65);
    assert_symmetric(&taps);
}

#[test]
fn taps_test_root_raised_cosine_peak() {
    check_root_raised_cosine_peak();
}

#[test]
fn tests_test_root_raised_cosine_peak() {
    check_root_raised_cosine_peak();
}

fn check_root_raised_cosine_peak() {
    let taps = root_raised_cosine::<F32, F64>(65, 0.35, 9600.0, TEST_SAMPLE_RATE).unwrap();
    let center = taps.len() / 2;
    let peak = taps
        .iter()
        .enumerate()
        .max_by(|a, b| a.1.partial_cmp(b.1).unwrap_or(std::cmp::Ordering::Equal))
        .map_or(0, |(i, _)| i);
    assert_eq!(peak, center, "peak should be at center tap");
}

#[test]
fn taps_test_root_raised_cosine_limit_branch() {
    check_root_raised_cosine_limit_branch();
}

#[test]
fn tests_test_root_raised_cosine_limit_branch() {
    check_root_raised_cosine_limit_branch();
}

fn check_root_raised_cosine_limit_branch() {
    let taps = root_raised_cosine::<F32, F64>(5, 0.625, 9600.0, TEST_SAMPLE_RATE).unwrap();
    assert_eq!(taps.len(), 5);
    assert!(
        taps[0].is_finite() && taps[0] != 0.0,
        "limit tap is {}",
        taps[0]
    );
    assert!(
        taps[4].is_finite() && taps[4] != 0.0,
        "limit tap is {}",
        taps[4]
    );
    assert_symmetric(&taps);
}

#[test]
fn taps_test_root_raised_cosine_invalid() {
    check_root_raised_cosine_invalid();
}

#[test]
fn tests_test_root_raised_cosine_invalid() {
    check_root_raised_cosine_invalid();
}

fn check_root_raised_cosine_invalid() {
    assert!(root_raised_cosine::<F32, F64>(0, 0.35, 9600.0, TEST_SAMPLE_RATE).is_err());
    assert!(root_raised_cosine::<F32, F64>(65, 1.5, 9600.0, TEST_SAMPLE_RATE).is_err());
    assert!(root_raised_cosine::<F32, F64>(65, -0.1, 9600.0, TEST_SAMPLE_RATE).is_err());
    assert!(root_raised_cosine::<F32, F64>(65, 0.35, 0.0, TEST_SAMPLE_RATE).is_err());
}

#[test]
fn taps_test_windowed_sinc_not_all_zero() {
    check_windowed_sinc_not_all_zero();
}

#[test]
fn tests_test_windowed_sinc_not_all_zero() {
    check_windowed_sinc_not_all_zero();
}

fn check_windowed_sinc_not_all_zero() {
    let taps = low_pass::<F32, F64>(5_000.0, 1_000.0, TEST_SAMPLE_RATE, false).unwrap();
    let any_nonzero = taps.iter().any(|&t| t != 0.0);
    assert!(any_nonzero, "taps should not all be zero");
}

fn assert_symmetric(taps: &[f32]) {
    let n = taps.len();
    for i in 0..n / 2 {
        assert!(
            (taps[i] - taps[n - 1 - i]).abs() < 1e-6,
            "symmetry failed at {i}: {} != {}",
            taps[i],
            taps[n - 1 - i]
        );
    }
}

fn abs_fft(signal: &[f32]) -> Vec<f64> {
    let mut buf: Vec<Complex<f64>> = signal
        .iter()
        .map(|&x| Complex::new(f64::from(x), 0.0))
        .collect();
    let mut planner = FftPlanner::new();
    let fft = planner.plan_fft_forward(buf.len());
    fft.process(&mut buf);
    buf.iter().map(|c| c.norm()).collect()
}

#[test]
fn taps_test_low_pass_kaiser_basic() {
    check_low_pass_kaiser_basic();
}

#[test]
fn tests_test_low_pass_kaiser_basic() {
    check_low_pass_kaiser_basic();
}

fn check_low_pass_kaiser_basic() {
    let taps = low_pass_kaiser::<F32, F64>(5_000.0, 1_000.0, 40.0, TEST_SAMPLE_RATE).unwrap();
    assert_symmetric(&taps);
    assert!(
        !taps.is_empty() && taps.len() % 2 == 1,
        "expected odd non-empty length, got {}",
        taps.len()
    );
}

#[test]
fn taps_test_low_pass_kaiser_dc_gain() {
    check_low_pass_kaiser_dc_gain();
}

#[test]
fn tests_test_low_pass_kaiser_dc_gain() {
    check_low_pass_kaiser_dc_gain();
}

fn check_low_pass_kaiser_dc_gain() {
    let taps = low_pass_kaiser::<F32, F64>(5_000.0, 1_000.0, 40.0, TEST_SAMPLE_RATE).unwrap();
    let sum: f32 = taps.iter().sum();
    assert!(
        (sum - 1.0).abs() < 0.05,
        "DC gain should be ~1.0, got {sum}"
    );
}

#[test]
fn taps_test_low_pass_kaiser_meets_atten_target() {
    let fs = 12_480.0;
    let cutoff = 4_800.0;
    let transition = 1_000.0;
    let atten = 30.0;
    let taps = low_pass_kaiser::<F32, F64>(cutoff, transition, atten, fs).unwrap();
    let response = abs_fft(&taps);

    let stopband_threshold = 2.0 * 10_f64.powf(-atten / 20.0);

    let stop_start_hz = cutoff + transition / 2.0;
    let nyquist_hz = fs / 2.0;
    let n = response.len();
    for (i, mag) in response.iter().enumerate() {
                let bin_hz = i as f64 * fs / n as f64;
        if bin_hz > stop_start_hz && bin_hz < nyquist_hz {
            assert!(
                *mag < stopband_threshold,
                "stopband ripple at {bin_hz:.0} Hz: {mag} > {stopband_threshold}"
            );
        }
    }
}

#[test]
fn tests_test_low_pass_kaiser_meets_atten_target() {
    let fs = 12_480.0;
    let cutoff = 4_800.0;
    let transition = 1_000.0;
    let atten = 30.0;
    let taps = low_pass_kaiser::<F32, F64>(cutoff, transition, atten, fs).unwrap();
    let response = abs_fft_fine(&taps);

    let stopband_threshold = 2.0 * 10_f64.powf(-atten / 20.0);

    let stop_start_hz = cutoff + transition / 2.0;
    let nyquist_hz = fs / 2.0;
    let n = response.len();
    for (i, mag) in response.iter().enumerate() {
                let bin_hz = i as f64 * fs / n as f64;
        if bin_hz > stop_start_hz && bin_hz < nyquist_hz {
            assert!(
                *mag < stopband_threshold,
                "stopband ripple at {bin_hz:.0} Hz: {mag} > {stopband_threshold}"
            );
        }
    }
}

#[test]
fn taps_test_low_pass_dc_removal_kaiser_nulls_dc() {
    check_low_pass_dc_removal_kaiser_nulls_dc();
}

#[test]
fn tests_test_low_pass_dc_removal_kaiser_nulls_dc() {
    check_low_pass_dc_removal_kaiser_nulls_dc();
}

fn check_low_pass_dc_removal_kaiser_nulls_dc() {
    let fs = 12_480.0;
    let cutoff = 4_800.0;
    let transition = 1_000.0;
    let atten = 30.0;
    let taps = low_pass_dc_removal_kaiser::<F32, F64>(cutoff, transition, atten, fs).unwrap();
    let dc_gain: f32 = taps.iter().sum();
        let dc_threshold = 2.0 * 10_f32.powf(-atten as f32 / 20.0);
    assert!(
        dc_gain.abs() < dc_threshold,
        "DC gain should be ~0, got {dc_gain} (threshold {dc_threshold})"
    );
}

#[test]
fn taps_test_low_pass_dc_removal_kaiser_passes_passband() {
    let fs = 12_480.0;
    let cutoff = 4_800.0;
    let transition = 1_000.0;
    let atten = 30.0;
    let taps = low_pass_dc_removal_kaiser::<F32, F64>(cutoff, transition, atten, fs).unwrap();
    let response = abs_fft(&taps);

    let pass_start_hz = transition;
    let pass_end_hz = cutoff - transition / 2.0;
    let n = response.len();
    let pass_lo = 0.7;
    let pass_hi = 1.3;
    let mut checked = 0;
    for (i, mag) in response.iter().enumerate() {
                let bin_hz = i as f64 * fs / n as f64;
        if bin_hz > pass_start_hz && bin_hz < pass_end_hz {
            assert!(
                *mag > pass_lo && *mag < pass_hi,
                "passband ripple at {bin_hz:.0} Hz: {mag} not in [{pass_lo}, {pass_hi}]"
            );
            checked += 1;
        }
    }
    assert!(checked > 0, "no FFT bins fell in passband — test invalid");
}

#[test]
fn tests_test_low_pass_dc_removal_kaiser_passes_passband() {
    let fs = 12_480.0;
    let cutoff = 4_800.0;
    let transition = 1_000.0;
    let atten = 30.0;
    let taps = low_pass_dc_removal_kaiser::<F32, F64>(cutoff, transition, atten, fs).unwrap();
    let response = abs_fft_fine(&taps);

    let pass_start_hz = transition;
    let pass_end_hz = cutoff - transition / 2.0;
    let n = response.len();
    let pass_lo = 0.7;
    let pass_hi = 1.3;
    let mut checked = 0;
    for (i, mag) in response.iter().enumerate() {
                let bin_hz = i as f64 * fs / n as f64;
        if bin_hz > pass_start_hz && bin_hz < pass_end_hz {
            assert!(
                *mag > pass_lo && *mag < pass_hi,
                "passband ripple at {bin_hz:.0} Hz: {mag} not in [{pass_lo}, {pass_hi}]"
            );
            checked += 1;
        }
    }
    assert!(checked > 0, "no FFT bins fell in passband — test invalid");
}

fn abs_fft_fine(signal: &[f32]) -> Vec<f64> {
    const MIN_FFT_LEN: usize = 8_192;
    let fft_len = signal.len().max(MIN_FFT_LEN).next_power_of_two();
    let mut buf: Vec<Complex<f64>> = signal
        .iter()
        .map(|&x| Complex::new(f64::from(x), 0.0))
        .collect();
    buf.resize(fft_len, Complex::new(0.0, 0.0));
    let mut planner = FftPlanner::new();
    let fft = planner.plan_fft_forward(fft_len);
    fft.process(&mut buf);
    buf.iter().map(|c| c.norm()).collect()
}

fn magnitude_at(taps: &[f32], freq_hz: f64, fs: f64) -> f64 {
    let w = core::f64::consts::TAU * freq_hz / fs;
    let (re, im) = taps
        .iter()
        .enumerate()
        .fold((0.0_f64, 0.0_f64), |(re, im), (n, &h)| {
            let phase = w * n as f64;
            (
                re + f64::from(h) * phase.cos(),
                im - f64::from(h) * phase.sin(),
            )
        });
    re.hypot(im)
}

#[test]
fn test_low_pass_dc_removal_kaiser_nulls_dc_at_every_apt_rate() {
    const DC_NULL_MAX: f32 = 1e-4;
    for fs in [12_480.0, 48_000.0, 250_000.0] {
        let taps = low_pass_dc_removal_kaiser::<F32, F64>(4_800.0, 1_000.0, 30.0, fs).unwrap();
        let dc_gain: f32 = taps.iter().sum();
        assert!(
            dc_gain.abs() < DC_NULL_MAX,
            "fs={fs}: DC gain should be ~0, got {dc_gain}"
        );
        let passband_gain = magnitude_at(&taps, 2_400.0, fs);
        assert!(
            (passband_gain - 1.0).abs() < 0.1,
            "fs={fs}: passband gain at 2400 Hz should be ~1, got {passband_gain}"
        );
    }
}

#[test]
fn windows_have_the_textbook_values() {
    assert!(approx_eq_f64(nuttall::<F64>(0.0, 10.0), 0.0));
    assert!(approx_eq_f64(nuttall::<F64>(5.0, 10.0), 1.0));
    assert!(approx_eq_f64(kaiser::<F64>(5.0, 11.0, 6.0), 1.0));
    assert!(approx_eq_f64(
        kaiser::<F64>(2.0, 11.0, 6.0),
        kaiser::<F64>(8.0, 11.0, 6.0)
    ));
    assert!((kaiser::<F64>(0.0, 11.0, 6.0) - 1.0 / 67.234_406_976_478).abs() < 1e-9);
    assert_eq!(kaiser::<F64>(0.0, 1.0, 6.0), 1.0);
    assert_eq!(kaiser_beta::<F64>(20.0), 0.0);
    assert!((kaiser_beta::<F64>(60.0) - 5.653_26).abs() < 1e-9);
    assert!((kaiser_beta::<F64>(37.0) - (0.5842 * 16.0_f64.powf(0.4) + 0.07886 * 16.0)).abs() < 1e-9);
    assert_eq!(kaiser_length::<F64>(30.795, 1.0), 11);
    assert_eq!(kaiser_length::<F64>(30.795, 0.1) % 2, 1);
}

#[test]
fn tap_counts_follow_the_transition_band() {
    assert_eq!(estimate_tap_count::<F64>(3_800.0, 48_000.0), Ok(48));
    assert_eq!(
        estimate_tap_count::<F64>(1e-3, 48_000.0),
        Err(DspError::InvalidParameter(
            "estimated tap count (182400000) exceeds maximum (1000000)".to_string()
        ))
    );
    assert_eq!(
        estimate_tap_count::<F64>(1_000_000.0, 1_000.0),
        Err(DspError::InvalidParameter(
            "transition_width too large for sample_rate — estimated 0 taps".to_string()
        ))
    );
}

#[test]
fn designs_name_the_fault() {
    let text = |r: Result<Vec<f32>, DspError>| r.err().unwrap().message();
    assert_eq!(
        text(low_pass::<F32, F64>(0.0, 100.0, 1_000.0, false)),
        "cutoff must be positive and finite, got 0"
    );
    assert_eq!(
        text(low_pass::<F32, F64>(600.0, 100.0, 1_000.0, false)),
        "cutoff (600) must be less than Nyquist (500)"
    );
    assert_eq!(
        text(low_pass::<F32, F64>(100.0, 0.0, 1_000.0, false)),
        "transition_width must be positive and finite, got 0"
    );
    assert_eq!(
        text(high_pass::<F32, F64>(100.0, 100.0, f64::NAN)),
        "sample_rate must be positive and finite, got NaN"
    );
    assert_eq!(
        text(band_pass::<F32, F64>(0.0, 200.0, 100.0, 1_000.0, false)),
        "band_start must be positive and finite, got 0"
    );
    assert_eq!(
        text(band_pass::<F32, F64>(100.0, f64::INFINITY, 100.0, 1_000.0, false)),
        "band_stop must be positive and finite, got inf"
    );
    assert_eq!(
        text(band_pass::<F32, F64>(200.0, 100.0, 100.0, 1_000.0, false)),
        "band_stop must be greater than band_start"
    );
    assert_eq!(
        text(band_pass::<F32, F64>(100.0, 500.0, 100.0, 1_000.0, false)),
        "band_stop (500) must be less than Nyquist (500)"
    );
    assert_eq!(
        text(root_raised_cosine::<F32, F64>(0, 0.5, 100.0, 1_000.0)),
        "count must be > 0"
    );
    assert_eq!(
        text(root_raised_cosine::<F32, F64>(5, 1.5, 100.0, 1_000.0)),
        "beta must be in 0.0..=1.0, got 1.5"
    );
    assert_eq!(
        text(root_raised_cosine::<F32, F64>(5, 0.5, 0.0, 1_000.0)),
        "symbol_rate must be positive and finite, got 0"
    );
    assert_eq!(
        text(low_pass_kaiser::<F32, F64>(100.0, 50.0, 0.0, 1_000.0)),
        "atten_db must be positive and finite, got 0"
    );
    assert_eq!(
        text(low_pass_kaiser::<F32, F64>(490.0, 50.0, 60.0, 1_000.0)),
        "upper transition edge (cutoff + transition_width/2 = 515) must be less than Nyquist (500) \
         — cutoff=490, transition_width=50"
    );
    let many = text(low_pass_kaiser::<F32, F64>(100.0, 1e-6, 60.0, 1_000.0));
    assert!(many.starts_with("Kaiser tap count (") && many.ends_with(") exceeds maximum (1000000)"));
    assert_eq!(
        text(low_pass_dc_removal_kaiser::<F32, F64>(20.0, 50.0, 60.0, 1_000.0)),
        "transition_width (50) must be < 2·cutoff (40) — at or above this the bandpass response \
         collapses/inverts"
    );
}

#[test]
fn wrapped_phases_lie_in_one_turn() {
    let pi = std::f32::consts::PI;
    for i in -4_000..=4_000 {
        let phase = normalize_phase::<F32>(i as f32 * 0.0173);
        assert!(-pi < phase && phase <= pi, "{i}: {phase}");
    }
    for diff in [-pi, pi, 3.0 * pi, -3.0 * pi, -1e-20, 1e-20, 1e6] {
        let phase = normalize_phase::<F32>(diff);
        assert!(-pi < phase && phase <= pi, "{diff}: {phase}");
    }
}

#[test]
fn mean_is_removed_before_narrowing() {
    let taps = low_pass_dc_removal_kaiser::<F64, F64>(4_800.0, 1_000.0, 60.0, 48_000.0).unwrap();
    assert!(taps.iter().sum::<f64>().abs() < 1e-12);
}
