//! FIR, deemphasis and notch filters on machine floats.

use sdr_dsp::arith::{Arithmetic, Widening};
use sdr_dsp::filter::{deemphasis_tau_eu, deemphasis_tau_us};
use sdr_dsp::types;
use sdr_dsp::types::DspError;

type Complex = types::Complex<f32>;
type FirFilter = sdr_dsp::filter::FirFilter<F32>;
type ComplexFirFilter = sdr_dsp::filter::ComplexFirFilter<F32>;
type DecimatingFirFilter = sdr_dsp::filter::DecimatingFirFilter<F32>;
type DeemphasisFilter = sdr_dsp::filter::DeemphasisFilter<F32>;
type NotchFilter = sdr_dsp::filter::NotchFilter<F32>;

const DEEMPHASIS_TAU_US: f64 = 75e-6;

/// Arithmetic on `f32`.
struct F32;

impl Arithmetic for F32 {
    type R = f32;

    fn integer(n: i64) -> f32 {
        n as f32
    }
    fn count(n: usize) -> f32 {
        n as f32
    }
    fn fraction(n: i64, d: i64) -> f32 {
        n as f32 / d as f32
    }
    fn plus(a: f32, b: f32) -> f32 {
        a + b
    }
    fn minus(a: f32, b: f32) -> f32 {
        a - b
    }
    fn times(a: f32, b: f32) -> f32 {
        a * b
    }
    fn over(a: f32, b: f32) -> f32 {
        a / b
    }
    fn mul_add(a: f32, b: f32, c: f32) -> f32 {
        a.mul_add(b, c)
    }
    fn midpoint(a: f32, b: f32) -> f32 {
        f32::midpoint(a, b)
    }
    fn neg(a: f32) -> f32 {
        -a
    }
    fn abs(a: f32) -> f32 {
        a.abs()
    }
    fn signum(a: f32) -> f32 {
        a.signum()
    }
    fn min(a: f32, b: f32) -> f32 {
        a.min(b)
    }
    fn max(a: f32, b: f32) -> f32 {
        a.max(b)
    }
    fn floor(a: f32) -> f32 {
        a.floor()
    }
    fn round(a: f32) -> f32 {
        a.round()
    }
    fn rem_euclid(a: f32, b: f32) -> f32 {
        a.rem_euclid(b)
    }
    fn sqrt(a: f32) -> f32 {
        a.sqrt()
    }
    fn sin(a: f32) -> f32 {
        a.sin()
    }
    fn cos(a: f32) -> f32 {
        a.cos()
    }
    fn atan2(y: f32, x: f32) -> f32 {
        y.atan2(x)
    }
    fn exp(a: f32) -> f32 {
        a.exp()
    }
    fn exp10(a: f32) -> f32 {
        (10.0 as f32).powf(a)
    }
    fn log10(a: f32) -> f32 {
        a.log10()
    }
    fn log2(a: f32) -> f32 {
        a.log2()
    }
    fn tanh(a: f32) -> f32 {
        a.tanh()
    }
    fn pi() -> f32 {
        std::f32::consts::PI
    }
    fn frac_1_sqrt_2() -> f32 {
        std::f32::consts::FRAC_1_SQRT_2
    }
    fn min_positive() -> f32 {
        f32::MIN_POSITIVE
    }
    fn neg_infinity() -> f32 {
        f32::NEG_INFINITY
    }
    fn nan() -> f32 {
        f32::NAN
    }
    fn lt(a: f32, b: f32) -> bool {
        a < b
    }
    fn le(a: f32, b: f32) -> bool {
        a <= b
    }
    fn same(a: f32, b: f32) -> bool {
        a == b
    }
    fn is_finite(a: f32) -> bool {
        a.is_finite()
    }
    fn to_i64(a: f32) -> i64 {
        a as i64
    }
    fn to_u64(a: f32) -> u64 {
        a as u64
    }
    fn to_text(a: f32) -> String {
        a.to_string()
    }
}

/// Arithmetic on `f64`.
struct F64;

impl Arithmetic for F64 {
    type R = f64;

    fn integer(n: i64) -> f64 {
        n as f64
    }
    fn count(n: usize) -> f64 {
        n as f64
    }
    fn fraction(n: i64, d: i64) -> f64 {
        n as f64 / d as f64
    }
    fn plus(a: f64, b: f64) -> f64 {
        a + b
    }
    fn minus(a: f64, b: f64) -> f64 {
        a - b
    }
    fn times(a: f64, b: f64) -> f64 {
        a * b
    }
    fn over(a: f64, b: f64) -> f64 {
        a / b
    }
    fn mul_add(a: f64, b: f64, c: f64) -> f64 {
        a.mul_add(b, c)
    }
    fn midpoint(a: f64, b: f64) -> f64 {
        f64::midpoint(a, b)
    }
    fn neg(a: f64) -> f64 {
        -a
    }
    fn abs(a: f64) -> f64 {
        a.abs()
    }
    fn signum(a: f64) -> f64 {
        a.signum()
    }
    fn min(a: f64, b: f64) -> f64 {
        a.min(b)
    }
    fn max(a: f64, b: f64) -> f64 {
        a.max(b)
    }
    fn floor(a: f64) -> f64 {
        a.floor()
    }
    fn round(a: f64) -> f64 {
        a.round()
    }
    fn rem_euclid(a: f64, b: f64) -> f64 {
        a.rem_euclid(b)
    }
    fn sqrt(a: f64) -> f64 {
        a.sqrt()
    }
    fn sin(a: f64) -> f64 {
        a.sin()
    }
    fn cos(a: f64) -> f64 {
        a.cos()
    }
    fn atan2(y: f64, x: f64) -> f64 {
        y.atan2(x)
    }
    fn exp(a: f64) -> f64 {
        a.exp()
    }
    fn exp10(a: f64) -> f64 {
        (10.0 as f64).powf(a)
    }
    fn log10(a: f64) -> f64 {
        a.log10()
    }
    fn log2(a: f64) -> f64 {
        a.log2()
    }
    fn tanh(a: f64) -> f64 {
        a.tanh()
    }
    fn pi() -> f64 {
        std::f64::consts::PI
    }
    fn frac_1_sqrt_2() -> f64 {
        std::f64::consts::FRAC_1_SQRT_2
    }
    fn min_positive() -> f64 {
        f64::MIN_POSITIVE
    }
    fn neg_infinity() -> f64 {
        f64::NEG_INFINITY
    }
    fn nan() -> f64 {
        f64::NAN
    }
    fn lt(a: f64, b: f64) -> bool {
        a < b
    }
    fn le(a: f64, b: f64) -> bool {
        a <= b
    }
    fn same(a: f64, b: f64) -> bool {
        a == b
    }
    fn is_finite(a: f64) -> bool {
        a.is_finite()
    }
    fn to_i64(a: f64) -> i64 {
        a as i64
    }
    fn to_u64(a: f64) -> u64 {
        a as u64
    }
    fn to_text(a: f64) -> String {
        a.to_string()
    }
}

impl Widening<F32> for F64 {
    fn narrow(a: f64) -> f32 {
        a as f32
    }
    fn widen(a: f32) -> f64 {
        f64::from(a)
    }
}


#[test]
fn filter_test_fir_new_empty_taps() {
    check_fir_new_empty_taps();
}

#[test]
fn tests_test_fir_new_empty_taps() {
    check_fir_new_empty_taps();
}

fn check_fir_new_empty_taps() {
    assert!(FirFilter::new(vec![]).is_err());
}

#[test]
fn filter_test_fir_identity() {
    check_fir_identity();
}

#[test]
fn tests_test_fir_identity() {
    check_fir_identity();
}

fn check_fir_identity() {
    let mut fir = FirFilter::new(vec![1.0]).unwrap();
    let input = [1.0, 2.0, 3.0, 4.0, 5.0];
    let mut output = [0.0_f32; 5];
    fir.process_f32(&input, &mut output).unwrap();
    for i in 0..5 {
        assert!(
            (output[i] - input[i]).abs() < 1e-6,
            "identity filter: output[{i}] = {}, expected {}",
            output[i],
            input[i]
        );
    }
}

#[test]
fn filter_test_fir_delay() {
    check_fir_delay();
}

#[test]
fn tests_test_fir_delay() {
    check_fir_delay();
}

fn check_fir_delay() {
    let mut fir = FirFilter::new(vec![0.0, 1.0]).unwrap();
    let input = [1.0, 2.0, 3.0, 4.0];
    let mut output = [0.0_f32; 4];
    fir.process_f32(&input, &mut output).unwrap();
    assert!((output[0] - 0.0).abs() < 1e-6);
    assert!((output[1] - 1.0).abs() < 1e-6);
    assert!((output[2] - 2.0).abs() < 1e-6);
    assert!((output[3] - 3.0).abs() < 1e-6);
}

#[test]
fn filter_test_fir_averaging() {
    check_fir_averaging();
}

#[test]
fn tests_test_fir_averaging() {
    check_fir_averaging();
}

fn check_fir_averaging() {
    let mut fir = FirFilter::new(vec![1.0 / 3.0, 1.0 / 3.0, 1.0 / 3.0]).unwrap();
    let input = [3.0, 3.0, 3.0, 3.0];
    let mut output = [0.0_f32; 4];
    fir.process_f32(&input, &mut output).unwrap();
    assert!((output[2] - 3.0).abs() < 1e-5);
    assert!((output[3] - 3.0).abs() < 1e-5);
}

#[test]
fn filter_test_fir_continuity_across_blocks() {
    check_fir_continuity_across_blocks();
}

#[test]
fn tests_test_fir_continuity_across_blocks() {
    check_fir_continuity_across_blocks();
}

fn check_fir_continuity_across_blocks() {
    let mut fir = FirFilter::new(vec![0.0, 1.0]).unwrap();
    let block1 = [1.0, 2.0];
    let block2 = [3.0, 4.0];
    let mut out1 = [0.0_f32; 2];
    let mut out2 = [0.0_f32; 2];
    fir.process_f32(&block1, &mut out1).unwrap();
    fir.process_f32(&block2, &mut out2).unwrap();
    assert!((out2[0] - 2.0).abs() < 1e-6);
    assert!((out2[1] - 3.0).abs() < 1e-6);
}

#[test]
fn filter_test_complex_fir_identity() {
    check_complex_fir_identity();
}

#[test]
fn tests_test_complex_fir_identity() {
    check_complex_fir_identity();
}

fn check_complex_fir_identity() {
    let mut fir = ComplexFirFilter::new(vec![1.0]).unwrap();
    let input = [Complex::new(1.0, 2.0), Complex::new(3.0, 4.0)];
    let mut output = [Complex::default(); 2];
    fir.process(&input, &mut output).unwrap();
    assert!((output[0].re - 1.0).abs() < 1e-6);
    assert!((output[0].im - 2.0).abs() < 1e-6);
    assert!((output[1].re - 3.0).abs() < 1e-6);
    assert!((output[1].im - 4.0).abs() < 1e-6);
}

#[test]
fn filter_test_complex_fir_delay() {
    check_complex_fir_delay();
}

#[test]
fn tests_test_complex_fir_delay() {
    check_complex_fir_delay();
}

fn check_complex_fir_delay() {
    let mut fir = ComplexFirFilter::new(vec![0.0, 1.0]).unwrap();
    let input = [Complex::new(1.0, 2.0), Complex::new(3.0, 4.0)];
    let mut output = [Complex::default(); 2];
    fir.process(&input, &mut output).unwrap();
    assert!((output[0].re).abs() < 1e-6);
    assert!((output[0].im).abs() < 1e-6);
    assert!((output[1].re - 1.0).abs() < 1e-6);
    assert!((output[1].im - 2.0).abs() < 1e-6);
}

#[test]
fn filter_test_complex_fir_set_taps() {
    check_complex_fir_set_taps();
}

#[test]
fn tests_test_complex_fir_set_taps() {
    check_complex_fir_set_taps();
}

fn check_complex_fir_set_taps() {
    let mut fir = ComplexFirFilter::new(vec![1.0]).unwrap();
    fir.set_taps(vec![0.0, 1.0]).unwrap();
    assert_eq!(fir.tap_count(), 2);
    let input = [Complex::new(1.0, 2.0), Complex::new(3.0, 4.0)];
    let mut output = [Complex::default(); 2];
    fir.process(&input, &mut output).unwrap();
    assert!((output[0].re).abs() < 1e-6);
    assert!((output[1].re - 1.0).abs() < 1e-6);
}

#[test]
fn filter_test_fir_set_taps_preserves_delay() {
    check_fir_set_taps_preserves_delay();
}

#[test]
fn tests_test_fir_set_taps_preserves_delay() {
    check_fir_set_taps_preserves_delay();
}

fn check_fir_set_taps_preserves_delay() {
    let mut fir = FirFilter::new(vec![0.0, 1.0]).unwrap();
    let input = [10.0, 20.0, 30.0];
    let mut output = [0.0_f32; 3];
    fir.process_f32(&input, &mut output).unwrap();

    fir.set_taps(vec![0.0, 0.0, 1.0]).unwrap();
    let input2 = [40.0, 50.0];
    let mut output2 = [0.0_f32; 2];
    fir.process_f32(&input2, &mut output2).unwrap();
    assert!(
        (output2[0]).abs() < 1e-6,
        "zero-extended position, got {}",
        output2[0]
    );
    assert!(
        (output2[1] - 30.0).abs() < 1e-6,
        "preserved delay sample, got {}",
        output2[1]
    );
}

#[test]
fn filter_test_fir_set_taps_same_length() {
    check_fir_set_taps_same_length();
}

#[test]
fn tests_test_fir_set_taps_same_length() {
    check_fir_set_taps_same_length();
}

fn check_fir_set_taps_same_length() {
    let mut fir = FirFilter::new(vec![0.0, 1.0]).unwrap();
    let input = [5.0, 10.0];
    let mut output = [0.0_f32; 2];
    fir.process_f32(&input, &mut output).unwrap();

    fir.set_taps(vec![1.0, 0.0]).unwrap();
    let input2 = [20.0];
    let mut output2 = [0.0_f32; 1];
    fir.process_f32(&input2, &mut output2).unwrap();
    assert!(
        (output2[0] - 20.0).abs() < 1e-6,
        "same-length tap swap, got {}",
        output2[0]
    );
}

#[test]
fn filter_test_complex_fir_set_taps_empty() {
    check_complex_fir_set_taps_empty();
}

#[test]
fn tests_test_complex_fir_set_taps_empty() {
    check_complex_fir_set_taps_empty();
}

fn check_complex_fir_set_taps_empty() {
    let mut fir = ComplexFirFilter::new(vec![1.0]).unwrap();
    assert!(fir.set_taps(vec![]).is_err());
}

#[test]
fn filter_test_fir_buffer_too_small() {
    check_fir_buffer_too_small();
}

#[test]
fn tests_test_fir_buffer_too_small() {
    check_fir_buffer_too_small();
}

fn check_fir_buffer_too_small() {
    let mut fir = FirFilter::new(vec![1.0]).unwrap();
    let input = [1.0, 2.0, 3.0];
    let mut output = [0.0_f32; 2];
    assert!(fir.process_f32(&input, &mut output).is_err());
}

#[test]
fn filter_test_decimating_fir_new_invalid() {
    check_decimating_fir_new_invalid();
}

#[test]
fn tests_test_decimating_fir_new_invalid() {
    check_decimating_fir_new_invalid();
}

fn check_decimating_fir_new_invalid() {
    assert!(DecimatingFirFilter::new(vec![], 2).is_err());
    assert!(DecimatingFirFilter::new(vec![1.0], 0).is_err());
}

#[test]
fn filter_test_decimating_fir_by_2() {
    check_decimating_fir_by_2();
}

#[test]
fn tests_test_decimating_fir_by_2() {
    check_decimating_fir_by_2();
}

fn check_decimating_fir_by_2() {
    let mut fir = DecimatingFirFilter::new(vec![1.0], 2).unwrap();
    let input = [1.0, 2.0, 3.0, 4.0, 5.0, 6.0];
    let mut output = [0.0_f32; 3];
    let count = fir.process_f32(&input, &mut output).unwrap();
    assert_eq!(count, 3);
    assert!((output[0] - 1.0).abs() < 1e-6);
    assert!((output[1] - 3.0).abs() < 1e-6);
    assert!((output[2] - 5.0).abs() < 1e-6);
}

#[test]
fn filter_test_decimating_fir_by_4() {
    check_decimating_fir_by_4();
}

#[test]
fn tests_test_decimating_fir_by_4() {
    check_decimating_fir_by_4();
}

fn check_decimating_fir_by_4() {
    let mut fir = DecimatingFirFilter::new(vec![1.0], 4).unwrap();
    let input = [1.0, 2.0, 3.0, 4.0, 5.0, 6.0, 7.0, 8.0];
    let mut output = [0.0_f32; 2];
    let count = fir.process_f32(&input, &mut output).unwrap();
    assert_eq!(count, 2);
    assert!((output[0] - 1.0).abs() < 1e-6);
    assert!((output[1] - 5.0).abs() < 1e-6);
}

#[test]
fn filter_test_deemphasis_new_invalid() {
    check_deemphasis_new_invalid();
}

#[test]
fn tests_test_deemphasis_new_invalid() {
    check_deemphasis_new_invalid();
}

fn check_deemphasis_new_invalid() {
    assert!(DeemphasisFilter::new::<F64>(0.0, 48_000.0).is_err());
    assert!(DeemphasisFilter::new::<F64>(-1.0, 48_000.0).is_err());
    assert!(DeemphasisFilter::new::<F64>(75e-6, 0.0).is_err());
    assert!(DeemphasisFilter::new::<F64>(f64::NAN, 48_000.0).is_err());
}

#[test]
fn filter_test_deemphasis_dc_passthrough() {
    check_deemphasis_dc_passthrough();
}

#[test]
fn tests_test_deemphasis_dc_passthrough() {
    check_deemphasis_dc_passthrough();
}

fn check_deemphasis_dc_passthrough() {
    let mut deemph = DeemphasisFilter::new::<F64>(DEEMPHASIS_TAU_US, 48_000.0).unwrap();
    let input = vec![1.0_f32; 1000];
    let mut output = vec![0.0_f32; 1000];
    deemph.process(&input, &mut output).unwrap();
    assert!(
        (output[999] - 1.0).abs() < 0.01,
        "DC should converge to 1.0, got {}",
        output[999]
    );
}

#[test]
fn filter_test_deemphasis_high_freq_attenuation() {
    check_deemphasis_high_freq_attenuation();
}

#[test]
fn tests_test_deemphasis_high_freq_attenuation() {
    check_deemphasis_high_freq_attenuation();
}

fn check_deemphasis_high_freq_attenuation() {
    let mut deemph = DeemphasisFilter::new::<F64>(DEEMPHASIS_TAU_US, 48_000.0).unwrap();
    let input: Vec<f32> = (0..1000)
        .map(|i| if i % 2 == 0 { 1.0 } else { -1.0 })
        .collect();
    let mut output = vec![0.0_f32; 1000];
    deemph.process(&input, &mut output).unwrap();
    let peak_out = output[500..]
        .iter()
        .map(|x| x.abs())
        .fold(0.0_f32, f32::max);
    assert!(
        peak_out < 0.5,
        "high freq should be attenuated, peak = {peak_out}"
    );
}

#[test]
fn filter_test_deemphasis_reset() {
    check_deemphasis_reset();
}

#[test]
fn tests_test_deemphasis_reset() {
    check_deemphasis_reset();
}

fn check_deemphasis_reset() {
    let mut deemph = DeemphasisFilter::new::<F64>(DEEMPHASIS_TAU_US, 48_000.0).unwrap();
    let input = [1.0_f32; 100];
    let mut output = [0.0_f32; 100];
    deemph.process(&input, &mut output).unwrap();
    deemph.reset();
    let zeros = [0.0_f32; 10];
    let mut out2 = [0.0_f32; 10];
    deemph.process(&zeros, &mut out2).unwrap();
    assert!((out2[0]).abs() < 1e-6, "after reset, output should be 0");
}

#[test]
fn filter_test_deemphasis_buffer_too_small() {
    check_deemphasis_buffer_too_small();
}

#[test]
fn tests_test_deemphasis_buffer_too_small() {
    check_deemphasis_buffer_too_small();
}

fn check_deemphasis_buffer_too_small() {
    let mut deemph = DeemphasisFilter::new::<F64>(DEEMPHASIS_TAU_US, 48_000.0).unwrap();
    let input = [1.0_f32; 10];
    let mut output = [0.0_f32; 5];
    assert!(deemph.process(&input, &mut output).is_err());
}

#[test]
fn filter_test_notch_new_defaults() {
    check_notch_new_defaults();
}

#[test]
fn tests_test_notch_new_defaults() {
    check_notch_new_defaults();
}

fn check_notch_new_defaults() {
    let notch = NotchFilter::new(48_000.0);
    assert!(!notch.enabled());
    assert!((notch.frequency() - 60.0).abs() < f32::EPSILON);
}

#[test]
fn filter_test_notch_disabled_passthrough() {
    check_notch_disabled_passthrough();
}

#[test]
fn tests_test_notch_disabled_passthrough() {
    check_notch_disabled_passthrough();
}

fn check_notch_disabled_passthrough() {
    let mut notch = NotchFilter::new(48_000.0);
    let input = [1.0, 2.0, 3.0, 4.0, 5.0];
    let mut output = [0.0_f32; 5];
    let count = notch.process(&input, &mut output).unwrap();
    assert_eq!(count, 5);
    for i in 0..5 {
        assert!(
            (output[i] - input[i]).abs() < 1e-6,
            "disabled notch should passthrough: output[{i}] = {}, expected {}",
            output[i],
            input[i]
        );
    }
}

#[test]
fn filter_test_notch_buffer_too_small() {
    check_notch_buffer_too_small();
}

#[test]
fn tests_test_notch_buffer_too_small() {
    check_notch_buffer_too_small();
}

fn check_notch_buffer_too_small() {
    let mut notch = NotchFilter::new(48_000.0);
    notch.set_enabled(true);
    let input = [1.0_f32; 10];
    let mut output = [0.0_f32; 5];
    assert!(notch.process(&input, &mut output).is_err());
}

#[test]
fn filter_test_notch_coefficients_symmetry() {
    check_notch_coefficients_symmetry();
}

#[test]
fn tests_test_notch_coefficients_symmetry() {
    check_notch_coefficients_symmetry();
}

fn check_notch_coefficients_symmetry() {
    let notch = NotchFilter::new(48_000.0);
    assert!(
        (notch.b0 - notch.b2).abs() < 1e-6,
        "b0 ({}) should equal b2 ({})",
        notch.b0,
        notch.b2
    );
    assert!(
        (notch.b1 - notch.a1).abs() < 1e-6,
        "b1 ({}) should equal a1 ({})",
        notch.b1,
        notch.a1
    );
}

#[test]
fn filter_test_notch_attenuates_target_frequency() {
    check_notch_attenuates_target_frequency();
}

#[test]
fn tests_test_notch_attenuates_target_frequency() {
    check_notch_attenuates_target_frequency();
}

fn check_notch_attenuates_target_frequency() {
    let sample_rate = 48_000.0_f32;
    let freq = 60.0_f32;
    let num_samples = 48_000;
    let input: Vec<f32> = (0..num_samples)
        .map(|i| (core::f32::consts::TAU * freq * (i as f32) / sample_rate).sin())
        .collect();
    let mut output = vec![0.0_f32; num_samples];

    let mut notch = NotchFilter::new(sample_rate);
    notch.set_frequency(freq);
    notch.set_enabled(true);
    notch.process(&input, &mut output).unwrap();

    let rms_in: f32 = (input[num_samples / 2..].iter().map(|x| x * x).sum::<f32>()
        / (num_samples / 2) as f32)
        .sqrt();
    let rms_out: f32 = (output[num_samples / 2..].iter().map(|x| x * x).sum::<f32>()
        / (num_samples / 2) as f32)
        .sqrt();

    let attenuation_db = 20.0 * (rms_out / rms_in).log10();
    assert!(
        attenuation_db < -25.0,
        "60 Hz should be attenuated by >25 dB, got {attenuation_db:.1} dB"
    );
}

#[test]
fn filter_test_notch_passes_other_frequencies() {
    check_notch_passes_other_frequencies();
}

#[test]
fn tests_test_notch_passes_other_frequencies() {
    check_notch_passes_other_frequencies();
}

fn check_notch_passes_other_frequencies() {
    let sample_rate = 48_000.0_f32;
    let freq = 1000.0_f32;
    let num_samples = 48_000;
    let input: Vec<f32> = (0..num_samples)
        .map(|i| (core::f32::consts::TAU * freq * (i as f32) / sample_rate).sin())
        .collect();
    let mut output = vec![0.0_f32; num_samples];

    let mut notch = NotchFilter::new(sample_rate);
    notch.set_frequency(60.0);
    notch.set_enabled(true);
    notch.process(&input, &mut output).unwrap();

    let rms_in: f32 = (input[num_samples / 2..].iter().map(|x| x * x).sum::<f32>()
        / (num_samples / 2) as f32)
        .sqrt();
    let rms_out: f32 = (output[num_samples / 2..].iter().map(|x| x * x).sum::<f32>()
        / (num_samples / 2) as f32)
        .sqrt();

    let attenuation_db = 20.0 * (rms_out / rms_in).log10();
    assert!(
        attenuation_db > -1.0,
        "1000 Hz should pass with < 1 dB loss, got {attenuation_db:.2} dB"
    );
}

#[test]
fn filter_test_notch_reset_clears_state() {
    check_notch_reset_clears_state();
}

#[test]
fn tests_test_notch_reset_clears_state() {
    check_notch_reset_clears_state();
}

fn check_notch_reset_clears_state() {
    let mut notch = NotchFilter::new(48_000.0);
    notch.set_enabled(true);
    let input = [1.0_f32; 100];
    let mut output = [0.0_f32; 100];
    notch.process(&input, &mut output).unwrap();

    notch.reset();
    let zeros = [0.0_f32; 10];
    let mut out2 = [0.0_f32; 10];
    notch.process(&zeros, &mut out2).unwrap();
    for (i, &v) in out2.iter().enumerate() {
        assert!(
            v.abs() < 1e-6,
            "after reset, output[{i}] should be ~0, got {v}"
        );
    }
}

#[test]
fn filter_test_notch_set_frequency_updates_coefficients() {
    check_notch_set_frequency_updates_coefficients();
}

#[test]
fn tests_test_notch_set_frequency_updates_coefficients() {
    check_notch_set_frequency_updates_coefficients();
}

fn check_notch_set_frequency_updates_coefficients() {
    let mut notch = NotchFilter::new(48_000.0);
    let old_b1 = notch.b1;
    notch.set_frequency(1000.0);
    assert!(
        (notch.b1 - old_b1).abs() > 1e-6,
        "b1 should change after set_frequency"
    );
    assert!((notch.frequency() - 1000.0).abs() < f32::EPSILON);
}

#[test]
fn filters_name_the_fault() {
    assert_eq!(
        FirFilter::new(Vec::new()).err(),
        Some(DspError::InvalidParameter("FIR taps must not be empty".to_string()))
    );
    assert_eq!(
        DecimatingFirFilter::new(vec![1.0], 0).err(),
        Some(DspError::InvalidParameter("decimation must be > 0".to_string()))
    );
    assert_eq!(
        DeemphasisFilter::new::<F64>(0.0, 48_000.0).err(),
        Some(DspError::InvalidParameter("tau must be positive and finite, got 0".to_string()))
    );
    assert_eq!(
        DeemphasisFilter::new::<F64>(DEEMPHASIS_TAU_US, 0.0).err(),
        Some(DspError::InvalidParameter("sample_rate must be positive and finite, got 0".to_string()))
    );
    let mut fir = FirFilter::new(vec![1.0, 2.0]).unwrap();
    let mut out = [0.0; 1];
    assert_eq!(
        fir.process_f32(&[1.0, 2.0, 3.0], &mut out),
        Err(DspError::BufferTooSmall { need: 3, got: 1 })
    );
}

#[test]
fn fir_values_are_weighted_sums() {
    let mut fir = FirFilter::new(vec![1.0, 10.0, 100.0]).unwrap();
    let mut out = [0.0; 4];
    assert_eq!(fir.process_f32(&[1.0, 2.0, 3.0, 4.0], &mut out), Ok(4));
    assert_eq!(out, [1.0, 12.0, 123.0, 234.0]);
    let mut kept = DecimatingFirFilter::new(vec![1.0, 10.0, 100.0], 2).unwrap();
    let mut half = [0.0; 2];
    assert_eq!(kept.process_f32(&[1.0, 2.0, 3.0, 4.0], &mut half), Ok(2));
    assert_eq!(half, [1.0, 123.0]);
}

#[test]
fn deemphasis_times_are_microseconds() {
    assert_eq!(deemphasis_tau_us::<F64>(), 75e-6);
    assert_eq!(deemphasis_tau_eu::<F64>(), 50e-6);
    let mut f = DeemphasisFilter::new::<F64>(DEEMPHASIS_TAU_US, 48_000.0).unwrap();
    let alpha = f.alpha;
    f.set_tau::<F64>(50e-6, 48_000.0).unwrap();
    assert!(f.alpha > alpha);
}

#[test]
fn decimation_does_not_depend_on_the_chunks() {
    let input: Vec<f32> = (0..50).map(|i| (i * i % 17) as f32).collect();
    let taps = vec![0.5, -1.0, 2.0, 0.25];
    let mut whole = DecimatingFirFilter::new(taps.clone(), 3).unwrap();
    let mut one = vec![0.0; 50];
    let n = whole.process_f32(&input, &mut one).unwrap();
    let mut split = DecimatingFirFilter::new(taps, 3).unwrap();
    let mut many = Vec::new();
    let mut out = vec![0.0; 50];
    for chunk in input.chunks(7) {
        let k = split.process_f32(chunk, &mut out).unwrap();
        many.extend_from_slice(&out[..k]);
    }
    assert_eq!(&one[..n], &many[..]);
}
