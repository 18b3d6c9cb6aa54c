//! Tuning, control loops, corrections and demodulators on machine floats.

use sdr_dsp::arith::{Arithmetic, Widening};
use sdr_dsp::correction::iq_correction_default_rate;
use sdr_dsp::decim_taps::{plan_stages, DecimTables, PLAN_COUNT};
use sdr_dsp::demod::SsbMode;
use sdr_dsp::math::normalize_phase;
use sdr_dsp::taps::low_pass;
use sdr_dsp::types;
use sdr_dsp::types::DspError;
use std::f32::consts::PI;

type Complex = types::Complex<f32>;
type Stereo = types::Stereo<f32>;
type FrequencyXlator = sdr_dsp::channel::FrequencyXlator<F32>;
type RxVfo = sdr_dsp::channel::RxVfo<F32, F64>;
type PhaseControlLoop = sdr_dsp::loops::PhaseControlLoop<F32>;
type Agc = sdr_dsp::loops::Agc<F32>;
type Pll = sdr_dsp::loops::Pll<F32>;
type DcBlocker = sdr_dsp::correction::DcBlocker<F32>;
type IqCorrector = sdr_dsp::correction::IqCorrector<F32>;
type Quadrature = sdr_dsp::demod::Quadrature<F32>;
type AmDemod = sdr_dsp::demod::AmDemod<F32>;
type FmDemod = sdr_dsp::demod::FmDemod<F32>;
type BroadcastFmDemod = sdr_dsp::demod::BroadcastFmDemod<F32>;
type SsbDemod = sdr_dsp::demod::SsbDemod<F32, F64>;
type CwDemod = sdr_dsp::demod::CwDemod<F32>;
type FmStereoDecoder = sdr_dsp::stereo::FmStereoDecoder<F32>;

/// Arithmetic on `f32`.
struct F32;

impl Arithmetic for F32 {
    type R = f32;

    fn integer(n: i64) -> f32 {
        n as f32
    }
    fn count(n: usize) -> f32 {
        n as f32
    }
    fn fraction(n: i64, d: i64) -> f32 {
        n as f32 / d as f32
    }
    fn plus(a: f32, b: f32) -> f32 {
        a + b
    }
    fn minus(a: f32, b: f32) -> f32 {
        a - b
    }
    fn times(a: f32, b: f32) -> f32 {
        a * b
    }
    fn over(a: f32, b: f32) -> f32 {
        a / b
    }
    fn mul_add(a: f32, b: f32, c: f32) -> f32 {
        a.mul_add(b, c)
    }
    fn midpoint(a: f32, b: f32) -> f32 {
        f32::midpoint(a, b)
    }
    fn neg(a: f32) -> f32 {
        -a
    }
    fn abs(a: f32) -> f32 {
        a.abs()
    }
    fn signum(a: f32) -> f32 {
        a.signum()
    }
    fn min(a: f32, b: f32) -> f32 {
        a.min(b)
    }
    fn max(a: f32, b: f32) -> f32 {
        a.max(b)
    }
    fn floor(a: f32) -> f32 {
        a.floor()
    }
    fn round(a: f32) -> f32 {
        a.round()
    }
    fn rem_euclid(a: f32, b: f32) -> f32 {
        a.rem_euclid(b)
    }
    fn sqrt(a: f32) -> f32 {
        a.sqrt()
    }
    fn sin(a: f32) -> f32 {
        a.sin()
    }
    fn cos(a: f32) -> f32 {
        a.cos()
    }
    fn atan2(y: f32, x: f32) -> f32 {
        y.atan2(x)
    }
    fn exp(a: f32) -> f32 {
        a.exp()
    }
    fn exp10(a: f32) -> f32 {
        (10.0 as f32).powf(a)
    }
    fn log10(a: f32) -> f32 {
        a.log10()
    }
    fn log2(a: f32) -> f32 {
        a.log2()
    }
    fn tanh(a: f32) -> f32 {
        a.tanh()
    }
    fn pi() -> f32 {
        std::f32::consts::PI
    }
    fn frac_1_sqrt_2() -> f32 {
        std::f32::consts::FRAC_1_SQRT_2
    }
    fn min_positive() -> f32 {
        f32::MIN_POSITIVE
    }
    fn neg_infinity() -> f32 {
        f32::NEG_INFINITY
    }
    fn nan() -> f32 {
        f32::NAN
    }
    fn lt(a: f32, b: f32) -> bool {
        a < b
    }
    fn le(a: f32, b: f32) -> bool {
        a <= b
    }
    fn same(a: f32, b: f32) -> bool {
        a == b
    }
    fn is_finite(a: f32) -> bool {
        a.is_finite()
    }
    fn to_i64(a: f32) -> i64 {
        a as i64
    }
    fn to_u64(a: f32) -> u64 {
        a as u64
    }
    fn to_text(a: f32) -> String {
        a.to_string()
    }
}

/// Arithmetic on `f64`.
struct F64;

impl Arithmetic for F64 {
    type R = f64;

    fn integer(n: i64) -> f64 {
        n as f64
    }
    fn count(n: usize) -> f64 {
        n as f64
    }
    fn fraction(n: i64, d: i64) -> f64 {
        n as f64 / d as f64
    }
    fn plus(a: f64, b: f64) -> f64 {
        a + b
    }
    fn minus(a: f64, b: f64) -> f64 {
        a - b
    }
    fn times(a: f64, b: f64) -> f64 {
        a * b
    }
    fn over(a: f64, b: f64) -> f64 {
        a / b
    }
    fn mul_add(a: f64, b: f64, c: f64) -> f64 {
        a.mul_add(b, c)
    }
    fn midpoint(a: f64, b: f64) -> f64 {
        f64::midpoint(a, b)
    }
    fn neg(a: f64) -> f64 {
        -a
    }
    fn abs(a: f64) -> f64 {
        a.abs()
    }
    fn signum(a: f64) -> f64 {
        a.signum()
    }
    fn min(a: f64, b: f64) -> f64 {
        a.min(b)
    }
    fn max(a: f64, b: f64) -> f64 {
        a.max(b)
    }
    fn floor(a: f64) -> f64 {
        a.floor()
    }
    fn round(a: f64) -> f64 {
        a.round()
    }
    fn rem_euclid(a: f64, b: f64) -> f64 {
        a.rem_euclid(b)
    }
    fn sqrt(a: f64) -> f64 {
        a.sqrt()
    }
    fn sin(a: f64) -> f64 {
        a.sin()
    }
    fn cos(a: f64) -> f64 {
        a.cos()
    }
    fn atan2(y: f64, x: f64) -> f64 {
        y.atan2(x)
    }
    fn exp(a: f64) -> f64 {
        a.exp()
    }
    fn exp10(a: f64) -> f64 {
        (10.0 as f64).powf(a)
    }
    fn log10(a: f64) -> f64 {
        a.log10()
    }
    fn log2(a: f64) -> f64 {
        a.log2()
    }
    fn tanh(a: f64) -> f64 {
        a.tanh()
    }
    fn pi() -> f64 {
        std::f64::consts::PI
    }
    fn frac_1_sqrt_2() -> f64 {
        std::f64::consts::FRAC_1_SQRT_2
    }
    fn min_positive() -> f64 {
        f64::MIN_POSITIVE
    }
    fn neg_infinity() -> f64 {
        f64::NEG_INFINITY
    }
    fn nan() -> f64 {
        f64::NAN
    }
    fn lt(a: f64, b: f64) -> bool {
        a < b
    }
    fn le(a: f64, b: f64) -> bool {
        a <= b
    }
    fn same(a: f64, b: f64) -> bool {
        a == b
    }
    fn is_finite(a: f64) -> bool {
        a.is_finite()
    }
    fn to_i64(a: f64) -> i64 {
        a as i64
    }
    fn to_u64(a: f64) -> u64 {
        a as u64
    }
    fn to_text(a: f64) -> String {
        a.to_string()
    }
}

impl Widening<F32> for F64 {
    fn narrow(a: f64) -> f32 {
        a as f32
    }
    fn widen(a: f32) -> f64 {
        f64::from(a)
    }
}

trait Polar {
    fn amplitude(&self) -> f32;
    fn phase(&self) -> f32;
}

impl Polar for Complex {
    fn amplitude(&self) -> f32 {
        (self.re * self.re + self.im * self.im).sqrt()
    }
    fn phase(&self) -> f32 {
        self.im.atan2(self.re)
    }
}

/// Low-pass filters with room below the Nyquist rate of their first stage.
fn tables() -> DecimTables<F32> {
    let mut all = Vec::new();
    for i in 0..PLAN_COUNT {
        let d = plan_stages(i)[0].decimation as f64;
        all.push(low_pass::<F32, F64>(0.4 / d, 0.2 / d, 1.0, true).unwrap());
    }
    DecimTables::new(all).unwrap()
}


#[test]
fn test_xlator_dc_passthrough() {
    let mut xlator = FrequencyXlator::new(0.0);
    let input = vec![Complex::new(1.0, 0.0); 100];
    let mut output = vec![Complex::default(); 100];
    xlator.process(&input, &mut output).unwrap();
    for (i, &s) in output.iter().enumerate() {
        assert!(
            (s.re - 1.0).abs() < 1e-4,
            "sample {i}: expected ~1.0, got {}",
            s.re
        );
    }
}

#[test]
fn test_xlator_shifts_frequency() {
    let offset = 0.1_f32;
    let mut xlator = FrequencyXlator::new(offset);
    let input = vec![Complex::new(1.0, 0.0); 100];
    let mut output = vec![Complex::default(); 100];
    xlator.process(&input, &mut output).unwrap();
    for s in &output {
        assert!(
            (s.amplitude() - 1.0).abs() < 1e-4,
            "amplitude should be ~1.0"
        );
    }
    let phase_diff = output[50].phase() - output[49].phase();
    let normalized = normalize_phase::<F32>(phase_diff);
    assert!(
        (normalized - offset).abs() < 0.02,
        "phase advance should be ~{offset}, got {normalized}"
    );
}

#[test]
fn test_xlator_reset() {
    let mut xlator = FrequencyXlator::new(0.5);
    let input = vec![Complex::new(1.0, 0.0); 100];
    let mut output = vec![Complex::default(); 100];
    xlator.process(&input, &mut output).unwrap();
    xlator.reset();
    xlator.process(&input[..1], &mut output[..1]).unwrap();
    assert!(
        output[0].phase().abs() < 0.01,
        "after reset, phase should be ~0"
    );
}

#[test]
fn test_rxvfo_basic() {
    let mut vfo = RxVfo::new(48_000.0, 8_000.0, 6_000.0, 0.0, &tables()).unwrap();
    let input = vec![Complex::new(1.0, 0.0); 4800];
    let mut output = vec![Complex::default(); 4800];
    let count = vfo.process(&input, &mut output).unwrap();
    assert!(
        count >= 600 && count <= 1000,
        "expected ~800 samples, got {count}"
    );
}

#[test]
fn test_rxvfo_passthrough_rate() {
    let mut vfo = RxVfo::new(48_000.0, 48_000.0, 48_000.0, 0.0, &tables()).unwrap();
    let input = vec![Complex::new(1.0, 0.0); 1000];
    let mut output = vec![Complex::default(); 1100];
    let count = vfo.process(&input, &mut output).unwrap();
    assert_eq!(count, 1000);
}

#[test]
fn test_rxvfo_with_offset() {
    let mut vfo = RxVfo::new(48_000.0, 48_000.0, 48_000.0, 1_000.0, &tables()).unwrap();
    let input = vec![Complex::new(1.0, 0.0); 1000];
    let mut output = vec![Complex::default(); 1100];
    let count = vfo.process(&input, &mut output).unwrap();
    assert_eq!(count, 1000);
    let crossings = output[100..count]
        .windows(2)
        .filter(|w| (w[0].re >= 0.0) != (w[1].re >= 0.0))
        .count();
    assert!(
        crossings > 10,
        "offset signal should oscillate, got {crossings} crossings"
    );
}

#[test]
fn test_xlator_buffer_too_small() {
    let mut xlator = FrequencyXlator::new(0.0);
    let input = [Complex::default(); 10];
    let mut output = [Complex::default(); 5];
    assert!(xlator.process(&input, &mut output).is_err());
}

#[test]
fn test_xlator_output_is_unit_amplitude() {
    let mut xlator = FrequencyXlator::new(PI / 4.0);
    let input = vec![Complex::new(1.0, 0.0); 500];
    let mut output = vec![Complex::default(); 500];
    xlator.process(&input, &mut output).unwrap();
    for (i, s) in output.iter().enumerate() {
        assert!(
            (s.amplitude() - 1.0).abs() < 1e-3,
            "sample {i}: amplitude {}, expected ~1.0",
            s.amplitude()
        );
    }
}


#[test]
fn test_pcl_critically_damped() {
    let (alpha, beta) = PhaseControlLoop::critically_damped(0.1);
    assert!(alpha > 0.0 && alpha < 1.0);
    assert!(beta > 0.0 && beta < 1.0);
    assert!(alpha > beta, "alpha should be > beta for stability");
}

#[test]
fn test_agc_new_invalid() {
    assert!(Agc::new(0.0, 0.1, 0.01, 100.0, 2.0, 1.0).is_err());
    assert!(Agc::new(1.0, 0.1, 0.01, 100.0, 2.0, 0.0).is_err());
}

#[test]
fn test_agc_normalizes_amplitude() {
    let mut agc = Agc::new(1.0, 0.1, 0.01, 1000.0, 10.0, 1.0).unwrap();
    let input = vec![Complex::new(0.1, 0.0); 1000];
    let mut output = vec![Complex::default(); 1000];
    agc.process_complex(&input, &mut output).unwrap();
    let last_amp = output[999].amplitude();
    assert!(
        last_amp > 0.5,
        "AGC should amplify toward set_point, got {last_amp}"
    );
}

#[test]
fn test_agc_f32() {
    let mut agc = Agc::new(1.0, 0.1, 0.01, 1000.0, 10.0, 1.0).unwrap();
    let input = vec![0.1_f32; 1000];
    let mut output = vec![0.0_f32; 1000];
    agc.process_f32(&input, &mut output).unwrap();
    let last = output[999].abs();
    assert!(last > 0.5, "AGC should amplify, got {last}");
}

#[test]
fn test_agc_reset() {
    let mut agc = Agc::new(1.0, 0.1, 0.01, 1000.0, 10.0, 1.0).unwrap();
    let input = vec![Complex::new(10.0, 0.0); 100];
    let mut output = vec![Complex::default(); 100];
    agc.process_complex(&input, &mut output).unwrap();
    agc.reset();
    assert!(
        (agc.amp - 1.0).abs() < 0.1,
        "after reset, amp should be ~1.0"
    );
}

#[test]
fn test_pll_locks_to_tone() {
    let freq = 0.1_f32;
    let input: Vec<Complex> = (0..2000)
        .map(|i| {
            let phase = freq * i as f32;
            Complex::new(phase.cos(), phase.sin())
        })
        .collect();

    let mut pll = Pll::new(0.01, 0.0, 0.0, -PI, PI).unwrap();
    let mut output = vec![Complex::default(); 2000];
    pll.process(&input, &mut output).unwrap();

    let pll_freq = pll.frequency();
    assert!(
        (pll_freq - freq).abs() < 0.02,
        "PLL should lock to {freq}, got {pll_freq}"
    );
}

#[test]
fn test_pll_output_is_unit_phasor() {
    let input = vec![Complex::new(1.0, 0.0); 100];
    let mut pll = Pll::new(0.01, 0.0, 0.0, -PI, PI).unwrap();
    let mut output = vec![Complex::default(); 100];
    pll.process(&input, &mut output).unwrap();
    for (i, s) in output.iter().enumerate() {
        let amp = s.amplitude();
        assert!(
            (amp - 1.0).abs() < 1e-5,
            "output[{i}] amplitude should be ~1.0, got {amp}"
        );
    }
}

#[test]
fn test_pll_reset() {
    let mut pll = Pll::new(0.01, 0.0, 0.0, -PI, PI).unwrap();
    let input = vec![Complex::new(1.0, 0.0); 100];
    let mut output = vec![Complex::default(); 100];
    pll.process(&input, &mut output).unwrap();
    pll.reset();
    assert!((pll.phase() - 0.0).abs() < 1e-6);
    assert!((pll.frequency() - 0.0).abs() < 1e-6);
}


#[test]
fn test_dc_blocker_new_invalid() {
    assert!(DcBlocker::new::<F64>(0.0).is_err());
    assert!(DcBlocker::new::<F64>(-0.1).is_err());
    assert!(DcBlocker::new::<F64>(1.0).is_err());
    assert!(DcBlocker::new::<F64>(f64::NAN).is_err());
}

#[test]
fn test_dc_blocker_removes_offset() {
    let mut dc = DcBlocker::new::<F64>(0.01).unwrap();
    let input = vec![Complex::new(5.5, 3.0); 5000];
    let mut output = vec![Complex::default(); 5000];
    dc.process(&input, &mut output).unwrap();
    let last = output[4999];
    assert!(
        last.re.abs() < 0.5,
        "DC should be removed, re = {}",
        last.re
    );
}

#[test]
fn test_dc_blocker_perfect_dc_rejection() {
    let mut dc = DcBlocker::new::<F64>(0.001).unwrap();
    let input = vec![Complex::new(1.0, 0.5); 50_000];
    let mut output = vec![Complex::default(); 50_000];
    dc.process(&input, &mut output).unwrap();
    let last = output[49_999];
    assert!(
        last.re.abs() < 0.01,
        "DC should be perfectly rejected, re = {}",
        last.re
    );
}

#[test]
fn test_dc_blocker_passes_ac() {
    let mut dc = DcBlocker::new::<F64>(0.001).unwrap();
    let input: Vec<Complex> = (0..2000)
        .map(|i| {
            let v = if i % 2 == 0 { 1.0 } else { -1.0 };
            Complex::new(v, 0.0)
        })
        .collect();
    let mut output = vec![Complex::default(); 2000];
    dc.process(&input, &mut output).unwrap();
    let peak = output[1000..]
        .iter()
        .map(|s| s.re.abs())
        .fold(0.0_f32, f32::max);
    assert!(peak > 0.9, "AC should be preserved, peak = {peak}");
}

#[test]
fn test_dc_blocker_reset() {
    let mut dc = DcBlocker::new::<F64>(0.01).unwrap();
    let input = vec![Complex::new(10.0, 0.0); 100];
    let mut output = vec![Complex::default(); 100];
    dc.process(&input, &mut output).unwrap();
    dc.reset();
    let zeros = vec![Complex::new(0.0, 0.0); 10];
    let mut out2 = vec![Complex::default(); 10];
    dc.process(&zeros, &mut out2).unwrap();
    assert!(out2[0].re.abs() < 1e-6, "after reset, output should be ~0");
}

const IQ_TEST_LEN: usize = 65_536;
const IQ_TEST_TONE_DIV: usize = 8;
const IQ_TEST_TAIL_LEN: usize = 8_192;
#[allow(clippy::cast_possible_wrap)]
const IQ_TEST_TAIL_TONE_BIN: i64 = (IQ_TEST_TAIL_LEN / IQ_TEST_TONE_DIV) as i64;
const IQ_TEST_GAIN_ERR: f32 = 0.10;
const IQ_TEST_PHASE_ERR: f32 = 0.10;
const IQ_TEST_PASSES: usize = 5;
const IQ_TEST_MIN_IMPROVEMENT_DB: f32 = 20.0;
const IQ_TEST_SHORT_LEN: usize = 4_096;
const IQ_TEST_RESET_LEN: usize = 16_384;
const IQ_TEST_PASSTHROUGH_TOL: f32 = 1e-3;
const IQ_TEST_OVERSCALE_AMPLITUDE: f32 = 400.0;
const IQ_TEST_OVERSCALE_LEN: usize = 64;

fn imbalanced_tone(n: usize, tone_div: usize, gain_err: f32, phase_err: f32) -> Vec<Complex> {
    let cycles = (n / tone_div) as f32;
    (0..n)
        .map(|i| {
            let theta = 2.0 * std::f32::consts::PI * cycles * i as f32 / n as f32;
            Complex::new((1.0 + gain_err) * theta.cos(), (theta + phase_err).sin())
        })
        .collect()
}

fn bin_power(x: &[Complex], k: i64) -> f32 {
    let n = x.len() as f32;
    let (mut re, mut im) = (0.0_f32, 0.0_f32);
    for (i, s) in x.iter().enumerate() {
        let a = -2.0 * std::f32::consts::PI * k as f32 * i as f32 / n;
        re += s.re * a.cos() - s.im * a.sin();
        im += s.re * a.sin() + s.im * a.cos();
    }
    (re * re + im * im) / (n * n)
}

fn image_ratio(x: &[Complex]) -> f32 {
    let tail = &x[x.len() - IQ_TEST_TAIL_LEN..];
    bin_power(tail, -IQ_TEST_TAIL_TONE_BIN) / bin_power(tail, IQ_TEST_TAIL_TONE_BIN)
}

#[test]
fn dc_blocker_rejects_rate_that_vanishes_in_f32() {
    assert!(DcBlocker::new::<F64>(1e-50).is_err());
    assert!(DcBlocker::new::<F64>(f64::MIN_POSITIVE).is_err());
    assert!(DcBlocker::new::<F64>(1e-4).is_ok());
}

#[test]
fn iq_corrector_rejects_invalid_rate() {
    assert!(IqCorrector::new::<F64>(0.0).is_err());
    assert!(IqCorrector::new::<F64>(-1e-5).is_err());
    assert!(IqCorrector::new::<F64>(f64::NAN).is_err());
    assert!(IqCorrector::new::<F64>(1.5).is_err());
    assert!(IqCorrector::new::<F64>(iq_correction_default_rate::<F64>()).is_ok());
    assert!(IqCorrector::new::<F64>(f64::MIN_POSITIVE).is_err());
    assert!(IqCorrector::new::<F64>(1e-50).is_err());
    assert!(IqCorrector::new::<F64>(1.0 - 1e-12).is_err());
}

#[test]
fn iq_corrector_improves_image_rejection() {
    let input = imbalanced_tone(
        IQ_TEST_LEN,
        IQ_TEST_TONE_DIV,
        IQ_TEST_GAIN_ERR,
        IQ_TEST_PHASE_ERR,
    );
    let before = image_ratio(&input);

    let mut corr = IqCorrector::new::<F64>(iq_correction_default_rate::<F64>()).unwrap();
    let mut output = vec![Complex::default(); IQ_TEST_LEN];
    for _ in 0..IQ_TEST_PASSES {
        let n = corr.process(&input, &mut output).unwrap();
        assert_eq!(n, IQ_TEST_LEN);
    }
    let after = image_ratio(&output);

    let improvement_db = 10.0 * (before / after).log10();
    assert!(
        improvement_db > IQ_TEST_MIN_IMPROVEMENT_DB,
        "image rejection should improve by > {IQ_TEST_MIN_IMPROVEMENT_DB} dB once converged, got {improvement_db:.1} dB (before {before:e}, after {after:e})"
    );
}

#[test]
fn iq_corrector_passes_balanced_signal_unchanged() {
    let input = imbalanced_tone(IQ_TEST_SHORT_LEN, IQ_TEST_TONE_DIV, 0.0, 0.0);
    let mut corr = IqCorrector::new::<F64>(iq_correction_default_rate::<F64>()).unwrap();
    let mut output = vec![Complex::default(); IQ_TEST_SHORT_LEN];
    corr.process(&input, &mut output).unwrap();
    for (a, b) in input.iter().zip(&output) {
        assert!(
            (a.re - b.re).abs() < IQ_TEST_PASSTHROUGH_TOL
                && (a.im - b.im).abs() < IQ_TEST_PASSTHROUGH_TOL
        );
    }
}

#[test]
fn iq_corrector_reset_clears_estimate() {
    let input = imbalanced_tone(IQ_TEST_RESET_LEN, IQ_TEST_TONE_DIV, 0.2, 0.0);
    let mut corr = IqCorrector::new::<F64>(iq_correction_default_rate::<F64>()).unwrap();
    let mut output = vec![Complex::default(); input.len()];
    corr.process(&input, &mut output).unwrap();
    assert!(corr.correction().amplitude() > 0.0);
    corr.reset();
    assert!(corr.correction().amplitude() < f32::EPSILON);
}

#[test]
fn iq_corrector_recovers_from_overscaled_input() {
    let mut corr = IqCorrector::new::<F64>(iq_correction_default_rate::<F64>()).unwrap();
    let blast = vec![Complex::new(IQ_TEST_OVERSCALE_AMPLITUDE, 0.0); IQ_TEST_OVERSCALE_LEN];
    let mut out = vec![Complex::default(); IQ_TEST_OVERSCALE_LEN];
    corr.process(&blast, &mut out).unwrap();
    assert!(
        out.iter().all(|s| s.re.is_finite() && s.im.is_finite()),
        "output must stay finite during an over-scaled block"
    );
    assert!(
        corr.correction().re.is_finite() && corr.correction().im.is_finite(),
        "estimate must be finite after an over-scaled block, got {:?}",
        corr.correction()
    );

    let input = imbalanced_tone(IQ_TEST_SHORT_LEN, IQ_TEST_TONE_DIV, 0.0, 0.0);
    let mut output = vec![Complex::default(); IQ_TEST_SHORT_LEN];
    corr.process(&input, &mut output).unwrap();
    assert!(output.iter().all(|s| s.re.is_finite() && s.im.is_finite()));
    for (a, b) in input.iter().zip(&output) {
        assert!(
            (a.re - b.re).abs() < IQ_TEST_PASSTHROUGH_TOL
                && (a.im - b.im).abs() < IQ_TEST_PASSTHROUGH_TOL,
            "corrector must resume clean passthrough after recovery"
        );
    }
}

#[test]
fn iq_corrector_buffer_too_small() {
    let mut corr = IqCorrector::new::<F64>(iq_correction_default_rate::<F64>()).unwrap();
    let input = vec![Complex::default(); 8];
    let mut output = vec![Complex::default(); 4];
    assert!(matches!(
        corr.process(&input, &mut output),
        Err(DspError::BufferTooSmall { .. })
    ));
}


#[test]
fn test_quadrature_new_invalid() {
    assert!(Quadrature::new(0.0).is_err());
    assert!(Quadrature::new(-1.0).is_err());
    assert!(Quadrature::new(1e-40).is_err());
    assert!(Quadrature::new(f32::NAN).is_err());
    assert!(Quadrature::new(f32::INFINITY).is_err());
    assert!(Quadrature::from_hz::<F64>(-1000.0, -48000.0).is_err());
    assert!(Quadrature::from_hz::<F64>(1000.0, -48000.0).is_err());
}

#[test]
fn test_quadrature_constant_freq() {
    let freq = 0.1_f32;
    let deviation = 0.5_f32;
    let mut demod = Quadrature::new(deviation).unwrap();
    let input: Vec<Complex> = (0..1000)
        .map(|i| {
            let phase = freq * i as f32;
            Complex::new(phase.cos(), phase.sin())
        })
        .collect();
    let mut output = vec![0.0_f32; 1000];
    demod.process(&input, &mut output).unwrap();
    let expected = freq / deviation;
    for &v in &output[1..] {
        assert!((v - expected).abs() < 0.05, "expected ~{expected}, got {v}");
    }
}

#[test]
fn test_quadrature_silence() {
    let mut demod = Quadrature::new(1.0).unwrap();
    let input = vec![Complex::new(1.0, 0.0); 100];
    let mut output = vec![0.0_f32; 100];
    demod.process(&input, &mut output).unwrap();
    for &v in &output[1..] {
        assert!(v.abs() < 1e-5, "DC should give ~0, got {v}");
    }
}

#[test]
fn test_am_envelope() {
    let mut demod = AmDemod::new();
    let input: Vec<Complex> = (0..1000)
        .map(|i| {
            let amp = 1.0 + 0.5 * (2.0 * PI * 0.01 * i as f32).sin();
            Complex::new(amp, 0.0)
        })
        .collect();
    let mut output = vec![0.0_f32; 1000];
    demod.process(&input, &mut output).unwrap();
    let peak = output[500..]
        .iter()
        .map(|x| x.abs())
        .fold(0.0_f32, f32::max);
    assert!(peak > 0.1, "AM should extract envelope, peak = {peak}");
}

#[test]
fn test_fm_constant_tone() {
    let mut demod = FmDemod::new(1.0).unwrap();
    let freq = 0.2_f32;
    let input: Vec<Complex> = (0..500)
        .map(|i| {
            let phase = freq * i as f32;
            Complex::new(phase.cos(), phase.sin())
        })
        .collect();
    let mut output = vec![0.0_f32; 500];
    demod.process(&input, &mut output).unwrap();
    let expected = freq;
    for &v in &output[1..] {
        assert!((v - expected).abs() < 0.05, "expected ~{expected}, got {v}");
    }
}

#[test]
fn test_ssb_dsb_extracts_real() {
    let mut demod = SsbDemod::new(SsbMode::Dsb, 3000.0, 48_000.0).unwrap();
    let input = [Complex::new(1.0, 2.0), Complex::new(3.0, 4.0)];
    let mut output = [0.0_f32; 2];
    demod.process(&input, &mut output).unwrap();
    assert!((output[0] - 1.0).abs() < 1e-5);
    assert!((output[1] - 3.0).abs() < 1e-5);
}

#[test]
fn test_ssb_usb_lsb_differ() {
    let mut usb = SsbDemod::new(SsbMode::Usb, 3000.0, 48_000.0).unwrap();
    let mut lsb = SsbDemod::new(SsbMode::Lsb, 3000.0, 48_000.0).unwrap();
    let input: Vec<Complex> = (0..100)
        .map(|i| {
            let phase = 2.0 * PI * 500.0 * (i as f32) / 48_000.0;
            Complex::new(phase.cos(), phase.sin())
        })
        .collect();
    let mut usb_out = vec![0.0_f32; 100];
    let mut lsb_out = vec![0.0_f32; 100];
    usb.process(&input, &mut usb_out).unwrap();
    lsb.process(&input, &mut lsb_out).unwrap();
    let diff: f32 = usb_out
        .iter()
        .zip(&lsb_out)
        .map(|(a, b)| (a - b).abs())
        .sum();
    assert!(
        diff > 1.0,
        "USB and LSB should produce different output, diff={diff}"
    );
}

#[test]
fn test_ssb_produces_audio() {
    let mut demod = SsbDemod::new(SsbMode::Usb, 3000.0, 48_000.0).unwrap();
    let input: Vec<Complex> = (0..1000)
        .map(|i| {
            let phase = 2.0 * PI * 1000.0 * (i as f32) / 48_000.0;
            Complex::new(phase.cos(), phase.sin())
        })
        .collect();
    let mut output = vec![0.0_f32; 1000];
    demod.process(&input, &mut output).unwrap();
    let peak = output[100..]
        .iter()
        .map(|x| x.abs())
        .fold(0.0_f32, f32::max);
    assert!(peak > 0.3, "SSB should produce audible output, peak={peak}");
}

#[test]
fn test_cw_produces_tone() {
    let mut demod = CwDemod::from_hz::<F64>(700.0, 48_000.0).unwrap();
    let input = vec![Complex::new(1.0, 0.0); 1000];
    let mut output = vec![0.0_f32; 1000];
    demod.process(&input, &mut output).unwrap();
    let crossings = output
        .windows(2)
        .filter(|w| (w[0] >= 0.0) != (w[1] >= 0.0))
        .count();
    assert!(
        crossings > 10,
        "CW should produce oscillations, got {crossings} crossings"
    );
}

#[test]
fn test_cw_reset() {
    let mut demod = CwDemod::from_hz::<F64>(700.0, 48_000.0).unwrap();
    let input = vec![Complex::new(1.0, 0.0); 100];
    let mut output = vec![0.0_f32; 100];
    demod.process(&input, &mut output).unwrap();
    demod.reset();
}

#[test]
fn demod_test_buffer_too_small() {
    let mut demod = Quadrature::new(1.0).unwrap();
    let input = [Complex::default(); 10];
    let mut output = [0.0_f32; 5];
    assert!(demod.process(&input, &mut output).is_err());
}


const TEST_SAMPLE_RATE: f64 = 250_000.0;

#[test]
fn test_stereo_decoder_creation() {
    let decoder = FmStereoDecoder::new::<F64>(TEST_SAMPLE_RATE);
    assert!(decoder.is_ok());
}

#[test]
fn test_stereo_decoder_mono_passthrough() {
    let mut decoder = FmStereoDecoder::new::<F64>(TEST_SAMPLE_RATE).unwrap();
    let len = 5000;
    let input: Vec<f32> = (0..len)
        .map(|i| (2.0 * PI * 1000.0 * (i as f32) / TEST_SAMPLE_RATE as f32).sin())
        .collect();
    let mut output = vec![Stereo::default(); len];
    let count = decoder.process(&input, &mut output).unwrap();
    assert_eq!(count, len);

    let settle = 1000;
    for s in &output[settle..] {
        assert!(
            (s.l - s.r).abs() < 0.5,
            "mono signal: L and R should be similar, L={}, R={}",
            s.l,
            s.r
        );
    }
}

#[test]
fn test_stereo_decoder_processes_without_crash() {
    let mut decoder = FmStereoDecoder::new::<F64>(TEST_SAMPLE_RATE).unwrap();
    let len = 10000;
    let input: Vec<f32> = (0..len)
        .map(|i| {
            let t = i as f32 / TEST_SAMPLE_RATE as f32;
            let mono = (2.0 * PI * 1000.0 * t).sin();
            let pilot = 0.1 * (2.0 * PI * 19_000.0 * t).sin();
            let diff = 0.5 * (2.0 * PI * 2000.0 * t).sin();
            let subcarrier = diff * (2.0 * PI * 38_000.0 * t).sin();
            mono + pilot + subcarrier
        })
        .collect();
    let mut output = vec![Stereo::default(); len];
    let count = decoder.process(&input, &mut output).unwrap();
    assert_eq!(count, len);

    let l_energy: f32 = output[2000..].iter().map(|s| s.l * s.l).sum();
    let r_energy: f32 = output[2000..].iter().map(|s| s.r * s.r).sum();
    assert!(l_energy > 0.01, "L channel should have energy");
    assert!(r_energy > 0.01, "R channel should have energy");
}

#[test]
fn test_stereo_decoder_buffer_too_small() {
    let mut decoder = FmStereoDecoder::new::<F64>(TEST_SAMPLE_RATE).unwrap();
    let input = vec![0.0_f32; 100];
    let mut output = vec![Stereo::default(); 50];
    assert!(decoder.process(&input, &mut output).is_err());
}

#[test]
fn test_stereo_decoder_empty_input() {
    let mut decoder = FmStereoDecoder::new::<F64>(TEST_SAMPLE_RATE).unwrap();
    let input: &[f32] = &[];
    let mut output: Vec<Stereo> = vec![];
    let count = decoder.process(input, &mut output).unwrap();
    assert_eq!(count, 0);
}

#[test]
fn test_stereo_decoder_reset() {
    let mut decoder = FmStereoDecoder::new::<F64>(TEST_SAMPLE_RATE).unwrap();
    let input = vec![0.5_f32; 1000];
    let mut output = vec![Stereo::default(); 1000];
    decoder.process(&input, &mut output).unwrap();
    decoder.reset();
    let count = decoder.process(&input, &mut output).unwrap();
    assert_eq!(count, 1000);
}

#[test]
fn rxvfo_refuses_what_its_parts_refuse() {
    assert_eq!(
        RxVfo::new(0.0, 8_000.0, 6_000.0, 0.0, &tables()).err().unwrap().message(),
        "in_sample_rate must be positive and finite, got 0"
    );
    let mut vfo = RxVfo::new(48_000.0, 8_000.0, 6_000.0, 0.0, &tables()).unwrap();
    assert_eq!(
        vfo.set_bandwidth(-1.0),
        Err(DspError::InvalidParameter("cutoff must be positive and finite, got -0.5".to_string()))
    );
    assert_eq!(vfo.bandwidth, -1.0);
    assert!(vfo.filter.is_some());
    vfo.set_bandwidth(8_000.0).unwrap();
    assert!(vfo.filter.is_none());
    vfo.set_offset(1_000.0);
    assert_eq!(vfo.offset, 1_000.0);
    assert!(vfo.xlator.phase_delta < 0.0);
}

#[test]
fn rxvfo_keeps_its_settings() {
    let mut vfo = RxVfo::new(48_000.0, 9_000.0, 5_000.0, 700.0, &tables()).unwrap();
    let fresh = RxVfo::new(48_000.0, 9_000.0, 5_000.0, 700.0, &tables()).unwrap();
    let input = vec![Complex::new(1.0, -1.0); 500];
    let mut output = vec![Complex::default(); 500];
    let n = vfo.process(&input, &mut output).unwrap();
    let settings = |v: &RxVfo| (v.in_sample_rate, v.out_sample_rate, v.bandwidth, v.offset);
    assert_eq!(settings(&vfo), settings(&fresh));
    assert_eq!(vfo.resampler.mode, fresh.resampler.mode);
    vfo.reset();
    assert_eq!(settings(&vfo), settings(&fresh));
    let mut again = vec![Complex::default(); 500];
    assert_eq!(vfo.process(&input, &mut again), Ok(n));
    assert_eq!(again, output);
}

#[test]
fn rxvfo_output_is_chunking_independent() {
    let input: Vec<Complex> = (0..3000)
        .map(|i| Complex::new((i as f32 * 0.02).sin(), (i as f32 * 0.03).cos()))
        .collect();
    let mut whole = RxVfo::new(48_000.0, 9_000.0, 5_000.0, 700.0, &tables()).unwrap();
    let mut expected = vec![Complex::default(); 3000];
    let n = whole.process(&input, &mut expected).unwrap();
    let mut pieces = RxVfo::new(48_000.0, 9_000.0, 5_000.0, 700.0, &tables()).unwrap();
    let mut got = Vec::new();
    for piece in input.chunks(97) {
        let mut out = vec![Complex::default(); 97];
        let k = pieces.process(piece, &mut out).unwrap();
        got.extend_from_slice(&out[..k]);
    }
    assert_eq!(got.len(), n);
    assert_eq!(&got[..], &expected[..n]);
}

#[test]
fn rxvfo_moves_on_when_the_output_is_refused() {
    let input = vec![Complex::new(1.0, 0.0); 600];
    let mut vfo = RxVfo::new(48_000.0, 8_000.0, 6_000.0, 1_000.0, &tables()).unwrap();
    let mut output = vec![Complex::default(); 3];
    assert!(matches!(
        vfo.process(&input, &mut output),
        Err(DspError::BufferTooSmall { got: 3, .. })
    ));
    assert!(vfo.xlator.phase != 0.0);
    vfo.reset();
    assert_eq!(vfo.xlator.phase, 0.0);
}

#[test]
fn phase_loop_wraps_into_its_range() {
    let mut pcl =
        PhaseControlLoop::new(1.0, 0.0, 0.0, -1.0, 1.0, 0.0, -1.0, 1.0).unwrap();
    pcl.advance(5.5);
    assert_eq!(pcl.phase, -0.5);
    pcl.advance(-3.0);
    assert_eq!(pcl.phase, 0.5);
    assert_eq!(
        PhaseControlLoop::new(1.0, 0.0, 0.0, 1.0, 1.0, 0.0, -1.0, 1.0).err(),
        Some(DspError::InvalidParameter("max_phase (1) must be > min_phase (1)".to_string()))
    );
    assert_eq!(
        PhaseControlLoop::new(1.0, 0.0, 0.0, -1.0, 1.0, 0.0, 1.0, 1.0).err(),
        Some(DspError::InvalidParameter("max_freq (1) must be > min_freq (1)".to_string()))
    );
}

#[test]
fn agc_names_what_it_refuses() {
    let text = |r: Result<Agc, DspError>| r.err().unwrap().message();
    assert_eq!(text(Agc::new(0.0, 0.1, 0.1, 1.0, 1.0, 1.0)), "set_point must be positive, got 0");
    assert_eq!(text(Agc::new(1.0, 0.1, 0.1, 1.0, 1.0, 0.0)), "init_gain must be positive, got 0");
    assert_eq!(text(Agc::new(1.0, 1.1, 0.1, 1.0, 1.0, 1.0)), "attack must be in [0, 1], got 1.1");
    assert_eq!(text(Agc::new(1.0, 0.1, -0.1, 1.0, 1.0, 1.0)), "decay must be in [0, 1], got -0.1");
}

#[test]
fn agc_looks_ahead_before_it_clips() {
    let mut agc = Agc::new(1.0, 0.5, 0.5, 1000.0, 2.0, 1000.0).unwrap();
    let input = [0.1_f32, 4.0, -8.0, 0.0];
    let mut output = [0.0_f32; 4];
    agc.process_f32(&input, &mut output).unwrap();
    assert!(output[1].abs() <= 2.0 && output[2].abs() <= 2.0);
    assert_eq!(output[3], 0.0);
    let mut short = [0.0_f32; 2];
    assert_eq!(
        agc.process_f32(&input, &mut short),
        Err(DspError::BufferTooSmall { need: 4, got: 2 })
    );
}

#[test]
fn dc_blocker_follows_its_recurrence() {
    let mut dc = DcBlocker::new::<F64>(0.5).unwrap();
    let input = [Complex::new(1.0, 2.0), Complex::new(3.0, 2.0), Complex::new(0.0, 0.0)];
    let mut output = [Complex::default(); 3];
    dc.process(&input, &mut output).unwrap();
    assert_eq!(
        output,
        [Complex::new(1.0, 2.0), Complex::new(2.5, 1.0), Complex::new(-1.75, -1.5)]
    );
    assert_eq!(
        DcBlocker::new::<F64>(2.0).err(),
        Some(DspError::InvalidParameter("rate must be in (0, 1), got 2".to_string()))
    );
    assert!(DcBlocker::from_hz::<F64>(10.0, 48_000.0).is_ok());
}

#[test]
fn iq_corrector_names_what_it_refuses() {
    assert_eq!(
        IqCorrector::new::<F64>(1.5).err(),
        Some(DspError::InvalidParameter("IQ correction rate must be in (0, 1), got 1.5".to_string()))
    );
    let vanishing = IqCorrector::new::<F64>(1e-50).err().unwrap().message();
    assert!(vanishing.starts_with("IQ correction rate 0.000"));
    assert!(vanishing.ends_with("1 is not strictly inside (0, 1) as f32 (0)"));
}

#[test]
fn iq_corrector_is_chunking_independent() {
    let input = imbalanced_tone(1024, 8, 0.1, 0.1);
    let mut whole = IqCorrector::new::<F64>(0.001).unwrap();
    let mut expected = vec![Complex::default(); 1024];
    whole.process(&input, &mut expected).unwrap();
    let mut pieces = IqCorrector::new::<F64>(0.001).unwrap();
    let mut got = vec![Complex::default(); 1024];
    for (x, y) in input.chunks(100).zip(got.chunks_mut(100)) {
        pieces.process(x, y).unwrap();
    }
    assert_eq!(got, expected);
    assert_eq!(pieces.correction(), whole.correction());
}

#[test]
fn demodulators_name_what_they_refuse() {
    assert_eq!(
        Quadrature::new(-1.0).err(),
        Some(DspError::InvalidParameter("deviation must be positive and finite, got -1".to_string()))
    );
    assert!(Quadrature::new(1e-40)
        .err()
        .unwrap()
        .message()
        .starts_with("deviation is too small to represent safely, got 0.000"));
    assert_eq!(
        FmDemod::from_hz::<F64>(0.0, 48_000.0).err(),
        Some(DspError::InvalidParameter("deviation_hz must be positive and finite, got 0".to_string()))
    );
    assert_eq!(
        BroadcastFmDemod::new::<F64>(0.0).err(),
        Some(DspError::InvalidParameter("sample_rate must be positive and finite, got 0".to_string()))
    );
    assert_eq!(
        SsbDemod::new(SsbMode::Usb, 0.0, 48_000.0).err(),
        Some(DspError::InvalidParameter("bandwidth must be positive and finite, got 0".to_string()))
    );
    assert_eq!(
        SsbDemod::new(SsbMode::Usb, 3_000.0, 0.0).err(),
        Some(DspError::InvalidParameter("sample_rate must be positive and finite, got 0".to_string()))
    );
    assert_eq!(
        CwDemod::from_hz::<F64>(f64::NAN, 48_000.0).err(),
        Some(DspError::InvalidParameter("tone_offset_hz must be finite, got NaN".to_string()))
    );
}

#[test]
fn ssb_settings_move_the_shift() {
    let mut demod = SsbDemod::new(SsbMode::Usb, 3_000.0, 48_000.0).unwrap();
    let up = demod.xlator.phase_delta;
    demod.set_mode(SsbMode::Lsb);
    assert_eq!(demod.xlator.phase_delta, -up);
    demod.set_bandwidth(6_000.0).unwrap();
    assert_eq!(demod.xlator.phase_delta, -2.0 * up);
    assert!(demod.set_bandwidth(f64::NAN).is_err());
    assert_eq!(demod.xlator.phase_delta, -2.0 * up);
}

#[test]
fn stereo_decoder_is_chunking_independent() {
    let input: Vec<f32> = (0..4000)
        .map(|i| {
            let t = i as f32 / TEST_SAMPLE_RATE as f32;
            (2.0 * PI * 1000.0 * t).sin() + 0.1 * (2.0 * PI * 19_000.0 * t).sin()
        })
        .collect();
    let mut whole = FmStereoDecoder::new::<F64>(TEST_SAMPLE_RATE).unwrap();
    let mut expected = vec![Stereo::default(); 4000];
    whole.process(&input, &mut expected).unwrap();
    let mut pieces = FmStereoDecoder::new::<F64>(TEST_SAMPLE_RATE).unwrap();
    let mut got = vec![Stereo::default(); 4000];
    for (x, y) in input.chunks(777).zip(got.chunks_mut(777)) {
        pieces.process(x, y).unwrap();
    }
    assert!(got == expected);
    assert!(FmStereoDecoder::new::<F64>(30_000.0).is_err());
}

#[test]
fn channels_add_up_to_the_filtered_sum() {
    let rate = 200_000.0;
    let input: Vec<f32> = (0..4_000)
        .map(|i| 0.4 * (i as f32 * 0.03).sin() + 0.1 * (i as f32 * 0.596_9).cos())
        .collect();
    let mut decoder = FmStereoDecoder::new::<F64>(rate).unwrap();
    let mut stereo = vec![Stereo::default(); input.len()];
    assert_eq!(decoder.process(&input, &mut stereo), Ok(input.len()));
    let taps = low_pass::<F32, F64>(15_000.0, 4_000.0, rate, false).unwrap();
    let mut filter = sdr_dsp::filter::FirFilter::<F32>::new(taps).unwrap();
    let mut mono = vec![0.0_f32; input.len()];
    filter.process_f32(&input, &mut mono).unwrap();
    for (s, m) in stereo.iter().zip(&mono) {
        assert!((s.l + s.r - m).abs() <= 1e-5 * (1.0 + m.abs() + s.l.abs() + s.r.abs()));
    }
}
