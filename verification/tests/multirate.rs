//! Resamplers and decimators on machine floats.

use sdr_dsp::arith::{Arithmetic, Widening};
use sdr_dsp::decim_taps::{plan_stages, DecimTables, PLAN_COUNT};
use sdr_dsp::multirate::gcd;
use sdr_dsp::taps::low_pass;
use sdr_dsp::types;
use sdr_dsp::types::DspError;

type Complex = types::Complex<f32>;
type PolyphaseResampler = sdr_dsp::multirate::PolyphaseResampler<F32>;
type PowerDecimator = sdr_dsp::multirate::PowerDecimator<F32>;
type RationalResampler = sdr_dsp::multirate::RationalResampler<F32>;

/// Arithmetic on `f32`.
struct F32;

impl Arithmetic for F32 {
    type R = f32;

    fn integer(n: i64) -> f32 {
        n as f32
    }
    fn count(n: usize) -> f32 {
        n as f32
    }
    fn fraction(n: i64, d: i64) -> f32 {
        n as f32 / d as f32
    }
    fn plus(a: f32, b: f32) -> f32 {
        a + b
    }
    fn minus(a: f32, b: f32) -> f32 {
        a - b
    }
    fn times(a: f32, b: f32) -> f32 {
        a * b
    }
    fn over(a: f32, b: f32) -> f32 {
        a / b
    }
    fn mul_add(a: f32, b: f32, c: f32) -> f32 {
        a.mul_add(b, c)
    }
    fn midpoint(a: f32, b: f32) -> f32 {
        f32::midpoint(a, b)
    }
    fn neg(a: f32) -> f32 {
        -a
    }
    fn abs(a: f32) -> f32 {
        a.abs()
    }
    fn signum(a: f32) -> f32 {
        a.signum()
    }
    fn min(a: f32, b: f32) -> f32 {
        a.min(b)
    }
    fn max(a: f32, b: f32) -> f32 {
        a.max(b)
    }
    fn floor(a: f32) -> f32 {
        a.floor()
    }
    fn round(a: f32) -> f32 {
        a.round()
    }
    fn rem_euclid(a: f32, b: f32) -> f32 {
        a.rem_euclid(b)
    }
    fn sqrt(a: f32) -> f32 {
        a.sqrt()
    }
    fn sin(a: f32) -> f32 {
        a.sin()
    }
    fn cos(a: f32) -> f32 {
        a.cos()
    }
    fn atan2(y: f32, x: f32) -> f32 {
        y.atan2(x)
    }
    fn exp(a: f32) -> f32 {
        a.exp()
    }
    fn exp10(a: f32) -> f32 {
        (10.0 as f32).powf(a)
    }
    fn log10(a: f32) -> f32 {
        a.log10()
    }
    fn log2(a: f32) -> f32 {
        a.log2()
    }
    fn tanh(a: f32) -> f32 {
        a.tanh()
    }
    fn pi() -> f32 {
        std::f32::consts::PI
    }
    fn frac_1_sqrt_2() -> f32 {
        std::f32::consts::FRAC_1_SQRT_2
    }
    fn min_positive() -> f32 {
        f32::MIN_POSITIVE
    }
    fn neg_infinity() -> f32 {
        f32::NEG_INFINITY
    }
    fn nan() -> f32 {
        f32::NAN
    }
    fn lt(a: f32, b: f32) -> bool {
        a < b
    }
    fn le(a: f32, b: f32) -> bool {
        a <= b
    }
    fn same(a: f32, b: f32) -> bool {
        a == b
    }
    fn is_finite(a: f32) -> bool {
        a.is_finite()
    }
    fn to_i64(a: f32) -> i64 {
        a as i64
    }
    fn to_u64(a: f32) -> u64 {
        a as u64
    }
    fn to_text(a: f32) -> String {
        a.to_string()
    }
}

/// Arithmetic on `f64`.
struct F64;

impl Arithmetic for F64 {
    type R = f64;

    fn integer(n: i64) -> f64 {
        n as f64
    }
    fn count(n: usize) -> f64 {
        n as f64
    }
    fn fraction(n: i64, d: i64) -> f64 {
        n as f64 / d as f64
    }
    fn plus(a: f64, b: f64) -> f64 {
        a + b
    }
    fn minus(a: f64, b: f64) -> f64 {
        a - b
    }
    fn times(a: f64, b: f64) -> f64 {
        a * b
    }
    fn over(a: f64, b: f64) -> f64 {
        a / b
    }
    fn mul_add(a: f64, b: f64, c: f64) -> f64 {
        a.mul_add(b, c)
    }
    fn midpoint(a: f64, b: f64) -> f64 {
        f64::midpoint(a, b)
    }
    fn neg(a: f64) -> f64 {
        -a
    }
    fn abs(a: f64) -> f64 {
        a.abs()
    }
    fn signum(a: f64) -> f64 {
        a.signum()
    }
    fn min(a: f64, b: f64) -> f64 {
        a.min(b)
    }
    fn max(a: f64, b: f64) -> f64 {
        a.max(b)
    }
    fn floor(a: f64) -> f64 {
        a.floor()
    }
    fn round(a: f64) -> f64 {
        a.round()
    }
    fn rem_euclid(a: f64, b: f64) -> f64 {
        a.rem_euclid(b)
    }
    fn sqrt(a: f64) -> f64 {
        a.sqrt()
    }
    fn sin(a: f64) -> f64 {
        a.sin()
    }
    fn cos(a: f64) -> f64 {
        a.cos()
    }
    fn atan2(y: f64, x: f64) -> f64 {
        y.atan2(x)
    }
    fn exp(a: f64) -> f64 {
        a.exp()
    }
    fn exp10(a: f64) -> f64 {
        (10.0 as f64).powf(a)
    }
    fn log10(a: f64) -> f64 {
        a.log10()
    }
    fn log2(a: f64) -> f64 {
        a.log2()
    }
    fn tanh(a: f64) -> f64 {
        a.tanh()
    }
    fn pi() -> f64 {
        std::f64::consts::PI
    }
    fn frac_1_sqrt_2() -> f64 {
        std::f64::consts::FRAC_1_SQRT_2
    }
    fn min_positive() -> f64 {
        f64::MIN_POSITIVE
    }
    fn neg_infinity() -> f64 {
        f64::NEG_INFINITY
    }
    fn nan() -> f64 {
        f64::NAN
    }
    fn lt(a: f64, b: f64) -> bool {
        a < b
    }
    fn le(a: f64, b: f64) -> bool {
        a <= b
    }
    fn same(a: f64, b: f64) -> bool {
        a == b
    }
    fn is_finite(a: f64) -> bool {
        a.is_finite()
    }
    fn to_i64(a: f64) -> i64 {
        a as i64
    }
    fn to_u64(a: f64) -> u64 {
        a as u64
    }
    fn to_text(a: f64) -> String {
        a.to_string()
    }
}

impl Widening<F32> for F64 {
    fn narrow(a: f64) -> f32 {
        a as f32
    }
    fn widen(a: f32) -> f64 {
        f64::from(a)
    }
}


#[test]
fn test_polyphase_new_invalid() {
    assert!(PolyphaseResampler::new(0, 1, &[1.0]).is_err());
    assert!(PolyphaseResampler::new(1, 0, &[1.0]).is_err());
    assert!(PolyphaseResampler::new(1, 1, &[]).is_err());
}

#[test]
fn test_polyphase_passthrough() {
    let mut r = PolyphaseResampler::new(1, 1, &[1.0]).unwrap();
    let input: Vec<Complex> = (0..100).map(|i| Complex::new(i as f32, 0.0)).collect();
    let mut output = vec![Complex::default(); 110];
    let count = r.process(&input, &mut output).unwrap();
    assert_eq!(count, 100);
    for i in 0..100 {
        assert!(
            (output[i].re - i as f32).abs() < 1e-3,
            "passthrough mismatch at {i}"
        );
    }
}

#[test]
fn test_polyphase_upsample_2x() {
    let mut r = PolyphaseResampler::new(2, 1, &[0.5, 1.0, 0.5, 0.0]).unwrap();
    let input = vec![Complex::new(1.0, 0.0); 50];
    let mut output = vec![Complex::default(); 110];
    let count = r.process(&input, &mut output).unwrap();
    assert!(count >= 90 && count <= 110, "expected ~100, got {count}");
}

#[test]
fn test_power_decimator_invalid() {
    assert!(PowerDecimator::new(0, &tables()).is_err());
    assert!(PowerDecimator::new(3, &tables()).is_err());
    assert!(PowerDecimator::new(16384, &tables()).is_err());
}

#[test]
fn test_power_decimator_passthrough() {
    let mut d = PowerDecimator::new(1, &tables()).unwrap();
    let input = vec![Complex::new(1.0, 0.0); 100];
    let mut output = vec![Complex::default(); 100];
    let count = d.process(&input, &mut output).unwrap();
    assert_eq!(count, 100);
}

#[test]
fn test_power_decimator_by_2() {
    let mut d = PowerDecimator::new(2, &tables()).unwrap();
    let input = vec![Complex::new(1.0, 0.0); 100];
    let mut output = vec![Complex::default(); 100];
    let count = d.process(&input, &mut output).unwrap();
    assert!(count >= 40 && count <= 55, "expected ~50, got {count}");
}

#[test]
fn test_power_decimator_by_4() {
    let mut d = PowerDecimator::new(4, &tables()).unwrap();
    let input = vec![Complex::new(1.0, 0.0); 200];
    let mut output = vec![Complex::default(); 200];
    let count = d.process(&input, &mut output).unwrap();
    assert!(count >= 30 && count <= 60, "expected ~50, got {count}");
}

#[test]
fn test_rational_resampler_invalid() {
    assert!(RationalResampler::new::<F64>(0.0, 48_000.0, &tables()).is_err());
    assert!(RationalResampler::new::<F64>(48_000.0, 0.0, &tables()).is_err());
    assert!(RationalResampler::new::<F64>(f64::NAN, 48_000.0, &tables()).is_err());
}

#[test]
fn test_rational_resampler_passthrough() {
    let mut r = RationalResampler::new::<F64>(48_000.0, 48_000.0, &tables()).unwrap();
    let input = vec![Complex::new(1.0, 0.0); 100];
    let mut output = vec![Complex::default(); 110];
    let count = r.process(&input, &mut output).unwrap();
    assert_eq!(count, 100);
}

#[test]
fn test_rational_resampler_downsample() {
    let mut r = RationalResampler::new::<F64>(48_000.0, 8_000.0, &tables()).unwrap();
    let input = vec![Complex::new(1.0, 0.0); 600];
    let mut output = vec![Complex::default(); 600];
    let count = r.process(&input, &mut output).unwrap();
    assert!(
        count >= 80 && count <= 120,
        "expected ~100 for 6x downsample, got {count}"
    );
}

#[test]
fn test_rational_resampler_upsample() {
    let mut r = RationalResampler::new::<F64>(8_000.0, 48_000.0, &tables()).unwrap();
    let input = vec![Complex::new(1.0, 0.0); 100];
    let mut output = vec![Complex::default(); 700];
    let count = r.process(&input, &mut output).unwrap();
    assert!(
        count >= 500 && count <= 700,
        "expected ~600 for 6x upsample, got {count}"
    );
}

#[test]
fn test_rational_resampler_sub_hz_rejected() {
    assert!(RationalResampler::new::<F64>(0.5, 48_000.0, &tables()).is_err());
    assert!(RationalResampler::new::<F64>(48_000.0, 0.5, &tables()).is_err());
}

#[test]
fn test_rational_resampler_tone_fidelity() {
    let in_rate = 48_000.0_f64;
    let out_rate = 8_000.0_f64;
    let tone_freq = 1_000.0_f32;
    let n_in = 4800;

    let input: Vec<Complex> = (0..n_in)
        .map(|i| {
            let phase = 2.0 * std::f32::consts::PI * tone_freq * (i as f32) / (in_rate as f32);
            Complex::new(phase.cos(), 0.0)
        })
        .collect();

    let mut r = RationalResampler::new::<F64>(in_rate, out_rate, &tables()).unwrap();
    let mut output = vec![Complex::default(); n_in];
    let count = r.process(&input, &mut output).unwrap();

    let skip = count / 5;
    let steady = &output[skip..count];

    let peak = steady.iter().map(|s| s.re.abs()).fold(0.0_f32, f32::max);
    assert!(peak > 0.3, "tone should be preserved, peak = {peak}");

    let crossings = steady
        .windows(2)
        .filter(|w| (w[0].re >= 0.0) != (w[1].re >= 0.0))
        .count();
    assert!(
        crossings > 50,
        "expected oscillations, got {crossings} zero crossings"
    );
}

#[test]
fn test_gcd() {
    assert_eq!(gcd(48_000, 44_100), 300);
    assert_eq!(gcd(48_000, 8_000), 8_000);
    assert_eq!(gcd(100, 100), 100);
    assert_eq!(gcd(7, 13), 1);
}

#[test]
fn rational_resampler_reports_its_group_delay() -> Result<(), DspError> {
    assert!(12_480.0_f64 == 4_160.0 * 3.0, "IN_RATE / OUT_RATE must be integral");
    const DOWNSAMPLE_DELAY_TOLERANCE_SAMPLES: usize = 3;
    const IN_RATE: f64 = 12_480.0;
    const OUT_RATE: f64 = 4_160.0;
        const INPUT_SAMPLES_PER_OUTPUT: usize = (IN_RATE / OUT_RATE) as usize;
        const IMPULSE_AT: usize = 600;
    const LEN: usize = 3_000;
    let mut r = RationalResampler::new::<F64>(IN_RATE, OUT_RATE, &tables())?;
    let mut input = vec![Complex::default(); LEN];
    input[IMPULSE_AT] = Complex::new(1.0, 0.0);
    let mut output = vec![Complex::default(); LEN];
    let n = r.process(&input, &mut output)?;
    let (peak_idx, _) = output[..n]
        .iter()
        .enumerate()
        .map(|(i, s)| (i, s.re.abs()))
        .fold(
            (0, 0.0_f32),
            |best, cur| if cur.1 > best.1 { cur } else { best },
        );
    let measured = peak_idx * INPUT_SAMPLES_PER_OUTPUT - IMPULSE_AT;
    let reported = r.group_delay_input_samples::<F64>();
    assert!(
        reported.abs_diff(measured) <= DOWNSAMPLE_DELAY_TOLERANCE_SAMPLES,
        "reported {reported}, measured {measured} (peak at output {peak_idx})"
    );
    assert!(reported > 0);
    Ok(())
}

#[test]
fn polyphase_group_delay_uses_the_prototype_length_not_the_padded_bank() -> Result<(), DspError> {
    const DELAY_EPSILON: f64 = 1e-9;
    const INTERP: usize = 6;
    const DECIM: usize = 1;
    const PROTOTYPE_LEN: usize = 457;
    let prototype = vec![1.0_f32; PROTOTYPE_LEN];
    let r = PolyphaseResampler::new(INTERP, DECIM, &prototype)?;
    let expected = (PROTOTYPE_LEN - 1) as f64 / 2.0 / INTERP as f64;
    assert!(
        (r.group_delay_input_samples::<F64>() - expected).abs() < DELAY_EPSILON,
        "got {}, expected {expected}",
        r.group_delay_input_samples::<F64>()
    );
    Ok(())
}

#[test]
fn upsampler_group_delay_matches_an_impulse_measurement() -> Result<(), DspError> {
    const UPSAMPLE_DELAY_TOLERANCE_SAMPLES: usize = 1;
    const IN_RATE: f64 = 8_000.0;
    const OUT_RATE: f64 = 48_000.0;
        const OUTPUTS_PER_INPUT: usize = (OUT_RATE / IN_RATE) as usize;
    const IMPULSE_AT: usize = 200;
    const LEN: usize = 1_000;
    let mut r = RationalResampler::new::<F64>(IN_RATE, OUT_RATE, &tables())?;
    let mut input = vec![Complex::default(); LEN];
    input[IMPULSE_AT] = Complex::new(1.0, 0.0);
    let mut output = vec![Complex::default(); LEN * OUTPUTS_PER_INPUT + 8];
    let n = r.process(&input, &mut output)?;
    let (peak_idx, _) = output[..n]
        .iter()
        .enumerate()
        .map(|(i, s)| (i, s.re.abs()))
        .fold(
            (0, 0.0_f32),
            |best, cur| if cur.1 > best.1 { cur } else { best },
        );
    let measured = peak_idx / OUTPUTS_PER_INPUT - IMPULSE_AT;
    let reported = r.group_delay_input_samples::<F64>();
    assert!(
        reported.abs_diff(measured) <= UPSAMPLE_DELAY_TOLERANCE_SAMPLES,
        "reported {reported}, measured {measured} (peak at output {peak_idx})"
    );
    Ok(())
}

#[test]
fn test_plans_count() {
    const EXPECTED_PLAN_COUNT: usize = 13;
    assert_eq!(PLAN_COUNT, EXPECTED_PLAN_COUNT);
}

#[test]
fn test_plan_ratios_match() {
    for i in 0..PLAN_COUNT {
        let expected_ratio: usize = 1 << (i + 1);
        let actual_ratio: usize = plan_stages(i).iter().map(|s| s.decimation).product();
        assert_eq!(
            actual_ratio, expected_ratio,
            "plan {i} (ratio {expected_ratio}): stage decimations product to {actual_ratio}"
        );
    }
}

#[test]
fn test_all_taps_non_empty() {
    let tables = tables();
    for i in 0..PLAN_COUNT {
        for (j, stage) in plan_stages(i).iter().enumerate() {
            assert!(!tables.tables[stage.table].is_empty(), "plan {i} stage {j} has empty taps");
        }
    }
}

#[test]
fn test_all_tap_tables_symmetric() {
    const SYMMETRY_EPSILON: f32 = 1e-9;
    for (k, taps) in tables().tables.iter().enumerate() {
        let n = taps.len();
        for i in 0..n / 2 {
            let diff = (taps[i] - taps[n - 1 - i]).abs();
            assert!(
                diff < SYMMETRY_EPSILON,
                "table {k} not symmetric at index {i}: diff = {diff}"
            );
        }
    }
}

#[test]
fn tables_must_be_complete() {
    assert!(DecimTables::<F32>::new(Vec::new()).is_none());
    assert!(DecimTables::<F32>::new(vec![vec![1.0]; PLAN_COUNT]).is_some());
    let mut gap = vec![vec![1.0]; PLAN_COUNT];
    gap[4] = Vec::new();
    assert!(DecimTables::<F32>::new(gap).is_none());
}

#[test]
fn lopsided_tables_are_refused() {
    let mut all = Vec::new();
    for i in 0..PLAN_COUNT {
        let d = plan_stages(i)[0].decimation as f64;
        all.push(low_pass::<F32, F64>(0.4 / d, 0.2 / d, 1.0, true).unwrap());
    }
    assert!(DecimTables::<F32>::new(all.clone()).is_some());
    let mut lopsided = all.clone();
    lopsided[PLAN_COUNT - 1][0] += 1e-6;
    assert!(DecimTables::<F32>::new(lopsided).is_none());
    all[0].clear();
    assert!(DecimTables::<F32>::new(all).is_none());
}

#[test]
fn resamplers_name_the_fault() {
    let poly = |i, d, taps: &[f32]| PolyphaseResampler::new(i, d, taps).err().unwrap().message();
    assert_eq!(poly(0, 1, &[1.0]), "interp must be > 0");
    assert_eq!(poly(1, 0, &[1.0]), "decim must be > 0");
    assert_eq!(poly(1, 1, &[]), "prototype taps must not be empty");
    let power = |r| PowerDecimator::new(r, &tables()).err().unwrap().message();
    assert_eq!(power(6), "ratio must be a power of 2, got 6");
    assert_eq!(power(16_384), "ratio (16384) exceeds maximum (8192)");
    let rational =
        |a, b| RationalResampler::new::<F64>(a, b, &tables()).err().unwrap().message();
    assert_eq!(rational(0.0, 1.0), "in_sample_rate must be positive and finite, got 0");
    assert_eq!(rational(1.0, f64::NAN), "out_sample_rate must be positive and finite, got NaN");
    assert_eq!(
        rational(0.5, 9.0),
        "sample rates must be >= 1.0 Hz for integer GCD reduction (got 0.5, 9)"
    );
    assert!(rational(10_000_019.0, 10_000_009.0).ends_with("exceeds maximum (1000000)"));
}

fn ramp(n: usize) -> Vec<Complex> {
    (0..n).map(|i| Complex::new(i as f32, -(i as f32) / 2.0)).collect()
}

#[test]
fn resampled_values_come_from_the_filter_bank() {
    let mut up = PolyphaseResampler::new(2, 1, &[1.0, 10.0, 100.0]).unwrap();
    let mut out = vec![Complex::default(); 8];
    let n = up.process(&[Complex::new(1.0, 0.0), Complex::new(2.0, 0.0)], &mut out).unwrap();
    let re: Vec<f32> = out[..n].iter().map(|s| s.re).collect();
    assert_eq!(re, vec![0.0, 100.0, 10.0, 201.0]);
}

#[test]
fn resamplers_do_not_depend_on_the_chunks() {
    let input = ramp(500);
    for (a, b) in [(48_000.0, 8_000.0), (8_000.0, 11_025.0), (44_100.0, 48_000.0)] {
        let mut whole = RationalResampler::new::<F64>(a, b, &tables()).unwrap();
        let mut one = vec![Complex::default(); 2_000];
        let n = whole.process(&input, &mut one).unwrap();
        let mut split = RationalResampler::new::<F64>(a, b, &tables()).unwrap();
        let mut many = Vec::new();
        let mut out = vec![Complex::default(); 2_000];
        for chunk in input.chunks(37) {
            let k = split.process(chunk, &mut out).unwrap();
            many.extend_from_slice(&out[..k]);
        }
        assert_eq!(&one[..n], &many[..]);
    }
}

#[test]
fn output_bound_is_enough() {
    for (a, b) in [(48_000.0, 8_000.0), (8_000.0, 11_025.0), (9_600.0, 9_600.0)] {
        let mut f = RationalResampler::new::<F64>(a, b, &tables()).unwrap();
        let bound = f.output_bound(100).unwrap();
        let mut out = vec![Complex::default(); bound];
        for _ in 0..5 {
            assert!(f.process(&ramp(100), &mut out).is_ok());
        }
    }
}

#[test]
fn resamplers_keep_the_ratio() {
    let mut decimator = PowerDecimator::new(16, &tables()).unwrap();
    let mut out = vec![Complex::default(); 500];
    assert_eq!(decimator.process(&ramp(33), &mut out), Ok(3));
    assert_eq!(decimator.process(&ramp(15), &mut out), Ok(0));
    assert_eq!(decimator.process(&ramp(1), &mut out), Ok(1));
    let mut poly = PolyphaseResampler::new(3, 7, &[1.0; 9]).unwrap();
    assert_eq!(poly.process(&ramp(100), &mut out), Ok(43));
}

#[test]
fn reset_starts_the_resampler_over() {
    let mut f = RationalResampler::new::<F64>(48_000.0, 11_025.0, &tables()).unwrap();
    let mut first = vec![Complex::default(); 200];
    let n = f.process(&ramp(300), &mut first).unwrap();
    f.reset();
    let mut second = vec![Complex::default(); 200];
    assert_eq!(f.process(&ramp(300), &mut second), Ok(n));
    assert_eq!(first, second);
}

/// Low-pass filters with room below the Nyquist rate of their first stage.
fn tables() -> DecimTables<F32> {
    let mut all = Vec::new();
    for i in 0..PLAN_COUNT {
        let d = plan_stages(i)[0].decimation as f64;
        all.push(low_pass::<F32, F64>(0.4 / d, 0.2 / d, 1.0, true).unwrap());
    }
    DecimTables::new(all).unwrap()
}
