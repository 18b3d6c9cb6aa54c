//! Squelch, noise blanker and IF noise reduction on machine floats.

use rustfft::num_complex::Complex as RustFftComplex;
use rustfft::{Fft, FftPlanner};
use sdr_dsp::arith::{Arithmetic, Widening};
use sdr_dsp::fft::BlockTransform;
use sdr_dsp::noise;
use sdr_dsp::noise::{
    envelope_coefficient, FM_IF_NR_FFT_SIZE, NOISE_FLOOR_INITIAL_DB, NOISE_FLOOR_SETTLE_BLOCKS,
    SQUELCH_ATTACK_MICROSECONDS,
};
use sdr_dsp::types;
use sdr_dsp::types::DspError;
use std::sync::Arc;

type Complex = types::Complex<f32>;
type Stereo = types::Stereo<f32>;
type PowerSquelch = noise::PowerSquelch<F32>;
type NoiseBlanker = noise::NoiseBlanker<F32>;
type SquelchAudioEnvelope = noise::SquelchAudioEnvelope<F32>;
type Nr = noise::FmIfNoiseReduction<F32, Engine, Engine>;

/// Arithmetic on `f32`.
struct F32;

impl Arithmetic for F32 {
    type R = f32;

    fn integer(n: i64) -> f32 {
        n as f32
    }
    fn count(n: usize) -> f32 {
        n as f32
    }
    fn fraction(n: i64, d: i64) -> f32 {
        n as f32 / d as f32
    }
    fn plus(a: f32, b: f32) -> f32 {
        a + b
    }
    fn minus(a: f32, b: f32) -> f32 {
        a - b
    }
    fn times(a: f32, b: f32) -> f32 {
        a * b
    }
    fn over(a: f32, b: f32) -> f32 {
        a / b
    }
    fn mul_add(a: f32, b: f32, c: f32) -> f32 {
        a.mul_add(b, c)
    }
    fn midpoint(a: f32, b: f32) -> f32 {
        f32::midpoint(a, b)
    }
    fn neg(a: f32) -> f32 {
        -a
    }
    fn abs(a: f32) -> f32 {
        a.abs()
    }
    fn signum(a: f32) -> f32 {
        a.signum()
    }
    fn min(a: f32, b: f32) -> f32 {
        a.min(b)
    }
    fn max(a: f32, b: f32) -> f32 {
        a.max(b)
    }
    fn floor(a: f32) -> f32 {
        a.floor()
    }
    fn round(a: f32) -> f32 {
        a.round()
    }
    fn rem_euclid(a: f32, b: f32) -> f32 {
        a.rem_euclid(b)
    }
    fn sqrt(a: f32) -> f32 {
        a.sqrt()
    }
    fn sin(a: f32) -> f32 {
        a.sin()
    }
    fn cos(a: f32) -> f32 {
        a.cos()
    }
    fn atan2(y: f32, x: f32) -> f32 {
        y.atan2(x)
    }
    fn exp(a: f32) -> f32 {
        a.exp()
    }
    fn exp10(a: f32) -> f32 {
        (10.0 as f32).powf(a)
    }
    fn log10(a: f32) -> f32 {
        a.log10()
    }
    fn log2(a: f32) -> f32 {
        a.log2()
    }
    fn tanh(a: f32) -> f32 {
        a.tanh()
    }
    fn pi() -> f32 {
        std::f32::consts::PI
    }
    fn frac_1_sqrt_2() -> f32 {
        std::f32::consts::FRAC_1_SQRT_2
    }
    fn min_positive() -> f32 {
        f32::MIN_POSITIVE
    }
    fn neg_infinity() -> f32 {
        f32::NEG_INFINITY
    }
    fn nan() -> f32 {
        f32::NAN
    }
    fn lt(a: f32, b: f32) -> bool {
        a < b
    }
    fn le(a: f32, b: f32) -> bool {
        a <= b
    }
    fn same(a: f32, b: f32) -> bool {
        a == b
    }
    fn is_finite(a: f32) -> bool {
        a.is_finite()
    }
    fn to_i64(a: f32) -> i64 {
        a as i64
    }
    fn to_u64(a: f32) -> u64 {
        a as u64
    }
    fn to_text(a: f32) -> String {
        a.to_string()
    }
}

/// Arithmetic on `f64`.
struct F64;

impl Arithmetic for F64 {
    type R = f64;

    fn integer(n: i64) -> f64 {
        n as f64
    }
    fn count(n: usize) -> f64 {
        n as f64
    }
    fn fraction(n: i64, d: i64) -> f64 {
        n as f64 / d as f64
    }
    fn plus(a: f64, b: f64) -> f64 {
        a + b
    }
    fn minus(a: f64, b: f64) -> f64 {
        a - b
    }
    fn times(a: f64, b: f64) -> f64 {
        a * b
    }
    fn over(a: f64, b: f64) -> f64 {
        a / b
    }
    fn mul_add(a: f64, b: f64, c: f64) -> f64 {
        a.mul_add(b, c)
    }
    fn midpoint(a: f64, b: f64) -> f64 {
        f64::midpoint(a, b)
    }
    fn neg(a: f64) -> f64 {
        -a
    }
    fn abs(a: f64) -> f64 {
        a.abs()
    }
    fn signum(a: f64) -> f64 {
        a.signum()
    }
    fn min(a: f64, b: f64) -> f64 {
        a.min(b)
    }
    fn max(a: f64, b: f64) -> f64 {
        a.max(b)
    }
    fn floor(a: f64) -> f64 {
        a.floor()
    }
    fn round(a: f64) -> f64 {
        a.round()
    }
    fn rem_euclid(a: f64, b: f64) -> f64 {
        a.rem_euclid(b)
    }
    fn sqrt(a: f64) -> f64 {
        a.sqrt()
    }
    fn sin(a: f64) -> f64 {
        a.sin()
    }
    fn cos(a: f64) -> f64 {
        a.cos()
    }
    fn atan2(y: f64, x: f64) -> f64 {
        y.atan2(x)
    }
    fn exp(a: f64) -> f64 {
        a.exp()
    }
    fn exp10(a: f64) -> f64 {
        (10.0 as f64).powf(a)
    }
    fn log10(a: f64) -> f64 {
        a.log10()
    }
    fn log2(a: f64) -> f64 {
        a.log2()
    }
    fn tanh(a: f64) -> f64 {
        a.tanh()
    }
    fn pi() -> f64 {
        std::f64::consts::PI
    }
    fn frac_1_sqrt_2() -> f64 {
        std::f64::consts::FRAC_1_SQRT_2
    }
    fn min_positive() -> f64 {
        f64::MIN_POSITIVE
    }
    fn neg_infinity() -> f64 {
        f64::NEG_INFINITY
    }
    fn nan() -> f64 {
        f64::NAN
    }
    fn lt(a: f64, b: f64) -> bool {
        a < b
    }
    fn le(a: f64, b: f64) -> bool {
        a <= b
    }
    fn same(a: f64, b: f64) -> bool {
        a == b
    }
    fn is_finite(a: f64) -> bool {
        a.is_finite()
    }
    fn to_i64(a: f64) -> i64 {
        a as i64
    }
    fn to_u64(a: f64) -> u64 {
        a as u64
    }
    fn to_text(a: f64) -> String {
        a.to_string()
    }
}

impl Widening<F32> for F64 {
    fn narrow(a: f64) -> f32 {
        a as f32
    }
    fn widen(a: f32) -> f64 {
        f64::from(a)
    }
}

/// A transform of `rustfft` over whole blocks.
struct Engine {
    fft: Option<Arc<dyn Fft<f32>>>,
}

impl Engine {
    fn forward(size: usize) -> Self {
        let fft = if size > 0 { Some(FftPlanner::new().plan_fft_forward(size)) } else { None };
        Self { fft }
    }
    fn inverse(size: usize) -> Self {
        let fft = if size > 0 { Some(FftPlanner::new().plan_fft_inverse(size)) } else { None };
        Self { fft }
    }
}

impl BlockTransform<F32> for Engine {
    fn len(&self) -> usize {
        self.fft.as_ref().map_or(0, |fft| fft.len())
    }
    fn apply(&self, block: &mut Vec<Complex>) {
        if let Some(fft) = &self.fft {
            let mut bins: Vec<RustFftComplex<f32>> =
                block.iter().map(|s| RustFftComplex::new(s.re, s.im)).collect();
            fft.process(&mut bins);
            for (s, b) in block.iter_mut().zip(&bins) {
                *s = Complex::new(b.re, b.im);
            }
        }
    }
}

fn reduction(fft_size: usize) -> Result<Nr, DspError> {
    Nr::with_fft_size::<F64>(fft_size, Engine::forward(fft_size), Engine::inverse(fft_size))
}

fn default_reduction() -> Result<Nr, DspError> {
    Nr::new::<F64>(Engine::forward(FM_IF_NR_FFT_SIZE), Engine::inverse(FM_IF_NR_FFT_SIZE))
}

const SQUELCH_ATTACK_SECONDS: f32 = SQUELCH_ATTACK_MICROSECONDS as f32 / 1_000_000.0;

const MIN_ENERGY_RATIO: f32 = 0.05;

const SQUELCH_REG_AMPLITUDE: f32 = 0.1;
const SQUELCH_REG_BLOCK_LEN: usize = 100;
const SQUELCH_REG_CLOSE_DB: f32 = -15.0;
const SQUELCH_REG_OPEN_DB: f32 = -25.0;

const ENV_TEST_SAMPLE_RATE_HZ: f32 = 48_000.0;
const ENV_SHORT_BLOCK_SAMPLES: usize = 100;
const ENV_LONG_BLOCK_SAMPLES: usize = 1_000;
const ENV_CONVERGENCE_SAMPLE_IDX: usize = 500;
const ENV_SILENCE_EPSILON: f32 = 1e-6;
const ENV_STEREO_SAMPLE_AMP: f32 = 1.0;

#[test]
fn test_squelch_opens_on_strong_signal() {
    let mut squelch = PowerSquelch::new(-30.0);
    let input = vec![Complex::new(1.0, 0.0); 100];
    let mut output = vec![Complex::default(); 100];
    squelch.process(&input, &mut output).unwrap();
    assert!(squelch.is_open(), "strong signal should open squelch");
    assert!(output[0].re > 0.0, "output should not be zeroed");
}

#[test]
fn power_squelch_can_gate_without_muting() {
    const HIGH_THRESHOLD_DB: f32 = 10.0;
    const WEAK_AMPLITUDE: f32 = 0.001;
    let mut sq = PowerSquelch::new(HIGH_THRESHOLD_DB);
    sq.set_mute_closed(false);
    let input = vec![Complex::new(WEAK_AMPLITUDE, 0.0); 64];
    let mut output = vec![Complex::default(); 64];
    sq.process(&input, &mut output).unwrap();
    assert!(!sq.is_open(), "gate must still close on a weak block");
    assert_eq!(output, input, "closed gate must pass IQ through unmuted");
}

#[test]
fn test_squelch_closes_on_weak_signal() {
    let mut squelch = PowerSquelch::new(10.0);
    let input = vec![Complex::new(0.001, 0.0); 100];
    let mut output = vec![Complex::default(); 100];
    squelch.process(&input, &mut output).unwrap();
    assert!(!squelch.is_open(), "weak signal should close squelch");
    assert!(
        output[0].re.abs() < 1e-10,
        "output should be zeroed when squelch closed"
    );
}

const STUCK_RECOVERY_BLOCK_LEN: usize = 128;

const STUCK_RECOVERY_BLOCKS: usize = 500;

const STUCK_RECOVERY_MIN_CLIMB_DB: f32 = 10.0;

const STUCK_RECOVERY_CARRIER_AMPLITUDE: f32 = 0.1;

const STUCK_RECOVERY_SILENCE_AMPLITUDE: f32 = 0.000_01;

const STUCK_RECOVERY_SILENCE_BLOCKS: usize = 50;

const STUCK_RECOVERY_IDLE_LEVEL_DB: f32 = -60.0;

#[test]
fn test_auto_squelch_recovers_from_overshoot_settle() {
    let mut squelch = PowerSquelch::new(STUCK_RECOVERY_IDLE_LEVEL_DB);
    squelch.set_auto_squelch(true);

    let strong =
        vec![Complex::new(STUCK_RECOVERY_CARRIER_AMPLITUDE, 0.0); STUCK_RECOVERY_BLOCK_LEN];
    let mut out = vec![Complex::default(); STUCK_RECOVERY_BLOCK_LEN];

    for _ in 0..NOISE_FLOOR_SETTLE_BLOCKS {
        squelch.process(&strong, &mut out).unwrap();
    }
    let floor_after_settle = squelch.noise_floor_db();
    assert!(
        squelch.is_open(),
        "strong signal must open the squelch during / after settle"
    );

    for _ in 0..STUCK_RECOVERY_BLOCKS {
        squelch.process(&strong, &mut out).unwrap();
    }
    let floor_after_creep = squelch.noise_floor_db();

    let climb_db = floor_after_creep - floor_after_settle;
    assert!(
        climb_db > STUCK_RECOVERY_MIN_CLIMB_DB,
        "stuck-recovery must pull noise_floor up under persistent signal; \
         observed climb of only {climb_db:.2} dB \
         ({floor_after_settle:.2} dB → {floor_after_creep:.2} dB)"
    );

    let silence =
        vec![Complex::new(STUCK_RECOVERY_SILENCE_AMPLITUDE, 0.0); STUCK_RECOVERY_BLOCK_LEN];
    for _ in 0..STUCK_RECOVERY_SILENCE_BLOCKS {
        squelch.process(&silence, &mut out).unwrap();
    }
    assert!(
        !squelch.is_open(),
        "after recovery + silence the squelch must close"
    );
}

#[test]
fn test_squelch_empty_input() {
    let mut squelch = PowerSquelch::new(-50.0);
    let input: &[Complex] = &[];
    let mut output: Vec<Complex> = vec![];
    let count = squelch.process(input, &mut output).unwrap();
    assert_eq!(count, 0);
    assert!(!squelch.is_open());
}

#[test]
fn test_squelch_db_scale_regression() {
    let input = vec![Complex::new(SQUELCH_REG_AMPLITUDE, 0.0); SQUELCH_REG_BLOCK_LEN];

    let mut squelch_close = PowerSquelch::new(SQUELCH_REG_CLOSE_DB);
    let mut output = vec![Complex::default(); SQUELCH_REG_BLOCK_LEN];
    squelch_close.process(&input, &mut output).unwrap();
    assert!(
        !squelch_close.is_open(),
        "amplitude 0.1 (-20 dB) should be below -15 dB threshold"
    );

    let mut squelch_open = PowerSquelch::new(SQUELCH_REG_OPEN_DB);
    squelch_open.process(&input, &mut output).unwrap();
    assert!(
        squelch_open.is_open(),
        "amplitude 0.1 (-20 dB) should be above -25 dB threshold"
    );
}

#[test]
fn squelch_audio_envelope_starts_muted() {
    let mut env = SquelchAudioEnvelope::new(ENV_TEST_SAMPLE_RATE_HZ).unwrap();
    let mut buf = vec![Stereo { l: 0.5, r: 0.5 }; ENV_SHORT_BLOCK_SAMPLES];
    env.process_stereo(&mut buf);
    for (i, s) in buf.iter().enumerate() {
        assert!(
            s.l.abs() < ENV_SILENCE_EPSILON,
            "sample {i} L not silenced: {}",
            s.l
        );
        assert!(
            s.r.abs() < ENV_SILENCE_EPSILON,
            "sample {i} R not silenced: {}",
            s.r
        );
    }
}

#[test]
fn squelch_audio_envelope_ramps_up_on_gate_open() {
    let mut env = SquelchAudioEnvelope::new(ENV_TEST_SAMPLE_RATE_HZ).unwrap();
    env.set_gate_open(true);
    let mut buf = vec![
        Stereo {
            l: ENV_STEREO_SAMPLE_AMP,
            r: ENV_STEREO_SAMPLE_AMP
        };
        ENV_LONG_BLOCK_SAMPLES
    ];
    env.process_stereo(&mut buf);
    assert!(buf[0].l > 0.0 && buf[0].l < 0.5);
    assert!(
        buf[ENV_CONVERGENCE_SAMPLE_IDX].l > 0.99,
        "envelope should converge by sample {ENV_CONVERGENCE_SAMPLE_IDX}, got {}",
        buf[ENV_CONVERGENCE_SAMPLE_IDX].l
    );
}

#[test]
fn squelch_audio_envelope_preserves_tail_on_close() {
    let mut env = SquelchAudioEnvelope::new(ENV_TEST_SAMPLE_RATE_HZ).unwrap();
    env.set_gate_open(true);
    let mut ramp = vec![
        Stereo {
            l: ENV_STEREO_SAMPLE_AMP,
            r: ENV_STEREO_SAMPLE_AMP
        };
        ENV_LONG_BLOCK_SAMPLES
    ];
    env.process_stereo(&mut ramp);

    env.set_gate_open(false);
    let mut buf = vec![
        Stereo {
            l: ENV_STEREO_SAMPLE_AMP,
            r: ENV_STEREO_SAMPLE_AMP
        };
        ENV_SHORT_BLOCK_SAMPLES
    ];
    env.process_stereo(&mut buf);
    assert!(
        buf[0].l > 0.9,
        "first post-close sample should preserve the tail, got {}",
        buf[0].l
    );
}

#[test]
fn squelch_audio_envelope_reset_clears_gain() {
    let mut env = SquelchAudioEnvelope::new(ENV_TEST_SAMPLE_RATE_HZ).unwrap();
    env.set_gate_open(true);
    let mut buf = vec![
        Stereo {
            l: ENV_STEREO_SAMPLE_AMP,
            r: ENV_STEREO_SAMPLE_AMP
        };
        ENV_LONG_BLOCK_SAMPLES
    ];
    env.process_stereo(&mut buf);

    env.reset();
    let mut buf = vec![
        Stereo {
            l: ENV_STEREO_SAMPLE_AMP,
            r: ENV_STEREO_SAMPLE_AMP
        };
        ENV_SHORT_BLOCK_SAMPLES
    ];
    env.process_stereo(&mut buf);
    for s in &buf {
        assert!(s.l.abs() < ENV_SILENCE_EPSILON);
    }
}

#[test]
fn envelope_coefficient_handles_pathological_inputs() {
    let coeff = envelope_coefficient::<F32>(SQUELCH_ATTACK_SECONDS, ENV_TEST_SAMPLE_RATE_HZ);
    assert!(coeff > 0.0 && coeff < 1.0);
    assert_eq!(envelope_coefficient::<F32>(SQUELCH_ATTACK_SECONDS, 0.0), 1.0);
    assert_eq!(
        envelope_coefficient::<F32>(SQUELCH_ATTACK_SECONDS, -ENV_TEST_SAMPLE_RATE_HZ),
        1.0
    );
    assert_eq!(envelope_coefficient::<F32>(0.0, ENV_TEST_SAMPLE_RATE_HZ), 1.0);
    assert_eq!(
        envelope_coefficient::<F32>(-SQUELCH_ATTACK_SECONDS, ENV_TEST_SAMPLE_RATE_HZ),
        1.0
    );
    assert_eq!(envelope_coefficient::<F32>(f32::NAN, ENV_TEST_SAMPLE_RATE_HZ), 1.0);
    assert_eq!(envelope_coefficient::<F32>(SQUELCH_ATTACK_SECONDS, f32::NAN), 1.0);
    assert_eq!(
        envelope_coefficient::<F32>(f32::INFINITY, ENV_TEST_SAMPLE_RATE_HZ),
        1.0
    );
    assert_eq!(
        envelope_coefficient::<F32>(SQUELCH_ATTACK_SECONDS, f32::INFINITY),
        1.0
    );
}

#[test]
fn squelch_audio_envelope_new_rejects_invalid_sample_rates() {
    assert!(matches!(
        SquelchAudioEnvelope::new(0.0),
        Err(DspError::InvalidParameter(_))
    ));
    assert!(matches!(
        SquelchAudioEnvelope::new(-ENV_TEST_SAMPLE_RATE_HZ),
        Err(DspError::InvalidParameter(_))
    ));
    assert!(matches!(
        SquelchAudioEnvelope::new(f32::NAN),
        Err(DspError::InvalidParameter(_))
    ));
    assert!(matches!(
        SquelchAudioEnvelope::new(f32::INFINITY),
        Err(DspError::InvalidParameter(_))
    ));
    assert!(matches!(
        SquelchAudioEnvelope::new(f32::NEG_INFINITY),
        Err(DspError::InvalidParameter(_))
    ));
    assert!(SquelchAudioEnvelope::new(ENV_TEST_SAMPLE_RATE_HZ).is_ok());
}

#[test]
fn squelch_audio_envelope_set_sample_rate_rejects_invalid_and_preserves_state() {
    let mut env = SquelchAudioEnvelope::new(ENV_TEST_SAMPLE_RATE_HZ).unwrap();
    env.set_gate_open(true);
    let mut warmup = vec![
        Stereo {
            l: ENV_STEREO_SAMPLE_AMP,
            r: ENV_STEREO_SAMPLE_AMP,
        };
        ENV_SHORT_BLOCK_SAMPLES
    ];
    env.process_stereo(&mut warmup);
    let gain_before = env.envelope_gain;
    let attack_before = env.attack_coeff;
    let release_before = env.release_coeff;

    assert!(matches!(
        env.set_sample_rate(f32::NAN),
        Err(DspError::InvalidParameter(_))
    ));
    assert!(matches!(
        env.set_sample_rate(f32::INFINITY),
        Err(DspError::InvalidParameter(_))
    ));
    assert!(matches!(
        env.set_sample_rate(f32::NEG_INFINITY),
        Err(DspError::InvalidParameter(_))
    ));
    assert!(matches!(
        env.set_sample_rate(0.0),
        Err(DspError::InvalidParameter(_))
    ));
    assert!(matches!(
        env.set_sample_rate(-ENV_TEST_SAMPLE_RATE_HZ),
        Err(DspError::InvalidParameter(_))
    ));

    assert_eq!(env.attack_coeff, attack_before);
    assert_eq!(env.release_coeff, release_before);
    assert_eq!(env.envelope_gain, gain_before);

    assert!(env.set_sample_rate(2.0 * ENV_TEST_SAMPLE_RATE_HZ).is_ok());
}

#[test]
fn test_blanker_new_invalid() {
    assert!(NoiseBlanker::new(0.0, 5.0).is_err());
    assert!(NoiseBlanker::new(1.0, 5.0).is_err());
    assert!(NoiseBlanker::new(0.1, 0.5).is_err());
    assert!(NoiseBlanker::new(f32::NAN, 5.0).is_err());
    assert!(NoiseBlanker::new(0.1, f32::NAN).is_err());
}

#[test]
fn test_blanker_passes_normal_signal() {
    let mut nb = NoiseBlanker::new(0.1, 10.0).unwrap();
    let input = vec![Complex::new(1.0, 0.0); 500];
    let mut output = vec![Complex::default(); 500];
    nb.process(&input, &mut output).unwrap();
    let last = output[499];
    assert!(last.re > 0.5, "normal signal should pass, got {}", last.re);
}

#[test]
fn test_blanker_attenuates_spike() {
    let mut nb = NoiseBlanker::new(0.01, 3.0).unwrap();
    let normal = vec![Complex::new(1.0, 0.0); 1000];
    let mut out = vec![Complex::default(); 1000];
    nb.process(&normal, &mut out).unwrap();
    let mut spike_input = vec![Complex::new(1.0, 0.0); 100];
    spike_input[50] = Complex::new(100.0, 0.0);
    let mut spike_out = vec![Complex::default(); 100];
    nb.process(&spike_input, &mut spike_out).unwrap();
    assert!(
        spike_out[50].re < 50.0,
        "spike should be attenuated, got {}",
        spike_out[50].re
    );
}

#[test]
fn test_blanker_skips_ema_on_zero_samples() {
    let mut nb = NoiseBlanker::new(0.5, 3.0).unwrap();
    let normal = vec![Complex::new(1.0, 0.0); 100];
    let mut out = vec![Complex::default(); 100];
    nb.process(&normal, &mut out).unwrap();
    let amp_before = nb.amp;

    let zeros = vec![Complex::default(); 100];
    nb.process(&zeros, &mut out).unwrap();
    assert!(
        (nb.amp - amp_before).abs() < 1e-6,
        "EMA should not change on zero samples, was {amp_before}, now {}",
        nb.amp
    );
}

#[test]
fn test_blanker_reset() {
    let mut nb = NoiseBlanker::new(0.1, 5.0).unwrap();
    let input = vec![Complex::new(10.0, 0.0); 100];
    let mut output = vec![Complex::default(); 100];
    nb.process(&input, &mut output).unwrap();
    nb.reset();
    assert!(
        (nb.amp - 1.0).abs() < 1e-6,
        "after reset, amp should be 1.0"
    );
}

#[test]
fn test_fm_if_nr_preserves_tone() {

    let fft_size = 256;
    let mut nr = reduction(fft_size).unwrap();
    let tone_bin = 8;
    let input: Vec<Complex> = (0..fft_size)
        .map(|i| {
            let phase = 2.0 * std::f32::consts::PI * (tone_bin as f32) * (i as f32) / (fft_size as f32);
            Complex::new(phase.cos(), phase.sin())
        })
        .collect();
    let mut output = vec![Complex::default(); fft_size];
    let count = nr.process(&input, &mut output).unwrap();
    assert_eq!(count, fft_size);

    let mut planner = FftPlanner::new();
    let fft = planner.plan_fft_forward(fft_size);
    let mut spectrum: Vec<RustFftComplex<f32>> = output
        .iter()
        .map(|s| RustFftComplex::new(s.re, s.im))
        .collect();
    fft.process(&mut spectrum);
    let dominant_bin = spectrum
        .iter()
        .enumerate()
        .max_by(|a, b| {
            let ma = a.1.re * a.1.re + a.1.im * a.1.im;
            let mb = b.1.re * b.1.re + b.1.im * b.1.im;
            ma.partial_cmp(&mb).unwrap()
        })
        .map_or(0, |(i, _)| i);
    assert_eq!(
        dominant_bin, tone_bin,
        "recovered dominant bin should match tone_bin"
    );

    let energy: f32 = output.iter().map(|s| s.re * s.re + s.im * s.im).sum();
    let input_energy: f32 = input.iter().map(|s| s.re * s.re + s.im * s.im).sum();
    assert!(
        energy > input_energy * MIN_ENERGY_RATIO,
        "tone energy ratio {} below MIN_ENERGY_RATIO {MIN_ENERGY_RATIO}",
        energy / input_energy
    );
}

#[test]
fn test_fm_if_nr_reduces_noise() {
    let fft_size = 256;
    let mut nr = reduction(fft_size).unwrap();

    let input: Vec<Complex> = (0..fft_size)
        .map(|i| {
            let tone = (2.0 * core::f32::consts::PI * 8.0 * (i as f32) / fft_size as f32).cos();
            let noise = (0.3 * (i as f32 * 1.7).sin())
                + (0.2 * (i as f32 * 3.1).cos())
                + (0.15 * (i as f32 * 7.3).sin());
            Complex::new(tone + noise, 0.0)
        })
        .collect();
    let mut output = vec![Complex::default(); fft_size];
    nr.process(&input, &mut output).unwrap();

    let input_energy: f32 = input.iter().map(|s| s.re * s.re + s.im * s.im).sum();
    let output_energy: f32 = output.iter().map(|s| s.re * s.re + s.im * s.im).sum();
    assert!(
        output_energy < input_energy * 0.9,
        "NR should reduce broadband energy, ratio = {}",
        output_energy / input_energy
    );
}

#[test]
fn test_fm_if_nr_invalid_size() {
    assert!(reduction(0).is_err());
}

#[test]
fn test_fm_if_nr_buffer_too_small() {
    let mut nr = default_reduction().unwrap();
    let input = [Complex::default(); 300];
    let mut output = [Complex::default(); 100];
    assert!(nr.process(&input, &mut output).is_err());
}

#[test]
fn tests_test_buffer_too_small() {
    let mut squelch = PowerSquelch::new(-50.0);
    let input = [Complex::default(); 10];
    let mut output = [Complex::default(); 5];
    assert!(squelch.process(&input, &mut output).is_err());
}

const AUTO_SETTLE_ITERS: usize = 200;
const TEST_BLOCK_LEN: usize = 100;
const NOISE_AMP: f32 = 0.001;
const STRONG_AMP: f32 = 1.0;
const BORDERLINE_AMP: f32 = 0.003;

const REARM_MANUAL_FLOOR_DB: f32 = -100.0;
const REARM_DISABLED_MANUAL_DB: f32 = -50.0;
const REARM_SETTLED_MARGIN_DB: f32 = 1.0;

#[test]
fn test_auto_squelch_tracks_noise_floor() {
    let mut squelch = PowerSquelch::new(-100.0);
    squelch.set_auto_squelch(true);
    assert!(squelch.auto_squelch_enabled());

    let noise = vec![Complex::new(NOISE_AMP, 0.0); TEST_BLOCK_LEN];
    let mut output = vec![Complex::default(); 100];
    for _ in 0..AUTO_SETTLE_ITERS {
        squelch.process(&noise, &mut output).unwrap();
    }

    let floor = squelch.noise_floor_db();
    assert!(
        floor > -70.0 && floor < -50.0,
        "noise floor should be near -60 dB, got {floor}"
    );
}

#[test]
fn test_auto_squelch_ignores_non_finite_blocks() {
    let mut squelch = PowerSquelch::new(-100.0);
    squelch.set_auto_squelch(true);
    let noise = vec![Complex::new(NOISE_AMP, 0.0); TEST_BLOCK_LEN];
    let mut output = vec![Complex::default(); TEST_BLOCK_LEN];
    for _ in 0..AUTO_SETTLE_ITERS {
        squelch.process(&noise, &mut output).unwrap();
    }
    let settled = squelch.noise_floor_db();

    for bad in [f32::INFINITY, f32::NAN] {
        let mut block = noise.clone();
        block[TEST_BLOCK_LEN / 2] = Complex::new(bad, 0.0);
        squelch.process(&block, &mut output).unwrap();
        assert!(!squelch.is_open(), "a non-finite block closes the squelch");
        assert_eq!(
            squelch.noise_floor_db(),
            settled,
            "noise floor must ignore a block containing {bad}"
        );
        assert!(output.iter().all(|s| s.re == 0.0 && s.im == 0.0));
    }

    let signal = vec![Complex::new(STRONG_AMP, 0.0); TEST_BLOCK_LEN];
    squelch.process(&signal, &mut output).unwrap();
    assert!(
        squelch.is_open(),
        "should open on strong signal after a bad block"
    );
}

#[test]
fn test_auto_squelch_opens_on_signal() {
    let mut squelch = PowerSquelch::new(-100.0);
    squelch.set_auto_squelch(true);

    let noise = vec![Complex::new(NOISE_AMP, 0.0); TEST_BLOCK_LEN];
    let mut output = vec![Complex::default(); 100];
    for _ in 0..AUTO_SETTLE_ITERS {
        squelch.process(&noise, &mut output).unwrap();
    }
    assert!(!squelch.is_open(), "should be closed on noise-only");

    let signal = vec![Complex::new(STRONG_AMP, 0.0); TEST_BLOCK_LEN];
    squelch.process(&signal, &mut output).unwrap();
    assert!(squelch.is_open(), "should open on strong signal");
}

#[test]
fn test_auto_squelch_hysteresis() {
    let mut squelch = PowerSquelch::new(-100.0);
    squelch.set_auto_squelch(true);

    let noise = vec![Complex::new(NOISE_AMP, 0.0); TEST_BLOCK_LEN];
    let mut output = vec![Complex::default(); 100];
    for _ in 0..AUTO_SETTLE_ITERS {
        squelch.process(&noise, &mut output).unwrap();
    }

    let strong = vec![Complex::new(STRONG_AMP, 0.0); TEST_BLOCK_LEN];
    squelch.process(&strong, &mut output).unwrap();
    assert!(squelch.is_open());

    let borderline = vec![Complex::new(BORDERLINE_AMP, 0.0); TEST_BLOCK_LEN];
    squelch.process(&borderline, &mut output).unwrap();
    assert!(
        squelch.is_open(),
        "borderline signal should keep squelch open due to hysteresis"
    );
}

#[test]
fn test_auto_squelch_ignores_manual_level() {
    let mut squelch = PowerSquelch::new(100.0);
    squelch.set_auto_squelch(true);

    let noise = vec![Complex::new(NOISE_AMP, 0.0); TEST_BLOCK_LEN];
    let mut output = vec![Complex::default(); 100];
    for _ in 0..AUTO_SETTLE_ITERS {
        squelch.process(&noise, &mut output).unwrap();
    }

    let strong = vec![Complex::new(STRONG_AMP, 0.0); TEST_BLOCK_LEN];
    squelch.process(&strong, &mut output).unwrap();
    assert!(squelch.is_open(), "auto-squelch should ignore manual level");
}

#[test]
fn test_auto_squelch_disable_reverts_to_manual() {
    let mut squelch = PowerSquelch::new(100.0);
    squelch.set_auto_squelch(true);

    let noise = vec![Complex::new(NOISE_AMP, 0.0); TEST_BLOCK_LEN];
    let mut output = vec![Complex::default(); 100];
    for _ in 0..AUTO_SETTLE_ITERS {
        squelch.process(&noise, &mut output).unwrap();
    }
    let strong = vec![Complex::new(STRONG_AMP, 0.0); TEST_BLOCK_LEN];
    squelch.process(&strong, &mut output).unwrap();
    assert!(squelch.is_open());

    squelch.set_auto_squelch(false);
    squelch.process(&strong, &mut output).unwrap();
    assert!(
        !squelch.is_open(),
        "with auto-squelch off, manual 100 dB threshold should close squelch"
    );
}

#[test]
fn test_rearm_auto_squelch_resets_floor_without_toggling_enabled() {
    let mut squelch = PowerSquelch::new(REARM_MANUAL_FLOOR_DB);
    squelch.set_auto_squelch(true);

    let noise = vec![Complex::new(NOISE_AMP, 0.0); TEST_BLOCK_LEN];
    let mut output = vec![Complex::default(); TEST_BLOCK_LEN];
    for _ in 0..AUTO_SETTLE_ITERS {
        squelch.process(&noise, &mut output).unwrap();
    }
    let settled_floor = squelch.noise_floor_db();
    assert!(
        settled_floor > (NOISE_FLOOR_INITIAL_DB as f32) + REARM_SETTLED_MARGIN_DB,
        "sanity: noise floor should have converged above the sentinel (got {settled_floor})",
    );
    assert!(squelch.auto_squelch_enabled());

    squelch.rearm_auto_squelch();

    assert!(
        (squelch.noise_floor_db() - (NOISE_FLOOR_INITIAL_DB as f32)).abs() < f32::EPSILON,
        "rearm should reset noise_floor_db to NOISE_FLOOR_INITIAL_DB (got {})",
        squelch.noise_floor_db()
    );
    assert!(
        squelch.auto_squelch_enabled(),
        "rearm must not flip the enabled state"
    );
}

#[test]
fn test_rearm_auto_squelch_is_no_op_when_disabled() {
    let mut squelch = PowerSquelch::new(REARM_DISABLED_MANUAL_DB);
    squelch.set_auto_squelch(true);
    let noise = vec![Complex::new(NOISE_AMP, 0.0); TEST_BLOCK_LEN];
    let mut output = vec![Complex::default(); TEST_BLOCK_LEN];
    for _ in 0..AUTO_SETTLE_ITERS {
        squelch.process(&noise, &mut output).unwrap();
    }
    squelch.set_auto_squelch(false);
    assert!(!squelch.auto_squelch_enabled());
    let floor_before = squelch.noise_floor_db();
    assert!(
        (floor_before - (NOISE_FLOOR_INITIAL_DB as f32)).abs() > REARM_SETTLED_MARGIN_DB,
        "precondition: floor should differ from the sentinel before the \
         disabled rearm call (got {floor_before}) — without this, a buggy \
         unconditional-reset would false-pass the final assertion"
    );

    squelch.rearm_auto_squelch();

    assert!(
        !squelch.auto_squelch_enabled(),
        "rearm must not enable auto-squelch"
    );
    assert!(
        (squelch.noise_floor_db() - floor_before).abs() < f32::EPSILON,
        "rearm should leave noise_floor_db untouched when disabled"
    );
}

const FMIF_FFT: usize = FM_IF_NR_FFT_SIZE;
const FMIF_TONE_BIN: f32 = 37.0;
const FMIF_NOISE_AMPLITUDE: f32 = 0.3;
const FMIF_STREAM_BLOCKS: usize = 12;
const FMIF_ODD_CHUNK: usize = 300;
const FMIF_SMALL_CHUNK: usize = 100;
const FMIF_FLUSH_TAIL: usize = 100;
const FMIF_FLUSH_CAPACITY: usize = 2 * FMIF_FFT;
const FMIF_SAMPLE_TOL: f32 = 1e-4;

fn fmif_close(a: Complex, b: Complex) -> bool {
    (a.re - b.re).abs() < FMIF_SAMPLE_TOL && (a.im - b.im).abs() < FMIF_SAMPLE_TOL
}

fn fmif_test_signal(len: usize) -> Vec<Complex> {
    let mut seed: u32 = 0x1234_5678;
    (0..len)
        .map(|i| {
            seed = seed.wrapping_mul(1_664_525).wrapping_add(1_013_904_223);
            let noise = (seed >> 8) as f32 / 16_777_216.0 - 0.5;
            let theta = 2.0 * core::f32::consts::PI * FMIF_TONE_BIN * i as f32 / FMIF_FFT as f32;
            Complex::new(
                theta.cos() + FMIF_NOISE_AMPLITUDE * noise,
                theta.sin() + FMIF_NOISE_AMPLITUDE * noise,
            )
        })
        .collect()
}

fn run_fmif_chunked(input: &[Complex], chunk: usize) -> Vec<Complex> {
    let mut nr = default_reduction().unwrap();
    let mut out = Vec::new();
    for c in input.chunks(chunk) {
        let mut buf = vec![Complex::default(); c.len()];
        let n = nr.process(c, &mut buf).unwrap();
        out.extend_from_slice(&buf[..n]);
    }
    out
}

#[test]
fn fm_if_nr_output_is_chunking_independent() {
    let input = fmif_test_signal(FMIF_FFT * FMIF_STREAM_BLOCKS);
    let whole = run_fmif_chunked(&input, input.len());
    let odd = run_fmif_chunked(&input, FMIF_ODD_CHUNK);
    let n = whole.len().min(odd.len());
    assert!(
        n >= FMIF_FFT * (FMIF_STREAM_BLOCKS - 2),
        "too little output to compare: {n}"
    );
    for i in 0..n {
        assert!(
            fmif_close(whole[i], odd[i]),
            "sample {i} differs between whole-buffer and {FMIF_ODD_CHUNK}-sample chunking: {:?} vs {:?}",
            whole[i],
            odd[i]
        );
    }
}

#[test]
fn fm_if_nr_flush_emits_every_buffered_sample() {
    let input = fmif_test_signal(FMIF_FFT * 4 + FMIF_FLUSH_TAIL);
    let mut nr = default_reduction().unwrap();
    let mut out = Vec::new();
    for c in input.chunks(FMIF_ODD_CHUNK) {
        let mut buf = vec![Complex::default(); c.len()];
        let n = nr.process(c, &mut buf).unwrap();
        out.extend_from_slice(&buf[..n]);
    }
    assert!(
        out.len() < input.len(),
        "some samples should still be buffered"
    );
    let mut tail = vec![Complex::default(); FMIF_FLUSH_CAPACITY];
    let n = nr.flush(&mut tail).unwrap();
    out.extend_from_slice(&tail[..n]);
    assert_eq!(
        out.len(),
        input.len(),
        "flush must account for every input sample"
    );
    assert_eq!(nr.flush(&mut tail).unwrap(), 0);
    let mut whole = default_reduction().unwrap();
    let mut wbuf = vec![Complex::default(); input.len()];
    let wn = whole.process(&input, &mut wbuf).unwrap();
    let mut wout = wbuf[..wn].to_vec();
    let wf = whole.flush(&mut tail).unwrap();
    wout.extend_from_slice(&tail[..wf]);
    assert_eq!(wout.len(), out.len());
    for i in 0..out.len() {
        assert!(fmif_close(wout[i], out[i]), "sample {i} differs");
    }
}

#[test]
fn fm_if_nr_small_chunks_keep_processing() {
    let input = fmif_test_signal(FMIF_FFT * FMIF_STREAM_BLOCKS);
    let out = run_fmif_chunked(&input, FMIF_SMALL_CHUNK);
    assert!(
        out.len() + FMIF_FLUSH_CAPACITY >= input.len(),
        "emitted only {} of {}",
        out.len(),
        input.len()
    );
    let differs = out
        .iter()
        .zip(&input)
        .skip(2 * FMIF_FFT)
        .filter(|(o, i)| !fmif_close(**o, **i))
        .count();
    assert!(
        differs > out.len() / 2,
        "output looks like raw passthrough (only {differs} samples differ)"
    );
}

#[test]
fn squelch_audio_envelope_settles_to_exact_zero_after_release() {
    const RATE: f32 = 48_000.0;
    const BLOCK: usize = 480;
    let mut env = SquelchAudioEnvelope::new(RATE).unwrap();
    env.reset_to_open();
    env.set_gate_open(false);
    let mut buf = vec![Stereo { l: 1.0, r: 1.0 }; BLOCK];
    env.process_stereo(&mut buf);
    assert!(!env.settle_if_closed(), "still audibly ramping after 10 ms");
    assert!(
        buf[0].l > 0.5 && buf[BLOCK - 1].l < buf[0].l,
        "release ramps down"
    );
    for _ in 0..100 {
        let mut buf = vec![Stereo { l: 1.0, r: 1.0 }; BLOCK];
        env.process_stereo(&mut buf);
        if env.settle_if_closed() {
            break;
        }
    }
    assert!(env.settle_if_closed(), "must settle within 1 s");
    let mut buf = vec![Stereo { l: 1.0, r: 1.0 }; BLOCK];
    env.process_stereo(&mut buf);
    assert!(
        buf.iter().all(|s| s.l == 0.0 && s.r == 0.0),
        "exact zero once settled"
    );
    env.set_gate_open(true);
    assert!(!env.settle_if_closed());
}

#[test]
fn squelch_snapshot_reports_what_is_tracked() {
    let mut squelch = PowerSquelch::new(-30.0);
    squelch.set_auto_squelch(true);
    squelch.set_level(-40.0);
    let input = vec![Complex::new(1.0, 0.0); 10];
    let mut output = vec![Complex::default(); 10];
    assert_eq!(squelch.process(&input, &mut output), Ok(10));
    let d = squelch.diagnostic_snapshot();
    assert!(d.auto_squelch);
    assert_eq!(d.open, squelch.is_open());
    assert_eq!(d.settle_count, 1);
    assert_eq!(d.level_db, -40.0);
    assert_eq!(d.last_measured_db, 0.0);
    assert_eq!(d.noise_floor_db, squelch.noise_floor_db());
}

#[test]
fn squelch_tracks_levels_without_samples() {
    let mut squelch = PowerSquelch::new(-30.0);
    assert!(squelch.track(-20.0));
    assert!(squelch.is_open());
    assert!(!squelch.track(-40.0));
    assert!(!squelch.is_open());
}

#[test]
fn noise_errors_name_the_fault() {
    assert_eq!(
        NoiseBlanker::new(0.0, 5.0).err().unwrap().message(),
        "rate must be finite and in (0, 1), got 0"
    );
    assert_eq!(
        NoiseBlanker::new(0.1, 0.5).err().unwrap().message(),
        "level must be finite and >= 1.0, got 0.5"
    );
    assert_eq!(
        reduction(0).err(),
        Some(DspError::InvalidParameter("FFT size must be > 0".to_string()))
    );
    assert_eq!(
        Nr::with_fft_size::<F64>(8, Engine::forward(8), Engine::inverse(4)).err(),
        Some(DspError::InvalidParameter("transforms must match the FFT size".to_string()))
    );
    let mut nr = default_reduction().unwrap();
    let input = [Complex::default(); 3];
    let mut output = [Complex::default(); 2];
    assert_eq!(
        nr.process(&input, &mut output),
        Err(DspError::BufferTooSmall { need: 3, got: 2 })
    );
    let mut blanker = NoiseBlanker::new(0.1, 5.0).unwrap();
    assert_eq!(
        blanker.process(&input, &mut output),
        Err(DspError::BufferTooSmall { need: 3, got: 2 })
    );
}

#[test]
fn blanker_output_is_chunking_independent() {
    let input: Vec<Complex> = (0..60)
        .map(|i| Complex::new(if i % 17 == 0 { 40.0 } else { 1.0 }, i as f32 / 60.0))
        .collect();
    let mut whole = NoiseBlanker::new(0.05, 3.0).unwrap();
    let mut a = vec![Complex::default(); 60];
    whole.process(&input, &mut a).unwrap();
    let mut split = NoiseBlanker::new(0.05, 3.0).unwrap();
    let mut b = vec![Complex::default(); 60];
    split.process(&input[..23], &mut b[..23]).unwrap();
    split.process(&input[23..], &mut b[23..]).unwrap();
    assert_eq!(a, b);
    assert_eq!(whole.amp, split.amp);
}

#[test]
fn reset_drops_what_is_held_back() {
    let mut nr = reduction(8).unwrap();
    let input = vec![Complex::new(1.0, 0.0); 5];
    let mut output = vec![Complex::default(); 5];
    assert_eq!(nr.process(&input, &mut output), Ok(0));
    nr.reset();
    let mut tail = vec![Complex::default(); 8];
    assert_eq!(nr.flush(&mut tail), Ok(0));
}

#[test]
fn snapshots_are_copied() {
    let squelch = PowerSquelch::new(-42.0);
    let snapshot = squelch.diagnostic_snapshot();
    let copy = snapshot;
    assert_eq!((snapshot.level_db, snapshot.open), (copy.level_db, copy.open));
    assert_eq!(snapshot.clone().level_db, -42.0);
}
