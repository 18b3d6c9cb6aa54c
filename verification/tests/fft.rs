//! Fourier transforms on machine floats.

use rustfft::num_complex::Complex as RustFftComplex;
use rustfft::{Fft, FftPlanner};
use sdr_dsp::arith::Arithmetic;
use sdr_dsp::fft::{power_spectrum_db, Dft, FftEngine, FftSize};
use sdr_dsp::gpu_fft::{GpuFftPlan, Pass, SHADER_WORKGROUP_SIZE};
use sdr_dsp::integers::Integers;
use sdr_dsp::types;
use sdr_dsp::types::DspError;
use std::f32::consts::PI;
use std::sync::Arc;

type Complex = types::Complex<f32>;

/// Arithmetic on `f32`.
struct F32;

impl Arithmetic for F32 {
    type R = f32;

    fn integer(n: i64) -> f32 {
        n as f32
    }
    fn count(n: usize) -> f32 {
        n as f32
    }
    fn fraction(n: i64, d: i64) -> f32 {
        n as f32 / d as f32
    }
    fn plus(a: f32, b: f32) -> f32 {
        a + b
    }
    fn minus(a: f32, b: f32) -> f32 {
        a - b
    }
    fn times(a: f32, b: f32) -> f32 {
        a * b
    }
    fn over(a: f32, b: f32) -> f32 {
        a / b
    }
    fn mul_add(a: f32, b: f32, c: f32) -> f32 {
        a.mul_add(b, c)
    }
    fn midpoint(a: f32, b: f32) -> f32 {
        f32::midpoint(a, b)
    }
    fn neg(a: f32) -> f32 {
        -a
    }
    fn abs(a: f32) -> f32 {
        a.abs()
    }
    fn signum(a: f32) -> f32 {
        a.signum()
    }
    fn min(a: f32, b: f32) -> f32 {
        a.min(b)
    }
    fn max(a: f32, b: f32) -> f32 {
        a.max(b)
    }
    fn floor(a: f32) -> f32 {
        a.floor()
    }
    fn round(a: f32) -> f32 {
        a.round()
    }
    fn rem_euclid(a: f32, b: f32) -> f32 {
        a.rem_euclid(b)
    }
    fn sqrt(a: f32) -> f32 {
        a.sqrt()
    }
    fn sin(a: f32) -> f32 {
        a.sin()
    }
    fn cos(a: f32) -> f32 {
        a.cos()
    }
    fn atan2(y: f32, x: f32) -> f32 {
        y.atan2(x)
    }
    fn exp(a: f32) -> f32 {
        a.exp()
    }
    fn exp10(a: f32) -> f32 {
        (10.0 as f32).powf(a)
    }
    fn log10(a: f32) -> f32 {
        a.log10()
    }
    fn log2(a: f32) -> f32 {
        a.log2()
    }
    fn tanh(a: f32) -> f32 {
        a.tanh()
    }
    fn pi() -> f32 {
        std::f32::consts::PI
    }
    fn frac_1_sqrt_2() -> f32 {
        std::f32::consts::FRAC_1_SQRT_2
    }
    fn min_positive() -> f32 {
        f32::MIN_POSITIVE
    }
    fn neg_infinity() -> f32 {
        f32::NEG_INFINITY
    }
    fn nan() -> f32 {
        f32::NAN
    }
    fn lt(a: f32, b: f32) -> bool {
        a < b
    }
    fn le(a: f32, b: f32) -> bool {
        a <= b
    }
    fn same(a: f32, b: f32) -> bool {
        a == b
    }
    fn is_finite(a: f32) -> bool {
        a.is_finite()
    }
    fn to_i64(a: f32) -> i64 {
        a as i64
    }
    fn to_u64(a: f32) -> u64 {
        a as u64
    }
    fn to_text(a: f32) -> String {
        a.to_string()
    }
}

trait Polar {
    fn amplitude(&self) -> f32;
}

impl Polar for Complex {
    fn amplitude(&self) -> f32 {
        (self.re * self.re + self.im * self.im).sqrt()
    }
}


const FFT_SIZE: usize = 1024;

#[test]
fn test_new_valid() {
    let engine = RustFftEngine::new(FFT_SIZE).unwrap();
    assert_eq!(engine.size(), FFT_SIZE);
}

#[test]
fn test_new_zero_size() {
    assert!(RustFftEngine::new(0).is_err());
}

#[test]
fn test_forward_wrong_size() {
    let mut engine = RustFftEngine::new(FFT_SIZE).unwrap();
    let mut buf = vec![Complex::default(); 512];
    assert!(engine.forward(&mut buf).is_err());
}

#[test]
fn test_forward_dc_signal() {
    let mut engine = RustFftEngine::new(FFT_SIZE).unwrap();
    let mut buf = vec![Complex::new(1.0, 0.0); FFT_SIZE];
    engine.forward(&mut buf).unwrap();

    let dc_magnitude = buf[0].amplitude();
    assert!(
        (dc_magnitude - FFT_SIZE as f32).abs() < 1.0,
        "DC bin magnitude should be ~{FFT_SIZE}, got {dc_magnitude}"
    );

    for (i, bin) in buf.iter().enumerate().skip(1) {
        assert!(
            bin.amplitude() < 1e-3,
            "bin {i} should be ~0, got {}",
            bin.amplitude()
        );
    }
}

#[test]
fn test_forward_single_tone() {
    let mut engine = RustFftEngine::new(FFT_SIZE).unwrap();
    let tone_bin = 8;
    let mut buf: Vec<Complex> = (0..FFT_SIZE)
        .map(|i| {
            let phase = 2.0 * PI * (tone_bin as f32) * (i as f32) / (FFT_SIZE as f32);
            Complex::new(phase.cos(), phase.sin())
        })
        .collect();

    engine.forward(&mut buf).unwrap();

    let peak_bin = buf
        .iter()
        .enumerate()
        .max_by(|a, b| a.1.amplitude().partial_cmp(&b.1.amplitude()).unwrap())
        .map_or(0, |(i, _)| i);
    assert_eq!(peak_bin, tone_bin, "peak should be at bin {tone_bin}");

    let peak_mag = buf[tone_bin].amplitude();
    assert!(
        (peak_mag - FFT_SIZE as f32).abs() < 1.0,
        "peak magnitude should be ~{FFT_SIZE}, got {peak_mag}"
    );
}

#[test]
fn test_power_spectrum_db() {
    let mut engine = RustFftEngine::new(FFT_SIZE).unwrap();
    let mut buf = vec![Complex::new(1.0, 0.0); FFT_SIZE];
    engine.forward(&mut buf).unwrap();

    let mut output = vec![0.0_f32; FFT_SIZE];
    power_spectrum_db::<F32>(&buf, &mut output, 1.0).unwrap();

    assert!(
        output[0].abs() < 0.1,
        "DC power should be ~0 dB, got {}",
        output[0]
    );

    for (i, &db) in output.iter().enumerate().skip(1) {
        assert!(db < -60.0, "bin {i} should be << 0 dB, got {db}");
    }
}

#[test]
fn test_power_spectrum_db_buffer_too_small() {
    let buf = vec![Complex::default(); 64];
    let mut output = vec![0.0_f32; 32];
    assert!(power_spectrum_db::<F32>(&buf, &mut output, 1.0).is_err());
}


const PARITY_REL_L2_TOL: f32 = 1e-4;

fn rand_like(n: usize, seed: f32) -> Vec<Complex> {
    (0..n)
        .map(|i| {
                        let t = i as f32;
            Complex {
                re: (t * 0.011 + seed).sin() + 0.5 * (t * 0.073).cos(),
                im: (t * 0.019 + seed).cos() - 0.3 * (t * 0.041).sin(),
            }
        })
        .collect()
}

fn assert_parity(size: usize) {
    let mut gpu = PlanEngine::new(size).expect("plan");
    let mut cpu = RustFftEngine::new(size).expect("CPU FFT");

    let input = rand_like(size, 1.5);
    let mut gpu_buf = input.clone();
    let mut cpu_buf = input;

    gpu.forward(&mut gpu_buf).expect("GPU forward");
    cpu.forward(&mut cpu_buf).expect("CPU forward");

    let mut err_sq = 0.0_f64;
    let mut ref_sq = 0.0_f64;
    for (g, c) in gpu_buf.iter().zip(cpu_buf.iter()) {
        let dr = f64::from(g.re - c.re);
        let di = f64::from(g.im - c.im);
        err_sq += dr * dr + di * di;
        let cr = f64::from(c.re);
        let ci = f64::from(c.im);
        ref_sq += cr * cr + ci * ci;
    }
        let rel = (err_sq / ref_sq.max(f64::MIN_POSITIVE)) as f32;
    assert!(
        rel < PARITY_REL_L2_TOL,
        "size={size} relative L2 error {rel:.3e} exceeds tolerance {PARITY_REL_L2_TOL:.0e}"
    );
}

#[test]
fn gpu_fft_parity_2048() {
    check_parity_2048();
}

#[test]
fn tests_parity_2048() {
    check_parity_2048();
}

fn check_parity_2048() {
    assert_parity(2048);
}

#[test]
fn gpu_fft_parity_8192() {
    check_parity_8192();
}

#[test]
fn tests_parity_8192() {
    check_parity_8192();
}

fn check_parity_8192() {
    assert_parity(8192);
}

#[test]
fn gpu_fft_parity_65536() {
    check_parity_65536();
}

#[test]
fn tests_parity_65536() {
    check_parity_65536();
}

fn check_parity_65536() {
    assert_parity(65_536);
}

#[test]
fn parity_single_stage_256() {
    assert_parity(256);
}

#[test]
fn parity_512() {
    assert_parity(512);
}

#[test]
fn parity_1024() {
    assert_parity(1024);
}

#[test]
fn gpu_fft_rejects_non_power_of_two() {
    check_rejects_non_power_of_two();
}

#[test]
fn tests_rejects_non_power_of_two() {
    check_rejects_non_power_of_two();
}

fn check_rejects_non_power_of_two() {
    let err = PlanEngine::new(1000).err().expect("must reject");
    assert!(
        matches!(err, DspError::InvalidParameter(_)),
        "expected InvalidParameter, got {err:?}"
    );
}

#[test]
fn gpu_fft_rejects_size_one() {
    check_rejects_size_one();
}

#[test]
fn tests_rejects_size_one() {
    check_rejects_size_one();
}

fn check_rejects_size_one() {
    let err = PlanEngine::new(1).err().expect("must reject");
    assert!(
        matches!(err, DspError::InvalidParameter(_)),
        "expected InvalidParameter, got {err:?}"
    );
}

#[test]
fn rejects_too_large() {
    let err = PlanEngine::new(131_072).err().expect("must reject");
    let DspError::InvalidParameter(msg) = err else {
        unreachable!("expected InvalidParameter");
    };
    assert!(
        msg.contains("3-stage") || msg.contains("131072"),
        "expected informative error, got: {msg}"
    );
}

/// The engine of a spectrum display, by `rustfft`.
struct RustFftEngine {
    fft: Arc<dyn Fft<f32>>,
    size: FftSize,
}

impl RustFftEngine {
    fn new(size: usize) -> Result<Self, DspError> {
        let size = FftSize::new(size)?;
        let fft = FftPlanner::new().plan_fft_forward(size.points);
        Ok(Self { fft, size })
    }
}

impl FftEngine<F32> for RustFftEngine {
    fn forward(&mut self, buf: &mut [Complex]) -> Result<(), DspError> {
        self.size.check_len(buf.len())?;
        let mut bins: Vec<RustFftComplex<f32>> =
            buf.iter().map(|s| RustFftComplex::new(s.re, s.im)).collect();
        self.fft.process(&mut bins);
        for (s, b) in buf.iter_mut().zip(&bins) {
            *s = Complex::new(b.re, b.im);
        }
        Ok(())
    }
    fn size(&self) -> usize {
        self.size.points
    }
}

/// Carries out a plan for a GPU pass by pass, on two buffers in memory.
struct PlanEngine {
    plan: GpuFftPlan,
    params: Vec<u8>,
    bufs: [Vec<Complex>; 2],
}

impl PlanEngine {
    fn new(size: usize) -> Result<Self, DspError> {
        let plan = GpuFftPlan::new(size, 256)?;
        let bufs = [vec![Complex::default(); size], vec![Complex::default(); size]];
        Ok(Self { plan, params: plan.params_bytes(), bufs })
    }

    fn word(&self, at: usize) -> u32 {
        u32::from_ne_bytes([
            self.params[at],
            self.params[at + 1],
            self.params[at + 2],
            self.params[at + 3],
        ])
    }

    /// One pass of the kernel over all its workgroups.
    fn run(&mut self, pass: Pass) {
        let s = self.word(pass.params_offset as usize);
        let n = self.word(pass.params_offset as usize + 4) as usize;
        let half = 1_usize << s;
        let (a, b) = self.bufs.split_at_mut(1);
        let (src, dst) = if pass.reads_a { (&a[0], &mut b[0]) } else { (&b[0], &mut a[0]) };
        let threads = pass.workgroup_count as usize * SHADER_WORKGROUP_SIZE as usize;
        for t in 0..threads.min(n / 2) {
            let k = t % half;
            let x = src[t];
            let y = src[t + n / 2];
            let angle = -std::f64::consts::PI * k as f64 / half as f64;
            let (sin, cos) = (angle.sin() as f32, angle.cos() as f32);
            let v = Complex::new(y.re * cos - y.im * sin, y.re * sin + y.im * cos);
            let at = (t / half) * 2 * half + k;
            dst[at] = Complex::new(x.re + v.re, x.im + v.im);
            dst[at + half] = Complex::new(x.re - v.re, x.im - v.im);
        }
    }
}

impl FftEngine<F32> for PlanEngine {
    fn forward(&mut self, buf: &mut [Complex]) -> Result<(), DspError> {
        FftSize::new(self.plan.size)?.check_len(buf.len())?;
        self.bufs[0].copy_from_slice(buf);
        for s in 0..self.plan.log2_size {
            let pass = self.plan.pass(s);
            self.run(pass);
        }
        let result = if self.plan.output_in_buf_a { 0 } else { 1 };
        buf.copy_from_slice(&self.bufs[result]);
        Ok(())
    }
    fn size(&self) -> usize {
        self.plan.size
    }
}

#[test]
fn plan_lays_out_what_the_passes_are_told() {
    let plan = GpuFftPlan::new(1024, 32).unwrap();
    assert_eq!(plan.log2_size, 10);
    assert_eq!(plan.workgroup_count, 8);
    assert_eq!(plan.buffer_bytes, 8192);
    assert!(plan.output_in_buf_a);
    let bytes = plan.params_bytes();
    assert_eq!(bytes.len(), 320);
    assert_eq!(&bytes[96..100], &3_u32.to_ne_bytes());
    assert_eq!(&bytes[100..104], &1024_u32.to_ne_bytes());
    assert!(bytes[104..128].iter().all(|&b| b == 0));
    assert_eq!(
        plan.pass(3),
        Pass { reads_a: false, params_offset: 96, workgroup_count: 8 }
    );
    let tight = GpuFftPlan::new(2, 1).unwrap();
    assert_eq!(tight.params_stride, 8);
    assert_eq!(tight.workgroup_count, 1);
    assert!(!tight.output_in_buf_a);
}

#[test]
fn plans_name_what_they_refuse() {
    assert_eq!(
        GpuFftPlan::new(0, 256),
        Err(DspError::InvalidParameter("GPU FFT size must be a power of two ≥ 2, got 0".to_string()))
    );
    assert_eq!(GpuFftPlan::passes(65_536), Ok(16));
    assert_eq!(
        FftSize::new(0),
        Err(DspError::InvalidParameter("FFT size must be > 0".to_string()))
    );
    assert_eq!(
        FftSize::new(8).unwrap().check_len(7),
        Err(DspError::BufferTooSmall { need: 8, got: 7 })
    );
}

#[test]
fn definition_agrees_with_the_engine() {
    let mut by_definition = Dft { size: 64, inverse: false };
    let mut engine = RustFftEngine::new(64).unwrap();
    let mut a = rand_like(64, 0.3);
    let mut b = a.clone();
    FftEngine::<F32>::forward(&mut by_definition, &mut a).unwrap();
    engine.forward(&mut b).unwrap();
    for (x, y) in a.iter().zip(&b) {
        assert!((x.re - y.re).abs() < 1e-3 && (x.im - y.im).abs() < 1e-3);
    }
    let mut short = vec![Complex::default(); 3];
    assert_eq!(
        FftEngine::<F32>::forward(&mut by_definition, &mut short),
        Err(DspError::BufferTooSmall { need: 64, got: 3 })
    );
}

#[test]
fn definition_is_exact_on_integers() {
    let mut dft = Dft { size: 4, inverse: false };
    let mut buf = [
        types::Complex::new(1_i64, 0),
        types::Complex::new(2, 0),
        types::Complex::new(3, 0),
        types::Complex::new(4, 0),
    ];
    FftEngine::<Integers>::forward(&mut dft, &mut buf).unwrap();
    assert_eq!(
        buf,
        [
            types::Complex::new(10, 0),
            types::Complex::new(-2, 2),
            types::Complex::new(-2, 0),
            types::Complex::new(-2, -2),
        ]
    );
}

#[test]
fn an_engine_is_the_same_after_a_call() {
    let mut dft = Dft { size: 32, inverse: false };
    let frame = rand_like(32, 0.7);
    let mut first = frame.clone();
    let mut second = frame.clone();
    assert_eq!(FftEngine::<F32>::forward(&mut dft, &mut first), Ok(()));
    assert_eq!(FftEngine::<F32>::forward(&mut dft, &mut second), Ok(()));
    assert_eq!(first, second);
    assert_ne!(first, frame);
    assert_eq!(FftEngine::<F32>::size(&dft), 32);
}
