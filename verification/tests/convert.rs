//! Conversions and path loss on machine floats.

use sdr_dsp::arith::{Arithmetic, Widening};
use sdr_dsp::convert::{
    complex_to_real, complex_to_stereo, lr_to_stereo, mono_to_stereo, real_to_complex,
    stereo_48k_to_mono_16k, stereo_to_mono,
};
use sdr_dsp::integers::Integers;
use sdr_dsp::propagation::{
    dbm_to_watts, fspl_constant_db, fspl_db, fspl_distance_m, watts_to_dbm,
};
use sdr_dsp::types;
use sdr_dsp::types::DspError;

type Complex = types::Complex<f32>;
type Stereo = types::Stereo<f32>;

/// Arithmetic on `f32`.
struct F32;

impl Arithmetic for F32 {
    type R = f32;

    fn integer(n: i64) -> f32 {
        n as f32
    }
    fn count(n: usize) -> f32 {
        n as f32
    }
    fn fraction(n: i64, d: i64) -> f32 {
        n as f32 / d as f32
    }
    fn plus(a: f32, b: f32) -> f32 {
        a + b
    }
    fn minus(a: f32, b: f32) -> f32 {
        a - b
    }
    fn times(a: f32, b: f32) -> f32 {
        a * b
    }
    fn over(a: f32, b: f32) -> f32 {
        a / b
    }
    fn mul_add(a: f32, b: f32, c: f32) -> f32 {
        a.mul_add(b, c)
    }
    fn midpoint(a: f32, b: f32) -> f32 {
        f32::midpoint(a, b)
    }
    fn neg(a: f32) -> f32 {
        -a
    }
    fn abs(a: f32) -> f32 {
        a.abs()
    }
    fn signum(a: f32) -> f32 {
        a.signum()
    }
    fn min(a: f32, b: f32) -> f32 {
        a.min(b)
    }
    fn max(a: f32, b: f32) -> f32 {
        a.max(b)
    }
    fn floor(a: f32) -> f32 {
        a.floor()
    }
    fn round(a: f32) -> f32 {
        a.round()
    }
    fn rem_euclid(a: f32, b: f32) -> f32 {
        a.rem_euclid(b)
    }
    fn sqrt(a: f32) -> f32 {
        a.sqrt()
    }
    fn sin(a: f32) -> f32 {
        a.sin()
    }
    fn cos(a: f32) -> f32 {
        a.cos()
    }
    fn atan2(y: f32, x: f32) -> f32 {
        y.atan2(x)
    }
    fn exp(a: f32) -> f32 {
        a.exp()
    }
    fn exp10(a: f32) -> f32 {
        (10.0 as f32).powf(a)
    }
    fn log10(a: f32) -> f32 {
        a.log10()
    }
    fn log2(a: f32) -> f32 {
        a.log2()
    }
    fn tanh(a: f32) -> f32 {
        a.tanh()
    }
    fn pi() -> f32 {
        std::f32::consts::PI
    }
    fn frac_1_sqrt_2() -> f32 {
        std::f32::consts::FRAC_1_SQRT_2
    }
    fn min_positive() -> f32 {
        f32::MIN_POSITIVE
    }
    fn neg_infinity() -> f32 {
        f32::NEG_INFINITY
    }
    fn nan() -> f32 {
        f32::NAN
    }
    fn lt(a: f32, b: f32) -> bool {
        a < b
    }
    fn le(a: f32, b: f32) -> bool {
        a <= b
    }
    fn same(a: f32, b: f32) -> bool {
        a == b
    }
    fn is_finite(a: f32) -> bool {
        a.is_finite()
    }
    fn to_i64(a: f32) -> i64 {
        a as i64
    }
    fn to_u64(a: f32) -> u64 {
        a as u64
    }
    fn to_text(a: f32) -> String {
        a.to_string()
    }
}

/// Arithmetic on `f64`.
struct F64;

impl Arithmetic for F64 {
    type R = f64;

    fn integer(n: i64) -> f64 {
        n as f64
    }
    fn count(n: usize) -> f64 {
        n as f64
    }
    fn fraction(n: i64, d: i64) -> f64 {
        n as f64 / d as f64
    }
    fn plus(a: f64, b: f64) -> f64 {
        a + b
    }
    fn minus(a: f64, b: f64) -> f64 {
        a - b
    }
    fn times(a: f64, b: f64) -> f64 {
        a * b
    }
    fn over(a: f64, b: f64) -> f64 {
        a / b
    }
    fn mul_add(a: f64, b: f64, c: f64) -> f64 {
        a.mul_add(b, c)
    }
    fn midpoint(a: f64, b: f64) -> f64 {
        f64::midpoint(a, b)
    }
    fn neg(a: f64) -> f64 {
        -a
    }
    fn abs(a: f64) -> f64 {
        a.abs()
    }
    fn signum(a: f64) -> f64 {
        a.signum()
    }
    fn min(a: f64, b: f64) -> f64 {
        a.min(b)
    }
    fn max(a: f64, b: f64) -> f64 {
        a.max(b)
    }
    fn floor(a: f64) -> f64 {
        a.floor()
    }
    fn round(a: f64) -> f64 {
        a.round()
    }
    fn rem_euclid(a: f64, b: f64) -> f64 {
        a.rem_euclid(b)
    }
    fn sqrt(a: f64) -> f64 {
        a.sqrt()
    }
    fn sin(a: f64) -> f64 {
        a.sin()
    }
    fn cos(a: f64) -> f64 {
        a.cos()
    }
    fn atan2(y: f64, x: f64) -> f64 {
        y.atan2(x)
    }
    fn exp(a: f64) -> f64 {
        a.exp()
    }
    fn exp10(a: f64) -> f64 {
        (10.0 as f64).powf(a)
    }
    fn log10(a: f64) -> f64 {
        a.log10()
    }
    fn log2(a: f64) -> f64 {
        a.log2()
    }
    fn tanh(a: f64) -> f64 {
        a.tanh()
    }
    fn pi() -> f64 {
        std::f64::consts::PI
    }
    fn frac_1_sqrt_2() -> f64 {
        std::f64::consts::FRAC_1_SQRT_2
    }
    fn min_positive() -> f64 {
        f64::MIN_POSITIVE
    }
    fn neg_infinity() -> f64 {
        f64::NEG_INFINITY
    }
    fn nan() -> f64 {
        f64::NAN
    }
    fn lt(a: f64, b: f64) -> bool {
        a < b
    }
    fn le(a: f64, b: f64) -> bool {
        a <= b
    }
    fn same(a: f64, b: f64) -> bool {
        a == b
    }
    fn is_finite(a: f64) -> bool {
        a.is_finite()
    }
    fn to_i64(a: f64) -> i64 {
        a as i64
    }
    fn to_u64(a: f64) -> u64 {
        a as u64
    }
    fn to_text(a: f64) -> String {
        a.to_string()
    }
}

impl Widening<F32> for F64 {
    fn narrow(a: f64) -> f32 {
        a as f32
    }
    fn widen(a: f32) -> f64 {
        f64::from(a)
    }
}


#[test]
fn test_complex_to_real() {
    let input = [Complex::new(1.0, 2.0), Complex::new(3.0, 4.0)];
    let mut output = [0.0_f32; 2];
    let count = complex_to_real(&input, &mut output).unwrap();
    assert_eq!(count, 2);
    assert_eq!(output[0], 1.0);
    assert_eq!(output[1], 3.0);
}

#[test]
fn test_real_to_complex() {
    let input = [1.0_f32, 2.0, 3.0];
    let mut output = [Complex::default(); 3];
    let count = real_to_complex::<F32>(&input, &mut output).unwrap();
    assert_eq!(count, 3);
    assert_eq!(output[0].re, 1.0);
    assert_eq!(output[0].im, 0.0);
    assert_eq!(output[2].re, 3.0);
}

#[test]
fn test_mono_to_stereo() {
    let input = [0.5_f32, 0.75];
    let mut output = [Stereo::default(); 2];
    let count = mono_to_stereo(&input, &mut output).unwrap();
    assert_eq!(count, 2);
    assert_eq!(output[0].l, 0.5);
    assert_eq!(output[0].r, 0.5);
    assert_eq!(output[1].l, 0.75);
    assert_eq!(output[1].r, 0.75);
}

#[test]
fn test_stereo_to_mono() {
    let input = [Stereo::new(1.0, 3.0), Stereo::new(2.0, 4.0)];
    let mut output = [0.0_f32; 2];
    let count = stereo_to_mono::<F32>(&input, &mut output).unwrap();
    assert_eq!(count, 2);
    assert_eq!(output[0], 2.0);
    assert_eq!(output[1], 3.0);
}

#[test]
fn test_lr_to_stereo() {
    let left = [1.0_f32, 2.0];
    let right = [3.0_f32, 4.0];
    let mut output = [Stereo::default(); 2];
    let count = lr_to_stereo(&left, &right, &mut output).unwrap();
    assert_eq!(count, 2);
    assert_eq!(output[0].l, 1.0);
    assert_eq!(output[0].r, 3.0);
    assert_eq!(output[1].l, 2.0);
    assert_eq!(output[1].r, 4.0);
}

#[test]
fn test_lr_to_stereo_mismatched_lengths() {
    let left = [1.0_f32, 2.0];
    let right = [3.0_f32];
    let mut output = [Stereo::default(); 2];
    let err = lr_to_stereo(&left, &right, &mut output).unwrap_err();
    assert!(
        matches!(err, DspError::InvalidParameter(_)),
        "expected InvalidParameter, got {err:?}"
    );
}

#[test]
fn test_complex_to_stereo() {
    let input = [Complex::new(1.0, 2.0), Complex::new(3.0, 4.0)];
    let mut output = [Stereo::default(); 2];
    let count = complex_to_stereo(&input, &mut output).unwrap();
    assert_eq!(count, 2);
    assert_eq!(output[0].l, 1.0);
    assert_eq!(output[0].r, 2.0);
    assert_eq!(output[1].l, 3.0);
    assert_eq!(output[1].r, 4.0);
}

#[test]
fn test_stereo_48k_to_mono_16k_empty() {
    let mut output = [0.0_f32; 0];
    let mut phase = 0;
    let count = stereo_48k_to_mono_16k::<F32>(&[], &mut output, &mut phase).unwrap();
    assert_eq!(count, 0);
    assert_eq!(phase, 0);
}

#[test]
fn test_stereo_48k_to_mono_16k_single_sample() {
    let input = [Stereo::new(0.6, 0.4)];
    let mut output = [0.0_f32; 1];
    let mut phase = 0;
    let count = stereo_48k_to_mono_16k::<F32>(&input, &mut output, &mut phase).unwrap();
    assert_eq!(count, 1);
    assert_eq!(output[0], 0.5);
    assert_eq!(phase, 2);
}

#[test]
fn test_stereo_48k_to_mono_16k_three_to_one() {
    let input = [
        Stereo::new(0.2, 0.8),
        Stereo::new(0.0, 0.0),
        Stereo::new(0.0, 0.0),
    ];
    let mut output = [0.0_f32; 1];
    let mut phase = 0;
    let count = stereo_48k_to_mono_16k::<F32>(&input, &mut output, &mut phase).unwrap();
    assert_eq!(count, 1);
    assert_eq!(output[0], 0.5);
    assert_eq!(phase, 0);
}

#[test]
fn test_stereo_48k_to_mono_16k_six_to_two() {
    let input = [
        Stereo::new(0.2, 0.4),
        Stereo::new(0.0, 0.0),
        Stereo::new(0.0, 0.0),
        Stereo::new(0.6, 0.8),
        Stereo::new(0.0, 0.0),
        Stereo::new(0.0, 0.0),
    ];
    let mut output = [0.0_f32; 2];
    let mut phase = 0;
    let count = stereo_48k_to_mono_16k::<F32>(&input, &mut output, &mut phase).unwrap();
    assert_eq!(count, 2);
    assert!((output[0] - 0.3).abs() < f32::EPSILON);
    assert!((output[1] - 0.7).abs() < f32::EPSILON);
    assert_eq!(phase, 0);
}

#[test]
fn test_stereo_48k_to_mono_16k_buffer_too_small() {
    let input = [Stereo::default(); 3];
    let mut output = [0.0_f32; 0];
    let mut phase = 0;
    let err = stereo_48k_to_mono_16k::<F32>(&input, &mut output, &mut phase).unwrap_err();
    assert!(
        matches!(err, DspError::BufferTooSmall { need: 1, got: 0 }),
        "expected BufferTooSmall {{ need: 1, got: 0 }}, got {err:?}"
    );
    assert_eq!(phase, 0);
}

#[test]
fn test_stereo_48k_to_mono_16k_phase_carries_across_chunks() {
    let chunks: [[Stereo; 5]; 3] = [
        [
            Stereo::new(1.0, 1.0),
            Stereo::new(2.0, 2.0),
            Stereo::new(3.0, 3.0),
            Stereo::new(4.0, 4.0),
            Stereo::new(5.0, 5.0),
        ],
        [
            Stereo::new(6.0, 6.0),
            Stereo::new(7.0, 7.0),
            Stereo::new(8.0, 8.0),
            Stereo::new(9.0, 9.0),
            Stereo::new(10.0, 10.0),
        ],
        [
            Stereo::new(11.0, 11.0),
            Stereo::new(12.0, 12.0),
            Stereo::new(13.0, 13.0),
            Stereo::new(14.0, 14.0),
            Stereo::new(15.0, 15.0),
        ],
    ];

    let mut phase = 0;
    let mut all_out: Vec<f32> = Vec::new();
    for chunk in &chunks {
        let mut out = vec![0.0_f32; chunk.len()];
        let n = stereo_48k_to_mono_16k::<F32>(chunk, &mut out, &mut phase).unwrap();
        all_out.extend_from_slice(&out[..n]);
    }
    assert_eq!(all_out, vec![1.0, 4.0, 7.0, 10.0, 13.0]);
    assert_eq!(phase, 0);
}

#[test]
fn test_stereo_48k_to_mono_16k_clamps_bogus_phase() {
    let input = [Stereo::new(0.6, 0.4)];
    let mut output = [0.0_f32; 1];
    let mut phase = 99;
    let count = stereo_48k_to_mono_16k::<F32>(&input, &mut output, &mut phase).unwrap();
    assert_eq!(count, 1);
    assert_eq!(output[0], 0.5);
}

#[test]
fn test_roundtrip_real_complex() {
    let original = [1.0_f32, 2.0, 3.0, 4.0, 5.0];
    let mut complex = [Complex::default(); 5];
    let mut back = [0.0_f32; 5];
    real_to_complex::<F32>(&original, &mut complex).unwrap();
    complex_to_real(&complex, &mut back).unwrap();
    assert_eq!(original, back);
}

#[test]
fn test_roundtrip_mono_stereo() {
    let original = [1.0_f32, 2.0, 3.0];
    let mut stereo = [Stereo::default(); 3];
    let mut back = [0.0_f32; 3];
    mono_to_stereo(&original, &mut stereo).unwrap();
    stereo_to_mono::<F32>(&stereo, &mut back).unwrap();
    assert_eq!(original, back);
}

#[test]
fn convert_test_buffer_too_small() {
    let input = [Complex::default(); 5];
    let mut output = [0.0_f32; 3];
    let err = complex_to_real(&input, &mut output).unwrap_err();
    assert!(
        matches!(err, DspError::BufferTooSmall { need: 5, got: 3 }),
        "expected BufferTooSmall {{need: 5, got: 3}}, got {err:?}"
    );
}

#[test]
fn test_empty_input() {
    let input: &[Complex] = &[];
    let mut output = [0.0_f32; 0];
    let count = complex_to_real(input, &mut output).unwrap();
    assert_eq!(count, 0);
}


const DB_TOL: f64 = 0.01;

const DIST_REL_TOL: f64 = 1e-9;

#[test]
fn fspl_constant_matches_textbook() {
    let k = fspl_constant_db::<F64>();
    assert!(
        (k - 147.55).abs() < 0.01,
        "FSPL constant {k} deviates from textbook 147.55"
    );
}

#[test]
fn watts_dbm_round_trip() {
    for &watts in &[0.001, 0.1, 1.0, 5.0, 25.0, 50.0, 100.0, 1000.0] {
        let dbm = watts_to_dbm::<F64>(watts);
        let back = dbm_to_watts::<F64>(dbm);
        let rel_err = (back - watts).abs() / watts;
        assert!(
            rel_err < 1e-12,
            "watts round-trip failed: {watts} → {dbm} dBm → {back} W (rel err {rel_err:e})"
        );
    }
}

#[test]
fn watts_to_dbm_anchors() {
    assert!((watts_to_dbm::<F64>(1.0) - 30.0).abs() < DB_TOL);
    assert!((watts_to_dbm::<F64>(0.001) - 0.0).abs() < DB_TOL);
    assert!((watts_to_dbm::<F64>(100.0) - 50.0).abs() < DB_TOL);
}

#[test]
fn watts_to_dbm_edge_cases() {
    assert!(watts_to_dbm::<F64>(0.0).is_infinite() && watts_to_dbm::<F64>(0.0).is_sign_negative());
    assert!(watts_to_dbm::<F64>(-1.0).is_infinite() && watts_to_dbm::<F64>(-1.0).is_sign_negative());
}

#[test]
fn fspl_db_anchors() {
    let loss = fspl_db::<F64>(1.0, 100e6);
    assert!(
        (loss - 12.45).abs() < DB_TOL,
        "expected ~12.45 dB at 100 MHz / 1 m, got {loss}"
    );

    let loss = fspl_db::<F64>(10_000.0, 1e9);
    assert!(
        (loss - 112.45).abs() < DB_TOL,
        "expected ~112.45 dB at 1 GHz / 10 km, got {loss}"
    );
}

#[test]
fn fspl_round_trip_distance_to_loss_to_distance() {
    for &freq in &[50e6, 155e6, 446e6, 1.575e9, 2.4e9] {
        for &d in &[1.0_f64, 100.0, 1_000.0, 50_000.0, 1e6] {
            let loss = fspl_db::<F64>(d, freq);
            let d_back = fspl_distance_m::<F64>(0.0, -loss, freq);
            let rel = (d_back - d).abs() / d;
            assert!(
                rel < DIST_REL_TOL,
                "round-trip failed at f={freq}, d={d}: got {d_back} (rel err {rel:e})"
            );
        }
    }
}

#[test]
fn fspl_distance_rejects_non_physical_inputs() {
    assert!(fspl_distance_m::<F64>(30.0, -80.0, 0.0).is_nan());
    assert!(fspl_distance_m::<F64>(30.0, -80.0, -1.0).is_nan());

    assert!(fspl_distance_m::<F64>(f64::NAN, -80.0, 100e6).is_nan());
    assert!(fspl_distance_m::<F64>(30.0, f64::NAN, 100e6).is_nan());
    assert!(fspl_distance_m::<F64>(f64::INFINITY, -80.0, 100e6).is_nan());

    assert!(fspl_distance_m::<F64>(30.0, 30.0, 100e6) < f64::EPSILON);
    assert!(fspl_distance_m::<F64>(30.0, 40.0, 100e6) < f64::EPSILON);
}

#[test]
fn public_safety_vhf_scenario() {
    let erp = watts_to_dbm::<F64>(50.0);
    let d = fspl_distance_m::<F64>(erp, -90.0, 155e6);
    assert!(
        (500_000.0..2_000_000.0).contains(&d),
        "expected 500 km - 2 Mm for 50W @ 155 MHz @ -90 dBm FSPL, got {d} m"
    );
}

#[test]
fn no_transmitter_is_at_no_distance() {
    assert_eq!(fspl_distance_m::<F64>(watts_to_dbm::<F64>(0.0), -80.0, 100e6), 0.0);
    assert!(fspl_distance_m::<F64>(f64::NEG_INFINITY, f64::NEG_INFINITY, 100e6).is_nan());
}

#[test]
fn integers_have_exact_levels() {
    assert_eq!(watts_to_dbm::<Integers>(100), 50);
    assert_eq!(watts_to_dbm::<Integers>(0), i64::MIN);
    assert_eq!(dbm_to_watts::<Integers>(50), 100);
}

#[test]
fn mismatched_channels_leave_the_output_alone() {
    let mut output = [Stereo::new(7.0, 8.0); 2];
    assert_eq!(
        lr_to_stereo(&[1.0, 2.0], &[3.0], &mut output),
        Err(DspError::InvalidParameter("L and R must have same length: 2 != 1".to_string()))
    );
    assert_eq!(
        lr_to_stereo(&[1.0, 2.0, 3.0], &[3.0, 2.0, 1.0], &mut output),
        Err(DspError::BufferTooSmall { need: 3, got: 2 })
    );
    assert_eq!(output, [Stereo::new(7.0, 8.0); 2]);
}

#[test]
fn longer_outputs_keep_their_tail() {
    let mut output = [9.0_f32; 4];
    complex_to_real(&[Complex::new(1.0, 2.0)], &mut output).unwrap();
    assert_eq!(output, [1.0, 9.0, 9.0, 9.0]);
    let mut phase = 1;
    let input = [Stereo::new(1.0, 1.0), Stereo::new(2.0, 4.0), Stereo::new(5.0, 5.0)];
    assert_eq!(stereo_48k_to_mono_16k::<F32>(&input, &mut output, &mut phase), Ok(1));
    assert_eq!(output, [3.0, 9.0, 9.0, 9.0]);
    assert_eq!(phase, 1);
}

#[test]
fn levels_and_losses_are_given_back() {
    for dbm in [-120.0, -30.0, 0.0, 17.5, 60.0] {
        assert!((watts_to_dbm::<F64>(dbm_to_watts::<F64>(dbm)) - dbm).abs() < 1e-9);
    }
    for received in [-130.0, -90.0, -40.0] {
        let metres = fspl_distance_m::<F64>(33.0, received, 137.1e6);
        assert!((fspl_db::<F64>(metres, 137.1e6) - (33.0 - received)).abs() < 1e-9);
    }
}
