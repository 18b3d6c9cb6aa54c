//! Pictures and the files that hold them.

use sdr_dsp::apt::picture::{brightness_range, collect_samples, downmix, stretch};
use sdr_dsp::apt::{AptLine, LINE_PIXELS};
use sdr_dsp::arith::Arithmetic;
use sdr_dsp::png::{
    adler32, crc32_finalize, crc32_init, crc32_update, grayscale_png, zlib_encode, CrcTable,
    SIGNATURE,
};

/// Arithmetic on `f32`.
struct F32;

impl Arithmetic for F32 {
    type R = f32;

    fn integer(n: i64) -> f32 {
        n as f32
    }
    fn count(n: usize) -> f32 {
        n as f32
    }
    fn fraction(n: i64, d: i64) -> f32 {
        n as f32 / d as f32
    }
    fn plus(a: f32, b: f32) -> f32 {
        a + b
    }
    fn minus(a: f32, b: f32) -> f32 {
        a - b
    }
    fn times(a: f32, b: f32) -> f32 {
        a * b
    }
    fn over(a: f32, b: f32) -> f32 {
        a / b
    }
    fn mul_add(a: f32, b: f32, c: f32) -> f32 {
        a.mul_add(b, c)
    }
    fn midpoint(a: f32, b: f32) -> f32 {
        f32::midpoint(a, b)
    }
    fn neg(a: f32) -> f32 {
        -a
    }
    fn abs(a: f32) -> f32 {
        a.abs()
    }
    fn signum(a: f32) -> f32 {
        a.signum()
    }
    fn min(a: f32, b: f32) -> f32 {
        a.min(b)
    }
    fn max(a: f32, b: f32) -> f32 {
        a.max(b)
    }
    fn floor(a: f32) -> f32 {
        a.floor()
    }
    fn round(a: f32) -> f32 {
        a.round()
    }
    fn rem_euclid(a: f32, b: f32) -> f32 {
        a.rem_euclid(b)
    }
    fn sqrt(a: f32) -> f32 {
        a.sqrt()
    }
    fn sin(a: f32) -> f32 {
        a.sin()
    }
    fn cos(a: f32) -> f32 {
        a.cos()
    }
    fn atan2(y: f32, x: f32) -> f32 {
        y.atan2(x)
    }
    fn exp(a: f32) -> f32 {
        a.exp()
    }
    fn exp10(a: f32) -> f32 {
        (10.0 as f32).powf(a)
    }
    fn log10(a: f32) -> f32 {
        a.log10()
    }
    fn log2(a: f32) -> f32 {
        a.log2()
    }
    fn tanh(a: f32) -> f32 {
        a.tanh()
    }
    fn pi() -> f32 {
        std::f32::consts::PI
    }
    fn frac_1_sqrt_2() -> f32 {
        std::f32::consts::FRAC_1_SQRT_2
    }
    fn min_positive() -> f32 {
        f32::MIN_POSITIVE
    }
    fn neg_infinity() -> f32 {
        f32::NEG_INFINITY
    }
    fn nan() -> f32 {
        f32::NAN
    }
    fn lt(a: f32, b: f32) -> bool {
        a < b
    }
    fn le(a: f32, b: f32) -> bool {
        a <= b
    }
    fn same(a: f32, b: f32) -> bool {
        a == b
    }
    fn is_finite(a: f32) -> bool {
        a.is_finite()
    }
    fn to_i64(a: f32) -> i64 {
        a as i64
    }
    fn to_u64(a: f32) -> u64 {
        a as u64
    }
    fn to_text(a: f32) -> String {
        a.to_string()
    }
}

fn crc(data: &[u8]) -> u32 {
    crc32_finalize(crc32_update(&CrcTable::new(), crc32_init(), data))
}

#[test]
fn checksums_have_the_known_values() {
    assert_eq!(crc(b"123456789"), 0xCBF4_3926);
    assert_eq!(crc(b"IEND"), 0xAE42_6082);
    assert_eq!(crc(b""), 0);
    assert_eq!(adler32(b"Wikipedia"), 0x11E6_0398);
    assert_eq!(adler32(b""), 1);
}

#[test]
fn crc_goes_on_where_it_stopped() {
    let table = CrcTable::new();
    let first = crc32_update(&table, crc32_init(), b"1234");
    assert_eq!(crc32_finalize(crc32_update(&table, first, b"56789")), crc(b"123456789"));
}

#[test]
fn streams_are_stored_blocks() {
    assert_eq!(
        zlib_encode(&[7, 8, 9]),
        vec![0x78, 0x01, 1, 3, 0, 0xFC, 0xFF, 7, 8, 9, 0, 0x31, 0, 0x19]
    );
    let long = zlib_encode(&[5; 65_536]);
    assert_eq!(&long[..7], &[0x78, 0x01, 0, 0xFF, 0xFF, 0, 0]);
    assert_eq!(&long[7 + 65_535..7 + 65_535 + 6], &[1, 1, 0, 0xFE, 0xFF, 5]);
    assert_eq!(long.len(), 65_536 + 16);
    assert_eq!(zlib_encode(&[]), vec![0x78, 0x01, 0, 0, 0, 1]);
}

#[test]
fn files_hold_the_rows_of_the_picture() {
    let file = grayscale_png(3, 2, &[1, 2, 3, 4, 5, 6]);
    assert_eq!(&file[..8], &SIGNATURE);
    assert_eq!(&file[8..16], b"\x00\x00\x00\x0DIHDR");
    assert_eq!(&file[16..29], &[0, 0, 0, 3, 0, 0, 0, 2, 8, 0, 0, 0, 0]);
    assert_eq!(file[29..33], crc(&file[12..29]).to_be_bytes());
    assert_eq!(&file[33..41], b"\x00\x00\x00\x13IDAT");
    assert_eq!(file[41..60], zlib_encode(&[0, 1, 2, 3, 0, 4, 5, 6])[..]);
    assert_eq!(file[60..64], crc(&file[37..60]).to_be_bytes());
    assert_eq!(&file[64..], b"\x00\x00\x00\x00IEND\xAE\x42\x60\x82");
}

#[test]
fn frames_are_mixed_to_their_mean() {
    assert_eq!(downmix::<F32>(&[1.0, 3.0, 5.0, 7.0, 9.0], 2), vec![2.0, 6.0]);
    assert_eq!(downmix::<F32>(&[1.0, 3.0], 1), vec![1.0, 3.0]);
    assert!(downmix::<F32>(&[1.0, 3.0], 3).is_empty());
}

#[test]
fn lines_without_sync_are_black() {
    let mut good = AptLine::<F32>::default();
    good.sync_quality = 0.5;
    good.raw_samples[0] = 4.0;
    let mut bad = AptLine::<F32>::default();
    bad.sync_quality = 0.49;
    bad.raw_samples[0] = 9.0;
    let (all, shown) = collect_samples::<F32>(&[bad, good]);
    assert_eq!(all.len(), 2 * LINE_PIXELS);
    assert_eq!(shown.len(), LINE_PIXELS);
    assert_eq!(all[0], 0.0);
    assert_eq!(all[LINE_PIXELS], 4.0);
    assert_eq!(shown[0], 4.0);
}

#[test]
fn the_range_leaves_a_hundredth_out_on_each_side() {
    let sorted: Vec<f32> = (0..1_000).map(|i| i as f32).collect();
    let (lo, hi) = brightness_range::<F32>(&sorted);
    let tail = ((1.0 - 0.98_f32) / 2.0 * 1_000.0) as usize;
    assert_eq!((lo, hi), (tail as f32, (999 - tail) as f32));
    assert_eq!(brightness_range::<F32>(&[3.0]), (3.0, 3.0));
    assert_eq!(brightness_range::<F32>(&[3.0, 4.0]), (3.0, 4.0));
}

#[test]
fn stretching_maps_the_range_to_all_greys() {
    assert_eq!(stretch::<F32>(&[0.0, 1.0, 1.5, 2.0, 3.0], 1.0, 2.0), vec![0, 0, 128, 255, 255]);
    assert_eq!(stretch::<F32>(&[1.0], 1.0, 1.0), vec![0]);
}
