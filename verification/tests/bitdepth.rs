//! Requantization: exact values, boundaries, and round trips.

use audiotool::bitdepth::{
    dither_decision, i16_to_i24, i16_to_i24_no_fp, i24_to_i16, i24_to_i16_no_fp, I24_MAX, I24_MIN,
};
use audiotool::types::BitDepth;

#[test]
fn i24_range_constants() {
    assert_eq!(I24_MAX, 8388607);
    assert_eq!(I24_MIN, -8388608);
    assert_eq!(I24_MAX as i64 - I24_MIN as i64, 16777215);
}

#[test]
fn boundary_values_map_exactly() {
    assert_eq!(i16_to_i24(i16::MAX), I24_MAX);
    assert_eq!(i16_to_i24(i16::MIN), I24_MIN);
    assert_eq!(i24_to_i16(I24_MAX), i16::MAX);
    assert_eq!(i24_to_i16(I24_MIN), i16::MIN);
}

#[test]
fn requantize_widen_exact_values() {
    // round((2i+1)/65535 * 16777215/2 - 1/2), halves away from zero
    assert_eq!(i16_to_i24(0), 128);
    assert_eq!(i16_to_i24(-1), -129);
    assert_eq!(i16_to_i24(1), 384);
    assert_eq!(i16_to_i24(16384), 4194495);
}

#[test]
fn requantize_narrow_exact_values() {
    assert_eq!(i24_to_i16(128), 0);
    assert_eq!(i24_to_i16(-129), -1);
    assert_eq!(i24_to_i16(0), 0);
    assert_eq!(i24_to_i16(255), 0);
    assert_eq!(i24_to_i16(384), 1);
}

#[test]
fn requantize_roundtrip_recovers_i16() {
    let mut i: i32 = i16::MIN as i32;
    while i <= i16::MAX as i32 {
        let x = i as i16;
        assert_eq!(i24_to_i16(i16_to_i24(x)), x);
        i += 1;
    }
}

#[test]
fn embed_truncate_exact_values() {
    assert_eq!(i16_to_i24_no_fp(0), 255);
    assert_eq!(i16_to_i24_no_fp(-1), -256);
    assert_eq!(i16_to_i24_no_fp(i16::MAX), I24_MAX);
    assert_eq!(i16_to_i24_no_fp(i16::MIN), I24_MIN);
    assert_eq!(i24_to_i16_no_fp(255), 0);
    assert_eq!(i24_to_i16_no_fp(-256), -1);
    assert_eq!(i24_to_i16_no_fp(-1), -1);
    assert_eq!(i24_to_i16_no_fp(I24_MAX), i16::MAX);
    assert_eq!(i24_to_i16_no_fp(I24_MIN), i16::MIN);
}

#[test]
fn embed_truncate_roundtrip_recovers_i16() {
    let mut i: i32 = i16::MIN as i32;
    while i <= i16::MAX as i32 {
        let x = i as i16;
        assert_eq!(i24_to_i16_no_fp(i16_to_i24_no_fp(x)), x);
        i += 1;
    }
}

fn do_i16_to_i24_vs_f32(input: i16) {
    let i24a = i16_to_i24(input);
    let i24b = i16_to_i24_no_fp(input);
    println!("{input:b} {i24a:b} {i24b:b}");
    assert_eq!(i24a, i24b);
}

#[test]
fn i16_to_i24_vs_f32() {
    do_i16_to_i24_vs_f32(i16::MIN);
    do_i16_to_i24_vs_f32(i16::MAX);
}

use audiotool::types::BitDepth::{F32, I16, I24};

#[test]
fn dither_only_when_narrowing_to_i16_from_i24_material() {
    assert_eq!(dither_decision(F32, F32, F32), Some(false));
    assert_eq!(dither_decision(F32, I24, F32), Some(false));
    assert_eq!(dither_decision(F32, I16, F32), Some(false));
    assert_eq!(dither_decision(F32, F32, I24), Some(false));
    assert_eq!(dither_decision(F32, I24, I24), Some(false));
    assert_eq!(dither_decision(F32, I16, I24), Some(true));
    assert_eq!(dither_decision(F32, F32, I16), Some(false));
    assert_eq!(dither_decision(F32, I24, I16), Some(false));
    assert_eq!(dither_decision(F32, I16, I16), Some(false));
    assert_eq!(dither_decision(I24, F32, I24), Some(false));
    assert_eq!(dither_decision(I16, F32, I16), Some(false));
    assert_eq!(dither_decision(I16, I24, I16), None);
    assert_eq!(dither_decision(I24, I16, I24), None);
    assert_eq!(dither_decision(I16, I16, I16), None);
}
