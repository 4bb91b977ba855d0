//! The sample buffer's representation switching and reuse.

use audiotool::buf::Buf;
use audiotool::types::BitDepth;

#[test]
fn uninitialized_buffers_are_empty() {
    let b = Buf::Uninit;
    assert!(b.is_empty());
    assert_eq!(b.bit_depth(), None);
}

#[test]
fn materialized_buffers_report_their_depth_and_length() {
    let b = Buf::I16(vec![1, 2, 3]);
    assert!(!b.is_empty());
    assert_eq!(b.len(), 3);
    assert_eq!(b.bit_depth(), Some(BitDepth::I16));
    let b = Buf::I24(vec![5]);
    assert_eq!(b.len(), 1);
    assert_eq!(b.bit_depth(), Some(BitDepth::I24));
    let b = Buf::F32(vec![0x3f800000, 0]);
    assert_eq!(b.len(), 2);
    assert_eq!(b.bit_depth(), Some(BitDepth::F32));
}

#[test]
fn accessors_keep_matching_contents_and_reset_others() {
    let mut b = Buf::I16(vec![7, 8]);
    assert_eq!(b.i16_mut().as_slice(), &[7, 8]);
    // Switching representation reinitializes to an empty buffer.
    let v = b.f32_mut();
    assert!(v.is_empty());
    v.push(0x40000000);
    assert_eq!(b.bit_depth(), Some(BitDepth::F32));
    assert_eq!(b.len(), 1);
    let v = b.i24_mut();
    assert!(v.is_empty());
    v.push(-1);
    v.push(2);
    assert_eq!(b.len(), 2);
    assert_eq!(b.bit_depth(), Some(BitDepth::I24));
}
