//! Tests of the size and range helpers.

use gfx_memory::device::MapError;
use gfx_memory::{
    align_offset, align_range, align_size, is_sub_range, segment_to_sub_range, ByteRange, Segment,
};

#[test]
fn test_align_size_rounds_up() {
    assert_eq!(align_size(1, 64), 64);
    assert_eq!(align_size(64, 64), 64);
    assert_eq!(align_size(65, 64), 128);
    assert_eq!(align_size(1000, 1), 1000);
}

#[test]
fn test_align_offset_carry_trick() {
    assert_eq!(align_offset(0, 8), 0);
    assert_eq!(align_offset(1, 8), 8);
    assert_eq!(align_offset(8, 8), 8);
    assert_eq!(align_offset(9, 8), 16);
    assert_eq!(align_offset(255, 256), 256);
}

#[test]
fn test_align_range_widens_both_ends() {
    let r = align_range(&ByteRange { start: 10, end: 20 }, 8);
    assert_eq!(r, ByteRange { start: 8, end: 24 });
    let r = align_range(&ByteRange { start: 16, end: 24 }, 8);
    assert_eq!(r, ByteRange { start: 16, end: 24 });
}

#[test]
fn test_is_sub_range() {
    let whole = ByteRange { start: 8, end: 24 };
    assert!(is_sub_range(&ByteRange { start: 8, end: 24 }, &whole));
    assert!(is_sub_range(&ByteRange { start: 10, end: 20 }, &whole));
    assert!(!is_sub_range(&ByteRange { start: 7, end: 20 }, &whole));
    assert!(!is_sub_range(&ByteRange { start: 10, end: 25 }, &whole));
}

#[test]
fn test_segment_to_sub_range() {
    let whole = ByteRange { start: 100, end: 200 };
    let sub = segment_to_sub_range(Segment { offset: 10, size: Some(20) }, &whole).unwrap();
    assert_eq!(sub, ByteRange { start: 110, end: 130 });
    let rest = segment_to_sub_range(Segment { offset: 10, size: None }, &whole).unwrap();
    assert_eq!(rest, ByteRange { start: 110, end: 200 });
    let err = segment_to_sub_range(Segment { offset: 90, size: Some(20) }, &whole);
    assert_eq!(err, Err(MapError::OutOfBounds));
    let err = segment_to_sub_range(Segment { offset: 100, size: None }, &whole);
    assert_eq!(err, Err(MapError::OutOfBounds));
}
