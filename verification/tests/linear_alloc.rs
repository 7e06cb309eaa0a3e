//! Scenario tests of the linear allocator: bump allocation within a line,
//! new lines, FIFO reclamation, and the request-size limit.

use gfx_memory::device::{AllocationError, Device};
use gfx_memory::linear::{LinearAllocator, LinearConfig};
use gfx_memory::memory::Properties;
use gfx_memory::ByteRange;

fn plain_linear(line_size: u64) -> (LinearAllocator, Device) {
    let allocator = LinearAllocator::new(0, Properties::empty(), &LinearConfig { line_size }, 1);
    (allocator, Device::new())
}

#[test]
fn test_linear_happy_path() {
    let (mut allocator, mut device) = plain_linear(1024);
    // First allocation opens line 0.
    let (b1, allocated) = allocator.allocate(&mut device, 256, 8).unwrap();
    assert_eq!(allocated, 1024);
    assert_eq!(b1.line_index(), 0);
    assert_eq!(b1.range(), ByteRange { start: 0, end: 256 });
    assert_eq!(device.live_count(), 1);
    // Second fits the same line, already aligned.
    let (b2, allocated) = allocator.allocate(&mut device, 256, 256).unwrap();
    assert_eq!(allocated, 0);
    assert_eq!(b2.line_index(), 0);
    assert_eq!(b2.range(), ByteRange { start: 256, end: 512 });
    assert_eq!(device.live_count(), 1);
    // 600 bytes do not fit the remainder: a new line opens at offset 0.
    let (b3, allocated) = allocator.allocate(&mut device, 600, 1).unwrap();
    assert_eq!(allocated, 1024);
    assert_eq!(b3.line_index(), 1);
    assert_eq!(b3.range(), ByteRange { start: 0, end: 600 });
    assert_eq!(device.live_count(), 2);
    // Freeing both blocks of line 0 reclaims it; the tail line stays.
    allocator.free(&mut device, b1);
    assert_eq!(device.live_count(), 2);
    allocator.free(&mut device, b2);
    assert_eq!(device.live_count(), 1);
    allocator.free(&mut device, b3);
    // The tail line is never reclaimed by free.
    assert_eq!(device.live_count(), 1);
    allocator.clear(&mut device);
    assert_eq!(device.live_count(), 0);
}

#[test]
fn test_linear_half_line_twice_fills_one_line() {
    let (mut allocator, mut device) = plain_linear(1024);
    let (b1, a1) = allocator.allocate(&mut device, 512, 1).unwrap();
    let (b2, a2) = allocator.allocate(&mut device, 512, 1).unwrap();
    assert_eq!(a1, 1024);
    assert_eq!(a2, 0);
    assert_eq!(b1.line_index(), b2.line_index());
    assert_eq!(b2.range(), ByteRange { start: 512, end: 1024 });
    assert_eq!(device.live_count(), 1);
    allocator.free(&mut device, b1);
    allocator.free(&mut device, b2);
    allocator.clear(&mut device);
    assert_eq!(device.live_count(), 0);
}

#[test]
fn test_linear_oversized_request_refused() {
    let (mut allocator, mut device) = plain_linear(1024);
    assert_eq!(allocator.max_allocation(), 512);
    let r = allocator.allocate(&mut device, 2048, 1);
    assert!(matches!(r, Err(AllocationError::TooManyObjects)));
    let r = allocator.allocate(&mut device, 16, 2048);
    assert!(matches!(r, Err(AllocationError::TooManyObjects)));
    assert_eq!(device.live_count(), 0);
}

#[test]
fn test_linear_padding_credited_to_line() {
    let (mut allocator, mut device) = plain_linear(1024);
    let (b1, _) = allocator.allocate(&mut device, 10, 1).unwrap();
    // The next block is aligned up; the padding counts as freed.
    let (b2, _) = allocator.allocate(&mut device, 10, 256).unwrap();
    assert_eq!(b2.range(), ByteRange { start: 256, end: 266 });
    allocator.free(&mut device, b2);
    assert_eq!(device.live_count(), 1);
    // Freeing the first block completes the line, but it is the tail.
    allocator.free(&mut device, b1);
    assert_eq!(device.live_count(), 1);
    allocator.clear(&mut device);
    assert_eq!(device.live_count(), 0);
}

#[test]
fn test_linear_device_error_is_propagated() {
    let (mut allocator, mut device) = plain_linear(1024);
    device.inject_allocation_error(AllocationError::OutOfMemory(
        gfx_memory::device::OutOfMemory::Device,
    ));
    let r = allocator.allocate(&mut device, 16, 1);
    assert!(matches!(
        r,
        Err(AllocationError::OutOfMemory(gfx_memory::device::OutOfMemory::Device))
    ));
    // The failure left no state behind: the next allocation works.
    let (b, _) = allocator.allocate(&mut device, 16, 1).unwrap();
    allocator.free(&mut device, b);
    allocator.clear(&mut device);
    assert_eq!(device.live_count(), 0);
}

#[test]
fn test_linear_non_coherent_rounds_to_atom() {
    let properties = Properties {
        device_local: false,
        host_visible: true,
        coherent: false,
        cached: false,
        lazily_allocated: false,
    };
    let mut allocator =
        LinearAllocator::new(0, properties, &LinearConfig { line_size: 1000 }, 64);
    let mut device = Device::new();
    // The line size is rounded up to the atom.
    let (b, allocated) = allocator.allocate(&mut device, 10, 1).unwrap();
    assert_eq!(allocated, 1024);
    // The request itself is widened to a whole atom.
    assert_eq!(b.range(), ByteRange { start: 0, end: 64 });
    allocator.free(&mut device, b);
    allocator.clear(&mut device);
    assert_eq!(device.live_count(), 0);
}
