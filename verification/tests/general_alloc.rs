//! Scenario tests of the general allocator: bitmap chunks, size bucketing,
//! cross-size reuse, and the free cascade.

use gfx_memory::device::{AllocationError, Device, OutOfMemory};
use gfx_memory::general::{GeneralAllocator, GeneralConfig};
use gfx_memory::linear::{LinearAllocator, LinearConfig};
use gfx_memory::memory::Properties;

fn plain_general(
    granularity: u64,
    min_device_allocation: u64,
    significant_size_bits: u32,
    total_heap: u64,
) -> (GeneralAllocator, Device) {
    let config = GeneralConfig {
        block_size_granularity: granularity,
        max_chunk_size_as_heap_total_fraction: 1,
        min_device_allocation,
        significant_size_bits,
    };
    let allocator = GeneralAllocator::new(0, Properties::empty(), config, 1, total_heap);
    (allocator, Device::new())
}

#[test]
fn test_general_bitmap_chunk_fill_and_reuse() {
    let (mut allocator, mut device) = plain_general(64, 4096, 3, 1 << 20);
    let mut blocks = Vec::new();
    // Eight 64-byte blocks fill the first chunk of that size; the device is
    // asked only once, for the coarse backing allocation.
    for _ in 0..8 {
        let (block, _) = allocator.allocate(&mut device, 64, 8).unwrap();
        assert_eq!(block.size(), 64);
        blocks.push(block);
    }
    assert_eq!(device.live_count(), 1);
    // The ninth opens a second chunk, still carved from the same backing.
    let (ninth, _) = allocator.allocate(&mut device, 64, 8).unwrap();
    assert_eq!(device.live_count(), 1);
    // Free the first eight: their chunk is reclaimed; the size entries stay.
    let entries = allocator.size_entry_count();
    for block in blocks.drain(..) {
        allocator.free(&mut device, block);
    }
    assert_eq!(allocator.size_entry_count(), entries);
    assert_eq!(device.live_count(), 1);
    // Free the ninth: everything cascades back to the device.
    allocator.free(&mut device, ninth);
    assert_eq!(device.live_count(), 0);
    assert!(allocator.size_entry_count() > 0);
}

#[test]
fn test_general_min_blocks_then_second_chunk() {
    let (mut allocator, mut device) = plain_general(1, 64, 3, 1 << 20);
    let mut blocks = Vec::new();
    for _ in 0..9 {
        let (block, _) = allocator.allocate(&mut device, 1, 1).unwrap();
        assert_eq!(block.size(), 1);
        blocks.push(block);
    }
    // Free in reverse order of allocation: the allocator drains fully.
    while let Some(block) = blocks.pop() {
        allocator.free(&mut device, block);
    }
    assert_eq!(device.live_count(), 0);
    // And again in allocation order.
    for _ in 0..9 {
        let (block, _) = allocator.allocate(&mut device, 1, 1).unwrap();
        blocks.push(block);
    }
    for block in blocks.drain(..) {
        allocator.free(&mut device, block);
    }
    assert_eq!(device.live_count(), 0);
}

#[test]
fn test_general_cross_size_reuse_for_sparse_large_block() {
    // A sparse first allocation of 0x20000 bytes is carved out of a coarser
    // chunk instead of allocating eight times its size.
    let (mut allocator, mut device) = plain_general(1, 4096, 3, 1 << 24);
    let (block, allocated) = allocator.allocate(&mut device, 0x20000, 1).unwrap();
    assert_eq!(block.size(), 0x20000);
    assert_eq!(device.live_count(), 1);
    let backing = device.live_record(0);
    // The backing is 0x40000 bytes (eight blocks of the 0x8000 carve size),
    // not 8 * 0x20000.
    assert_eq!(backing.size, 0x40000);
    assert_eq!(allocated, 0x40000);
    allocator.free(&mut device, block);
    assert_eq!(device.live_count(), 0);
}

#[test]
fn test_general_significant_bits_bucketing() {
    // With one significant bit, 5 and 6 both round to the 8-byte bucket.
    let (mut allocator, mut device) = plain_general(1, 4096, 1, 1 << 20);
    let (b5, _) = allocator.allocate(&mut device, 5, 1).unwrap();
    let (b6, _) = allocator.allocate(&mut device, 6, 1).unwrap();
    assert_eq!(b5.size(), 8);
    assert_eq!(b6.size(), 8);
    allocator.free(&mut device, b5);
    allocator.free(&mut device, b6);
    assert_eq!(device.live_count(), 0);
}

#[test]
fn test_general_alignment_of_blocks() {
    let (mut allocator, mut device) = plain_general(64, 4096, 3, 1 << 20);
    let mut blocks = Vec::new();
    for _ in 0..5 {
        let (block, _) = allocator.allocate(&mut device, 96, 32).unwrap();
        assert_eq!(block.range().start % 32, 0);
        assert!(block.size() >= 96);
        // The size is a whole number of the entry's blocks.
        assert_eq!(block.size() % (block.count() as u64), 0);
        blocks.push(block);
    }
    for block in blocks {
        allocator.free(&mut device, block);
    }
    assert_eq!(device.live_count(), 0);
}

#[test]
fn test_general_device_error_is_propagated() {
    let (mut allocator, mut device) = plain_general(64, 4096, 0, 1 << 20);
    device.inject_allocation_error(AllocationError::OutOfMemory(OutOfMemory::Host));
    let r = allocator.allocate(&mut device, 64, 1);
    assert!(matches!(r, Err(AllocationError::OutOfMemory(OutOfMemory::Host))));
    assert_eq!(device.live_count(), 0);
    let (block, _) = allocator.allocate(&mut device, 64, 1).unwrap();
    allocator.free(&mut device, block);
    assert_eq!(device.live_count(), 0);
}

#[test]
fn test_general_dedicated_sized_chunk_above_ceiling() {
    // A tiny heap forces the chunk ceiling below the minimum chunk size, so
    // the chunk is allocated from the device directly.
    let config = GeneralConfig {
        block_size_granularity: 1,
        max_chunk_size_as_heap_total_fraction: 256,
        min_device_allocation: 1,
        significant_size_bits: 0,
    };
    let mut allocator = GeneralAllocator::new(0, Properties::empty(), config, 1, 1 << 10);
    let mut device = Device::new();
    assert_eq!(allocator.max_allocation(), 4);
    let (block, _) = allocator.allocate(&mut device, 4, 1).unwrap();
    assert_eq!(device.live_count(), 1);
    allocator.free(&mut device, block);
    assert_eq!(device.live_count(), 0);
}

#[test]
fn test_teardown_leak_checks() {
    // The teardown checks that take the place of a panicking destructor:
    // a drained general allocator holds no chunk, a drained linear
    // allocator no line.
    let (mut allocator, mut device) = plain_general(1, 64, 3, 1 << 20);
    assert!(!allocator.has_live_chunks());
    let (block, _) = allocator.allocate(&mut device, 1, 1).unwrap();
    assert!(allocator.has_live_chunks());
    allocator.free(&mut device, block);
    assert!(!allocator.has_live_chunks());
    assert_eq!(device.live_count(), 0);

    let mut linear = LinearAllocator::new(0, Properties::empty(), &LinearConfig { line_size: 256 }, 1);
    let (b, _) = linear.allocate(&mut device, 16, 1).unwrap();
    assert_eq!(linear.line_count(), 1);
    linear.free(&mut device, b);
    linear.clear(&mut device);
    assert_eq!(linear.line_count(), 0);
    assert_eq!(device.live_count(), 0);
}
