//! Tests of the dedicated allocator and the device model it drives.

use gfx_memory::dedicated::DedicatedAllocator;
use gfx_memory::device::{AllocationError, Device, OutOfMemory};
use gfx_memory::memory::Properties;
use gfx_memory::ByteRange;

#[test]
fn test_dedicated_one_to_one() {
    let allocator = DedicatedAllocator::new(0, Properties::empty(), 1);
    let mut device = Device::new();
    let (b1, a1) = allocator.allocate(&mut device, 100, 16).unwrap();
    let (b2, a2) = allocator.allocate(&mut device, 200, 1).unwrap();
    // One device allocation per block, of exactly the requested size.
    assert_eq!(a1, 100);
    assert_eq!(a2, 200);
    assert_eq!(b1.range(), ByteRange { start: 0, end: 100 });
    assert_eq!(b2.range(), ByteRange { start: 0, end: 200 });
    assert_eq!(device.live_count(), 2);
    // One device free per free, returning the memory's size.
    assert_eq!(allocator.free(&mut device, b1), 100);
    assert_eq!(allocator.free(&mut device, b2), 200);
    assert_eq!(device.live_count(), 0);
}

#[test]
fn test_dedicated_rounds_to_non_coherent_atom() {
    let properties = Properties {
        device_local: false,
        host_visible: true,
        coherent: false,
        cached: false,
        lazily_allocated: false,
    };
    let allocator = DedicatedAllocator::new(0, properties, 64);
    let mut device = Device::new();
    let (block, allocated) = allocator.allocate(&mut device, 100, 16).unwrap();
    assert_eq!(allocated, 128);
    assert!(block.memory().is_mapped());
    assert_eq!(allocator.free(&mut device, block), 128);
    assert_eq!(device.live_count(), 0);
}

#[test]
fn test_device_model_tokens_and_errors() {
    let mut device = Device::new();
    let memory = device
        .allocate_memory(3, 64, Properties::empty(), None)
        .unwrap();
    assert_eq!(device.live_count(), 1);
    assert_eq!(device.live_record(0).memory_type, 3);
    assert_eq!(device.live_record(0).size, 64);
    device.inject_allocation_error(AllocationError::TooManyObjects);
    let r = device.allocate_memory(3, 64, Properties::empty(), None);
    assert!(matches!(r, Err(AllocationError::TooManyObjects)));
    device.inject_allocation_error(AllocationError::OutOfMemory(OutOfMemory::Host));
    let r = device.allocate_memory(3, 64, Properties::empty(), None);
    assert!(matches!(r, Err(AllocationError::OutOfMemory(OutOfMemory::Host))));
    // Freeing a live token removes it; freeing it twice is reported.
    assert!(device.free_memory(memory));
    assert!(!device.free_memory(memory));
    assert_eq!(device.live_count(), 0);
}
