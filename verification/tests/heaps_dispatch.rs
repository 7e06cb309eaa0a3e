//! End-to-end tests through the dispatch layer: routing by usage, heap
//! accounting, fallbacks, and mapping.

use gfx_memory::device::{AllocationError, Device, MapError, OutOfMemory};
use gfx_memory::general::GeneralConfig;
use gfx_memory::heaps::{Heaps, HeapsError, MemoryTypeDescriptor};
use gfx_memory::linear::LinearConfig;
use gfx_memory::memory::Properties;
use gfx_memory::memory_type::HeapsConfig;
use gfx_memory::usage::MemoryUsage;
use gfx_memory::{ByteRange, Segment};

fn host_visible() -> Properties {
    Properties {
        device_local: false,
        host_visible: true,
        coherent: true,
        cached: false,
        lazily_allocated: false,
    }
}

fn full_config() -> HeapsConfig {
    HeapsConfig {
        linear: Some(LinearConfig { line_size: 4096 }),
        general: Some(GeneralConfig {
            block_size_granularity: 64,
            max_chunk_size_as_heap_total_fraction: 32,
            min_device_allocation: 1024,
            significant_size_bits: 0,
        }),
    }
}

fn one_type_heaps(properties: Properties, config: HeapsConfig) -> (Heaps, Device) {
    let types = vec![MemoryTypeDescriptor { properties, heap_index: 0, config }];
    (Heaps::new(types, vec![1 << 20], 1), Device::new())
}

#[test]
fn test_heaps_upload_goes_to_linear_and_books() {
    let (mut heaps, mut device) = one_type_heaps(host_visible(), full_config());
    let block = heaps
        .allocate(&mut device, 1, MemoryUsage::Upload, 256, 16)
        .unwrap();
    assert!(block.size() >= 256);
    assert_eq!(device.live_count(), 1);
    let utilization = heaps.utilization();
    // One whole line was taken from the device; 256 bytes were handed out.
    assert_eq!(utilization.heaps[0].utilization.used, 4096);
    assert_eq!(utilization.heaps[0].utilization.effective, 256);
    assert_eq!(utilization.types[0].utilization.used, 4096);
    assert_eq!(utilization.types[0].utilization.effective, 256);
    heaps.free(&mut device, block);
    let utilization = heaps.utilization();
    assert_eq!(utilization.heaps[0].utilization.effective, 0);
    heaps.clear(&mut device);
    assert_eq!(device.live_count(), 0);
}

#[test]
fn test_heaps_private_goes_to_general() {
    let (mut heaps, mut device) = one_type_heaps(host_visible(), full_config());
    let block = heaps
        .allocate(&mut device, 1, MemoryUsage::Private, 256, 16)
        .unwrap();
    assert!(block.size() >= 256);
    heaps.free(&mut device, block);
    heaps.clear(&mut device);
    assert_eq!(device.live_count(), 0);
}

#[test]
fn test_heaps_dispatch_fallback_to_dedicated() {
    // Only the general allocator is enabled, and the request exceeds its
    // ceiling: the dispatch falls through to a dedicated allocation of the
    // exact requested size.
    let config = HeapsConfig {
        linear: None,
        general: Some(GeneralConfig {
            block_size_granularity: 1,
            max_chunk_size_as_heap_total_fraction: 1 << 20,
            min_device_allocation: 1024,
            significant_size_bits: 0,
        }),
    };
    let (mut heaps, mut device) = one_type_heaps(host_visible(), config);
    let block = heaps
        .allocate(&mut device, 1, MemoryUsage::Private, 8192, 1)
        .unwrap();
    assert_eq!(block.size(), 8192);
    assert_eq!(device.live_count(), 1);
    assert_eq!(device.live_record(0).size, 8192);
    heaps.free(&mut device, block);
    heaps.clear(&mut device);
    assert_eq!(device.live_count(), 0);
}

#[test]
fn test_heaps_no_suitable_memory() {
    let (mut heaps, mut device) = one_type_heaps(host_visible(), full_config());
    // An empty mask allows no type at all.
    let r = heaps.allocate(&mut device, 0, MemoryUsage::Upload, 256, 16);
    assert!(matches!(r, Err(HeapsError::NoSuitableMemory)));
    // A device-local-only type cannot serve an upload.
    let device_local = Properties {
        device_local: true,
        host_visible: false,
        coherent: false,
        cached: false,
        lazily_allocated: false,
    };
    let (mut heaps2, mut device2) = one_type_heaps(device_local, full_config());
    let r = heaps2.allocate(&mut device2, 1, MemoryUsage::Upload, 256, 16);
    assert!(matches!(r, Err(HeapsError::NoSuitableMemory)));
}

#[test]
fn test_heaps_refuses_when_heap_is_full() {
    let types = vec![MemoryTypeDescriptor {
        properties: host_visible(),
        heap_index: 0,
        config: full_config(),
    }];
    let mut heaps = Heaps::new(types, vec![4096], 1);
    let mut device = Device::new();
    let block = heaps
        .allocate(&mut device, 1, MemoryUsage::Upload, 512, 1)
        .unwrap();
    // The line consumed the whole heap: no room for more.
    let r = heaps.allocate(&mut device, 1, MemoryUsage::Upload, 512, 1);
    assert!(matches!(r, Err(HeapsError::NoSuitableMemory)));
    heaps.free(&mut device, block);
    heaps.clear(&mut device);
    assert_eq!(device.live_count(), 0);
}

#[test]
fn test_heaps_device_error_surfaces() {
    let (mut heaps, mut device) = one_type_heaps(host_visible(), full_config());
    device.inject_allocation_error(AllocationError::OutOfMemory(OutOfMemory::Device));
    let r = heaps.allocate(&mut device, 1, MemoryUsage::Upload, 256, 16);
    assert!(matches!(
        r,
        Err(HeapsError::AllocationError(AllocationError::OutOfMemory(OutOfMemory::Device)))
    ));
}

#[test]
fn test_block_map_and_segment() {
    let (mut heaps, mut device) = one_type_heaps(host_visible(), full_config());
    let block = heaps
        .allocate(&mut device, 1, MemoryUsage::Upload, 256, 16)
        .unwrap();
    let segment = block.segment();
    assert_eq!(segment.size, Some(block.size()));
    let mapped = block
        .map(Segment { offset: 16, size: Some(64) })
        .unwrap();
    assert_eq!(mapped.range().len(), 64);
    heaps.free(&mut device, block);
    heaps.clear(&mut device);
}

#[test]
fn test_map_not_host_visible_fails() {
    let device_local = Properties {
        device_local: true,
        host_visible: false,
        coherent: false,
        cached: false,
        lazily_allocated: false,
    };
    let (mut heaps, mut device) = one_type_heaps(device_local, full_config());
    let block = heaps
        .allocate(&mut device, 1, MemoryUsage::Private, 256, 16)
        .unwrap();
    let r = block.map(Segment { offset: 0, size: Some(16) });
    assert!(matches!(r, Err(MapError::MappingFailed)));
    let r = block.map(Segment { offset: 0, size: Some(1 << 40) });
    assert!(r.is_err());
    heaps.free(&mut device, block);
    heaps.clear(&mut device);
    assert_eq!(device.live_count(), 0);
}

#[test]
fn test_mapping_widens_to_atoms() {
    // Host-visible, non-coherent memory: ranges widen to whole atoms.
    let properties = Properties {
        device_local: false,
        host_visible: true,
        coherent: false,
        cached: false,
        lazily_allocated: false,
    };
    let (mut heaps, mut device) = one_type_heaps(properties, full_config());
    // Heaps are created with an atom size; rebuild with a 64-byte atom.
    let types = vec![MemoryTypeDescriptor {
        properties,
        heap_index: 0,
        config: full_config(),
    }];
    let mut heaps64 = Heaps::new(types, vec![1 << 20], 64);
    let mut device64 = Device::new();
    let block = heaps64
        .allocate(&mut device64, 1, MemoryUsage::Upload, 256, 16)
        .unwrap();
    let mapped = block.map(Segment { offset: 0, size: Some(100) }).unwrap();
    let writer = mapped.write_bytes(ByteRange { start: 10, end: 20 }).unwrap();
    let flush = writer.flush_range.unwrap();
    assert_eq!(flush.start % 64, 0);
    assert_eq!(flush.end % 64, 0);
    assert!(flush.start <= writer.range.start && writer.range.end <= flush.end);
    heaps64.free(&mut device64, block);
    heaps64.clear(&mut device64);
    assert_eq!(device64.live_count(), 0);
    // Keep the first pair alive and clean.
    heaps.clear(&mut device);
}

#[test]
fn test_heap_used_never_goes_below_start() {
    // An alloc/free pair never leaves the heap's used counter below where it
    // started: lazily retained lines only keep it higher.
    let (mut heaps, mut device) = one_type_heaps(host_visible(), full_config());
    let warmup = heaps
        .allocate(&mut device, 1, MemoryUsage::Upload, 64, 1)
        .unwrap();
    let used_before = heaps.utilization().heaps[0].utilization.used;
    let block = heaps
        .allocate(&mut device, 1, MemoryUsage::Upload, 128, 1)
        .unwrap();
    heaps.free(&mut device, block);
    let used_after = heaps.utilization().heaps[0].utilization.used;
    assert!(used_after >= used_before);
    heaps.free(&mut device, warmup);
    heaps.clear(&mut device);
    assert_eq!(device.live_count(), 0);
}

#[test]
fn test_teardown_frees_every_device_record() {
    // After freeing all blocks and clearing, no device allocation survives.
    let (mut heaps, mut device) = one_type_heaps(host_visible(), full_config());
    let mut blocks = Vec::new();
    for i in 0..6 {
        let usage = if i % 2 == 0 { MemoryUsage::Upload } else { MemoryUsage::Private };
        blocks.push(heaps.allocate(&mut device, 1, usage, 100 + i * 37, 4).unwrap());
    }
    for block in blocks {
        heaps.free(&mut device, block);
    }
    heaps.clear(&mut device);
    assert_eq!(device.live_count(), 0);
}

#[test]
fn test_heaps_falls_through_to_next_candidate() {
    // Two eligible memory types: the better-fitting one's attempt fails at
    // the device, and the dispatch falls through to the next candidate
    // instead of surfacing the error.
    let device_local_visible = Properties {
        device_local: true,
        host_visible: true,
        coherent: true,
        cached: false,
        lazily_allocated: false,
    };
    let types = vec![
        MemoryTypeDescriptor { properties: host_visible(), heap_index: 0, config: full_config() },
        MemoryTypeDescriptor {
            properties: device_local_visible,
            heap_index: 1,
            config: full_config(),
        },
    ];
    let mut heaps = Heaps::new(types, vec![1 << 20, 1 << 20], 1);
    let mut device = Device::new();
    // Dynamic usage prefers the device-local type; its first device call
    // fails with the injected error, the fallback then serves the request
    // from the other type.
    device.inject_allocation_error(AllocationError::OutOfMemory(OutOfMemory::Device));
    let block = heaps
        .allocate(&mut device, 0b11, MemoryUsage::Dynamic { sparse_updates: false }, 256, 16)
        .unwrap();
    assert_eq!(block.memory_index(), 0);
    assert!(block.size() >= 256);
    heaps.free(&mut device, block);
    heaps.clear(&mut device);
    assert_eq!(device.live_count(), 0);
}
