//! The unit tests of the bit-level pieces: constants, the rounding mask,
//! and the hierarchical bitset.

use gfx_memory::chunk::{Chunk, MAX_BLOCKS_PER_CHUNK, MIN_BLOCKS_PER_CHUNK};
use gfx_memory::device::Device;
use gfx_memory::memory::Properties;
use gfx_memory::bitset::BitSet;
use gfx_memory::general::{round_mask, LARGE_BLOCK_THRESHOLD};
use gfx_memory::Size;

#[test]
fn test_constants() {
    assert!(MIN_BLOCKS_PER_CHUNK < MAX_BLOCKS_PER_CHUNK);
    assert!(LARGE_BLOCK_THRESHOLD * 2 >= MIN_BLOCKS_PER_CHUNK as Size);
}

#[test]
fn test_round_mask() {
    assert_eq!(round_mask(0, 0), 0);
    assert_eq!(round_mask(1, 0), 1);
    assert_eq!(round_mask(3, 2), 0);
    assert_eq!(round_mask(6, 2), 1);
}

#[test]
fn test_bit_group() {
    let mut bs = BitSet::new();
    bs.add(13);
    assert_eq!(bs.groups(), 2);
    bs.add(20);
    assert_eq!(bs.groups(), 6);
    bs.add(23);
    bs.remove(13);
    assert_eq!(bs.groups(), 4);
}

#[test]
fn test_bit_iter() {
    let mut bs = BitSet::new();
    let bits = &[2u32, 5, 24, 39, 40, 41, 42, 62];
    for &index in bits {
        bs.add(index);
    }
    let mut collected = Vec::new();
    let mut it = bs.iter();
    while let Some(index) = it.next() {
        collected.push(index);
    }
    assert_eq!(&bits[..], &collected[..]);
}

#[test]
fn test_bit_iter_ascending_no_duplicates() {
    let mut bs = BitSet::new();
    for &index in &[63u32, 0, 31, 32, 7, 8] {
        bs.add(index);
    }
    let mut collected = Vec::new();
    let mut it = bs.iter();
    while let Some(index) = it.next() {
        collected.push(index);
    }
    assert_eq!(collected, vec![0, 7, 8, 31, 32, 63]);
    for window in collected.windows(2) {
        assert!(window[0] < window[1]);
    }
}

#[test]
fn test_round_mask_top_window() {
    // With no significant bits kept, the mask covers every bit up to and
    // including the value's top bit.
    assert_eq!(round_mask(0x30, 0), 0x3f);
    assert_eq!(round_mask(0x30, 1), 0x1f);
    assert_eq!(round_mask(0x30, 2), 0xf);
    // Keeping more bits than the value has leaves no mask at all.
    assert_eq!(round_mask(1, 2), 0);
}

#[test]
fn test_chunk_double_free_detected() {
    let mut device = Device::new();
    let memory = device
        .allocate_memory(0, 512, Properties::empty(), None)
        .unwrap();
    let mut chunk = Chunk::from_memory(64, memory);
    let index = chunk.acquire_blocks(2, 64, 1).unwrap();
    // While the blocks are held, releasing them is legitimate...
    assert!(chunk.run_is_acquired(index, 2));
    chunk.release_blocks(index, 2);
    // ...but releasing the same run again would be a double free, and the
    // free path detects it by this check and ignores the block.
    assert!(!chunk.run_is_acquired(index, 2));
    assert!(chunk.is_unused(64));
}
