//! Chunks of the general allocator: a contiguous region of device memory
//! carved into up to 64 equally sized blocks, with a 64-bit free mask
//! (bit set = block free).

use vstd::prelude::*;

use crate::bitmask::{
    has_bit, lemma_popcount_or_disjoint, lemma_popcount_run, lemma_popcount_xor_subset,
    lemma_run_free_extend, lemma_run_free_mask, low_ones, popcount, run_free, run_mask,
};
use crate::memory::{Memory, Properties};
use crate::{ByteRange, Size, MAX_BLOCK_SIZE};

verus! {

/// Fewest blocks a pooled chunk is carved into.
pub const MIN_BLOCKS_PER_CHUNK: u32 = 8;

/// Most blocks a chunk can hold: the width of the free mask.
pub const MAX_BLOCKS_PER_CHUNK: u32 = 64;

/// Memory block allocated from the general allocator: `count` consecutive
/// blocks of one chunk, identified by chunk index and first block index.
#[derive(Debug)]
pub struct GeneralBlock {
    memory: Memory,
    block_index: u32,
    chunk_index: u32,
    count: u32,
    range: ByteRange,
}

impl GeneralBlock {
    /// The memory record the block was carved from.
    pub closed spec fn spec_memory(self) -> Memory {
        self.memory
    }

    /// Index of the block's first bit in its chunk's free mask.
    pub closed spec fn spec_block_index(self) -> u32 {
        self.block_index
    }

    /// Index of the owning chunk in its size entry.
    pub closed spec fn spec_chunk_index(self) -> u32 {
        self.chunk_index
    }

    /// How many consecutive blocks of the chunk this block covers.
    pub closed spec fn spec_count(self) -> u32 {
        self.count
    }

    /// The byte range, relative to the raw memory object.
    pub closed spec fn spec_range(self) -> ByteRange {
        self.range
    }

    /// Length of the block in bytes.
    pub open spec fn spec_size(self) -> int {
        self.spec_range().spec_len()
    }

    /// The block size of the size entry this block belongs to.
    pub open spec fn spec_entry_size(self) -> int {
        self.spec_size() / (self.spec_count() as int)
    }

    /// The block covers `count` whole blocks of its entry's size, lies within
    /// its memory, and its indices fit the 64-bit mask.
    pub open spec fn wf(self) -> bool {
        &&& self.spec_memory().wf()
        &&& self.spec_range().wf()
        &&& self.spec_range().end <= self.spec_memory().spec_size()
        &&& 1 <= self.spec_count() <= 64
        &&& self.spec_block_index() < 64
        &&& self.spec_block_index() + self.spec_count() <= 64
        &&& self.spec_size() == self.spec_count() * self.spec_entry_size()
        &&& 1 <= self.spec_entry_size() <= MAX_BLOCK_SIZE
    }

    /// Assemble a block; only the general allocator does this.
    pub(crate) fn new(
        memory: Memory,
        block_index: u32,
        chunk_index: u32,
        count: u32,
        range: ByteRange,
    ) -> (r: GeneralBlock)
        ensures
            r.spec_memory() == memory,
            r.spec_block_index() == block_index,
            r.spec_chunk_index() == chunk_index,
            r.spec_count() == count,
            r.spec_range() == range,
    {
        GeneralBlock { memory, block_index, chunk_index, count, range }
    }

    /// Get the size of this block.
    pub fn size(&self) -> (r: Size)
        requires
            self.spec_range().wf(),
        ensures
            r == self.spec_size(),
    {
        self.range.end - self.range.start
    }

    /// Property bits of the backing memory.
    pub fn properties(&self) -> (r: Properties)
        ensures
            r == self.spec_memory().spec_properties(),
    {
        self.memory.properties()
    }

    /// The backing memory record.
    pub fn memory(&self) -> (r: &Memory)
        ensures
            r == self.spec_memory(),
    {
        &self.memory
    }

    /// The block's byte range within the raw memory object.
    pub fn range(&self) -> (r: ByteRange)
        ensures
            r == self.spec_range(),
    {
        self.range
    }


    /// The block's position and length, as a segment of its memory object.
    pub fn segment(&self) -> (r: crate::Segment)
        requires
            self.spec_range().wf(),
        ensures
            r.offset == self.spec_range().start,
            r.size == Some(self.spec_size() as Size),
    {
        let range = self.range();
        crate::Segment { offset: range.start, size: Some(range.end - range.start) }
    }

    /// Map a segment of the block for host access: resolve the range and
    /// widen it to whole atoms on non-coherent memory.
    pub fn map(&self, segment: crate::Segment) -> (r: Result<
        crate::mapping::MappedRange,
        crate::device::MapError,
    >)
        requires
            self.wf(),
            self.spec_memory().spec_size() <= crate::MAX_BLOCK_SIZE,
        ensures
            r matches Ok(m) ==> ({
                &&& m.wf()
                &&& m.spec_memory() == self.spec_memory()
                &&& m.spec_requested().start == self.spec_range().start + segment.offset
                &&& (segment.size matches Some(sz) ==> m.spec_requested().spec_len() == sz)
                &&& (segment.size is None ==> m.spec_requested().end == self.spec_range().end)
                &&& (self.spec_memory().spec_atom_size() is None ==> m.spec_mapping()
                    == m.spec_requested())
            }),
    {
        crate::mapping::MappedRange::new(self.memory(), self.range(), segment)
    }

    /// How many consecutive chunk blocks this block covers.
    pub fn count(&self) -> (r: u32)
        ensures
            r == self.spec_count(),
    {
        self.count
    }

    /// Index of the owning chunk in its size entry.
    pub fn chunk_index(&self) -> (r: u32)
        ensures
            r == self.spec_chunk_index(),
    {
        self.chunk_index
    }

    /// Index of the block's first bit in the chunk's free mask.
    pub fn block_index(&self) -> (r: u32)
        ensures
            r == self.spec_block_index(),
    {
        self.block_index
    }
}

/// What backs a chunk: its own device allocation, or a block carved from a
/// coarser size entry.
#[derive(Debug)]
pub enum ChunkFlavor {
    /// Allocated from the device.
    Dedicated(Memory),
    /// Allocated from a chunk of bigger blocks.
    General(GeneralBlock),
}

/// A region of memory carved into up to 64 equal blocks. Each bit of
/// `blocks` corresponds to one block; a set bit means the block is free.
#[derive(Debug)]
pub struct Chunk {
    flavor: ChunkFlavor,
    blocks: u64,
}

/// Two chunks with the same backing and the same free mask are the same.
pub proof fn lemma_chunk_parts(a: Chunk, b: Chunk)
    requires
        a.spec_flavor() == b.spec_flavor(),
        a.spec_blocks() == b.spec_blocks(),
    ensures
        a == b,
{
}

/// The initial free mask of an `n`-block chunk, written with the high bit
/// split off as the code does, equals the mask of `n` low ones.
pub proof fn lemma_full_mask_shape(n: u64)
    requires
        1 <= n <= 64,
    ensures
        (1u64 << ((n - 1) as u64)) >= 1,
        ((((1u64 << ((n - 1) as u64)) - 1) as u64) | (1u64 << ((n - 1) as u64))) == low_ones(
            n as u32,
        ),
        low_ones(n as u32) & !low_ones(n as u32) == 0,
{
    assert((1 <= n <= 64) ==> ((1u64 << ((n - 1) as u64)) >= 1 && ((((1u64 << ((n - 1) as u64))
        - 1) as u64) | (1u64 << ((n - 1) as u64))) == low_ones(n as u32) && low_ones(n as u32)
        & !low_ones(n as u32) == 0)) by (bit_vector);
}

/// The run mask, written with the shift-and-subtract trick the code uses.
pub proof fn lemma_run_mask_exec(index: u32, count: u32)
    requires
        count < 64,
    ensures
        (1u64 << (count as u64)) >= 1,
        (((1u64 << (count as u64)) - 1) as u64) << (index as u64) == run_mask(index, count),
{
    assert((count < 64) ==> ((1u64 << (count as u64)) >= 1 && (((1u64 << (count as u64))
        - 1) as u64) << (index as u64) == run_mask(index, count))) by (bit_vector);
}

/// Does position `i` hold `count` free blocks whose byte offset passes the
/// bitwise alignment test? The test clears the low bits of `align - 1`: for
/// power-of-two aligns that is exactly divisibility, for others it is a
/// conservative filter (and the callers guarantee divisibility by making
/// block sizes multiples of the alignment).
pub open spec fn acquirable(mask: u64, i: u32, count: u32, block_size: Size, align: Size) -> bool {
    &&& i < 64
    &&& run_free(mask, i, count)
    &&& (((i as int) * (block_size as int)) as u64) & ((align - 1) as u64) == 0
}

impl Chunk {
    /// What backs the chunk.
    pub closed spec fn spec_flavor(self) -> ChunkFlavor {
        self.flavor
    }

    /// The free mask: bit `i` set means block `i` is free.
    pub closed spec fn spec_blocks(self) -> u64 {
        self.blocks
    }

    /// The backing memory record.
    pub open spec fn spec_memory(self) -> Memory {
        match self.spec_flavor() {
            ChunkFlavor::Dedicated(m) => m,
            ChunkFlavor::General(b) => b.spec_memory(),
        }
    }

    /// The chunk's byte range within the raw memory object.
    pub open spec fn spec_range(self) -> ByteRange {
        match self.spec_flavor() {
            ChunkFlavor::Dedicated(m) => ByteRange { start: 0, end: m.spec_size() },
            ChunkFlavor::General(b) => b.spec_range(),
        }
    }

    /// How many blocks of size `block_size` the chunk holds (at most 64).
    pub open spec fn spec_block_count(self, block_size: Size) -> int {
        let n = self.spec_range().spec_len() / (block_size as int);
        if n > 64 {
            64int
        } else {
            n
        }
    }

    /// The mask with one set bit per block of the chunk.
    pub open spec fn spec_full_mask(self, block_size: Size) -> u64 {
        low_ones(self.spec_block_count(block_size) as u32)
    }

    /// Well-formedness for a chunk of `block_size`-byte blocks: the range
    /// lies in its memory, starts at a multiple of the block size, holds at
    /// least one block, and the free mask stays within the block count. A
    /// chunk carved out of a coarser entry records a block of a strictly
    /// larger size.
    pub open spec fn wf(self, block_size: Size) -> bool {
        &&& 1 <= block_size <= MAX_BLOCK_SIZE
        &&& self.spec_memory().wf()
        &&& self.spec_range().wf()
        &&& self.spec_range().end <= self.spec_memory().spec_size()
        &&& (self.spec_range().start as int) % (block_size as int) == 0
        &&& 1 <= self.spec_block_count(block_size)
        &&& self.spec_blocks() & !self.spec_full_mask(block_size) == 0
        &&& match self.spec_flavor() {
            ChunkFlavor::Dedicated(m) => self.spec_range() == (ByteRange {
                start: 0,
                end: m.spec_size(),
            }),
            ChunkFlavor::General(b) => b.wf() && b.spec_entry_size() > block_size,
        }
    }

    /// Wrap a fresh device allocation as a fully free chunk.
    pub fn from_memory(block_size: Size, memory: Memory) -> (r: Chunk)
        requires
            memory.wf(),
            1 <= block_size <= MAX_BLOCK_SIZE,
            1 <= memory.spec_size() as int / block_size as int <= 64,
        ensures
            r.wf(block_size),
            r.spec_flavor() == ChunkFlavor::Dedicated(memory),
            r.spec_blocks() == r.spec_full_mask(block_size),
            r.spec_block_count(block_size) == memory.spec_size() as int / block_size as int,
    {
        let blocks = memory.size() / block_size;
        proof {
            lemma_full_mask_shape(blocks);
        }
        let high_bit = 1u64 << ((blocks - 1) as u64);
        let mask = (high_bit - 1) | high_bit;
        Chunk { flavor: ChunkFlavor::Dedicated(memory), blocks: mask }
    }

    /// Wrap a block of a coarser size entry as a fully free chunk of
    /// `block_size`-byte blocks.
    pub fn from_block(block_size: Size, chunk_block: GeneralBlock) -> (r: Chunk)
        requires
            chunk_block.wf(),
            1 <= block_size <= MAX_BLOCK_SIZE,
            chunk_block.spec_entry_size() > block_size,
            chunk_block.spec_size() >= block_size,
            (chunk_block.spec_range().start as int) % (block_size as int) == 0,
        ensures
            r.wf(block_size),
            r.spec_flavor() == ChunkFlavor::General(chunk_block),
            r.spec_blocks() == r.spec_full_mask(block_size),
    {
        let len = chunk_block.size();
        let q = len / block_size;
        proof {
            vstd::arithmetic::div_mod::lemma_div_by_self(block_size as int);
            vstd::arithmetic::div_mod::lemma_div_is_ordered(
                block_size as int,
                len as int,
                block_size as int,
            );
        }
        let blocks = if q > 64 {
            64
        } else {
            q
        };
        proof {
            lemma_full_mask_shape(blocks);
        }
        let high_bit = 1u64 << ((blocks - 1) as u64);
        let mask = (high_bit - 1) | high_bit;
        Chunk { flavor: ChunkFlavor::General(chunk_block), blocks: mask }
    }

    /// The backing memory record, shared with every block carved from the
    /// chunk.
    pub fn shared_memory(&self) -> (r: &Memory)
        ensures
            r == self.spec_memory(),
    {
        match &self.flavor {
            ChunkFlavor::Dedicated(memory) => memory,
            ChunkFlavor::General(block) => block.memory(),
        }
    }

    /// The chunk's byte range within the raw memory object.
    pub fn range(&self) -> (r: ByteRange)
        requires
            self.spec_memory().wf() || self.spec_range().wf(),
        ensures
            r == self.spec_range(),
    {
        match &self.flavor {
            ChunkFlavor::Dedicated(memory) => ByteRange { start: 0, end: memory.size() },
            ChunkFlavor::General(block) => block.range(),
        }
    }

    /// Take the chunk apart; only the general allocator does this, when the
    /// chunk is fully free and its backing is returned.
    pub(crate) fn into_flavor(self) -> (r: ChunkFlavor)
        ensures
            r == self.spec_flavor(),
    {
        self.flavor
    }

    /// Byte range of `count` blocks starting at block `block_index`.
    pub fn blocks_range(&self, block_size: Size, block_index: u32, count: u32) -> (r: ByteRange)
        requires
            self.wf(block_size),
            block_index + count <= self.spec_block_count(block_size),
            1 <= count,
        ensures
            r.start == self.spec_range().start + block_index * block_size,
            r.end == r.start + count * block_size,
            r.wf(),
            self.spec_range().start <= r.start,
            r.end <= self.spec_range().end,
            (r.start as int) % (block_size as int) == 0,
            r.spec_len() == count * block_size,
    {
        let range = self.range();
        proof {
            broadcast use vstd::arithmetic::mul::lemma_mul_is_commutative;

            let bi = block_index as int;
            let c = count as int;
            let bs = block_size as int;
            let len = range.spec_len();
            let q = len / bs;
            vstd::arithmetic::div_mod::lemma_fundamental_div_mod(len, bs);
            vstd::arithmetic::div_mod::lemma_mod_division_less_than_divisor(len, bs);
            assert((bi + c) * bs <= q * bs) by (nonlinear_arith)
                requires
                    bi + c <= q,
                    bs >= 1,
            ;
            assert(q * bs <= len);
            assert(bi * bs >= 0 && c * bs >= 1 && (bi + c) * bs == bi * bs + c * bs)
                by (nonlinear_arith)
                requires
                    bi >= 0,
                    c >= 1,
                    bs >= 1,
            ;
            vstd::arithmetic::div_mod::lemma_mod_multiples_vanish(bi, range.start as int, bs);
        }
        let start = range.start + block_size * (block_index as u64);
        let end = start + block_size * (count as u64);
        ByteRange { start, end }
    }

    /// How many blocks of size `block_size` the chunk holds.
    pub fn block_count(&self, block_size: Size) -> (r: u64)
        requires
            self.wf(block_size),
        ensures
            r == self.spec_block_count(block_size),
    {
        let range = self.range();
        let q = (range.end - range.start) / block_size;
        if q > 64 {
            64
        } else {
            q
        }
    }

    /// True when the `count` blocks starting at `index` are all handed out,
    /// so that releasing them is sound. A clear result on a free path means
    /// the block does not match the chunk: a double free.
    pub fn run_is_acquired(&self, index: u32, count: u32) -> (r: bool)
        requires
            1 <= count < 64,
            index + count <= 64,
        ensures
            r == (self.spec_blocks() & run_mask(index, count) == 0),
    {
        proof {
            lemma_run_mask_exec(index, count);
        }
        let mask = ((1u64 << (count as u64)) - 1) << (index as u64);
        self.blocks & mask == 0
    }

    /// True when every block of the chunk is free.
    pub fn is_unused(&self, block_size: Size) -> (r: bool)
        requires
            self.wf(block_size),
        ensures
            r == (self.spec_blocks() == self.spec_full_mask(block_size)),
    {
        let range = self.range();
        let len = range.end - range.start;
        let q = len / block_size;
        let blocks = if q > 64 {
            64
        } else {
            q
        };
        proof {
            lemma_full_mask_shape(blocks);
        }
        let high_bit = 1u64 << ((blocks - 1) as u64);
        let mask = (high_bit - 1) | high_bit;
        self.blocks == mask
    }

    /// True when no block of the chunk is free.
    pub fn is_exhausted(&self) -> (r: bool)
        ensures
            r == (self.spec_blocks() == 0),
    {
        self.blocks == 0
    }

    /// Find the lowest position holding `count` free consecutive blocks whose
    /// byte offset is a multiple of `align`, and mark those blocks used.
    /// Returns the position, or `None` when no position fits.
    pub fn acquire_blocks(&mut self, count: u32, block_size: Size, align: Size) -> (r: Option<u32>)
        requires
            1 <= count < 64,
            align >= 1,
            1 <= block_size <= MAX_BLOCK_SIZE,
        ensures
            final(self).spec_flavor() == old(self).spec_flavor(),
            match r {
                Some(i) => {
                    &&& acquirable(old(self).spec_blocks(), i, count, block_size, align)
                    &&& forall|j: u32|
                        j < i ==> !acquirable(old(self).spec_blocks(), j, count, block_size, align)
                    &&& i + count <= 64
                    &&& old(self).spec_blocks() & run_mask(i, count) == run_mask(i, count)
                    &&& final(self).spec_blocks() == old(self).spec_blocks() & !run_mask(i, count)
                    &&& popcount(final(self).spec_blocks()) + count == popcount(
                        old(self).spec_blocks(),
                    )
                },
                None => {
                    &&& final(self).spec_blocks() == old(self).spec_blocks()
                    &&& forall|j: u32|
                        !acquirable(old(self).spec_blocks(), j, count, block_size, align)
                },
            },
    {
        let ghost m = self.blocks;
        // `runs` holds a set bit at every position where `count` consecutive
        // free blocks start.
        let mut runs: u64 = 0xffff_ffff_ffff_ffff;
        proof {
            assert forall|i: u32| #[trigger] has_bit(0xffff_ffff_ffff_ffffu64, i) <==> (i < 64 && i
                + 0 <= 64 && run_free(m, i, 0)) by {
                assert(i < 64 ==> (0xffff_ffff_ffff_ffffu64 >> (i as u64)) & 1 == 1)
                    by (bit_vector);
            }
        }
        let mut k: u32 = 0;
        while k < count
            invariant
                k <= count,
                count < 64,
                m == self.blocks,
                forall|i: u32|
                    #[trigger] has_bit(runs, i) <==> (i < 64 && i + k <= 64 && run_free(m, i, k)),
            decreases count - k,
        {
            let ghost runs0 = runs;
            runs = runs & (self.blocks >> (k as u64));
            proof {
                crate::bitmask::lemma_runs_step(m, runs0, runs, k);
            }
            k = k + 1;
        }
        proof {
            assert forall|i: u32|
                acquirable(m, i, count, block_size, align) implies #[trigger] has_bit(
                runs,
                i,
            ) by {
                assert(has_bit(m, (i + count - 1) as u32));
            }
        }
        // Pop candidate positions from the lowest up; take the first aligned.
        loop
            invariant
                count < 64,
                1 <= count,
                1 <= block_size <= MAX_BLOCK_SIZE,
                align >= 1,
                m == self.blocks,
                m == old(self).spec_blocks(),
                self.flavor == old(self).spec_flavor(),
                forall|i: u32|
                    #[trigger] has_bit(runs, i) ==> (i + count <= 64 && run_free(m, i, count)),
                forall|i: u32|
                    acquirable(m, i, count, block_size, align) ==> #[trigger] has_bit(runs, i),
            ensures
                forall|i: u32| !acquirable(m, i, count, block_size, align),
            decreases runs,
        {
            if runs == 0 {
                proof {
                    assert forall|i: u32| !acquirable(m, i, count, block_size, align) by {
                        if acquirable(m, i, count, block_size, align) {
                            assert(has_bit(runs, i));
                            crate::bitmask::lemma_zero_mask();
                        }
                    }
                }
                break ;
            }
            let ghost runs0 = runs;
            let index = runs.trailing_zeros();
            proof {
                vstd::std_specs::bits::axiom_u64_trailing_zeros(runs);
                assert(index < 64);
                assert(has_bit(runs0, index));
                assert(runs0 ^ (1u64 << (index as u64)) < runs0) by (bit_vector)
                    requires
                        has_bit(runs0, index),
                ;
            }
            runs = runs ^ (1u64 << (index as u64));
            proof {
                assert(index as int * block_size as int <= 63 * 0x200000000000000)
                    by (nonlinear_arith)
                    requires
                        index <= 63,
                        1 <= block_size <= 0x200000000000000,
                ;
            }
            let offset = (index as u64) * block_size;
            if offset & (align - 1) == 0 {
                proof {
                    assert(acquirable(m, index, count, block_size, align));
                    lemma_run_free_mask(m, index, count);
                    lemma_run_mask_exec(index, count);
                    lemma_popcount_xor_subset(m, run_mask(index, count));
                    lemma_popcount_run(index, count);
                }
                let mask = ((1u64 << (count as u64)) - 1) << (index as u64);
                self.blocks = self.blocks ^ mask;
                proof {
                    assert forall|j: u32|
                        j < index implies !acquirable(m, j, count, block_size, align) by {
                        if acquirable(m, j, count, block_size, align) {
                            assert(has_bit(runs0, j));
                        }
                    }
                }
                return Some(index);
            }
            proof {
                assert forall|i: u32|
                    acquirable(m, i, count, block_size, align) implies #[trigger] has_bit(
                    runs,
                    i,
                ) by {
                    assert(has_bit(runs0, i));
                    assert(has_bit(runs, i)) by (bit_vector)
                        requires
                            runs == runs0 ^ (1u64 << (index as u64)),
                            index < 64,
                            i != index,
                            has_bit(runs0, i),
                    ;
                }
                assert forall|i: u32| #[trigger] has_bit(runs, i) implies (i + count <= 64
                    && run_free(m, i, count)) by {
                    assert(has_bit(runs0, i)) by (bit_vector)
                        requires
                            runs == runs0 ^ (1u64 << (index as u64)),
                            index < 64,
                            has_bit(runs0, index),
                            has_bit(runs, i),
                    ;
                }
            }
        }
        None
    }

    /// Mark `count` consecutive blocks starting at `index` free again.
    pub fn release_blocks(&mut self, index: u32, count: u32)
        requires
            1 <= count < 64,
            index + count <= 64,
            old(self).spec_blocks() & run_mask(index, count) == 0,
        ensures
            final(self).spec_flavor() == old(self).spec_flavor(),
            final(self).spec_blocks() == old(self).spec_blocks() | run_mask(index, count),
            popcount(final(self).spec_blocks()) == popcount(old(self).spec_blocks()) + count,
            run_free(final(self).spec_blocks(), index, count),
    {
        proof {
            lemma_run_mask_exec(index, count);
        }
        let mask = ((1u64 << (count as u64)) - 1) << (index as u64);
        let ghost m0 = self.blocks;
        self.blocks = self.blocks | mask;
        proof {
            let m1 = self.blocks;
            lemma_popcount_run(index, count);
            lemma_popcount_or_disjoint(m0, mask);
            lemma_run_free_mask(m1, index, count);
            assert((m1 == m0 | mask) ==> m1 & mask == mask) by (bit_vector);
        }
    }
}

} // verus!
