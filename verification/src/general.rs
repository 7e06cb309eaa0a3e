//! The general allocator: a size-bucketed recycling allocator with a
//! two-level chunk hierarchy, bitmap free tracking and recursive
//! chunk-from-chunk allocation.

use vstd::prelude::*;

use crate::bitmask::{low_ones, popcount, run_free, run_mask};
use crate::chunk::{acquirable, Chunk, ChunkFlavor, GeneralBlock, MAX_BLOCKS_PER_CHUNK, MIN_BLOCKS_PER_CHUNK};
use crate::device::{AllocationError, Device, OutOfMemory};
use crate::entry::{ChunkSlab, SizeEntry, SizeTable, ChunkSizes};
use crate::memory::{Memory, Properties};
use crate::{
    is_non_coherent_visible, is_power_of_two, ByteRange, Size, MAX_BLOCK_SIZE, MAX_REQUEST_SIZE,
};

verus! {

/// Request sizes at or above this threshold are rare enough that a sparse
/// first allocation is carved out of a coarser chunk instead of opening a
/// dedicated size.
pub const LARGE_BLOCK_THRESHOLD: Size = 0x10000;

/// Cap on the slab key of any one size entry, derived from the machine
/// word: the fourth power of the word's bit count. The binding cap is the
/// tighter limit of 64 simultaneous chunks per entry, because the ready
/// bitset tracks only that many indices; this guard is the configured
/// policy value beside it.
pub fn max_chunks_per_size() -> (r: usize)
    ensures
        r == 16777216,
{
    let word_bits: usize = 64;
    word_bits * word_bits * word_bits * word_bits
}

/// Config for the general allocator.
#[derive(Clone, Copy, Debug)]
pub struct GeneralConfig {
    /// All requests are rounded up to a multiple of this value.
    pub block_size_granularity: Size,
    /// Maximum chunk size, defined as (total heap memory) / N. Any request
    /// above this gets a fresh device allocation.
    pub max_chunk_size_as_heap_total_fraction: usize,
    /// Minimum size of a device allocation.
    pub min_device_allocation: Size,
    /// Number of most significant bits kept when rounding sizes up.
    /// Aggressive rounding raises the chance of re-using blocks.
    pub significant_size_bits: u32,
}

/// The chunk ceiling the configuration asks for, before rounding: the
/// heap's share, floored by the minimum device allocation.
pub open spec fn spec_chunk_ceiling_wanted(config: GeneralConfig, total_heap_size: Size) -> int {
    let share = total_heap_size as int / config.max_chunk_size_as_heap_total_fraction as int;
    if share > config.min_device_allocation {
        share
    } else {
        config.min_device_allocation as int
    }
}

/// `r` is the next power of two at or above `wanted`: a power of two within
/// a factor of two of it.
pub open spec fn spec_next_pow2_of(r: Size, wanted: int) -> bool {
    &&& crate::is_power_of_two(r)
    &&& r >= wanted
    &&& (wanted >= 1 ==> r < 2 * wanted)
}

/// The number of significant bits of `n`: zero for zero, else one more than
/// for `n / 2`.
pub open spec fn nb(n: u64) -> nat
    decreases n,
{
    if n == 0 {
        0
    } else {
        (1 + nb(n / 2)) as nat
    }
}

/// Any 64-bit value has at most 64 significant bits.
pub proof fn lemma_nb_bound(n: u64)
    ensures
        nb(n) <= 64,
{
    vstd::arithmetic::power2::lemma2_to64_rest();
    assert(vstd::arithmetic::power2::pow2(64) == 0x10000000000000000);
    lemma_nb_below_pow2(n, 64);
}

/// A value below two to the `k` has at most `k` significant bits.
proof fn lemma_nb_below_pow2(n: u64, k: nat)
    requires
        (n as nat) < vstd::arithmetic::power2::pow2(k),
    ensures
        nb(n) <= k,
    decreases n,
{
    vstd::arithmetic::power2::lemma2_to64();
    vstd::arithmetic::power2::lemma2_to64_rest();
    if n > 0 {
        if k == 0 {
            assert(vstd::arithmetic::power2::pow2(0) == 1);
            assert(false);
        } else {
            vstd::arithmetic::power2::lemma_pow2_unfold(k);
            lemma_nb_below_pow2(n / 2, (k - 1) as nat);
        }
    }
}

/// More value, at least as many significant bits.
pub proof fn lemma_nb_monotone(a: u64, b: u64)
    requires
        a <= b,
    ensures
        nb(a) <= nb(b),
    decreases b,
{
    if a > 0 {
        lemma_nb_monotone(a / 2, b / 2);
    }
}

/// A quarter of a value drops exactly two significant bits.
pub proof fn lemma_nb_quarter(n: u64)
    requires
        n >= 4,
    ensures
        nb(n / 4) + 2 == nb(n),
{
    assert(n / 2 / 2 == n / 4 && n / 2 >= 1 && n >= 1) by (bit_vector)
        requires
            n >= 4,
    ;
    assert(nb(n) == 1 + nb(n / 2));
    assert(nb(n / 2) == 1 + nb(n / 2 / 2));
}

/// Eight times a value adds exactly three significant bits.
pub proof fn lemma_nb_times8(n: u64)
    requires
        1 <= n,
        8 * n <= u64::MAX,
    ensures
        nb((8 * n) as u64) == nb(n) + 3,
{
    let m = (8 * n) as u64;
    assert(m / 2 / 2 / 2 == n && m / 2 >= 1 && m / 2 / 2 >= 1 && m >= 1) by (bit_vector)
        requires
            m == 8 * n,
            1 <= n,
            8 * n <= u64::MAX,
    ;
    assert(nb(m) == 1 + nb(m / 2));
    assert(nb(m / 2) == 1 + nb(m / 2 / 2));
    assert(nb(m / 2 / 2) == 1 + nb(m / 2 / 2 / 2));
}

/// The mask of low bits that rounding clears: all bits below the
/// `significant_bits` most significant bits of `value`.
pub open spec fn round_mask_spec(value: Size, significant_bits: u32) -> Size {
    if significant_bits <= nb(value) {
        low_ones((nb(value) - significant_bits) as u32)
    } else {
        0
    }
}

/// The number of leading zeros and the number of significant bits partition
/// the 64 bits.
proof fn lemma_nb_leading_zeros(n: u64)
    ensures
        vstd::std_specs::bits::u64_leading_zeros(n) + nb(n) == 64,
    decreases n,
{
    reveal(vstd::std_specs::bits::u64_leading_zeros);
    if n > 0 {
        lemma_nb_leading_zeros(n / 2);
    }
}

/// Returns the mask of the low `N - significant_bits` bits, where `N` is the
/// number of significant bits of `value`. With no significant bits kept the
/// mask covers every bit of `value` up to its top bit.
pub fn round_mask(value: Size, significant_bits: u32) -> (r: Size)
    requires
        value < 0x8000_0000_0000_0000 || significant_bits >= 1,
    ensures
        r == round_mask_spec(value, significant_bits),
        value == 0 && significant_bits == 0 ==> r == 0,
        r <= low_ones(nb(value) as u32),
{
    proof {
        lemma_nb_leading_zeros(value);
        lemma_nb_bound(value);
        let p63 = vstd::arithmetic::power2::pow2(63);
        vstd::arithmetic::power2::lemma2_to64_rest();
        assert(p63 == 0x8000_0000_0000_0000);
        if value >= 0x8000_0000_0000_0000 {
            lemma_nb_below_pow2(value / 2, 63);
        } else {
            lemma_nb_below_pow2(value, 63);
        }
    }
    let num_bits = 64 - value.leading_zeros();
    let r = match num_bits.checked_sub(significant_bits) {
        Some(diff) => {
            proof {
                let d = diff;
                assert((d < 64 ==> ((1u64 << (d as u64)) >= 1 && ((1u64 << (d as u64))
                    - 1) as u64 == low_ones(d))) && low_ones(0) == 0) by (bit_vector);
            }
            (1u64 << (diff as u64)) - 1
        },
        None => 0,
    };
    proof {
        if significant_bits <= nb(value) {
            lemma_low_ones_monotone((nb(value) - significant_bits) as u32, nb(value) as u32);
        }
    }
    r
}


/// The smallest power of two at or above `n` (and one for zero).
pub fn next_power_of_two_u64(n: u64) -> (r: u64)
    requires
        n <= crate::MAX_REQUEST_SIZE,
    ensures
        crate::is_power_of_two(r),
        r >= n,
        r >= 1,
        n >= 1 ==> r < 2 * n,
        r <= crate::MAX_REQUEST_SIZE,
{
    let mut p: u64 = 1;
    proof {
        assert(1u64 & 0u64 == 0) by (bit_vector);
    }
    while p < n
        invariant
            crate::is_power_of_two(p),
            1 <= p,
            n <= crate::MAX_REQUEST_SIZE,
            n >= 1 ==> p < 2 * n,
            p <= crate::MAX_REQUEST_SIZE,
        decreases 2 * n - p,
    {
        proof {
            let q = p;
            assert((q >= 1 && q & ((q - 1) as u64) == 0 && q <= 0x100000000000000) ==> (((2
                * q) as u64) & ((2 * q - 1) as u64) == 0 && 2 * q >= 1 && (2 * q
                > 0x100000000000000 ==> 2 * q >= 0x200000000000000))) by (bit_vector);
        }
        p = p * 2;
        proof {
            if p > crate::MAX_REQUEST_SIZE {
                assert(false);
            }
        }
    }
    p
}

/// The rounded-up request size of the general allocator: low bits of size,
/// alignment, granularity and the significance mask are all carried in.
pub open spec fn spec_aligned_size(
    size: Size,
    align: Size,
    granularity: Size,
    significant_bits: u32,
) -> int {
    ((((size - 1) as u64) | ((align - 1) as u64) | ((granularity - 1) as u64) | round_mask_spec(
        size,
        significant_bits,
    )) + 1) as int
}

/// Bit facts about the rounded request, for a symbolic mask.
proof fn lemma_or_plus_one_props(size: u64, align: u64, granularity: u64, mask: u64)
    requires
        1 <= size <= 0x100000000000000,
        align >= 1 && align & ((align - 1) as u64) == 0,
        align <= 0x100000000000000,
        granularity >= 1 && granularity & ((granularity - 1) as u64) == 0,
        granularity <= 0x100000000000000,
        mask < 0x200000000000000,
        mask & ((mask + 1) as u64) == 0,
    ensures
        ({
            let x = ((size - 1) as u64) | ((align - 1) as u64) | ((granularity - 1) as u64) | mask;
            &&& (x as int) + 1 >= size
            &&& (x as int) + 1 <= 0x200000000000000
            &&& ((x + 1) as u64) & ((align - 1) as u64) == 0
            &&& ((x + 1) as u64) & ((granularity - 1) as u64) == 0
            &&& ((x + 1) as u64) & mask == 0
            &&& ((mask + 1) as u64) & ((((mask + 1) as u64) - 1) as u64) == 0
            &&& (mask + 1) as u64 >= 1
        }),
{
    let x = ((size - 1) as u64) | ((align - 1) as u64) | ((granularity - 1) as u64) | mask;
    assert((x as int) + 1 >= size && (x as int) + 1 <= 0x200000000000000 && ((x + 1) as u64) & ((
    align - 1) as u64) == 0 && ((x + 1) as u64) & ((granularity - 1) as u64) == 0 && ((x
        + 1) as u64) & mask == 0 && ((mask + 1) as u64) & ((((mask + 1) as u64) - 1) as u64) == 0
        && (mask + 1) as u64 >= 1) by (bit_vector)
        requires
            x == ((size - 1) as u64) | ((align - 1) as u64) | ((granularity - 1) as u64) | mask,
            1 <= size <= 0x100000000000000,
            align >= 1 && align & ((align - 1) as u64) == 0,
            align <= 0x100000000000000,
            granularity >= 1 && granularity & ((granularity - 1) as u64) == 0,
            granularity <= 0x100000000000000,
            mask < 0x200000000000000,
            mask & ((mask + 1) as u64) == 0,
    ;
}

/// A window of low ones and its successor power of two share no bit.
proof fn lemma_low_ones_carry(d: u32)
    requires
        d <= 57,
    ensures
        low_ones(d) & ((low_ones(d) + 1) as u64) == 0,
        low_ones(d) < 0x200000000000000,
{
    assert(low_ones(d) & ((low_ones(d) + 1) as u64) == 0 && low_ones(d) < 0x200000000000000)
        by (bit_vector)
        requires
            d <= 57,
    ;
}

/// The rounded request covers the request and is a multiple of the
/// alignment, of the granularity, and (when bits remain) of the
/// significance bucket.
pub proof fn lemma_aligned_size_properties(
    size: Size,
    align: Size,
    granularity: Size,
    significant_bits: u32,
)
    requires
        1 <= size <= crate::MAX_REQUEST_SIZE,
        crate::is_power_of_two(align),
        align <= crate::MAX_REQUEST_SIZE,
        crate::is_power_of_two(granularity),
        granularity <= crate::MAX_REQUEST_SIZE,
    ensures
        spec_aligned_size(size, align, granularity, significant_bits) >= size,
        spec_aligned_size(size, align, granularity, significant_bits) <= crate::MAX_BLOCK_SIZE,
        spec_aligned_size(size, align, granularity, significant_bits) % (align as int) == 0,
        spec_aligned_size(size, align, granularity, significant_bits) % (granularity as int) == 0,
        spec_aligned_size(size, align, granularity, significant_bits) % (round_mask_spec(
            size,
            significant_bits,
        ) + 1) as int == 0,
        round_mask_spec(size, significant_bits) < 0x200_0000_0000_0000,
{
    let mask = round_mask_spec(size, significant_bits);
    assert(nb(size) <= 57) by {
        vstd::arithmetic::power2::lemma2_to64_rest();
        assert(vstd::arithmetic::power2::pow2(57) == 0x200000000000000);
        lemma_nb_below_pow2(size, 57);
    }
    assert(mask & ((mask + 1) as u64) == 0 && mask < 0x200000000000000) by {
        if significant_bits <= nb(size) {
            lemma_low_ones_carry((nb(size) - significant_bits) as u32);
        } else {
            assert(0u64 & 1u64 == 0) by (bit_vector);
        }
    }
    lemma_or_plus_one_props(size, align, granularity, mask);
    let x = ((size - 1) as u64) | ((align - 1) as u64) | ((granularity - 1) as u64) | mask;
    let a = ((x + 1) as u64);
    crate::lemma_mask_mod_equiv(a, align);
    crate::lemma_mask_mod_equiv(a, granularity);
    crate::lemma_mask_mod_equiv(a, (mask + 1) as u64);
}

/// A wider window of low ones covers a narrower one.
proof fn lemma_low_ones_monotone(a: u32, b: u32)
    requires
        a <= b,
    ensures
        low_ones(a) <= low_ones(b),
{
    assert(low_ones(a) <= low_ones(b)) by (bit_vector)
        requires
            a <= b,
    ;
}


/// No-fragmentation allocator, suitable for many small allocations: every
/// freed block can be reused by later requests.
#[derive(Debug)]
pub struct GeneralAllocator {
    memory_type: u32,
    memory_properties: Properties,
    block_size_granularity: Size,
    max_chunk_size: Size,
    min_device_allocation: Size,
    significant_size_bits: u32,
    sizes: SizeTable,
    chunks: ChunkSizes,
    non_coherent_atom_size: Option<Size>,
}

impl GeneralAllocator {
    /// The memory type this allocator allocates from.
    pub closed spec fn spec_memory_type(self) -> u32 {
        self.memory_type
    }

    /// The property bits of that memory type.
    pub closed spec fn spec_properties(self) -> Properties {
        self.memory_properties
    }

    /// Every block size is a multiple of this power of two.
    pub closed spec fn spec_granularity(self) -> Size {
        self.block_size_granularity
    }

    /// The chunk size ceiling: larger chunks come straight from the device.
    pub closed spec fn spec_max_chunk_size(self) -> Size {
        self.max_chunk_size
    }

    /// The floor on direct device allocations.
    pub closed spec fn spec_min_device_allocation(self) -> Size {
        self.min_device_allocation
    }

    /// How many most significant bits survive request rounding.
    pub closed spec fn spec_significant_size_bits(self) -> u32 {
        self.significant_size_bits
    }

    /// The table from block size to its entry.
    pub closed spec fn spec_sizes(self) -> SizeTable {
        self.sizes
    }

    /// The ordered set of sizes that have had chunks.
    pub closed spec fn spec_chunk_sizes(self) -> ChunkSizes {
        self.chunks
    }

    /// The non-coherent atom size that applies, if any.
    pub closed spec fn spec_atom_size(self) -> Option<Size> {
        self.non_coherent_atom_size
    }

    /// Configuration sanity, table consistency, and well-formedness of every
    /// entry at its own block size.
    pub open spec fn wf(self) -> bool {
        &&& is_power_of_two(self.spec_granularity())
        &&& self.spec_granularity() <= MAX_REQUEST_SIZE
        &&& is_power_of_two(self.spec_max_chunk_size())
        &&& self.spec_max_chunk_size() <= MAX_REQUEST_SIZE
        &&& is_power_of_two(self.spec_min_device_allocation())
        &&& self.spec_min_device_allocation() <= MAX_REQUEST_SIZE
        &&& self.spec_significant_size_bits() <= 3
        &&& (self.spec_atom_size() is Some) <==> is_non_coherent_visible(self.spec_properties())
        &&& self.spec_atom_size() matches Some(atom) ==> (is_power_of_two(atom) && atom
            <= MAX_REQUEST_SIZE)
        &&& self.spec_sizes().wf()
        &&& forall|k: Size|
            #[trigger] self.spec_sizes().contains_key(k) ==> 1 <= k <= MAX_BLOCK_SIZE
                && self.spec_sizes().entry_at(k).wf(k)
        &&& self.spec_chunk_sizes().wf()
        &&& forall|v: Size| #[trigger] self.spec_chunk_sizes().contains(v) ==> 1 <= v <= MAX_BLOCK_SIZE
    }

    /// Create a new general allocator for one memory type. For non-coherent
    /// host-visible memory the granularity is widened to cover the atom.
    pub fn new(
        memory_type: u32,
        memory_properties: Properties,
        config: GeneralConfig,
        non_coherent_atom_size: Size,
        total_heap_size: Size,
    ) -> (r: GeneralAllocator)
        requires
            is_power_of_two(config.block_size_granularity),
            config.block_size_granularity <= MAX_REQUEST_SIZE,
            is_power_of_two(config.min_device_allocation),
            config.min_device_allocation <= MAX_REQUEST_SIZE,
            config.max_chunk_size_as_heap_total_fraction >= 1,
            config.significant_size_bits <= 3,
            is_power_of_two(non_coherent_atom_size),
            non_coherent_atom_size <= MAX_REQUEST_SIZE,
            1 <= total_heap_size <= MAX_REQUEST_SIZE,
        ensures
            r.wf(),
            r.spec_memory_type() == memory_type,
            r.spec_properties() == memory_properties,
            r.spec_min_device_allocation() == config.min_device_allocation,
            r.spec_significant_size_bits() == config.significant_size_bits,
            spec_next_pow2_of(
                r.spec_max_chunk_size(),
                spec_chunk_ceiling_wanted(config, total_heap_size),
            ),
            r.spec_granularity() == (if crate::spec_non_coherent_visible(memory_properties) {
                r.spec_granularity() as int
            } else {
                config.block_size_granularity as int
            }),
            crate::spec_non_coherent_visible(memory_properties) ==> (r.spec_atom_size() == Some(
                non_coherent_atom_size,
            ) && spec_next_pow2_of(
                r.spec_granularity(),
                (if non_coherent_atom_size > config.block_size_granularity {
                    non_coherent_atom_size as int
                } else {
                    config.block_size_granularity as int
                }),
            )),
            !crate::spec_non_coherent_visible(memory_properties) ==> r.spec_atom_size() is None,
            forall|k: Size| !r.spec_sizes().contains_key(k),
            forall|v: Size| !r.spec_chunk_sizes().contains(v),
    {
        let fraction_share = total_heap_size / (config.max_chunk_size_as_heap_total_fraction as u64);
        let wanted = if fraction_share > config.min_device_allocation {
            fraction_share
        } else {
            config.min_device_allocation
        };
        proof {
            vstd::arithmetic::div_mod::lemma_div_is_ordered(
                fraction_share as int,
                total_heap_size as int,
                1,
            );
            assert(fraction_share <= total_heap_size) by {
                vstd::arithmetic::div_mod::lemma_div_nonincreasing(
                    total_heap_size as int,
                    config.max_chunk_size_as_heap_total_fraction as int,
                );
            }
        }
        let max_chunk_size = next_power_of_two_u64(wanted);
        let (block_size_granularity, non_coherent_atom_size) = if is_non_coherent_visible(
            memory_properties,
        ) {
            let wanted_granularity = if non_coherent_atom_size > config.block_size_granularity {
                non_coherent_atom_size
            } else {
                config.block_size_granularity
            };
            (next_power_of_two_u64(wanted_granularity), Some(non_coherent_atom_size))
        } else {
            (config.block_size_granularity, None)
        };
        GeneralAllocator {
            memory_type,
            memory_properties,
            block_size_granularity,
            max_chunk_size,
            min_device_allocation: config.min_device_allocation,
            significant_size_bits: config.significant_size_bits,
            sizes: SizeTable::new(),
            chunks: ChunkSizes::new(),
            non_coherent_atom_size,
        }
    }

    /// Largest request the pooled paths serve; anything above escalates to a
    /// dedicated device allocation at the dispatch layer.
    pub fn max_allocation(&self) -> (r: Size)
        ensures
            r == self.spec_max_chunk_size(),
    {
        self.max_chunk_size
    }

    /// Allocate a chunk of `count` blocks of `block_size` bytes straight
    /// from the device.
    fn alloc_chunk_from_device(&self, device: &mut Device, block_size: Size, count: u32) -> (r:
        Result<Chunk, AllocationError>)
        requires
            self.wf(),
            old(device).wf(),
            1 <= block_size <= MAX_BLOCK_SIZE,
            8 <= count <= 64,
        ensures
            final(device).wf(),
            final(device).spec_handles() >= old(device).spec_handles(),
            match r {
                Ok(chunk) => {
                    &&& old(device).ready()
                    &&& chunk.wf(block_size)
                    &&& chunk.spec_blocks() == chunk.spec_full_mask(block_size)
                    &&& chunk.spec_block_count(block_size) == count
                    &&& chunk.spec_flavor() is Dedicated
                    &&& final(device).live_view().len() == old(device).live_view().len() + 1
                    &&& final(device).live_view().drop_last() =~= old(device).live_view()
                    &&& final(device).live_view().last().size == count * block_size
                },
                Err(e) => {
                    &&& !old(device).ready()
                    &&& final(device).live_view() == old(device).live_view()
                    &&& final(device).spec_handles() == old(device).spec_handles()
                    &&& (old(device).spec_injected_error() is None
                        ==> final(device).spec_injected_error() is None)
                    &&& (old(device).spec_injected_error() matches Some(err) ==> e == err)
                },
            },
    {
        proof {
            assert(block_size as int * count as int <= 0x200000000000000 * 64 && block_size as int
                * count as int >= 1) by (nonlinear_arith)
                requires
                    block_size <= 0x200000000000000,
                    count <= 64,
                    block_size >= 1,
                    count >= 1,
            ;
        }
        let size = block_size * (count as u64);
        let memory = match device.allocate_memory(
            self.memory_type,
            size,
            self.memory_properties,
            self.non_coherent_atom_size,
        ) {
            Ok(memory) => memory,
            Err(e) => {
                return Err(e);
            },
        };
        proof {
            broadcast use vstd::arithmetic::mul::lemma_mul_is_commutative;

            vstd::arithmetic::div_mod::lemma_div_multiples_vanish(
                count as int,
                block_size as int,
            );
        }
        Ok(Chunk::from_memory(block_size, memory))
    }

    /// Allocate `count` consecutive blocks from the chunk at `chunk_index`.
    fn alloc_from_chunk(
        chunks: &mut ChunkSlab,
        chunk_index: u32,
        block_size: Size,
        count: u32,
        align: Size,
    ) -> (r: Option<GeneralBlock>)
        requires
            old(chunks).occupied(chunk_index as int),
            old(chunks).chunk_at(chunk_index as int).wf(block_size),
            1 <= count < MIN_BLOCKS_PER_CHUNK,
            align >= 1,
            block_size as int % align as int == 0,
            chunk_index < 64,
        ensures
            forall|j: int|
                j != chunk_index ==> #[trigger] final(chunks).occupied(j) == old(chunks).occupied(
                    j,
                ),
            forall|j: int|
                j != chunk_index && old(chunks).occupied(j) ==> #[trigger] final(chunks).chunk_at(
                    j,
                ) == old(chunks).chunk_at(j),
            final(chunks).occupied(chunk_index as int),
            final(chunks).chunk_at(chunk_index as int).wf(block_size),
            final(chunks).view_seq().len() == old(chunks).view_seq().len(),
            match r {
                Some(block) => {
                    &&& block.wf()
                    &&& block.spec_count() == count
                    &&& block.spec_chunk_index() == chunk_index
                    &&& block.spec_size() == count * block_size
                    &&& block.spec_entry_size() == block_size
                    &&& block.spec_range().start as int % align as int == 0
                    &&& block.spec_range().start == old(chunks).chunk_at(
                        chunk_index as int,
                    ).spec_range().start + block.spec_block_index() * block_size
                    &&& block.spec_memory() == old(chunks).chunk_at(
                        chunk_index as int,
                    ).spec_memory()
                    &&& final(chunks).chunk_at(chunk_index as int).spec_flavor() == old(
                        chunks,
                    ).chunk_at(chunk_index as int).spec_flavor()
                    &&& popcount(final(chunks).chunk_at(chunk_index as int).spec_blocks()) + count
                        == popcount(old(chunks).chunk_at(chunk_index as int).spec_blocks())
                },
                None => {
                    &&& final(chunks).view_seq() =~= old(chunks).view_seq()
                    &&& forall|j: u32|
                        !acquirable(
                            old(chunks).chunk_at(chunk_index as int).spec_blocks(),
                            j,
                            count,
                            block_size,
                            align,
                        )
                },
            },
    {
        let mut chunk = chunks.take(chunk_index as usize);
        let ghost c0 = old(chunks).chunk_at(chunk_index as int);
        let found = chunk.acquire_blocks(count, block_size, align);
        let block_index = match found {
            Some(block_index) => block_index,
            None => {
                proof {
                    crate::chunk::lemma_chunk_parts(
                        chunk,
                        old(chunks).chunk_at(chunk_index as int),
                    );
                }
                chunks.put(chunk_index as usize, chunk);
                proof {
                    assert(chunks.view_seq() =~= old(chunks).view_seq());
                }
                return None;
            },
        };
        proof {
            let m = c0.spec_blocks();
            let n = c0.spec_block_count(block_size);
            crate::bitmask::lemma_run_in_mask(m, block_index, count, n as u32);
            let m1 = chunk.spec_blocks();
            let full = c0.spec_full_mask(block_size);
            assert((m & !full == 0 && m1 == m & !run_mask(block_index, count)) ==> m1 & !full == 0)
                by (bit_vector);
            assert(chunk.wf(block_size));
        }
        let range = chunk.blocks_range(block_size, block_index, count);
        let memory = *chunk.shared_memory();
        let block = GeneralBlock::new(memory, block_index, chunk_index, count, range);
        chunks.put(chunk_index as usize, chunk);
        proof {
            broadcast use vstd::arithmetic::mul::lemma_mul_is_commutative;

            vstd::arithmetic::div_mod::lemma_div_multiples_vanish(block_size as int, count as int);
            crate::lemma_divides_transitive(
                align as int,
                block_size as int,
                c0.spec_range().start as int,
            );
            vstd::arithmetic::div_mod::lemma_mod_multiples_basic(
                block_index as int,
                block_size as int,
            );
            crate::lemma_divides_transitive(
                align as int,
                block_size as int,
                (block_index * block_size) as int,
            );
            vstd::arithmetic::div_mod::lemma_add_mod_noop(
                c0.spec_range().start as int,
                (block_index * block_size) as int,
                align as int,
            );
            vstd::arithmetic::div_mod::lemma_small_mod(0nat, align as nat);
        }
        Some(block)
    }
}


/// The configuration fields of two allocator states agree.
pub open spec fn same_config(pre: GeneralAllocator, post: GeneralAllocator) -> bool {
    &&& post.spec_memory_type() == pre.spec_memory_type()
    &&& post.spec_properties() == pre.spec_properties()
    &&& post.spec_granularity() == pre.spec_granularity()
    &&& post.spec_max_chunk_size() == pre.spec_max_chunk_size()
    &&& post.spec_min_device_allocation() == pre.spec_min_device_allocation()
    &&& post.spec_significant_size_bits() == pre.spec_significant_size_bits()
    &&& post.spec_atom_size() == pre.spec_atom_size()
}

/// The size entry for `k` is the same in both states.
pub open spec fn key_untouched(pre: GeneralAllocator, post: GeneralAllocator, k: Size) -> bool {
    &&& post.spec_sizes().contains_key(k) == pre.spec_sizes().contains_key(k)
    &&& (pre.spec_sizes().contains_key(k) ==> post.spec_sizes().entry_at(k)
        == pre.spec_sizes().entry_at(k))
}

/// Size entries strictly below `lo` (other than `except`) are untouched.
pub open spec fn sizes_untouched_below(
    pre: GeneralAllocator,
    post: GeneralAllocator,
    lo: int,
    except: Size,
) -> bool {
    forall|k: Size| (k as int) < lo && k != except ==> #[trigger] key_untouched(pre, post, k)
}

/// A key no well-formed table holds (sizes are positive) is trivially
/// untouched between well-formed states.
proof fn lemma_zero_key_untouched(pre: GeneralAllocator, post: GeneralAllocator)
    requires
        pre.wf(),
        post.wf(),
    ensures
        key_untouched(pre, post, 0),
{
    if pre.spec_sizes().contains_key(0) {
        assert(1 <= 0);
    }
    if post.spec_sizes().contains_key(0) {
        assert(1 <= 0);
    }
}

/// Termination measure of the allocation recursion: block sizes at least
/// double every two steps, so the remaining significant bits shrink.
pub open spec fn alloc_measure(block_size: Size, tier: int) -> int {
    3 * (64 - nb(block_size) as int) + tier
}

/// The usual success facts of the allocation recursion.
pub open spec fn alloc_ok(
    pre: GeneralAllocator,
    post: GeneralAllocator,
    dev_pre: Device,
    dev_post: Device,
    block: GeneralBlock,
    allocated: Size,
    align: Size,
) -> bool {
    &&& block.wf()
    &&& block.spec_range().start as int % align as int == 0
    &&& (allocated == 0 ==> dev_post.live_view() == dev_pre.live_view())
    &&& (allocated > 0 ==> (dev_post.live_view().len() == dev_pre.live_view().len() + 1
        && dev_post.live_view().drop_last() =~= dev_pre.live_view() && dev_post.live_view().last().size
        == allocated))
}

/// Every index the ready bitset could track is occupied: the bucket cannot
/// open another chunk.
pub open spec fn slab_full(entry: SizeEntry) -> bool {
    forall|j: int| 0 <= j < 64 ==> entry.chunks.occupied(j)
}

/// The usual failure facts of the allocation recursion: either the device
/// said no, or some size entry ran out of chunk slots (and then the error is
/// the host-exhaustion report). So with a ready device and no full bucket,
/// allocation cannot fail.
pub open spec fn alloc_err(
    post: GeneralAllocator,
    dev_pre: Device,
    dev_post: Device,
    e: AllocationError,
) -> bool {
    &&& dev_post.live_view() == dev_pre.live_view()
    &&& dev_post.spec_handles() == dev_pre.spec_handles()
    &&& (dev_pre.spec_injected_error() is None ==> dev_post.spec_injected_error() is None)
    &&& (!dev_pre.ready() || (e == AllocationError::OutOfMemory(OutOfMemory::Host) && exists|
        k: Size,
    |
        #[trigger] post.spec_sizes().contains_key(k) && slab_full(post.spec_sizes().entry_at(k))))
}


/// All size entries other than `except` agree between two states.
pub open spec fn sizes_same_except(
    pre: GeneralAllocator,
    post: GeneralAllocator,
    except: Size,
) -> bool {
    forall|k: Size| k != except ==> #[trigger] key_untouched(pre, post, k)
}

impl GeneralAllocator {
    /// Take the entry for `block_size` out of the table, creating an empty
    /// one the first time the size is seen.
    fn take_entry(&mut self, block_size: Size) -> (entry: SizeEntry)
        requires
            old(self).wf(),
            1 <= block_size <= MAX_BLOCK_SIZE,
        ensures
            final(self).wf(),
            entry.wf(block_size),
            !final(self).spec_sizes().contains_key(block_size),
            sizes_same_except(*old(self), *final(self), block_size),
            same_config(*old(self), *final(self)),
            final(self).spec_chunk_sizes() == old(self).spec_chunk_sizes(),
            old(self).spec_sizes().contains_key(block_size) ==> entry == old(
                self,
            ).spec_sizes().entry_at(block_size),
            !old(self).spec_sizes().contains_key(block_size) ==> (entry.total_blocks == 0
                && forall|j: int| !entry.chunks.occupied(j)),
    {
        match self.sizes.take(block_size) {
            Some(entry) => {
                proof {
                    assert(old(self).spec_sizes().contains_key(block_size));
                }
                entry
            },
            None => {
                let entry = SizeEntry::new();
                proof {
                    crate::bitmask::lemma_zero_mask();
                }
                entry
            },
        }
    }

    /// Put the entry for `block_size` back into the table.
    fn put_entry(&mut self, block_size: Size, entry: SizeEntry)
        requires
            old(self).wf(),
            !old(self).spec_sizes().contains_key(block_size),
            entry.wf(block_size),
            1 <= block_size <= MAX_BLOCK_SIZE,
        ensures
            final(self).wf(),
            final(self).spec_sizes().contains_key(block_size),
            final(self).spec_sizes().entry_at(block_size) == entry,
            sizes_same_except(*old(self), *final(self), block_size),
            same_config(*old(self), *final(self)),
            final(self).spec_chunk_sizes() == old(self).spec_chunk_sizes(),
    {
        self.sizes.put(block_size, entry);
        proof {
            assert forall|k: Size| #[trigger] self.spec_sizes().contains_key(k) implies 1 <= k
                <= MAX_BLOCK_SIZE && self.spec_sizes().entry_at(k).wf(k) by {
                if k != block_size {
                    assert(old(self).spec_sizes().contains_key(k));
                    assert(self.spec_sizes().entry_at(k) == old(self).spec_sizes().entry_at(k));
                }
            }
        }
    }

    /// Record `v` in the set of sizes that have chunks.
    fn note_chunk_size(&mut self, v: Size)
        requires
            old(self).wf(),
            1 <= v <= MAX_BLOCK_SIZE,
        ensures
            final(self).wf(),
            final(self).spec_chunk_sizes().contains(v),
            final(self).spec_sizes() == old(self).spec_sizes(),
            same_config(*old(self), *final(self)),
            forall|x: Size|
                #[trigger] final(self).spec_chunk_sizes().contains(x) == (old(
                    self,
                ).spec_chunk_sizes().contains(x) || x == v),
    {
        self.chunks.insert(v);
        proof {
            assert forall|x: Size|
                #[trigger] self.spec_chunk_sizes().contains(x) implies 1 <= x
                <= MAX_BLOCK_SIZE by {
                if x != v {
                    assert(old(self).spec_chunk_sizes().contains(x));
                }
            }
        }
    }
}

impl GeneralAllocator {
    /// Allocate `count` consecutive blocks from the entry for `block_size`:
    /// scan the ready chunks, and open a new chunk when none fits.
    fn alloc_from_entry(
        &mut self,
        device: &mut Device,
        block_size: Size,
        count: u32,
        align: Size,
    ) -> (r: Result<(GeneralBlock, Size), AllocationError>)
        requires
            old(self).wf(),
            old(device).wf(),
            1 <= count < MIN_BLOCKS_PER_CHUNK,
            align >= 1,
            block_size as int % align as int == 0,
            1 <= block_size <= MAX_BLOCK_SIZE,
        ensures
            final(self).wf(),
            final(device).wf(),
            same_config(*old(self), *final(self)),
            sizes_untouched_below(*old(self), *final(self), 2 * block_size, block_size),
            final(device).spec_handles() >= old(device).spec_handles(),
            match r {
                Ok((block, allocated)) => {
                    &&& alloc_ok(
                        *old(self),
                        *final(self),
                        *old(device),
                        *final(device),
                        block,
                        allocated,
                        align,
                    )
                    &&& block.spec_entry_size() == block_size
                    &&& block.spec_count() == count
                    &&& block.spec_size() == count * block_size
                },
                Err(e) => alloc_err(*final(self), *old(device), *final(device), e),
            },
        decreases alloc_measure(block_size, 1),
    {
        proof {
            lemma_nb_bound(block_size);
        }
        let mut entry = self.take_entry(block_size);
        let ghost mid_self = *self;
        let mut iter = entry.ready_chunks.iter();
        loop
            invariant
                *self == mid_self,
                *device == *old(device),
                mid_self.wf(),
                old(self).wf(),
                old(device).wf(),
                same_config(*old(self), mid_self),
                sizes_same_except(*old(self), mid_self, block_size),
                !mid_self.spec_sizes().contains_key(block_size),
                entry.wf(block_size),
                iter.spec_mask() == entry.ready_chunks.spec_mask(),
                iter.wf(),
                1 <= count < MIN_BLOCKS_PER_CHUNK,
                align >= 1,
                block_size as int % align as int == 0,
                1 <= block_size <= MAX_BLOCK_SIZE,
            decreases 64 - iter.spec_index(),
        {
            let next = iter.next();
            let chunk_index = match next {
                None => { break ; },
                Some(chunk_index) => chunk_index,
            };
            proof {
                assert(entry.ready_chunks.spec_contains(chunk_index));
            }
            if let Some(block) = Self::alloc_from_chunk(
                &mut entry.chunks,
                chunk_index,
                block_size,
                count,
                align,
            ) {
                let ghost pre_put = *self;
                self.put_entry(block_size, entry);
                proof {
                    assert forall|k: Size|
                        (k as int) < 2 * block_size && k != block_size implies #[trigger] key_untouched(
                        *old(self),
                        *self,
                        k,
                    ) by {
                        assert(key_untouched(*old(self), pre_put, k));
                        assert(key_untouched(pre_put, *self, k));
                    }
                }
                return Ok((block, 0));
            }
        }
        // The configured guard is far wider than the 64 chunk indices the
        // ready bitset can track, so the bitset width binds.
        let key = entry.chunks.vacant_key();
        if key > max_chunks_per_size() || key >= 64 {
            proof {
                assert(slab_full(entry));
            }
            let ghost pre_put = *self;
            self.put_entry(block_size, entry);
            proof {
                assert forall|k: Size|
                    (k as int) < 2 * block_size && k != block_size implies #[trigger] key_untouched(
                    *old(self),
                    *self,
                    k,
                ) by {
                    assert(key_untouched(*old(self), pre_put, k));
                    assert(key_untouched(pre_put, *self, k));
                }
            }
            proof {
                assert(self.spec_sizes().contains_key(block_size) && slab_full(
                    self.spec_sizes().entry_at(block_size),
                ));
            }
            return Err(AllocationError::OutOfMemory(OutOfMemory::Host));
        }
        let estimated_block_count = if entry.total_blocks > 0xffff_ffff {
            0xffff_ffffu32
        } else {
            entry.total_blocks as u32
        };
        self.put_entry(block_size, entry);
        let ghost with_entry = *self;
        proof {
            lemma_nb_bound(block_size);
            assert forall|k: Size|
                k != block_size implies #[trigger] key_untouched(*old(self), with_entry, k) by {
                assert(key_untouched(*old(self), mid_self, k));
                assert(key_untouched(mid_self, with_entry, k));
            }
        }
        let (chunk, allocated) = match self.alloc_chunk(device, block_size, estimated_block_count) {
            Ok(pair) => pair,
            Err(e) => {
                proof {
                    assert forall|k: Size|
                        (k as int) < 2 * block_size && k != block_size implies #[trigger] key_untouched(
                        *old(self),
                        *self,
                        k,
                    ) by {
                        assert(key_untouched(*old(self), with_entry, k));
                        if k == 0 {
                            lemma_zero_key_untouched(with_entry, *self);
                        } else {
                            assert(key_untouched(with_entry, *self, k));
                        }
                    }
                }
                return Err(e);
            },
        };
        let ghost after_chunk = *self;
        proof {
            // the entry sits below twice its size, so the recursion left it be
            assert(key_untouched(with_entry, after_chunk, block_size));
            assert(self.spec_sizes().contains_key(block_size));
            assert(self.spec_sizes().entry_at(block_size) == with_entry.spec_sizes().entry_at(
                block_size,
            ));
        }
        let mut entry = self.take_entry(block_size);
        let chunk_index_usize = entry.chunks.insert(chunk);
        let chunk_index = chunk_index_usize as u32;
        let ghost fresh_mask = chunk.spec_blocks();
        proof {
            assert(chunk_index_usize == key);
            crate::bitmask::lemma_low_ones_run(chunk.spec_block_count(block_size) as u32, count);
            assert(((0 as int) * (block_size as int)) as u64 == 0 && 0u64 & ((align - 1) as u64)
                == 0) by (bit_vector);
            assert(acquirable(fresh_mask, 0, count, block_size, align));
        }
        let block = match Self::alloc_from_chunk(
            &mut entry.chunks,
            chunk_index,
            block_size,
            count,
            align,
        ) {
            Some(block) => block,
            None => {
                proof {
                    assert(false);
                }
                vstd::pervasive::unreached()
            },
        };
        if !entry.chunks.borrow(chunk_index_usize).is_exhausted() {
            entry.ready_chunks.add(chunk_index);
        }
        let ghost pre_put = *self;
        self.put_entry(block_size, entry);
        proof {
            assert forall|k: Size|
                (k as int) < 2 * block_size && k != block_size implies #[trigger] key_untouched(
                *old(self),
                *self,
                k,
            ) by {
                assert(key_untouched(*old(self), with_entry, k));
                if k == 0 {
                    lemma_zero_key_untouched(with_entry, after_chunk);
                } else {
                    assert(key_untouched(with_entry, after_chunk, k));
                }
                assert(key_untouched(after_chunk, pre_put, k));
                assert(key_untouched(pre_put, *self, k));
            }
        }
        Ok((block, allocated))
    }

    /// Allocate a chunk for `block_size`-byte blocks: back it by a block of
    /// a coarser entry when one exists, else go to the device.
    fn alloc_chunk(&mut self, device: &mut Device, block_size: Size, requested_count: u32) -> (r:
        Result<(Chunk, Size), AllocationError>)
        requires
            old(self).wf(),
            old(device).wf(),
            1 <= block_size <= MAX_BLOCK_SIZE,
        ensures
            final(self).wf(),
            final(device).wf(),
            same_config(*old(self), *final(self)),
            sizes_untouched_below(*old(self), *final(self), 2 * block_size, 0),
            final(device).spec_handles() >= old(device).spec_handles(),
            match r {
                Ok((chunk, allocated)) => {
                    &&& chunk.wf(block_size)
                    &&& chunk.spec_blocks() == chunk.spec_full_mask(block_size)
                    &&& chunk.spec_block_count(block_size) >= 8
                    &&& (allocated == 0 ==> final(device).live_view() == old(device).live_view())
                    &&& (allocated > 0 ==> (final(device).live_view().len() == old(
                        device,
                    ).live_view().len() + 1 && final(device).live_view().drop_last() =~= old(
                        device,
                    ).live_view() && final(device).live_view().last().size == allocated))
                },
                Err(e) => alloc_err(*final(self), *old(device), *final(device), e),
            },
        decreases alloc_measure(block_size, 0),
    {
        proof {
            lemma_nb_bound(block_size);
        }
        let min_chunk_size = (MIN_BLOCKS_PER_CHUNK as u64) * block_size;
        let max_chunk_size = (MAX_BLOCKS_PER_CHUNK as u64) * block_size;
        let clamped_count = if requested_count >= 64 {
            64
        } else {
            let p = next_power_of_two_u64(requested_count as u64);
            let p = if p < 8 {
                8
            } else {
                p
            };
            (if p > 64 {
                64
            } else {
                p
            }) as u32
        };
        proof {
            assert(clamped_count as int * block_size as int >= 8 * block_size && clamped_count as int
                * block_size as int <= 64 * block_size) by (nonlinear_arith)
                requires
                    8 <= clamped_count <= 64,
                    block_size >= 1,
            ;
        }
        let requested_chunk_size = (clamped_count as u64) * block_size;
        if min_chunk_size > self.max_chunk_size {
            let chunk = match self.alloc_chunk_from_device(device, block_size, clamped_count) {
                Ok(chunk) => chunk,
                Err(e) => {
                    return Err(e);
                },
            };
            return Ok((chunk, requested_chunk_size));
        }
        let found = self.chunks.find_rev_multiple(min_chunk_size, max_chunk_size, block_size);
        match found {
            Some(chunk_size) => {
                proof {
                    lemma_measure_step_up(block_size, chunk_size);
                }
                let r = self.alloc_from_entry(device, chunk_size, 1, block_size);
                proof {
                    assert forall|k: Size|
                        (k as int) < 2 * block_size && k != 0 implies #[trigger] key_untouched(
                        *old(self),
                        *self,
                        k,
                    ) by {
                        assert(key_untouched(*old(self), *self, k));
                    }
                }
                let (block, allocated) = match r {
                    Ok(pair) => pair,
                    Err(e) => {
                        return Err(e);
                    },
                };
                proof {
                    lemma_block_count_at_least(block.spec_size() as u64, block_size, 8);
                }
                Ok((Chunk::from_block(block_size, block), allocated))
            },
            None => {
                if requested_chunk_size > self.min_device_allocation {
                    let chunk = match self.alloc_chunk_from_device(
                        device,
                        block_size,
                        clamped_count,
                    ) {
                        Ok(chunk) => chunk,
                        Err(e) => {
                            return Err(e);
                        },
                    };
                    Ok((chunk, requested_chunk_size))
                } else {
                    proof {
                        lemma_measure_step_up(block_size, requested_chunk_size);
                        broadcast use vstd::arithmetic::mul::lemma_mul_is_commutative;

                        vstd::arithmetic::div_mod::lemma_mod_multiples_basic(
                            clamped_count as int,
                            block_size as int,
                        );
                    }
                    let r = self.alloc_block(device, requested_chunk_size, block_size);
                    proof {
                        assert((2 * requested_chunk_size as int) / 8 >= 2 * block_size)
                            by (nonlinear_arith)
                            requires
                                requested_chunk_size >= 8 * block_size,
                                block_size >= 1,
                        ;
                        assert forall|k: Size|
                            (k as int) < 2 * block_size && k != 0 implies #[trigger] key_untouched(
                            *old(self),
                            *self,
                            k,
                        ) by {
                            assert(key_untouched(*old(self), *self, k));
                        }
                    }
                    let (block, allocated) = match r {
                        Ok(pair) => pair,
                        Err(e) => {
                            return Err(e);
                        },
                    };
                    proof {
                        // the backing block's entry size exceeds this chunk's
                        // block size: four entry sizes cover the request less
                        // three, and the request is at least eight blocks
                        assert(block.spec_entry_size() > block_size);
                        lemma_block_count_at_least(block.spec_size() as u64, block_size, 8);
                    }
                    Ok((Chunk::from_block(block_size, block), allocated))
                }
            },
        }
    }

    /// Allocate one logical block of `block_size` bytes. Rare large sizes
    /// are carved as consecutive sub-blocks out of a coarser entry, so that
    /// one chunk amortises across many unrelated sizes.
    fn alloc_block(&mut self, device: &mut Device, block_size: Size, align: Size) -> (r: Result<
        (GeneralBlock, Size),
        AllocationError,
    >)
        requires
            old(self).wf(),
            old(device).wf(),
            align >= 1,
            block_size as int % align as int == 0,
            1 <= block_size <= MAX_BLOCK_SIZE,
        ensures
            final(self).wf(),
            final(device).wf(),
            same_config(*old(self), *final(self)),
            sizes_untouched_below(
                *old(self),
                *final(self),
                (2 * block_size as int) / 8,
                block_size,
            ),
            final(device).spec_handles() >= old(device).spec_handles(),
            match r {
                Ok((block, allocated)) => {
                    &&& alloc_ok(
                        *old(self),
                        *final(self),
                        *old(device),
                        *final(device),
                        block,
                        allocated,
                        align,
                    )
                    &&& block.spec_size() >= block_size
                    &&& 4 * block.spec_entry_size() + 3 >= block_size
                    &&& (block_size < LARGE_BLOCK_THRESHOLD ==> (block.spec_entry_size()
                        == block_size && block.spec_count() == 1 && block.spec_size()
                        == block_size))
                },
                Err(e) => alloc_err(*final(self), *old(device), *final(device), e),
            },
        decreases alloc_measure(block_size, 8),
    {
        proof {
            lemma_nb_bound(block_size);
        }
        let mut entry = self.take_entry(block_size);
        let ghost taken_state = *self;
        if entry.total_blocks < 0xffff_ffff_ffff_ffff {
            entry.total_blocks = entry.total_blocks + 1;
        }
        let total_blocks = entry.total_blocks;
        self.put_entry(block_size, entry);
        let ghost counted_state = *self;
        proof {
            vstd::arithmetic::div_mod::lemma_div_nonincreasing(7, total_blocks as int);
            vstd::arithmetic::div_mod::lemma_div_pos_is_pos(7, total_blocks as int);
        }
        let overhead = ((MIN_BLOCKS_PER_CHUNK as u64) - 1) / total_blocks;
        if overhead >= 1 && block_size >= LARGE_BLOCK_THRESHOLD {
            proof {
                if align > block_size {
                    vstd::arithmetic::div_mod::lemma_small_mod(block_size as nat, align as nat);
                }
            }
            let ideal_chunk_size = crate::align_size(
                block_size * 2 / (MIN_BLOCKS_PER_CHUNK as u64),
                align,
            );
            proof {
                crate::lemma_round_up_below_multiple(
                    (block_size as int * 2 / (MIN_BLOCKS_PER_CHUNK as int)) as u64,
                    align,
                    block_size,
                );
                assert(overhead as int * block_size as int <= 7 * block_size
                    && overhead as int * block_size as int >= block_size) by (nonlinear_arith)
                    requires
                        1 <= overhead <= 7,
                        block_size >= 1,
                ;
            }
            let overhead_cap = block_size * overhead;
            let chunk_size = match self.chunks.find_fwd_multiple(
                ideal_chunk_size,
                overhead_cap,
                align,
            ) {
                Some(size) => size,
                None => {
                    self.note_chunk_size(ideal_chunk_size);
                    ideal_chunk_size
                },
            };
            let count_u64 = (block_size - 1) / chunk_size + 1;
            proof {
                lemma_carve_count(block_size, chunk_size);
                lemma_measure_step_down(block_size, chunk_size);
            }
            let count = count_u64 as u32;
            let ghost pre_rec = *self;
            let r = self.alloc_from_entry(device, chunk_size, count, align);
            proof {
                lemma_two_eighths(block_size);
                assert forall|k: Size|
                    (k as int) < (2 * block_size as int) / 8 && k != block_size implies #[trigger] key_untouched(
                    *old(self),
                    *self,
                    k,
                ) by {
                    assert(key_untouched(*old(self), taken_state, k));
                    assert(key_untouched(taken_state, counted_state, k));
                    assert(key_untouched(counted_state, pre_rec, k));
                    if k == 0 {
                        lemma_zero_key_untouched(pre_rec, *self);
                    } else {
                        assert(key_untouched(pre_rec, *self, k));
                    }
                }
                if r is Ok {
                    let block = r->Ok_0.0;
                    vstd::arithmetic::div_mod::lemma_fundamental_div_mod(
                        block_size - 1,
                        chunk_size as int,
                    );
                    vstd::arithmetic::div_mod::lemma_mod_division_less_than_divisor(
                        block_size - 1,
                        chunk_size as int,
                    );
                    assert(count as int * chunk_size as int >= block_size) by (nonlinear_arith)
                        requires
                            count as int == (block_size - 1) as int / chunk_size as int + 1,
                            block_size - 1 == chunk_size as int * ((block_size - 1) as int
                                / chunk_size as int) + (block_size - 1) as int % chunk_size as int,
                            (block_size - 1) as int % chunk_size as int >= 0,
                            chunk_size >= 1,
                    ;
                    lemma_two_eighths(block_size);
                    assert(4 * block.spec_entry_size() + 3 >= block_size);
                }
            }
            r
        } else {
            self.note_chunk_size(block_size);
            let ghost pre_rec = *self;
            let r = self.alloc_from_entry(device, block_size, 1, align);
            proof {
                assert forall|k: Size|
                    (k as int) < (2 * block_size as int) / 8 && k != block_size implies #[trigger] key_untouched(
                    *old(self),
                    *self,
                    k,
                ) by {
                    assert(key_untouched(*old(self), taken_state, k));
                    assert(key_untouched(taken_state, counted_state, k));
                    assert(key_untouched(counted_state, pre_rec, k));
                    assert(key_untouched(pre_rec, *self, k));
                }
            }
            r
        }
    }
}

/// A block of at least `factor` blocks holds at least `factor` of them.
proof fn lemma_block_count_at_least(len: u64, block_size: Size, factor: u64)
    requires
        1 <= block_size,
        1 <= factor <= 64,
        len >= factor * block_size,
    ensures
        (if len as int / block_size as int > 64 {
            64int
        } else {
            len as int / block_size as int
        }) >= factor,
{
    broadcast use vstd::arithmetic::mul::lemma_mul_is_commutative;

    vstd::arithmetic::div_mod::lemma_div_is_ordered(
        (factor * block_size) as int,
        len as int,
        block_size as int,
    );
    vstd::arithmetic::div_mod::lemma_div_multiples_vanish(factor as int, block_size as int);
}


/// Termination measure of the free recursion: every cascade step frees into
/// a strictly coarser entry.
pub open spec fn free_measure(block_size: Size, tier: int) -> int {
    3 * (MAX_BLOCK_SIZE + 1 - block_size as int) + tier
}

/// Measure of freeing one block, over its entry size.
pub open spec fn free_block_measure(block: GeneralBlock, tier: int) -> int {
    let entry_size = block.spec_entry_size();
    if 1 <= entry_size <= MAX_BLOCK_SIZE {
        3 * (MAX_BLOCK_SIZE + 1 - entry_size) + tier
    } else {
        tier
    }
}

/// The block denotes `count` currently handed-out blocks of a live chunk of
/// this allocator: the free path will accept and release it. A foreign
/// block, or a second free of the same blocks, fails one of these tests.
pub open spec fn spec_block_live(state: GeneralAllocator, block: GeneralBlock) -> bool {
    let bs = block.spec_entry_size();
    let ci = block.spec_chunk_index() as int;
    let entry = state.spec_sizes().entry_at(bs as Size);
    let chunk = entry.chunks.chunk_at(ci);
    &&& block.spec_range().start < block.spec_range().end
    &&& 1 <= block.spec_count() < 64
    &&& 1 <= bs <= MAX_BLOCK_SIZE
    &&& state.spec_sizes().contains_key(bs as Size)
    &&& entry.chunks.occupied(ci)
    &&& block.spec_block_index() + block.spec_count() <= 64
    &&& block.spec_block_index() + block.spec_count() <= chunk.spec_block_count(bs as Size)
    &&& chunk.spec_blocks() & run_mask(block.spec_block_index(), block.spec_count()) == 0
}

/// Two entries carry the same bookkeeping: the lifetime counter, the ready
/// summary and the chunk slots.
pub open spec fn entry_equiv(a: SizeEntry, b: SizeEntry) -> bool {
    &&& a.total_blocks == b.total_blocks
    &&& a.ready_chunks.spec_mask() == b.ready_chunks.spec_mask()
    &&& a.chunks.view_seq() =~= b.chunks.view_seq()
}

/// A free that found nothing to release leaves every entry's contents as
/// they were (the entry it looked into may be re-filed with equal
/// contents).
pub open spec fn spec_free_ignored(
    pre: GeneralAllocator,
    post: GeneralAllocator,
    block: GeneralBlock,
) -> bool {
    let bs = block.spec_entry_size() as Size;
    &&& sizes_same_except(pre, post, bs)
    &&& post.spec_sizes().contains_key(bs) == pre.spec_sizes().contains_key(bs)
    &&& (pre.spec_sizes().contains_key(bs) ==> entry_equiv(
        post.spec_sizes().entry_at(bs),
        pre.spec_sizes().entry_at(bs),
    ))
}

/// What freeing a live block does: the run returns to its chunk's free
/// mask; a chunk that thereby becomes fully free is removed from its slot
/// and its ready bit, and its backing is released (directly to the device
/// for a dedicated chunk, recursively into the coarser entry it was carved
/// from otherwise).
pub open spec fn spec_free_outcome(
    pre: GeneralAllocator,
    post: GeneralAllocator,
    dev_pre: Device,
    dev_post: Device,
    block: GeneralBlock,
    freed: Size,
) -> bool {
    let bs = block.spec_entry_size() as Size;
    let ci = block.spec_chunk_index() as int;
    let entry0 = pre.spec_sizes().entry_at(bs);
    let chunk0 = entry0.chunks.chunk_at(ci);
    let released = chunk0.spec_blocks() | run_mask(block.spec_block_index(), block.spec_count());
    let entry1 = post.spec_sizes().entry_at(bs);
    &&& post.spec_sizes().contains_key(bs)
    &&& entry1.total_blocks == entry0.total_blocks
    &&& if released == chunk0.spec_full_mask(bs) {
        &&& entry1.chunks.view_seq() =~= entry0.chunks.view_seq().update(ci, None)
        &&& entry1.ready_chunks.spec_mask() == entry0.ready_chunks.spec_mask() & !(1u64 << (
        block.spec_chunk_index() as u64))
        &&& (chunk0.spec_flavor() matches ChunkFlavor::Dedicated(m) ==> (freed == m.spec_size()
            && !dev_post.contains_raw(m.spec_raw()) && sizes_same_except(pre, post, bs)))
    } else {
        &&& entry1.chunks.occupied(ci)
        &&& entry1.chunks.chunk_at(ci).spec_blocks() == released
        &&& entry1.chunks.chunk_at(ci).spec_flavor() == chunk0.spec_flavor()
        &&& (forall|j: int|
            j != ci ==> #[trigger] entry1.chunks.occupied(j) == entry0.chunks.occupied(j))
        &&& (forall|j: int|
            j != ci && entry0.chunks.occupied(j) ==> #[trigger] entry1.chunks.chunk_at(j)
                == entry0.chunks.chunk_at(j))
        &&& entry1.ready_chunks.spec_mask() == entry0.ready_chunks.spec_mask() | (1u64 << (
        block.spec_chunk_index() as u64))
        &&& freed == 0
        &&& dev_post == dev_pre
        &&& sizes_same_except(pre, post, bs)
    }
}

impl GeneralAllocator {
    /// Allocate a block of at least `size` bytes at alignment `align`. The
    /// request is rounded up to the alignment, the granularity and the
    /// significance bucket, then served from the entry of that size.
    /// Returns the block and the device bytes consumed.
    pub fn allocate(&mut self, device: &mut Device, size: Size, align: Size) -> (r: Result<
        (GeneralBlock, Size),
        AllocationError,
    >)
        requires
            old(self).wf(),
            old(device).wf(),
            1 <= size <= MAX_REQUEST_SIZE,
            is_power_of_two(align),
            align <= MAX_REQUEST_SIZE,
        ensures
            final(self).wf(),
            final(device).wf(),
            same_config(*old(self), *final(self)),
            final(device).spec_handles() >= old(device).spec_handles(),
            match r {
                Ok((block, allocated)) => {
                    &&& block.wf()
                    &&& block.spec_size() >= spec_aligned_size(
                        size,
                        align,
                        old(self).spec_granularity(),
                        old(self).spec_significant_size_bits(),
                    ) >= size
                    &&& block.spec_range().start as int % align as int == 0
                    &&& block.spec_size() == block.spec_count() * block.spec_entry_size()
                    &&& (spec_aligned_size(
                        size,
                        align,
                        old(self).spec_granularity(),
                        old(self).spec_significant_size_bits(),
                    ) < LARGE_BLOCK_THRESHOLD ==> (block.spec_entry_size() == spec_aligned_size(
                        size,
                        align,
                        old(self).spec_granularity(),
                        old(self).spec_significant_size_bits(),
                    ) && block.spec_count() == 1 && block.spec_size() == block.spec_entry_size()))
                    &&& (allocated == 0 ==> final(device).live_view() == old(device).live_view())
                    &&& (allocated > 0 ==> (final(device).live_view().len() == old(
                        device,
                    ).live_view().len() + 1 && final(device).live_view().drop_last() =~= old(
                        device,
                    ).live_view() && final(device).live_view().last().size == allocated))
                },
                Err(e) => alloc_err(*final(self), *old(device), *final(device), e),
            },
    {
        proof {
            lemma_aligned_size_properties(
                size,
                align,
                self.block_size_granularity,
                self.significant_size_bits,
            );
            assert(self.spec_granularity() >= 1);
        }
        let mask = round_mask(size, self.significant_size_bits);
        let aligned_size = ((size - 1) | (align - 1) | (self.block_size_granularity - 1) | mask)
            + 1;
        let r = self.alloc_block(device, aligned_size, align);
        match r {
            Ok((block, allocated)) => Ok((block, allocated)),
            Err(e) => Err(e),
        }
    }

    /// Free a block: clear its bits in its chunk, and when the chunk ends up
    /// fully free, remove it and release its backing (to the device, or
    /// recursively into the coarser entry it was carved from). Returns the
    /// device bytes freed. A block that does not match a live chunk is
    /// ignored: freeing it twice is detected and does nothing.
    pub fn free(&mut self, device: &mut Device, block: GeneralBlock) -> (freed: Size)
        requires
            old(self).wf(),
            old(device).wf(),
        ensures
            final(self).wf(),
            final(device).wf(),
            same_config(*old(self), *final(self)),
            final(self).spec_chunk_sizes() == old(self).spec_chunk_sizes(),
            final(device).spec_handles() == old(device).spec_handles(),
            old(device).live_view().len() - 1 <= final(device).live_view().len() <= old(
                device,
            ).live_view().len(),
            sizes_untouched_below(*old(self), *final(self), block.spec_entry_size(), 0),
            !spec_block_live(*old(self), block) ==> (freed == 0 && *final(device) == *old(device)
                && spec_free_ignored(*old(self), *final(self), block)),
            spec_block_live(*old(self), block) ==> spec_free_outcome(
                *old(self),
                *final(self),
                *old(device),
                *final(device),
                block,
                freed,
            ),
        decreases free_block_measure(block, 2),
    {
        self.free_block(device, block)
    }

    /// The free path of one block.
    fn free_block(&mut self, device: &mut Device, block: GeneralBlock) -> (freed: Size)
        requires
            old(self).wf(),
            old(device).wf(),
        ensures
            final(self).wf(),
            final(device).wf(),
            same_config(*old(self), *final(self)),
            final(self).spec_chunk_sizes() == old(self).spec_chunk_sizes(),
            final(device).spec_handles() == old(device).spec_handles(),
            old(device).live_view().len() - 1 <= final(device).live_view().len() <= old(
                device,
            ).live_view().len(),
            sizes_untouched_below(*old(self), *final(self), block.spec_entry_size(), 0),
            !spec_block_live(*old(self), block) ==> (freed == 0 && *final(device) == *old(device)
                && spec_free_ignored(*old(self), *final(self), block)),
            spec_block_live(*old(self), block) ==> spec_free_outcome(
                *old(self),
                *final(self),
                *old(device),
                *final(device),
                block,
                freed,
            ),
        decreases free_block_measure(block, 1),
    {
        let range = block.range();
        if range.end <= range.start {
            proof {
                lemma_free_noop(*old(self), block);
            }
            return 0;
        }
        let count = block.count();
        if count == 0 || count >= 64 {
            proof {
                lemma_free_noop(*old(self), block);
            }
            return 0;
        }
        let size = block.size();
        let block_size = size / (count as u64);
        if block_size < 1 || block_size > MAX_BLOCK_SIZE {
            proof {
                lemma_free_noop(*old(self), block);
            }
            return 0;
        }
        if !self.sizes.contains(block_size) {
            // No entry of this size: not a block of this allocator.
            proof {
                lemma_free_noop(*old(self), block);
            }
            return 0;
        }
        let mut entry = self.take_entry(block_size);
        let ghost taken_state = *self;
        let ghost entry0 = entry;
        let chunk_index = block.chunk_index();
        if chunk_index >= 64 || !entry.chunks.is_occupied(chunk_index as usize) {
            self.put_entry(block_size, entry);
            proof {
                lemma_free_ignored_refile(*old(self), taken_state, *self, block, block_size);
            }
            return 0;
        }
        let mut chunk = entry.chunks.take(chunk_index as usize);
        let block_index = block.block_index();
        if block_index >= 64 || block_index + count > 64 {
            entry.chunks.put(chunk_index as usize, chunk);
            self.put_entry(block_size, entry);
            proof {
                lemma_free_ignored_refile(*old(self), taken_state, *self, block, block_size);
            }
            return 0;
        }
        let block_count = chunk.block_count(block_size);
        if (block_index + count) as u64 > block_count {
            entry.chunks.put(chunk_index as usize, chunk);
            self.put_entry(block_size, entry);
            proof {
                lemma_free_ignored_refile(*old(self), taken_state, *self, block, block_size);
            }
            return 0;
        }
        if !chunk.run_is_acquired(block_index, count) {
            // Some of the bits are already free: a double free. Detected and
            // ignored.
            entry.chunks.put(chunk_index as usize, chunk);
            self.put_entry(block_size, entry);
            proof {
                lemma_free_ignored_refile(*old(self), taken_state, *self, block, block_size);
            }
            return 0;
        }
        chunk.release_blocks(block_index, count);
        proof {
            let full = chunk.spec_full_mask(block_size);
            let m0 = old(self).spec_sizes().entry_at(block_size).chunks.chunk_at(
                chunk_index as int,
            ).spec_blocks();
            crate::bitmask::lemma_run_within(
                block_index,
                count,
                chunk.spec_block_count(block_size) as u32,
            );
            assert((m0 & !full == 0 && run_mask(block_index, count) & !full == 0) ==> (m0
                | run_mask(block_index, count)) & !full == 0) by (bit_vector);
        }
        if chunk.is_unused(block_size) {
            entry.ready_chunks.remove(chunk_index);
            self.put_entry(block_size, entry);
            let ghost removed_state = *self;
            let freed = self.free_chunk(device, chunk, block_size);
            proof {
                assert(key_untouched(removed_state, *self, block_size));
                assert forall|k: Size|
                    (k as int) < block.spec_entry_size() && k != 0 implies #[trigger] key_untouched(
                    *old(self),
                    *self,
                    k,
                ) by {
                    assert(key_untouched(*old(self), taken_state, k));
                    assert(key_untouched(taken_state, removed_state, k));
                    assert(key_untouched(removed_state, *self, k));
                }
                if old(self).spec_sizes().entry_at(block_size).chunks.chunk_at(
                    chunk_index as int,
                ).spec_flavor() is Dedicated {
                    // the cascade ended at the device: nothing else moved
                    assert(*self == removed_state);
                    assert forall|k: Size|
                        k != block_size implies #[trigger] key_untouched(*old(self), *self, k) by {
                        assert(key_untouched(*old(self), taken_state, k));
                        assert(key_untouched(taken_state, removed_state, k));
                    }
                }
            }
            freed
        } else {
            entry.ready_chunks.add(chunk_index);
            entry.chunks.put(chunk_index as usize, chunk);
            self.put_entry(block_size, entry);
            proof {
                assert forall|k: Size|
                    k != block_size implies #[trigger] key_untouched(*old(self), *self, k) by {
                    assert(key_untouched(*old(self), taken_state, k));
                    assert(key_untouched(taken_state, *self, k));
                }
                assert(sizes_untouched_below(
                    *old(self),
                    *self,
                    block.spec_entry_size(),
                    0,
                ));
            }
            0
        }
    }

    /// Release a fully free chunk: give dedicated backing to the device,
    /// free carved backing into its coarser entry.
    fn free_chunk(&mut self, device: &mut Device, chunk: Chunk, block_size: Size) -> (freed: Size)
        requires
            old(self).wf(),
            old(device).wf(),
            chunk.wf(block_size),
        ensures
            final(self).wf(),
            final(device).wf(),
            same_config(*old(self), *final(self)),
            final(self).spec_chunk_sizes() == old(self).spec_chunk_sizes(),
            final(device).spec_handles() == old(device).spec_handles(),
            old(device).live_view().len() - 1 <= final(device).live_view().len() <= old(
                device,
            ).live_view().len(),
            sizes_untouched_below(*old(self), *final(self), block_size as int + 1, 0),
            chunk.spec_flavor() matches ChunkFlavor::Dedicated(m) ==> (freed == m.spec_size()
                && !final(device).contains_raw(m.spec_raw()) && *final(self) == *old(self)),
        decreases free_measure(block_size, 0),
    {
        match chunk.into_flavor() {
            ChunkFlavor::Dedicated(memory) => {
                let size = memory.size();
                device.free_memory(memory);
                size
            },
            ChunkFlavor::General(backing) => {
                let freed = self.free(device, backing);
                proof {
                    // the backing lives in a strictly coarser entry, so
                    // nothing at or below this chunk's block size moved
                    assert forall|k: Size|
                        (k as int) < block_size as int + 1 && k != 0 implies #[trigger] key_untouched(
                        *old(self),
                        *self,
                        k,
                    ) by {
                        assert(key_untouched(*old(self), *self, k));
                    }
                }
                freed
            },
        }
    }

    /// Free the contents of the allocator. Entries and their histories stay;
    /// nothing is returned to the device here, because every chunk goes back
    /// the moment its last block is freed.
    pub fn clear(&mut self, _device: &mut Device) -> (r: Size)
        ensures
            r == 0,
            *final(self) == *old(self),
            *final(_device) == *old(_device),
    {
        0
    }

    /// Whether any size entry still holds a chunk: the teardown check in
    /// place of a panicking destructor. A fully drained allocator reports
    /// false.
    pub fn has_live_chunks(&self) -> (r: bool)
        requires
            self.wf(),
        ensures
            r == exists|k: Size, j: int|
                #![trigger self.spec_sizes().entry_at(k).chunks.occupied(j)]
                self.spec_sizes().contains_key(k) && self.spec_sizes().entry_at(
                    k,
                ).chunks.occupied(j),
    {
        let n = self.sizes.len();
        let mut i: usize = 0;
        while i < n
            invariant
                self.wf(),
                i <= n,
                n == self.spec_sizes().view_seq().len(),
                forall|t: int, j: int|
                    #![trigger self.spec_sizes().entry_at(self.spec_sizes().view_seq()[t].0).chunks.occupied(j)]
                    0 <= t < i ==> !self.spec_sizes().entry_at(
                        self.spec_sizes().view_seq()[t].0,
                    ).chunks.occupied(j),
            decreases n - i,
        {
            let entry = self.sizes.entry_ref_at(i);
            if !entry.chunks.is_empty() {
                proof {
                    let k = self.spec_sizes().view_seq()[i as int].0;
                    assert(exists|j: int| entry.chunks.occupied(j)) by {
                        assert(!(forall|j: int| !entry.chunks.occupied(j)));
                    }
                    let j = choose|j: int| entry.chunks.occupied(j);
                    assert(self.spec_sizes().contains_key(k) && self.spec_sizes().entry_at(
                        k,
                    ).chunks.occupied(j));
                }
                return true;
            }
            i = i + 1;
        }
        proof {
            if exists|k: Size, j: int|
                #![trigger self.spec_sizes().entry_at(k).chunks.occupied(j)]
                self.spec_sizes().contains_key(k) && self.spec_sizes().entry_at(
                    k,
                ).chunks.occupied(j) {
                let (k, j) = choose|k: Size, j: int|
                    #![trigger self.spec_sizes().entry_at(k).chunks.occupied(j)]
                    self.spec_sizes().contains_key(k) && self.spec_sizes().entry_at(
                        k,
                    ).chunks.occupied(j);
                let t = self.spec_sizes().index_of(k);
                assert(self.spec_sizes().view_seq()[t].0 == k);
                assert(!self.spec_sizes().entry_at(
                    self.spec_sizes().view_seq()[t].0,
                ).chunks.occupied(j));
            }
        }
        false
    }

    /// How many block sizes have an entry.
    pub fn size_entry_count(&self) -> (r: usize)
        ensures
            r == self.spec_sizes().view_seq().len(),
    {
        self.sizes.len()
    }
}

/// An entry taken out and re-filed with equal contents leaves a
/// free-ignored outcome.
proof fn lemma_free_ignored_refile(
    pre: GeneralAllocator,
    taken: GeneralAllocator,
    post: GeneralAllocator,
    block: GeneralBlock,
    block_size: Size,
)
    requires
        block_size == block.spec_entry_size(),
        pre.spec_sizes().contains_key(block_size),
        sizes_same_except(pre, taken, block_size),
        sizes_same_except(taken, post, block_size),
        post.spec_sizes().contains_key(block_size),
        entry_equiv(post.spec_sizes().entry_at(block_size), pre.spec_sizes().entry_at(block_size)),
    ensures
        spec_free_ignored(pre, post, block),
        sizes_untouched_below(pre, post, block.spec_entry_size(), 0),
{
    assert forall|k: Size| k != block_size implies #[trigger] key_untouched(pre, post, k) by {
        assert(key_untouched(pre, taken, k));
        assert(key_untouched(taken, post, k));
    }
}

/// A state is its own free-ignored outcome: nothing moved.
proof fn lemma_free_noop(a: GeneralAllocator, block: GeneralBlock)
    ensures
        sizes_untouched_below(a, a, block.spec_entry_size(), 0),
        spec_free_ignored(a, a, block),
        forall|k: Size| #[trigger] key_untouched(a, a, k),
{
    assert forall|k: Size| #[trigger] key_untouched(a, a, k) by {}
    let bs = block.spec_entry_size() as Size;
    if a.spec_sizes().contains_key(bs) {
        assert(a.spec_sizes().entry_at(bs).chunks.view_seq() =~= a.spec_sizes().entry_at(
            bs,
        ).chunks.view_seq());
    }
}

/// A quarter, written as two eighths the way the code computes it.
proof fn lemma_two_eighths(n: Size)
    ensures
        (2 * n as int) / 8 == n as int / 4,
{
    broadcast use vstd::arithmetic::mul::lemma_mul_is_commutative;

    vstd::arithmetic::div_mod::lemma_div_denominator(2 * n as int, 2, 4);
    vstd::arithmetic::div_mod::lemma_div_multiples_vanish(n as int, 2);
}

/// Stepping to a chunk size at least eight times larger strictly shrinks
/// the measure across one entry/chunk cycle.
proof fn lemma_measure_step_up(block_size: Size, bigger: Size)
    requires
        1 <= block_size,
        bigger >= 8 * block_size,
        bigger <= u64::MAX,
    ensures
        alloc_measure(bigger, 8) < alloc_measure(block_size, 0),
        alloc_measure(bigger, 1) < alloc_measure(block_size, 0),
        nb(bigger) <= 64,
{
    lemma_nb_bound(bigger);
    lemma_nb_times8(block_size);
    lemma_nb_monotone((8 * block_size) as u64, bigger);
}

/// Carving a large block out of an entry whose size is at least a quarter
/// of it still shrinks the measure.
proof fn lemma_measure_step_down(block_size: Size, chunk_size: Size)
    requires
        block_size >= 0x10000,
        chunk_size >= (2 * block_size as int) / 8,
        chunk_size <= u64::MAX,
    ensures
        alloc_measure(chunk_size, 1) < alloc_measure(block_size, 8),
        nb(chunk_size) <= 64,
{
    lemma_nb_bound(chunk_size);
    lemma_nb_quarter(block_size);
    lemma_two_eighths(block_size);
    lemma_nb_monotone(block_size / 4, chunk_size);
}

/// The carve count of a large block is between one and seven.
proof fn lemma_carve_count(block_size: Size, chunk_size: Size)
    requires
        block_size >= 0x10000,
        chunk_size >= (2 * block_size as int) / 8,
        chunk_size >= 1,
    ensures
        1 <= (block_size - 1) as int / chunk_size as int + 1 < 8,
{
    let q = (block_size - 1) as int / chunk_size as int;
    vstd::arithmetic::div_mod::lemma_fundamental_div_mod(block_size - 1, chunk_size as int);
    vstd::arithmetic::div_mod::lemma_mod_division_less_than_divisor(
        block_size - 1,
        chunk_size as int,
    );
    vstd::arithmetic::div_mod::lemma_div_pos_is_pos(block_size - 1, chunk_size as int);
    lemma_two_eighths(block_size);
    assert(q < 7) by (nonlinear_arith)
        requires
            block_size - 1 == chunk_size as int * q + (block_size - 1) as int % chunk_size as int,
            (block_size - 1) as int % chunk_size as int >= 0,
            chunk_size as int >= block_size as int / 4,
            block_size as int / 4 * 4 > block_size - 4,
            block_size >= 0x10000,
            q >= 0,
    ;
}

} // verus!
