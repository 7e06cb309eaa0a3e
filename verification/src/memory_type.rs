//! One memory type's allocators: the dedicated allocator always, and the
//! linear and general allocators when configured. Routes each request by
//! usage fitness and capability.

use vstd::prelude::*;

use crate::chunk::GeneralBlock;
use crate::dedicated::{DedicatedAllocator, DedicatedBlock};
use crate::device::{AllocationError, Device, OutOfMemory};
use crate::general::{
    slab_full, spec_block_live, spec_free_ignored, spec_free_outcome, GeneralAllocator,
    GeneralConfig,
};
use crate::linear::{LinearAllocator, LinearBlock, LinearConfig};
use crate::memory::{Memory, Properties};
use crate::stats::{MemoryTypeUtilization, MemoryUtilization};
use crate::usage::{Kind, MemoryUsage};
use crate::{is_power_of_two, ByteRange, Size, MAX_REQUEST_SIZE};

verus! {

/// Per memory type configuration: which pooled allocators exist.
#[derive(Clone, Copy, Debug)]
pub struct HeapsConfig {
    /// Configuration of the linear allocator, when enabled.
    pub linear: Option<LinearConfig>,
    /// Configuration of the general allocator, when enabled.
    pub general: Option<GeneralConfig>,
}

/// The configured sizes are sane: positive, bounded, powers of two where the
/// allocators demand it.
pub open spec fn config_wf(config: HeapsConfig) -> bool {
    &&& (config.linear matches Some(l) ==> 1 <= l.line_size <= MAX_REQUEST_SIZE)
    &&& (config.general matches Some(g) ==> {
        &&& is_power_of_two(g.block_size_granularity)
        &&& g.block_size_granularity <= MAX_REQUEST_SIZE
        &&& is_power_of_two(g.min_device_allocation)
        &&& g.min_device_allocation <= MAX_REQUEST_SIZE
        &&& g.max_chunk_size_as_heap_total_fraction >= 1
        &&& g.significant_size_bits <= 3
    })
}

/// A block from any of the three allocators, as one handle type.
#[derive(Debug)]
pub enum BlockFlavor {
    /// From the dedicated allocator.
    Dedicated(DedicatedBlock),
    /// From the general allocator.
    General(GeneralBlock),
    /// From the linear allocator.
    Linear(LinearBlock),
}

impl BlockFlavor {
    /// The block's byte range within its raw memory object.
    pub open spec fn spec_range(self) -> ByteRange {
        match self {
            BlockFlavor::Dedicated(b) => b.spec_range(),
            BlockFlavor::General(b) => b.spec_range(),
            BlockFlavor::Linear(b) => b.spec_range(),
        }
    }

    /// The block's size in bytes.
    pub open spec fn spec_size(self) -> int {
        self.spec_range().spec_len()
    }

    /// The backing memory record.
    pub open spec fn spec_memory(self) -> Memory {
        match self {
            BlockFlavor::Dedicated(b) => b.spec_memory(),
            BlockFlavor::General(b) => b.spec_memory(),
            BlockFlavor::Linear(b) => b.spec_memory(),
        }
    }

    /// Which allocator kind the block came from.
    pub open spec fn spec_kind(self) -> Kind {
        match self {
            BlockFlavor::Dedicated(_) => Kind::Dedicated,
            BlockFlavor::General(_) => Kind::General,
            BlockFlavor::Linear(_) => Kind::Linear,
        }
    }

    /// Any flavor of block is well formed in its own allocator's sense.
    pub open spec fn wf(self) -> bool {
        match self {
            BlockFlavor::Dedicated(b) => b.wf(),
            BlockFlavor::General(b) => b.wf(),
            BlockFlavor::Linear(b) => b.wf(),
        }
    }

    /// The block's byte range within its raw memory object.
    pub fn range(&self) -> (r: ByteRange)
        ensures
            r == self.spec_range(),
    {
        match self {
            BlockFlavor::Dedicated(b) => b.range(),
            BlockFlavor::General(b) => b.range(),
            BlockFlavor::Linear(b) => b.range(),
        }
    }

    /// The backing memory record.
    pub fn memory(&self) -> (r: &Memory)
        ensures
            r == self.spec_memory(),
    {
        match self {
            BlockFlavor::Dedicated(b) => b.memory(),
            BlockFlavor::General(b) => b.memory(),
            BlockFlavor::Linear(b) => b.memory(),
        }
    }

    /// The block's size in bytes; zero for a malformed range.
    pub fn size_guarded(&self) -> (r: Size)
        ensures
            self.spec_range().wf() ==> r == self.spec_size(),
    {
        let range = self.range();
        if range.end >= range.start {
            range.end - range.start
        } else {
            0
        }
    }
}

/// The allocators of one memory type and its counters.
#[derive(Debug)]
pub struct MemoryType {
    heap_index: usize,
    properties: Properties,
    dedicated: DedicatedAllocator,
    general: Option<GeneralAllocator>,
    linear: Option<LinearAllocator>,
    used: Size,
    effective: Size,
}

impl MemoryType {
    /// Index of the heap this type allocates from.
    pub closed spec fn spec_heap_index(self) -> usize {
        self.heap_index
    }

    /// Property bits of the type.
    pub closed spec fn spec_properties(self) -> Properties {
        self.properties
    }

    /// The general allocator, when enabled.
    pub closed spec fn spec_general(self) -> Option<GeneralAllocator> {
        self.general
    }

    /// The linear allocator, when enabled.
    pub closed spec fn spec_linear(self) -> Option<LinearAllocator> {
        self.linear
    }

    /// Bytes taken from the device through this type.
    pub closed spec fn spec_used(self) -> Size {
        self.used
    }

    /// Bytes handed out to the user through this type.
    pub closed spec fn spec_effective(self) -> Size {
        self.effective
    }

    /// Every enabled allocator is well formed and belongs to this type.
    pub open spec fn wf(self) -> bool {
        &&& self.dedicated_wf()
        &&& (self.spec_general() matches Some(g) ==> g.wf())
        &&& (self.spec_linear() matches Some(l) ==> l.wf())
    }

    /// The dedicated allocator is well formed.
    pub closed spec fn dedicated_wf(self) -> bool {
        self.dedicated.wf()
    }

    /// Every line of the linear allocator came from a device allocation.
    pub open spec fn device_ok(self, device: Device) -> bool {
        self.spec_linear() matches Some(l) ==> l.spec_total_lines() <= device.spec_handles()
    }

    /// Whether this type has the allocator a block of this flavor belongs
    /// to.
    pub open spec fn spec_has_allocator_for(self, block: BlockFlavor) -> bool {
        match block {
            BlockFlavor::Dedicated(_) => true,
            BlockFlavor::General(_) => self.spec_general() is Some,
            BlockFlavor::Linear(_) => self.spec_linear() is Some,
        }
    }

    /// Which allocator serves a request: the pooled allocator that fits the
    /// request and scores best for the usage, else the dedicated one.
    pub open spec fn spec_route(self, usage: MemoryUsage, size: Size) -> Kind {
        let use_general = self.spec_general() matches Some(g) && g.spec_max_chunk_size() >= size;
        let use_linear = self.spec_linear() matches Some(l) && l.spec_line_size() / 2 >= size;
        if self.spec_general() is Some && self.spec_linear() is Some {
            if use_general && usage.spec_allocator_fitness(Kind::General)
                > usage.spec_allocator_fitness(Kind::Linear) {
                Kind::General
            } else if use_linear && usage.spec_allocator_fitness(Kind::Linear) > 0 {
                Kind::Linear
            } else {
                Kind::Dedicated
            }
        } else if self.spec_general() is Some {
            if use_general && usage.spec_allocator_fitness(Kind::General) > 0 {
                Kind::General
            } else {
                Kind::Dedicated
            }
        } else if self.spec_linear() is Some {
            if use_linear && usage.spec_allocator_fitness(Kind::Linear) > 0 {
                Kind::Linear
            } else {
                Kind::Dedicated
            }
        } else {
            Kind::Dedicated
        }
    }

    /// The general allocator (when routed to) can fail for want of chunk
    /// slots only with some bucket completely full.
    pub open spec fn spec_general_exhausted(self) -> bool {
        self.spec_general() matches Some(g) && exists|k: Size|
            #[trigger] g.spec_sizes().contains_key(k) && slab_full(g.spec_sizes().entry_at(k))
    }

    /// Create the allocators of one memory type.
    pub fn new(
        memory_type: u32,
        heap_index: usize,
        properties: Properties,
        config: HeapsConfig,
        non_coherent_atom_size: Size,
        total_heap_size: Size,
    ) -> (r: MemoryType)
        requires
            config_wf(config),
            is_power_of_two(non_coherent_atom_size),
            non_coherent_atom_size <= MAX_REQUEST_SIZE,
            1 <= total_heap_size <= MAX_REQUEST_SIZE,
        ensures
            r.wf(),
            r.spec_heap_index() == heap_index,
            r.spec_properties() == properties,
            r.spec_used() == 0,
            r.spec_effective() == 0,
            r.spec_linear() matches Some(l) ==> l.spec_total_lines() == 0,
    {
        MemoryType {
            properties,
            heap_index,
            dedicated: DedicatedAllocator::new(memory_type, properties, non_coherent_atom_size),
            linear: match config.linear {
                Some(config) => Some(
                    LinearAllocator::new(
                        memory_type,
                        properties,
                        &config,
                        non_coherent_atom_size,
                    ),
                ),
                None => None,
            },
            general: match config.general {
                Some(config) => Some(
                    GeneralAllocator::new(
                        memory_type,
                        properties,
                        config,
                        non_coherent_atom_size,
                        total_heap_size,
                    ),
                ),
                None => None,
            },
            used: 0,
            effective: 0,
        }
    }

    /// Property bits of the type.
    pub fn properties(&self) -> (r: Properties)
        ensures
            r == self.spec_properties(),
    {
        self.properties
    }

    /// Index of the heap this type allocates from.
    pub fn heap_index(&self) -> (r: usize)
        ensures
            r == self.spec_heap_index(),
    {
        self.heap_index
    }

    /// Allocate a block of this type, routing by usage fitness, and account
    /// for it. Returns the block and the device bytes consumed.
    pub fn allocate(&mut self, device: &mut Device, usage: MemoryUsage, size: Size, align: Size) -> (r:
        Result<(BlockFlavor, Size), AllocationError>)
        requires
            old(self).wf(),
            old(device).wf(),
            old(self).device_ok(*old(device)),
            1 <= size <= MAX_REQUEST_SIZE,
            is_power_of_two(align),
            align <= MAX_REQUEST_SIZE,
        ensures
            final(self).wf(),
            final(device).wf(),
            final(self).device_ok(*final(device)),
            final(self).spec_heap_index() == old(self).spec_heap_index(),
            final(self).spec_properties() == old(self).spec_properties(),
            final(device).spec_handles() >= old(device).spec_handles(),
            old(device).ready() && old(self).spec_route(usage, size) is Dedicated ==> r is Ok,
            final(self).spec_route(usage, size) == old(self).spec_route(usage, size),
            match r {
                Ok((block, allocated)) => {
                    &&& block.wf()
                    &&& block.spec_size() >= size
                    &&& block.spec_range().start as int % align as int == 0
                    &&& block.spec_memory().wf()
                    &&& block.spec_kind() == old(self).spec_route(usage, size)
                    &&& final(self).spec_used() == (if old(self).spec_used() + allocated
                        <= Size::MAX {
                        old(self).spec_used() + allocated
                    } else {
                        Size::MAX as int
                    })
                    &&& final(self).spec_effective() == (if old(self).spec_effective()
                        + block.spec_size() <= Size::MAX {
                        old(self).spec_effective() + block.spec_size()
                    } else {
                        Size::MAX as int
                    })
                },
                Err(e) => {
                    &&& final(self).spec_used() == old(self).spec_used()
                    &&& final(self).spec_effective() == old(self).spec_effective()
                    &&& (!old(device).ready() || e == AllocationError::TooManyObjects || e
                        == AllocationError::OutOfMemory(OutOfMemory::Host))
                    &&& (old(self).spec_route(usage, size) is General && old(device).ready()
                        ==> (e == AllocationError::OutOfMemory(OutOfMemory::Host)
                        && final(self).spec_general_exhausted()))
                    &&& final(device).spec_handles() == old(device).spec_handles()
                    &&& (old(device).spec_injected_error() is None
                        ==> final(device).spec_injected_error() is None)
                },
            },
    {
        let r = self.allocate_impl(device, usage, size, align);
        match r {
            Ok((block, allocated)) => {
                let block_size = block.size_guarded();
                self.effective = if self.effective <= Size::MAX - block_size {
                    self.effective + block_size
                } else {
                    Size::MAX
                };
                self.used = if self.used <= Size::MAX - allocated {
                    self.used + allocated
                } else {
                    Size::MAX
                };
                Ok((block, allocated))
            },
            Err(e) => Err(e),
        }
    }

    /// The routing itself: prefer the pooled allocator that fits the request
    /// and scores best for the usage, fall back to dedicated.
    fn allocate_impl(&mut self, device: &mut Device, usage: MemoryUsage, size: Size, align: Size) -> (r:
        Result<(BlockFlavor, Size), AllocationError>)
        requires
            old(self).wf(),
            old(device).wf(),
            old(self).device_ok(*old(device)),
            1 <= size <= MAX_REQUEST_SIZE,
            is_power_of_two(align),
            align <= MAX_REQUEST_SIZE,
        ensures
            final(self).wf(),
            final(device).wf(),
            final(self).device_ok(*final(device)),
            final(self).spec_heap_index() == old(self).spec_heap_index(),
            final(self).spec_properties() == old(self).spec_properties(),
            final(self).spec_used() == old(self).spec_used(),
            final(self).spec_effective() == old(self).spec_effective(),
            final(device).spec_handles() >= old(device).spec_handles(),
            old(device).ready() && old(self).spec_route(usage, size) is Dedicated ==> r is Ok,
            final(self).spec_route(usage, size) == old(self).spec_route(usage, size),
            match r {
                Ok((block, allocated)) => {
                    &&& block.wf()
                    &&& block.spec_size() >= size
                    &&& block.spec_range().start as int % align as int == 0
                    &&& block.spec_memory().wf()
                    &&& block.spec_kind() == old(self).spec_route(usage, size)
                },
                Err(e) => {
                    &&& (!old(device).ready() || e == AllocationError::TooManyObjects || e
                        == AllocationError::OutOfMemory(OutOfMemory::Host))
                    &&& (old(self).spec_route(usage, size) is General && old(device).ready()
                        ==> (e == AllocationError::OutOfMemory(OutOfMemory::Host)
                        && final(self).spec_general_exhausted()))
                    &&& final(device).spec_handles() == old(device).spec_handles()
                    &&& (old(device).spec_injected_error() is None
                        ==> final(device).spec_injected_error() is None)
                },
            },
    {
        proof {
            vstd::arithmetic::div_mod::lemma_small_mod(0nat, align as nat);
        }
        let use_general = match &self.general {
            Some(general) => general.max_allocation() >= size,
            None => false,
        };
        let use_linear = match &self.linear {
            Some(linear) => linear.max_allocation() >= size,
            None => false,
        };
        let has_general = self.general.is_some();
        let has_linear = self.linear.is_some();
        if has_general && has_linear {
            if use_general && usage.allocator_fitness(Kind::General) > usage.allocator_fitness(
                Kind::Linear,
            ) {
                self.allocate_general(device, usage, size, align)
            } else if use_linear && usage.allocator_fitness(Kind::Linear) > 0 {
                self.allocate_linear(device, usage, size, align)
            } else {
                self.allocate_dedicated(device, usage, size, align)
            }
        } else if has_general {
            if use_general && usage.allocator_fitness(Kind::General) > 0 {
                self.allocate_general(device, usage, size, align)
            } else {
                self.allocate_dedicated(device, usage, size, align)
            }
        } else if has_linear {
            if use_linear && usage.allocator_fitness(Kind::Linear) > 0 {
                self.allocate_linear(device, usage, size, align)
            } else {
                self.allocate_dedicated(device, usage, size, align)
            }
        } else {
            self.allocate_dedicated(device, usage, size, align)
        }
    }

    /// Route to the general allocator.
    fn allocate_general(&mut self, device: &mut Device, usage: MemoryUsage, size: Size, align: Size) -> (r: Result<
        (BlockFlavor, Size),
        AllocationError,
    >)
        requires
            old(self).wf(),
            old(device).wf(),
            old(self).device_ok(*old(device)),
            old(self).spec_general() is Some,
            1 <= size <= MAX_REQUEST_SIZE,
            is_power_of_two(align),
            align <= MAX_REQUEST_SIZE,
        ensures
            final(self).wf(),
            final(device).wf(),
            final(self).device_ok(*final(device)),
            final(self).spec_heap_index() == old(self).spec_heap_index(),
            final(self).spec_properties() == old(self).spec_properties(),
            final(self).spec_used() == old(self).spec_used(),
            final(self).spec_effective() == old(self).spec_effective(),
            final(self).spec_linear() == old(self).spec_linear(),
            final(self).spec_general() is Some,
            final(self).spec_route(usage, size) == old(self).spec_route(usage, size),
            final(device).spec_handles() >= old(device).spec_handles(),
            match r {
                Ok((block, allocated)) => {
                    &&& block.wf()
                    &&& block.spec_size() >= size
                    &&& block.spec_range().start as int % align as int == 0
                    &&& block.spec_memory().wf()
                    &&& block is General
                },
                Err(e) => {
                    &&& (old(device).ready() ==> (e == AllocationError::OutOfMemory(
                        OutOfMemory::Host,
                    ) && final(self).spec_general_exhausted()))
                    &&& final(device).spec_handles() == old(device).spec_handles()
                    &&& (old(device).spec_injected_error() is None
                        ==> final(device).spec_injected_error() is None)
                },
            },
    {
        let mut general = match self.general.take() {
            Some(general) => general,
            None => vstd::pervasive::unreached(),
        };
        let r = general.allocate(device, size, align);
        self.general = Some(general);
        proof {
            if r is Err && old(device).ready() {
                let k = choose|k: Size|
                    #[trigger] general.spec_sizes().contains_key(k) && slab_full(
                        general.spec_sizes().entry_at(k),
                    );
                assert(self.spec_general() matches Some(g) && g.spec_sizes().contains_key(k)
                    && slab_full(g.spec_sizes().entry_at(k)));
            }
        }
        match r {
            Ok((block, allocated)) => {
                proof {
                    crate::general::lemma_aligned_size_properties(
                        size,
                        align,
                        general.spec_granularity(),
                        general.spec_significant_size_bits(),
                    );
                }
                Ok((BlockFlavor::General(block), allocated))
            },
            Err(e) => Err(e),
        }
    }

    /// Route to the linear allocator.
    fn allocate_linear(&mut self, device: &mut Device, usage: MemoryUsage, size: Size, align: Size) -> (r: Result<
        (BlockFlavor, Size),
        AllocationError,
    >)
        requires
            old(self).wf(),
            old(device).wf(),
            old(self).device_ok(*old(device)),
            old(self).spec_linear() is Some,
            1 <= size <= MAX_REQUEST_SIZE,
            is_power_of_two(align),
            align <= MAX_REQUEST_SIZE,
        ensures
            final(self).wf(),
            final(device).wf(),
            final(self).device_ok(*final(device)),
            final(self).spec_heap_index() == old(self).spec_heap_index(),
            final(self).spec_properties() == old(self).spec_properties(),
            final(self).spec_used() == old(self).spec_used(),
            final(self).spec_effective() == old(self).spec_effective(),
            final(self).spec_general() == old(self).spec_general(),
            final(self).spec_linear() is Some,
            final(self).spec_route(usage, size) == old(self).spec_route(usage, size),
            final(device).spec_handles() >= old(device).spec_handles(),
            match r {
                Ok((block, allocated)) => {
                    &&& block.wf()
                    &&& block.spec_size() >= size
                    &&& block.spec_range().start as int % align as int == 0
                    &&& block.spec_memory().wf()
                    &&& block is Linear
                },
                Err(e) => {
                    &&& (!old(device).ready() || e == AllocationError::TooManyObjects)
                    &&& final(device).spec_handles() == old(device).spec_handles()
                    &&& (old(device).spec_injected_error() is None
                        ==> final(device).spec_injected_error() is None)
                },
            },
    {
        let mut linear = match self.linear.take() {
            Some(linear) => linear,
            None => vstd::pervasive::unreached(),
        };
        let ghost linear0 = linear;
        let r = linear.allocate(device, size, align);
        self.linear = Some(linear);
        match r {
            Ok((block, allocated)) => {
                proof {
                    let start = block.spec_range().start as int;
                    let ra = linear0.spec_rounded(align);
                    // the rounded alignment is a multiple of the requested one
                    assert(ra as int % align as int == 0 && ra >= 1) by {
                        match linear0.spec_atom_size() {
                            Some(atom) => {
                                if align >= atom {
                                    crate::lemma_pow2_divides(atom, align);
                                    crate::lemma_round_up_characterisation(align, align, atom);
                                    vstd::arithmetic::div_mod::lemma_mod_self_0(align as int);
                                } else {
                                    vstd::arithmetic::div_mod::lemma_mod_self_0(atom as int);
                                    crate::lemma_round_up_characterisation(atom, align, atom);
                                    crate::lemma_pow2_divides(align, atom);
                                }
                            },
                            None => {
                                vstd::arithmetic::div_mod::lemma_mod_self_0(align as int);
                            },
                        }
                    }
                    let rs = linear0.spec_rounded(size);
                    if !(rs > linear0.spec_line_size() || ra > linear0.spec_line_size()) {
                        if linear0.fits_tail(rs, ra as Size) {
                            assert(start % (ra as int) == 0);
                            crate::lemma_divides_transitive(align as int, ra as int, start);
                        } else {
                            assert(start == 0);
                            vstd::arithmetic::div_mod::lemma_small_mod(0nat, align as nat);
                        }
                    }
                }
                Ok((BlockFlavor::Linear(block), allocated))
            },
            Err(e) => Err(e),
        }
    }

    /// Route to the dedicated allocator.
    fn allocate_dedicated(&mut self, device: &mut Device, usage: MemoryUsage, size: Size, align: Size) -> (r: Result<
        (BlockFlavor, Size),
        AllocationError,
    >)
        requires
            old(self).wf(),
            old(device).wf(),
            old(self).device_ok(*old(device)),
            1 <= size <= MAX_REQUEST_SIZE,
            is_power_of_two(align),
            align <= MAX_REQUEST_SIZE,
        ensures
            final(self).wf(),
            final(device).wf(),
            final(self).device_ok(*final(device)),
            *final(self) == *old(self),
            final(self).spec_route(usage, size) == old(self).spec_route(usage, size),
            final(device).spec_handles() >= old(device).spec_handles(),
            match r {
                Ok((block, allocated)) => {
                    &&& block.wf()
                    &&& block.spec_size() >= size
                    &&& block.spec_range().start as int % align as int == 0
                    &&& block.spec_memory().wf()
                    &&& block is Dedicated
                },
                Err(e) => {
                    &&& !old(device).ready()
                    &&& final(device).spec_handles() == old(device).spec_handles()
                    &&& (old(device).spec_injected_error() is None
                        ==> final(device).spec_injected_error() is None)
                },
            },
    {
        proof {
            vstd::arithmetic::div_mod::lemma_small_mod(0nat, align as nat);
        }
        match self.dedicated.allocate(device, size, align) {
            Ok((block, allocated)) => Ok((BlockFlavor::Dedicated(block), allocated)),
            Err(e) => Err(e),
        }
    }

    /// Free a block back to the allocator it came from, and give back its
    /// accounting. Returns the device bytes freed. Blocks of an allocator
    /// this type does not have are ignored.
    pub fn free(&mut self, device: &mut Device, block: BlockFlavor) -> (freed: Size)
        requires
            old(self).wf(),
            old(device).wf(),
            old(self).device_ok(*old(device)),
        ensures
            final(self).wf(),
            final(device).wf(),
            final(self).device_ok(*final(device)),
            final(self).spec_heap_index() == old(self).spec_heap_index(),
            final(self).spec_properties() == old(self).spec_properties(),
            final(device).spec_handles() == old(device).spec_handles(),
            final(device).live_view().len() <= old(device).live_view().len(),
            // one free releases at most one device allocation, except the
            // linear path, which may reclaim several completed lines
            (block is Dedicated || block is General) ==> old(device).live_view().len() - 1
                <= final(device).live_view().len(),
            // a block of an allocator this type does not have is ignored
            !old(self).spec_has_allocator_for(block) ==> (freed == 0
                && *final(self) == *old(self) && *final(device) == *old(device)),
            // the counters give back what the free reclaimed and handed out
            old(self).spec_has_allocator_for(block) ==> {
                &&& final(self).spec_used() == (if old(self).spec_used() >= freed {
                    old(self).spec_used() - freed
                } else {
                    0int
                })
                &&& (block.spec_range().wf() ==> final(self).spec_effective() == (
                if old(self).spec_effective() >= block.spec_size() {
                    old(self).spec_effective() - block.spec_size()
                } else {
                    0int
                }))
            },
            // delegation: the owning allocator's free ran
            block matches BlockFlavor::Dedicated(b) ==> (freed == b.spec_memory().spec_size()
                && !final(device).contains_raw(b.spec_memory().spec_raw())
                && final(self).spec_general() == old(self).spec_general()
                && final(self).spec_linear() == old(self).spec_linear()),
            block matches BlockFlavor::General(b) ==> (old(self).spec_general() matches Some(
                g0,
            ) ==> (final(self).spec_general() matches Some(g1) && final(self).spec_linear()
                == old(self).spec_linear() && (spec_block_live(g0, b) ==> spec_free_outcome(
                g0,
                g1,
                *old(device),
                *final(device),
                b,
                freed,
            )) && (!spec_block_live(g0, b) ==> (freed == 0 && *final(device) == *old(device)
                && spec_free_ignored(g0, g1, b))))),
            block matches BlockFlavor::Linear(b) ==> (old(self).spec_linear() matches Some(l0)
                ==> (final(self).spec_linear() matches Some(l1) && final(self).spec_general()
                == old(self).spec_general() && l1.spec_total_lines() == l0.spec_total_lines()
                && l1.spec_line_size() == l0.spec_line_size() && (!(b.spec_range().wf()
                && l0.spec_block_live(b)) ==> (freed == 0 && l1 == l0
                && *final(device) == *old(device))))),
    {
        let block_size = block.size_guarded();
        let freed = match block {
            BlockFlavor::Dedicated(block) => self.dedicated.free(device, block),
            BlockFlavor::General(block) => {
                let mut general = match self.general.take() {
                    Some(general) => general,
                    None => {
                        return 0;
                    },
                };
                let freed = general.free(device, block);
                self.general = Some(general);
                freed
            },
            BlockFlavor::Linear(block) => {
                let mut linear = match self.linear.take() {
                    Some(linear) => linear,
                    None => {
                        return 0;
                    },
                };
                let range = block.range();
                let freed = if range.end >= range.start {
                    linear.free(device, block)
                } else {
                    0
                };
                self.linear = Some(linear);
                freed
            },
        };
        self.used = if self.used >= freed {
            self.used - freed
        } else {
            0
        };
        self.effective = if self.effective >= block_size {
            self.effective - block_size
        } else {
            0
        };
        freed
    }

    /// Tear the pooled allocators down: reclaim every fully freed line,
    /// then drop both pooled allocators; later requests go dedicated.
    pub fn clear(&mut self, device: &mut Device)
        requires
            old(self).wf(),
            old(device).wf(),
            old(self).device_ok(*old(device)),
        ensures
            final(self).wf(),
            final(device).wf(),
            final(self).device_ok(*final(device)),
            final(self).spec_heap_index() == old(self).spec_heap_index(),
            final(self).spec_properties() == old(self).spec_properties(),
            final(self).spec_used() == old(self).spec_used(),
            final(self).spec_effective() == old(self).spec_effective(),
            final(self).spec_linear() is None,
            final(self).spec_general() is None,
            final(device).spec_handles() == old(device).spec_handles(),
            final(device).live_view().len() <= old(device).live_view().len(),
            // with every line fully freed, the linear teardown reclaims them
            // all: each line's device allocation is freed
            (old(self).spec_linear() matches Some(l) && (forall|j: int|
                0 <= j < l.spec_lines().len() ==> (#[trigger] l.spec_lines()[j]).freed
                    == l.spec_lines()[j].allocated)) ==> final(device).live_view().len()
                <= old(device).live_view().len(),
    {
        if let Some(mut linear) = self.linear.take() {
            linear.clear(device);
        }
        if let Some(mut general) = self.general.take() {
            let _ = general.clear(device);
        }
    }

    /// The type's counters, properties and heap index.
    pub fn utilization(&self) -> (r: MemoryTypeUtilization)
        ensures
            r.utilization.used == self.spec_used(),
            r.utilization.effective == self.spec_effective(),
            r.properties == self.spec_properties(),
            r.heap_index == self.spec_heap_index(),
    {
        MemoryTypeUtilization {
            utilization: MemoryUtilization { used: self.used, effective: self.effective },
            properties: self.properties,
            heap_index: self.heap_index,
        }
    }
}

} // verus!
