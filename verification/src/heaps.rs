//! The dispatch layer: per memory type a set of allocators, per heap a
//! budget. Routes each request to the best-fitting memory type with room,
//! and keeps the books.

use vstd::prelude::*;

use crate::device::{AllocationError, Device, MapError, OutOfMemory};
use crate::heap::MemoryHeap;
use crate::mapping::MappedRange;
use crate::memory::{Memory, Properties};
use crate::memory_type::{config_wf, BlockFlavor, HeapsConfig, MemoryType};
use crate::stats::{MemoryHeapUtilization, MemoryTypeUtilization, TotalMemoryUtilization};
use crate::usage::MemoryUsage;
use crate::{
    is_power_of_two, sat_add, sat_sub, ByteRange, Segment, Size, MAX_BLOCK_SIZE, MAX_REQUEST_SIZE,
};

verus! {

/// Errors of the dispatch layer.
#[derive(Clone, Copy, Debug, PartialEq, Eq, Structural)]
pub enum HeapsError {
    /// The chosen memory type's allocator failed.
    AllocationError(AllocationError),
    /// No memory type in the mask suits the usage and has room.
    NoSuitableMemory,
}

/// What the device reports about one memory type, plus its configuration.
#[derive(Clone, Copy, Debug)]
pub struct MemoryTypeDescriptor {
    /// Property bits of the type.
    pub properties: Properties,
    /// Index of the heap the type allocates from.
    pub heap_index: usize,
    /// Which pooled allocators to enable for the type.
    pub config: HeapsConfig,
}

/// A block handed out by [`Heaps`]: the allocator block plus the index of
/// the memory type it came from, so it can be freed by the same allocator.
#[derive(Debug)]
pub struct MemoryBlock {
    block: BlockFlavor,
    memory_index: u32,
}

impl MemoryBlock {
    /// The underlying allocator block.
    pub closed spec fn spec_block(self) -> BlockFlavor {
        self.block
    }

    /// The index of the memory type the block came from.
    pub closed spec fn spec_memory_index(self) -> u32 {
        self.memory_index
    }

    /// The block is well formed in its allocator's sense.
    pub open spec fn wf(self) -> bool {
        self.spec_block().wf()
    }

    /// Size of the block in bytes.
    pub open spec fn spec_size(self) -> int {
        self.spec_block().spec_size()
    }

    /// The block's byte range within its raw memory object.
    pub fn segment(&self) -> (r: Segment)
        requires
            self.spec_block().spec_range().wf(),
        ensures
            r.offset == self.spec_block().spec_range().start,
            r.size == Some(self.spec_size() as Size),
    {
        let range = self.block.range();
        Segment { offset: range.start, size: Some(range.end - range.start) }
    }

    /// Property bits of the backing memory.
    pub fn properties(&self) -> (r: Properties)
        ensures
            r == self.spec_block().spec_memory().spec_properties(),
    {
        self.block.memory().properties()
    }

    /// The backing memory record (the raw handle token is inside).
    pub fn memory(&self) -> (r: &Memory)
        ensures
            r == self.spec_block().spec_memory(),
    {
        self.block.memory()
    }

    /// The index of the memory type the block came from.
    pub fn memory_index(&self) -> (r: u32)
        ensures
            r == self.spec_memory_index(),
    {
        self.memory_index
    }

    /// Size of the block in bytes.
    pub fn size(&self) -> (r: Size)
        requires
            self.spec_block().spec_range().wf(),
        ensures
            r == self.spec_size(),
    {
        self.block.size_guarded()
    }

    /// Map a segment of the block for host access.
    pub fn map(&self, segment: Segment) -> (r: Result<MappedRange, MapError>)
        requires
            self.wf(),
            self.spec_block().spec_memory().spec_size() <= MAX_BLOCK_SIZE,
        ensures
            r matches Ok(m) ==> ({
                &&& m.wf()
                &&& m.spec_memory() == self.spec_block().spec_memory()
                &&& m.spec_requested().start == self.spec_block().spec_range().start
                    + segment.offset
                &&& (segment.size matches Some(sz) ==> m.spec_requested().spec_len() == sz)
                &&& (segment.size is None ==> m.spec_requested().end
                    == self.spec_block().spec_range().end)
                &&& (self.spec_block().spec_memory().spec_atom_size() is None
                    ==> m.spec_mapping() == m.spec_requested())
            }),
    {
        MappedRange::new(self.block.memory(), self.block.range(), segment)
    }
}

/// No type's counters, heap index or properties changed between the two
/// states. Failed allocation attempts may advance a pooled allocator's
/// internal bookkeeping, but never the byte counters.
pub open spec fn spec_counters_preserved(pre: Heaps, post: Heaps) -> bool {
    forall|j: int|
        0 <= j < pre.spec_types().len() ==> ((#[trigger] post.spec_types()[j]).spec_used()
            == pre.spec_types()[j].spec_used() && post.spec_types()[j].spec_effective()
            == pre.spec_types()[j].spec_effective() && post.spec_types()[j].spec_heap_index()
            == pre.spec_types()[j].spec_heap_index() && post.spec_types()[j].spec_properties()
            == pre.spec_types()[j].spec_properties())
}

/// Per memory-type allocators and per-heap budgets.
#[derive(Debug)]
pub struct Heaps {
    types: Vec<MemoryType>,
    heaps: Vec<MemoryHeap>,
}

impl Heaps {
    /// The memory types.
    pub closed spec fn spec_types(self) -> Seq<MemoryType> {
        self.types@
    }

    /// The heaps.
    pub closed spec fn spec_heaps(self) -> Seq<MemoryHeap> {
        self.heaps@
    }

    /// Types are well formed and point at existing heaps.
    pub open spec fn wf(self) -> bool {
        &&& forall|i: int|
            0 <= i < self.spec_types().len() ==> ((#[trigger] self.spec_types()[i]).wf()
                && self.spec_types()[i].spec_heap_index() < self.spec_heaps().len())
        &&& self.spec_types().len() <= 32
    }

    /// Every line of every linear allocator came from a device allocation.
    pub open spec fn device_ok(self, device: Device) -> bool {
        forall|i: int|
            0 <= i < self.spec_types().len() ==> (#[trigger] self.spec_types()[i]).device_ok(
                device,
            )
    }

    /// Memory type `i` can serve the request: allowed by the mask, fit for
    /// the usage, and its heap still has room.
    pub open spec fn spec_suitable(self, mask: u32, usage: MemoryUsage, size: Size, i: int) -> bool {
        &&& 0 <= i < self.spec_types().len()
        &&& i < 32
        &&& (mask >> (i as u32)) & 1 == 1
        &&& usage.spec_memory_fitness(self.spec_types()[i].spec_properties()) is Some
        &&& self.spec_heaps()[self.spec_types()[i].spec_heap_index() as int].spec_available()
            >= size
    }

    /// A successful allocation's bookkeeping: only the chosen type and its
    /// heap changed; both booked the same device bytes, and the heap also
    /// booked the block's bytes as handed out.
    pub open spec fn spec_allocate_accounting(self, post: Heaps, block: MemoryBlock) -> bool {
        let i = block.spec_memory_index() as int;
        let h = self.spec_types()[i].spec_heap_index() as int;
        &&& (forall|j: int|
            0 <= j < self.spec_types().len() && j != i ==> ((#[trigger] post.spec_types()[j]).spec_used()
                == self.spec_types()[j].spec_used() && post.spec_types()[j].spec_effective()
                == self.spec_types()[j].spec_effective() && post.spec_types()[j].spec_heap_index()
                == self.spec_types()[j].spec_heap_index()
                && post.spec_types()[j].spec_properties()
                == self.spec_types()[j].spec_properties()))
        &&& (forall|j: int|
            0 <= j < self.spec_heaps().len() && j != h ==> post.spec_heaps()[j]
                == self.spec_heaps()[j])
        &&& post.spec_heaps()[h].spec_size() == self.spec_heaps()[h].spec_size()
        &&& exists|a: Size|
            #![trigger sat_add(self.spec_heaps()[h].spec_used(), a)]
            {
                &&& post.spec_heaps()[h].spec_used() == sat_add(
                    self.spec_heaps()[h].spec_used(),
                    a,
                )
                &&& post.spec_types()[i].spec_used() == sat_add(
                    self.spec_types()[i].spec_used(),
                    a,
                )
            }
        &&& post.spec_heaps()[h].spec_effective() == sat_add(
            self.spec_heaps()[h].spec_effective(),
            block.spec_size() as Size,
        )
    }

    /// A free's bookkeeping: only the block's type and its heap changed;
    /// the heap gave back the device bytes the type's free reclaimed, and
    /// the block's bytes stopped counting as handed out.
    pub open spec fn spec_free_accounting(self, post: Heaps, block: MemoryBlock) -> bool {
        let i = block.spec_memory_index() as int;
        let h = self.spec_types()[i].spec_heap_index() as int;
        &&& (forall|j: int|
            0 <= j < self.spec_types().len() && j != i ==> post.spec_types()[j]
                == self.spec_types()[j])
        &&& (forall|j: int|
            0 <= j < self.spec_heaps().len() && j != h ==> post.spec_heaps()[j]
                == self.spec_heaps()[j])
        &&& post.spec_heaps()[h].spec_size() == self.spec_heaps()[h].spec_size()
        &&& exists|f: Size|
            #![trigger sat_sub(self.spec_heaps()[h].spec_used(), f)]
            {
                &&& post.spec_heaps()[h].spec_used() == sat_sub(
                    self.spec_heaps()[h].spec_used(),
                    f,
                )
                &&& (self.spec_types()[i].spec_has_allocator_for(block.spec_block())
                    ==> post.spec_types()[i].spec_used() == sat_sub(
                    self.spec_types()[i].spec_used(),
                    f,
                ))
            }
        &&& (block.spec_block().spec_range().wf() ==> post.spec_heaps()[h].spec_effective()
            == sat_sub(self.spec_heaps()[h].spec_effective(), block.spec_size() as Size))
    }

    /// Every candidate that was tried failed: some suitable type exists
    /// (the error returned is the last attempt's), and no type's counters
    /// moved.
    pub open spec fn spec_failed_attempt(
        self,
        post: Heaps,
        mask: u32,
        usage: MemoryUsage,
        size: Size,
    ) -> bool {
        &&& exists|i: int| #[trigger] self.spec_suitable(mask, usage, size, i)
        &&& spec_counters_preserved(self, post)
    }

    /// Build the dispatch from the device's reported types and heaps and the
    /// per-type configuration.
    pub fn new(
        types: Vec<MemoryTypeDescriptor>,
        heap_sizes: Vec<Size>,
        non_coherent_atom_size: Size,
    ) -> (r: Heaps)
        requires
            types@.len() <= 32,
            forall|i: int|
                0 <= i < types@.len() ==> (config_wf((#[trigger] types@[i]).config)
                    && types@[i].heap_index < heap_sizes@.len()),
            forall|i: int|
                0 <= i < heap_sizes@.len() ==> 1 <= #[trigger] heap_sizes@[i]
                    <= MAX_REQUEST_SIZE,
            is_power_of_two(non_coherent_atom_size),
            non_coherent_atom_size <= MAX_REQUEST_SIZE,
        ensures
            r.wf(),
            r.spec_types().len() == types@.len(),
            r.spec_heaps().len() == heap_sizes@.len(),
            forall|i: int|
                0 <= i < r.spec_types().len() ==> ((#[trigger] r.spec_types()[i]).spec_linear()
                    matches Some(l) ==> l.spec_total_lines() == 0),
    {
        let mut heaps: Vec<MemoryHeap> = Vec::new();
        let mut i: usize = 0;
        while i < heap_sizes.len()
            invariant
                i <= heap_sizes@.len(),
                heaps@.len() == i,
            decreases heap_sizes@.len() - i,
        {
            heaps.push(MemoryHeap::new(heap_sizes[i]));
            i = i + 1;
        }
        let mut built: Vec<MemoryType> = Vec::new();
        let mut i: usize = 0;
        while i < types.len()
            invariant
                i <= types@.len(),
                built@.len() == i,
                types@.len() <= 32,
                is_power_of_two(non_coherent_atom_size),
                non_coherent_atom_size <= MAX_REQUEST_SIZE,
                forall|j: int|
                    0 <= j < types@.len() ==> (config_wf((#[trigger] types@[j]).config)
                        && types@[j].heap_index < heap_sizes@.len()),
                forall|j: int|
                    0 <= j < heap_sizes@.len() ==> 1 <= #[trigger] heap_sizes@[j]
                        <= MAX_REQUEST_SIZE,
                forall|j: int|
                    0 <= j < i ==> ((#[trigger] built@[j]).wf() && built@[j].spec_heap_index()
                        < heap_sizes@.len()),
                forall|j: int|
                    0 <= j < i ==> ((#[trigger] built@[j]).spec_linear() matches Some(l)
                        ==> l.spec_total_lines() == 0),
            decreases types@.len() - i,
        {
            let descriptor = types[i];
            let heap_size = heap_sizes[descriptor.heap_index];
            built.push(
                MemoryType::new(
                    i as u32,
                    descriptor.heap_index,
                    descriptor.properties,
                    descriptor.config,
                    non_coherent_atom_size,
                    heap_size,
                ),
            );
            i = i + 1;
        }
        Heaps { types: built, heaps }
    }

    /// How many memory types there are.
    pub fn type_count(&self) -> (r: usize)
        ensures
            r == self.spec_types().len(),
    {
        self.types.len()
    }

    /// The utilization counters of one heap.
    pub fn heap_utilization(&self, index: usize) -> (r: MemoryHeapUtilization)
        requires
            index < self.spec_heaps().len(),
        ensures
            r.utilization.used == self.spec_heaps()[index as int].spec_used(),
            r.utilization.effective == self.spec_heaps()[index as int].spec_effective(),
            r.size == self.spec_heaps()[index as int].spec_size(),
    {
        self.heaps[index].utilization()
    }

    /// Allocate a block of at least `size` bytes at alignment `align` from
    /// a memory type allowed by `mask` that best fits `usage` and whose heap
    /// still has `size` bytes of room.
    pub fn allocate(
        &mut self,
        device: &mut Device,
        mask: u32,
        usage: MemoryUsage,
        size: Size,
        align: Size,
    ) -> (r: Result<MemoryBlock, HeapsError>)
        requires
            old(self).wf(),
            old(device).wf(),
            old(self).device_ok(*old(device)),
            1 <= size <= MAX_REQUEST_SIZE,
            is_power_of_two(align),
            align <= MAX_REQUEST_SIZE,
        ensures
            final(self).wf(),
            final(device).wf(),
            final(self).device_ok(*final(device)),
            final(self).spec_types().len() == old(self).spec_types().len(),
            final(self).spec_heaps().len() == old(self).spec_heaps().len(),
            match r {
                Ok(block) => {
                    &&& block.wf()
                    &&& block.spec_size() >= size
                    &&& block.spec_block().spec_range().start as int % align as int == 0
                    &&& old(self).spec_suitable(
                        mask,
                        usage,
                        size,
                        block.spec_memory_index() as int,
                    )
                    &&& old(self).spec_allocate_accounting(*final(self), block)
                },
                Err(e) => {
                    &&& (e is NoSuitableMemory <==> forall|i: int|
                        !old(self).spec_suitable(mask, usage, size, i))
                    &&& (e is NoSuitableMemory ==> (*final(self) == *old(self) && *final(device)
                        == *old(device)))
                    &&& final(self).spec_heaps() == old(self).spec_heaps()
                    &&& (e is AllocationError ==> old(self).spec_failed_attempt(
                        *final(self),
                        mask,
                        usage,
                        size,
                    ))
                    // with a ready device only a type that routes to a
                    // pooled allocator can have failed: dedicated-routed
                    // candidates cannot
                    &&& (e is AllocationError && old(device).ready() ==> exists|i: int|
                        #[trigger] old(self).spec_suitable(mask, usage, size, i) && !(old(
                        self,
                    ).spec_types()[i].spec_route(usage, size) is Dedicated))
                },
            },
    {
        let type_count = self.types.len();
        let mut tried: u32 = 0;
        let mut tried_count: u32 = 0;
        let mut last_error: Option<AllocationError> = None;
        loop
            invariant
                self.wf(),
                device.wf(),
                self.device_ok(*device),
                old(self).wf(),
                type_count == self.spec_types().len(),
                self.spec_types().len() == old(self).spec_types().len(),
                self.spec_heaps() == old(self).spec_heaps(),
                1 <= size <= MAX_REQUEST_SIZE,
                is_power_of_two(align),
                align <= MAX_REQUEST_SIZE,
                tried_count < 33,
                spec_counters_preserved(*old(self), *self),
                last_error is None ==> (tried == 0 && *self == *old(self) && *device == *old(
                    device,
                )),
                last_error is Some ==> exists|t: int|
                    old(self).spec_suitable(mask, usage, size, t),
                old(device).ready() ==> (device.spec_injected_error() is None
                    && device.spec_handles() == old(device).spec_handles()),
                last_error is Some && old(device).ready() ==> exists|t: int|
                    #[trigger] old(self).spec_suitable(mask, usage, size, t) && !(old(
                    self,
                ).spec_types()[t].spec_route(usage, size) is Dedicated),
                forall|j: int|
                    #![trigger old(self).spec_suitable(mask, usage, size, j)]
                    old(self).spec_suitable(mask, usage, size, j) == self.spec_suitable(
                        mask,
                        usage,
                        size,
                        j,
                    ),
                forall|j: int|
                    #![trigger self.spec_types()[j].spec_route(usage, size)]
                    0 <= j < self.spec_types().len() ==> self.spec_types()[j].spec_route(
                        usage,
                        size,
                    ) == old(self).spec_types()[j].spec_route(usage, size),
            decreases 33 - tried_count,
        {
            // pick the best-fitness suitable type not yet tried
            let mut best: Option<usize> = None;
            let mut best_fitness: u32 = 0;
            let mut i: usize = 0;
            while i < type_count
                invariant
                    i <= type_count,
                    type_count == self.spec_types().len(),
                    self.wf(),
                    1 <= size,
                    match best {
                        Some(b) => b < i && b < 32 && self.spec_suitable(
                            mask,
                            usage,
                            size,
                            b as int,
                        ),
                        None => forall|j: int|
                            0 <= j < i ==> !(self.spec_suitable(mask, usage, size, j) && j < 32
                                && (tried >> (j as u32)) & 1 == 0),
                    },
                decreases type_count - i,
            {
                if i < 32 && (mask >> (i as u32)) & 1 == 1 && (tried >> (i as u32)) & 1 == 0 {
                    let heap_index = self.types[i].heap_index();
                    let available = self.heaps[heap_index].available();
                    if available >= size {
                        if let Some(fitness) = usage.memory_fitness(self.types[i].properties()) {
                            let better = match best {
                                Some(_) => fitness > best_fitness,
                                None => true,
                            };
                            if better {
                                best = Some(i);
                                best_fitness = fitness;
                            }
                        }
                    }
                }
                proof {
                    if best is None {
                        assert(!(self.spec_suitable(mask, usage, size, i as int) && (i as int)
                            < 32 && (tried >> (i as u32)) & 1 == 0));
                    }
                }
                i = i + 1;
            }
            let index = match best {
                Some(index) => index,
                None => {
                    match last_error {
                        Some(e) => {
                            return Err(HeapsError::AllocationError(e));
                        },
                        None => {
                            proof {
                                assert forall|j: int|
                                    !old(self).spec_suitable(mask, usage, size, j) by {
                                    if 0 <= j < type_count && j < 32 {
                                        let jj = j as u32;
                                        assert((0u32 >> jj) & 1 == 0) by (bit_vector);
                                        assert(!self.spec_suitable(mask, usage, size, j));
                                    }
                                }
                            }
                            return Err(HeapsError::NoSuitableMemory);
                        },
                    }
                },
            };
            let ghost loop_self = *self;
            let ghost loop_device = *device;
            let mut memory_type = self.types.remove(index);
            let r = memory_type.allocate(device, usage, size, align);
            let heap_index = memory_type.heap_index();
            self.types.insert(index, memory_type);
            proof {
                assert(self.types@ =~= loop_self.spec_types().update(
                    index as int,
                    self.types@[index as int],
                ));
                assert forall|t: int|
                    0 <= t < self.spec_types().len() implies (#[trigger] self.spec_types()[t]).device_ok(
                    *device,
                ) by {
                    if t != index {
                        assert(self.spec_types()[t] == loop_self.spec_types()[t]);
                        assert(loop_self.spec_types()[t].device_ok(loop_device));
                    }
                }
                assert forall|j: int|
                    #![trigger old(self).spec_suitable(mask, usage, size, j)]
                    old(self).spec_suitable(mask, usage, size, j) == self.spec_suitable(
                        mask,
                        usage,
                        size,
                        j,
                    ) by {
                    if 0 <= j < self.spec_types().len() {
                        assert(self.spec_types()[j].spec_properties()
                            == loop_self.spec_types()[j].spec_properties());
                        assert(self.spec_types()[j].spec_heap_index()
                            == loop_self.spec_types()[j].spec_heap_index());
                        assert(loop_self.spec_suitable(mask, usage, size, j)
                            == self.spec_suitable(mask, usage, size, j));
                    }
                }
            }
            match r {
                Ok((block, allocated)) => {
                    let block_size = block.size_guarded();
                    let mut heap = self.heaps.remove(heap_index);
                    heap.allocated(allocated, block_size);
                    self.heaps.insert(heap_index, heap);
                    let memory_block = MemoryBlock { block, memory_index: index as u32 };
                    proof {
                        assert(self.heaps@ =~= old(self).spec_heaps().update(
                            heap_index as int,
                            self.heaps@[heap_index as int],
                        ));
                        // witness the device bytes the chosen type and its
                        // heap both booked
                        assert(self.spec_heaps()[heap_index as int].spec_used() == sat_add(
                            old(self).spec_heaps()[heap_index as int].spec_used(),
                            allocated,
                        ));
                        assert(self.spec_types()[index as int].spec_used() == sat_add(
                            old(self).spec_types()[index as int].spec_used(),
                            allocated,
                        ));
                        assert(forall|j: int|
                            0 <= j < old(self).spec_heaps().len() && j != heap_index as int
                                ==> #[trigger] self.spec_heaps()[j] == old(self).spec_heaps()[j]);
                        assert(self.spec_heaps()[heap_index as int].spec_effective() == sat_add(
                            old(self).spec_heaps()[heap_index as int].spec_effective(),
                            block_size,
                        ));
                        assert(old(self).spec_suitable(mask, usage, size, index as int));
                        assert(old(self).spec_allocate_accounting(*self, memory_block));
                    }
                    return Ok(memory_block);
                },
                Err(e) => {
                    proof {
                        assert(old(self).spec_suitable(mask, usage, size, index as int));
                        assert(spec_counters_preserved(*old(self), *self));
                        if old(device).ready() {
                            // the attempt saw a ready device, so a
                            // dedicated-routed type would have succeeded
                            assert(loop_device.ready());
                            assert(!(loop_self.spec_types()[index as int].spec_route(usage, size)
                                is Dedicated));
                            assert(!(old(self).spec_types()[index as int].spec_route(usage, size)
                                is Dedicated));
                        }
                        // route preservation across the attempt
                        assert forall|j: int|
                            #![trigger self.spec_types()[j].spec_route(usage, size)]
                            0 <= j < self.spec_types().len() implies self.spec_types()[j].spec_route(
                            usage,
                            size,
                        ) == old(self).spec_types()[j].spec_route(usage, size) by {
                            if j != index {
                                assert(self.spec_types()[j] == loop_self.spec_types()[j]);
                                assert(loop_self.spec_types()[j].spec_route(usage, size) == old(
                                    self,
                                ).spec_types()[j].spec_route(usage, size));
                            }
                        }
                    }
                    last_error = Some(e);
                    tried = tried | (1u32 << (index as u32));
                    tried_count = tried_count + 1;
                    if tried_count >= 32 {
                        // more failed attempts than there can be memory
                        // types: stop with the last error
                        return Err(HeapsError::AllocationError(e));
                    }
                },
            }
        }
    }

    /// Free a block back through the memory type it came from, and credit
    /// its heap. Blocks with a foreign type index are ignored.
    pub fn free(&mut self, device: &mut Device, block: MemoryBlock)
        requires
            old(self).wf(),
            old(device).wf(),
            old(self).device_ok(*old(device)),
        ensures
            final(self).wf(),
            final(device).wf(),
            final(self).device_ok(*final(device)),
            final(self).spec_types().len() == old(self).spec_types().len(),
            final(self).spec_heaps().len() == old(self).spec_heaps().len(),
            final(device).live_view().len() <= old(device).live_view().len(),
            // a block with a foreign type index is ignored
            (block.spec_memory_index() as int) >= old(self).spec_types().len() ==> (*final(self)
                == *old(self) && *final(device) == *old(device)),
            // otherwise the block is freed through its type and the heap is
            // credited
            (block.spec_memory_index() as int) < old(self).spec_types().len() ==> old(
                self,
            ).spec_free_accounting(*final(self), block),
    {
        let ghost block0 = block;
        let index = block.memory_index as usize;
        if index >= self.types.len() {
            return ;
        }
        let block_size = block.block.size_guarded();
        let mut memory_type = self.types.remove(index);
        let freed = memory_type.free(device, block.block);
        let heap_index = memory_type.heap_index();
        self.types.insert(index, memory_type);
        proof {
            assert(self.types@ =~= old(self).spec_types().update(
                index as int,
                self.types@[index as int],
            ));
            assert forall|i: int|
                0 <= i < self.spec_types().len() implies (#[trigger] self.spec_types()[i]).device_ok(
                *device,
            ) by {
                if i != index {
                    assert(self.spec_types()[i] == old(self).spec_types()[i]);
                    assert(old(self).spec_types()[i].device_ok(*old(device)));
                }
            }
        }
        let mut heap = self.heaps.remove(heap_index);
        heap.freed(freed, block_size);
        self.heaps.insert(heap_index, heap);
        proof {
            assert(self.heaps@ =~= old(self).spec_heaps().update(
                heap_index as int,
                self.heaps@[heap_index as int],
            ));
            // witness the reclaimed bytes the type and the heap both gave
            // back
            assert(self.spec_heaps()[heap_index as int].spec_used() == sat_sub(
                old(self).spec_heaps()[heap_index as int].spec_used(),
                freed,
            ));
            assert(block0.spec_memory_index() as int == index as int);
            assert(old(self).spec_free_accounting(*self, block0));
        }
    }

    /// Tear every memory type's pooled allocators down.
    pub fn clear(&mut self, device: &mut Device)
        requires
            old(self).wf(),
            old(device).wf(),
            old(self).device_ok(*old(device)),
        ensures
            final(self).wf(),
            final(device).wf(),
            final(self).device_ok(*final(device)),
            final(device).live_view().len() <= old(device).live_view().len(),
            final(self).spec_heaps() == old(self).spec_heaps(),
            final(self).spec_types().len() == old(self).spec_types().len(),
            // every type's pooled allocators are taken down
            forall|i: int|
                0 <= i < final(self).spec_types().len()
                    ==> ((#[trigger] final(self).spec_types()[i]).spec_linear() is None
                    && final(self).spec_types()[i].spec_general() is None),
    {
        let mut i: usize = 0;
        let ghost heaps0 = self.heaps@;
        while i < self.types.len()
            invariant
                i <= self.types@.len(),
                self.wf(),
                device.wf(),
                self.device_ok(*device),
                self.heaps@ == heaps0,
                heaps0 == old(self).spec_heaps(),
                self.types@.len() == old(self).spec_types().len(),
                device.live_view().len() <= old(device).live_view().len(),
                forall|j: int|
                    0 <= j < i ==> ((#[trigger] self.spec_types()[j]).spec_linear() is None
                        && self.spec_types()[j].spec_general() is None),
            decreases self.types@.len() - i,
        {
            let ghost prev = self.types@;
            let ghost dev_prev = *device;
            let mut memory_type = self.types.remove(i);
            memory_type.clear(device);
            self.types.insert(i, memory_type);
            proof {
                assert(self.types@ =~= prev.update(i as int, self.types@[i as int]));
                assert forall|j: int|
                    0 <= j < self.spec_types().len() implies ((#[trigger] self.spec_types()[j]).wf()
                    && self.spec_types()[j].spec_heap_index() < self.spec_heaps().len()
                    && self.spec_types()[j].device_ok(*device)) by {
                    if j != i {
                        assert(self.spec_types()[j] == prev[j]);
                        assert(prev[j].device_ok(dev_prev));
                        assert(device.spec_handles() == dev_prev.spec_handles());
                    }
                }
            }
            i = i + 1;
        }
    }

    /// The utilization of every type and heap.
    pub fn utilization(&self) -> (r: TotalMemoryUtilization)
        requires
            self.wf(),
        ensures
            r.types@.len() == self.spec_types().len(),
            r.heaps@.len() == self.spec_heaps().len(),
            forall|i: int|
                0 <= i < r.types@.len() ==> (#[trigger] r.types@[i]).utilization.used
                    == self.spec_types()[i].spec_used() && r.types@[i].utilization.effective
                    == self.spec_types()[i].spec_effective(),
            forall|i: int|
                0 <= i < r.heaps@.len() ==> (#[trigger] r.heaps@[i]).utilization.used
                    == self.spec_heaps()[i].spec_used() && r.heaps@[i].utilization.effective
                    == self.spec_heaps()[i].spec_effective() && r.heaps@[i].size
                    == self.spec_heaps()[i].spec_size(),
    {
        let mut types: Vec<MemoryTypeUtilization> = Vec::new();
        let mut i: usize = 0;
        while i < self.types.len()
            invariant
                i <= self.types@.len(),
                types@.len() == i,
                forall|j: int|
                    0 <= j < i ==> (#[trigger] types@[j]).utilization.used
                        == self.spec_types()[j].spec_used() && types@[j].utilization.effective
                        == self.spec_types()[j].spec_effective(),
            decreases self.types@.len() - i,
        {
            types.push(self.types[i].utilization());
            i = i + 1;
        }
        let mut heaps: Vec<MemoryHeapUtilization> = Vec::new();
        let mut i: usize = 0;
        while i < self.heaps.len()
            invariant
                i <= self.heaps@.len(),
                heaps@.len() == i,
                forall|j: int|
                    0 <= j < i ==> (#[trigger] heaps@[j]).utilization.used
                        == self.spec_heaps()[j].spec_used() && heaps@[j].utilization.effective
                        == self.spec_heaps()[j].spec_effective() && heaps@[j].size
                        == self.spec_heaps()[j].spec_size(),
            decreases self.heaps@.len() - i,
        {
            heaps.push(self.heaps[i].utilization());
            i = i + 1;
        }
        TotalMemoryUtilization { types, heaps }
    }
}

} // verus!
