//! The dedicated allocator: one device allocation per user allocation. It
//! never splits; it only rounds non-coherent sizes up to the atom and tracks
//! the mapping through the memory record.

use vstd::prelude::*;

use crate::device::{AllocationError, Device};
use crate::memory::{Memory, Properties};
use crate::{
    align_size, is_non_coherent_visible, is_power_of_two, round_up_spec, ByteRange, Size,
    MAX_REQUEST_SIZE,
};

verus! {

/// Memory block allocated from [`DedicatedAllocator`]: the whole of one
/// device allocation.
#[derive(Debug)]
pub struct DedicatedBlock {
    memory: Memory,
}

impl DedicatedBlock {
    /// The backing memory record.
    pub closed spec fn spec_memory(self) -> Memory {
        self.memory
    }

    /// A dedicated block covers its whole memory object.
    pub open spec fn spec_range(self) -> ByteRange {
        ByteRange { start: 0, end: self.spec_memory().spec_size() }
    }

    /// The block is as well formed as its memory record.
    pub open spec fn wf(self) -> bool {
        self.spec_memory().wf()
    }

    /// Wrap a whole memory record as a block.
    pub fn from_memory(memory: Memory) -> (r: DedicatedBlock)
        ensures
            r.spec_memory() == memory,
    {
        DedicatedBlock { memory }
    }

    /// Get the size of this block.
    pub fn size(&self) -> (r: Size)
        ensures
            r == self.spec_memory().spec_size(),
    {
        self.memory.size()
    }

    /// Property bits of the backing memory.
    pub fn properties(&self) -> (r: Properties)
        ensures
            r == self.spec_memory().spec_properties(),
    {
        self.memory.properties()
    }

    /// The backing memory record.
    pub fn memory(&self) -> (r: &Memory)
        ensures
            r == self.spec_memory(),
    {
        &self.memory
    }

    /// The block's byte range within the raw memory object.
    pub fn range(&self) -> (r: ByteRange)
        ensures
            r == self.spec_range(),
    {
        ByteRange { start: 0, end: self.memory.size() }
    }

    /// The block's position and length, as a segment of its memory object.
    pub fn segment(&self) -> (r: crate::Segment)
        requires
            self.spec_range().wf(),
        ensures
            r.offset == self.spec_range().start,
            r.size == Some(self.spec_range().spec_len() as Size),
    {
        let range = self.range();
        crate::Segment { offset: range.start, size: Some(range.end - range.start) }
    }

    /// Map a segment of the block for host access: resolve the range and
    /// widen it to whole atoms on non-coherent memory.
    pub fn map(&self, segment: crate::Segment) -> (r: Result<
        crate::mapping::MappedRange,
        crate::device::MapError,
    >)
        requires
            self.wf(),
            self.spec_memory().spec_size() <= crate::MAX_BLOCK_SIZE,
        ensures
            r matches Ok(m) ==> ({
                &&& m.wf()
                &&& m.spec_memory() == self.spec_memory()
                &&& m.spec_requested().start == self.spec_range().start + segment.offset
                &&& (segment.size matches Some(sz) ==> m.spec_requested().spec_len() == sz)
                &&& (segment.size is None ==> m.spec_requested().end == self.spec_range().end)
                &&& (self.spec_memory().spec_atom_size() is None ==> m.spec_mapping()
                    == m.spec_requested())
            }),
    {
        crate::mapping::MappedRange::new(self.memory(), self.range(), segment)
    }
}

/// Trivial allocator: every allocation becomes one device allocation, and
/// every free releases it.
#[derive(Debug)]
pub struct DedicatedAllocator {
    memory_type: u32,
    memory_properties: Properties,
    non_coherent_atom_size: Option<Size>,
}

impl DedicatedAllocator {
    /// The memory type this allocator allocates from.
    pub closed spec fn spec_memory_type(self) -> u32 {
        self.memory_type
    }

    /// The property bits of that memory type.
    pub closed spec fn spec_properties(self) -> Properties {
        self.memory_properties
    }

    /// The non-coherent atom size that applies, if any.
    pub closed spec fn spec_atom_size(self) -> Option<Size> {
        self.non_coherent_atom_size
    }

    /// The atom is present exactly for non-coherent host-visible memory, is a
    /// power of two, and is within the request bound.
    pub open spec fn wf(self) -> bool {
        &&& (self.spec_atom_size() is Some) <==> is_non_coherent_visible(self.spec_properties())
        &&& self.spec_atom_size() matches Some(atom) ==> (is_power_of_two(atom) && atom
            <= MAX_REQUEST_SIZE)
    }

    /// The size the device is asked for: the request, rounded up to the atom
    /// for non-coherent host-visible memory.
    pub open spec fn spec_request_size(self, size: Size) -> int {
        match self.spec_atom_size() {
            Some(atom) => round_up_spec(size, atom),
            None => size as int,
        }
    }

    /// Create a new dedicated allocator for one memory type.
    pub fn new(memory_type: u32, memory_properties: Properties, non_coherent_atom_size: Size) -> (r:
        DedicatedAllocator)
        requires
            is_power_of_two(non_coherent_atom_size),
            non_coherent_atom_size <= MAX_REQUEST_SIZE,
        ensures
            r.wf(),
            r.spec_memory_type() == memory_type,
            r.spec_properties() == memory_properties,
            r.spec_atom_size() == (if is_non_coherent_visible(memory_properties) {
                Some(non_coherent_atom_size)
            } else {
                Option::<Size>::None
            }),
    {
        DedicatedAllocator {
            memory_type,
            memory_properties,
            non_coherent_atom_size: if is_non_coherent_visible(memory_properties) {
                Some(non_coherent_atom_size)
            } else {
                None
            },
        }
    }

    /// Largest request this allocator takes.
    pub fn max_allocation(&self) -> (r: Size)
        ensures
            r == MAX_REQUEST_SIZE,
    {
        MAX_REQUEST_SIZE
    }

    /// Allocate a block: one device allocation of the atom-rounded size,
    /// mapped persistently when host-visible. Returns the block and the
    /// device bytes consumed. Fails exactly when the device fails.
    pub fn allocate(&self, device: &mut Device, size: Size, align: Size) -> (r: Result<
        (DedicatedBlock, Size),
        AllocationError,
    >)
        requires
            self.wf(),
            old(device).wf(),
            1 <= size <= MAX_REQUEST_SIZE,
            is_power_of_two(align),
        ensures
            final(device).wf(),
            final(device).spec_handles() >= old(device).spec_handles(),
            final(device).spec_injected_error() is None,
            match r {
                Ok((block, allocated)) => {
                    &&& old(device).ready()
                    &&& block.wf()
                    &&& allocated == self.spec_request_size(size)
                    &&& block.spec_memory().spec_size() == allocated
                    &&& size <= allocated
                    &&& block.spec_memory().spec_properties() == self.spec_properties()
                    &&& block.spec_memory().spec_atom_size() == self.spec_atom_size()
                    &&& !old(device).contains_raw(block.spec_memory().spec_raw())
                    &&& final(device).contains_raw(block.spec_memory().spec_raw())
                    &&& final(device).live_view().len() == old(device).live_view().len() + 1
                },
                Err(e) => {
                    &&& !old(device).ready()
                    &&& final(device).live_view() == old(device).live_view()
                    &&& final(device).spec_handles() == old(device).spec_handles()
                    &&& (old(device).spec_injected_error() matches Some(err) ==> e == err)
                },
            },
    {
        let request = match self.non_coherent_atom_size {
            Some(atom) => align_size(size, atom),
            None => size,
        };
        match device.allocate_memory(
            self.memory_type,
            request,
            self.memory_properties,
            self.non_coherent_atom_size,
        ) {
            Ok(memory) => Ok((DedicatedBlock::from_memory(memory), request)),
            Err(e) => Err(e),
        }
    }

    /// Free a block: unmap (if mapped) and release the device allocation.
    /// Returns the bytes given back to the device.
    pub fn free(&self, device: &mut Device, block: DedicatedBlock) -> (r: Size)
        requires
            old(device).wf(),
        ensures
            final(device).wf(),
            final(device).spec_handles() == old(device).spec_handles(),
            old(device).live_view().len() - 1 <= final(device).live_view().len() <= old(
                device,
            ).live_view().len(),
            r == block.spec_memory().spec_size(),
            !final(device).contains_raw(block.spec_memory().spec_raw()),
            old(device).contains_raw(block.spec_memory().spec_raw()) ==> final(device)
                .live_view().len() + 1 == old(device).live_view().len(),
    {
        let size = block.memory.size();
        device.free_memory(block.memory);
        size
    }
}

} // verus!
