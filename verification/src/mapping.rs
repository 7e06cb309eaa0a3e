//! Mapped views of host-visible blocks. The model computes and checks the
//! ranges: the requested sub-range, and the atom-widened range that flushes
//! and invalidates must cover on non-coherent memory. The embedding performs
//! the actual byte access through the real mapping, using these ranges.

use vstd::prelude::*;

use crate::device::MapError;
use crate::memory::Memory;
use crate::{align_range, segment_to_sub_range, ByteRange, Segment, MAX_BLOCK_SIZE};

verus! {

/// A scoped view into a sub-range of a host-visible mapping.
#[derive(Debug)]
pub struct MappedRange {
    memory: Memory,
    requested: ByteRange,
    mapping: ByteRange,
}

/// A pending write through a mapped range: on non-coherent memory the
/// embedding must flush `flush_range` when the writer goes out of scope.
#[derive(Debug)]
pub struct Writer {
    /// The absolute byte range being written.
    pub range: ByteRange,
    /// The atom-widened range a flush must cover, absent for coherent
    /// memory.
    pub flush_range: Option<ByteRange>,
}

impl MappedRange {
    /// The memory the view is into.
    pub closed spec fn spec_memory(self) -> Memory {
        self.memory
    }

    /// The requested byte range.
    pub closed spec fn spec_requested(self) -> ByteRange {
        self.requested
    }

    /// The atom-widened byte range actually mapped.
    pub closed spec fn spec_mapping(self) -> ByteRange {
        self.mapping
    }

    /// The view lies within its mapped memory, and the mapped range covers
    /// the requested one.
    pub open spec fn wf(self) -> bool {
        &&& self.spec_memory().wf()
        &&& self.spec_memory().spec_mapped()
        &&& self.spec_requested().wf()
        &&& self.spec_mapping().start <= self.spec_requested().start
        &&& self.spec_requested().end <= self.spec_mapping().end
        &&& self.spec_requested().end <= self.spec_memory().spec_size()
    }

    /// Resolve `segment` of a block with range `block_range` into a mapped
    /// view: check bounds, and widen to whole atoms on non-coherent memory.
    pub fn new(memory: &Memory, block_range: ByteRange, segment: Segment) -> (r: Result<
        MappedRange,
        MapError,
    >)
        requires
            memory.wf(),
            block_range.wf(),
            block_range.end <= memory.spec_size(),
            memory.spec_size() <= MAX_BLOCK_SIZE,
        ensures
            match r {
                Ok(m) => {
                    &&& m.wf()
                    &&& m.spec_memory() == *memory
                    &&& m.spec_requested().start == block_range.start + segment.offset
                    &&& (segment.size matches Some(s) ==> m.spec_requested().spec_len() == s)
                    &&& (segment.size is None ==> m.spec_requested().end == block_range.end)
                    &&& (memory.spec_atom_size() is None ==> m.spec_mapping()
                        == m.spec_requested())
                },
                Err(e) => e == MapError::MappingFailed || e == MapError::OutOfBounds,
            },
    {
        if !memory.is_mapped() {
            return Err(MapError::MappingFailed);
        }
        let requested = match segment_to_sub_range(segment, &block_range) {
            Ok(requested) => requested,
            Err(e) => {
                return Err(e);
            },
        };
        let mapping = match memory.non_coherent_atom_size() {
            Some(atom) => {
                if requested.end == 0 {
                    requested
                } else {
                    align_range(&requested, atom)
                }
            },
            None => requested,
        };
        Ok(MappedRange { memory: *memory, requested, mapping })
    }

    /// The requested range of the view.
    pub fn range(&self) -> (r: ByteRange)
        ensures
            r == self.spec_requested(),
    {
        self.requested
    }

    /// The atom-widened range the view occupies.
    pub fn mapping_range(&self) -> (r: ByteRange)
        ensures
            r == self.spec_mapping(),
    {
        self.mapping
    }

    /// Check a read of `range` (relative to the view): the absolute range to
    /// read, and the range an invalidate must cover first on non-coherent
    /// memory.
    pub fn read_bytes(&self, range: ByteRange) -> (r: Result<
        (ByteRange, Option<ByteRange>),
        MapError,
    >)
        requires
            self.wf(),
            self.spec_memory().spec_size() <= MAX_BLOCK_SIZE,
        ensures
            match r {
                Ok((absolute, invalidate)) => {
                    &&& absolute.wf()
                    &&& self.spec_requested().start <= absolute.start
                    &&& absolute.end <= self.spec_requested().end
                    &&& absolute.start == self.spec_requested().start + range.start
                    &&& (invalidate is Some) == (self.spec_memory().spec_atom_size() is Some
                        && absolute.end > 0)
                },
                Err(e) => e == MapError::OutOfBounds,
            },
    {
        self.resolve(range)
    }

    /// Check a write of `range` (relative to the view): a writer carrying
    /// the absolute range and the flush range for non-coherent memory.
    pub fn write_bytes(&self, range: ByteRange) -> (r: Result<Writer, MapError>)
        requires
            self.wf(),
            self.spec_memory().spec_size() <= MAX_BLOCK_SIZE,
        ensures
            match r {
                Ok(writer) => {
                    &&& writer.range.wf()
                    &&& self.spec_requested().start <= writer.range.start
                    &&& writer.range.end <= self.spec_requested().end
                    &&& (writer.flush_range is Some) == (self.spec_memory().spec_atom_size()
                        is Some && writer.range.end > 0)
                },
                Err(e) => e == MapError::OutOfBounds,
            },
    {
        match self.resolve(range) {
            Ok((absolute, flush_range)) => Ok(Writer { range: absolute, flush_range }),
            Err(e) => Err(e),
        }
    }

    /// Resolve a view-relative range to the absolute range and its
    /// atom-widened coherence range.
    fn resolve(&self, range: ByteRange) -> (r: Result<
        (ByteRange, Option<ByteRange>),
        MapError,
    >)
        requires
            self.wf(),
            self.spec_memory().spec_size() <= MAX_BLOCK_SIZE,
        ensures
            match r {
                Ok((absolute, coherence)) => {
                    &&& absolute.wf()
                    &&& self.spec_requested().start <= absolute.start
                    &&& absolute.end <= self.spec_requested().end
                    &&& absolute.start == self.spec_requested().start + range.start
                    &&& (coherence is Some) == (self.spec_memory().spec_atom_size() is Some
                        && absolute.end > 0)
                },
                Err(e) => e == MapError::OutOfBounds,
            },
    {
        if range.end < range.start {
            return Err(MapError::OutOfBounds);
        }
        let len = self.requested.end - self.requested.start;
        if range.start > len || range.end > len {
            return Err(MapError::OutOfBounds);
        }
        let absolute = ByteRange {
            start: self.requested.start + range.start,
            end: self.requested.start + range.end,
        };
        let coherence = match self.memory.non_coherent_atom_size() {
            Some(atom) => {
                if absolute.end == 0 {
                    None
                } else {
                    Some(align_range(&absolute, atom))
                }
            },
            None => None,
        };
        Ok((absolute, coherence))
    }
}

} // verus!
