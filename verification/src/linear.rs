//! The linear allocator: a FIFO of fixed-size lines, bump-allocating within
//! the newest line and reclaiming whole lines from the oldest end once every
//! byte handed out of them has been freed. Best for short-lived allocations.

use vstd::prelude::*;

use crate::device::{AllocationError, Device};
use crate::memory::{Memory, Properties};
use crate::{
    align_offset, align_size, is_non_coherent_visible, is_power_of_two, round_up_spec, ByteRange,
    Size, MAX_BLOCK_SIZE, MAX_REQUEST_SIZE,
};

verus! {

/// Memory block allocated from [`LinearAllocator`]: a sub-range of one line.
#[derive(Debug)]
pub struct LinearBlock {
    memory: Memory,
    line_index: Size,
    range: ByteRange,
}

impl LinearBlock {
    /// The memory record of the owning line.
    pub closed spec fn spec_memory(self) -> Memory {
        self.memory
    }

    /// The line's absolute index: lines ever reclaimed plus queue position.
    pub closed spec fn spec_line_index(self) -> Size {
        self.line_index
    }

    /// The byte range within the line.
    pub closed spec fn spec_range(self) -> ByteRange {
        self.range
    }

    /// Length of the block in bytes.
    pub open spec fn spec_size(self) -> int {
        self.spec_range().spec_len()
    }

    /// The block lies within its line's memory.
    pub open spec fn wf(self) -> bool {
        &&& self.spec_memory().wf()
        &&& self.spec_range().wf()
        &&& self.spec_range().end <= self.spec_memory().spec_size()
        &&& self.spec_size() >= 1
    }

    /// Get the size of this block.
    pub fn size(&self) -> (r: Size)
        requires
            self.spec_range().wf(),
        ensures
            r == self.spec_size(),
    {
        self.range.end - self.range.start
    }

    /// Property bits of the backing memory.
    pub fn properties(&self) -> (r: Properties)
        ensures
            r == self.spec_memory().spec_properties(),
    {
        self.memory.properties()
    }

    /// The backing memory record.
    pub fn memory(&self) -> (r: &Memory)
        ensures
            r == self.spec_memory(),
    {
        &self.memory
    }

    /// The block's byte range within the raw memory object.
    pub fn range(&self) -> (r: ByteRange)
        ensures
            r == self.spec_range(),
    {
        self.range
    }


    /// The block's position and length, as a segment of its memory object.
    pub fn segment(&self) -> (r: crate::Segment)
        requires
            self.spec_range().wf(),
        ensures
            r.offset == self.spec_range().start,
            r.size == Some(self.spec_size() as Size),
    {
        let range = self.range();
        crate::Segment { offset: range.start, size: Some(range.end - range.start) }
    }

    /// Map a segment of the block for host access: resolve the range and
    /// widen it to whole atoms on non-coherent memory.
    pub fn map(&self, segment: crate::Segment) -> (r: Result<
        crate::mapping::MappedRange,
        crate::device::MapError,
    >)
        requires
            self.wf(),
            self.spec_memory().spec_size() <= crate::MAX_BLOCK_SIZE,
        ensures
            r matches Ok(m) ==> ({
                &&& m.wf()
                &&& m.spec_memory() == self.spec_memory()
                &&& m.spec_requested().start == self.spec_range().start + segment.offset
                &&& (segment.size matches Some(sz) ==> m.spec_requested().spec_len() == sz)
                &&& (segment.size is None ==> m.spec_requested().end == self.spec_range().end)
                &&& (self.spec_memory().spec_atom_size() is None ==> m.spec_mapping()
                    == m.spec_requested())
            }),
    {
        crate::mapping::MappedRange::new(self.memory(), self.range(), segment)
    }

    /// The absolute index of the owning line.
    pub fn line_index(&self) -> (r: Size)
        ensures
            r == self.spec_line_index(),
    {
        self.line_index
    }
}

/// One line: a device allocation of `line_size` bytes with two cursors. It
/// is safe to reclaim once `freed` has caught up with `allocated`. Exposed
/// so that the allocator's contracts can speak about its state.
#[derive(Debug)]
pub struct Line {
    /// Bytes handed out so far, alignment padding included.
    pub allocated: Size,
    /// Bytes freed so far, alignment padding included.
    pub freed: Size,
    /// The device allocation backing the line.
    pub memory: Memory,
}

/// Config for [`LinearAllocator`].
#[derive(Clone, Copy, Debug, PartialEq, Eq, Structural)]
pub struct LinearConfig {
    /// Size in bytes of each line. Requests over half of it are refused, and
    /// the dispatch layer sends them elsewhere.
    pub line_size: Size,
}

/// The device bytes of `p` reclaimed lines of `line_size` bytes each,
/// saturating at the machine limit.
pub open spec fn spec_saturated_lines(p: int, line_size: Size) -> int {
    if p * (line_size as int) <= u64::MAX {
        p * (line_size as int)
    } else {
        u64::MAX as int
    }
}

/// FIFO bump allocator over fixed-size lines.
#[derive(Debug)]
pub struct LinearAllocator {
    memory_type: u32,
    memory_properties: Properties,
    line_size: Size,
    finished_lines_count: Size,
    lines: Vec<Line>,
    non_coherent_atom_size: Option<Size>,
}

impl LinearAllocator {
    /// The memory type this allocator allocates from.
    pub closed spec fn spec_memory_type(self) -> u32 {
        self.memory_type
    }

    /// The property bits of that memory type.
    pub closed spec fn spec_properties(self) -> Properties {
        self.memory_properties
    }

    /// Size in bytes of each line.
    pub closed spec fn spec_line_size(self) -> Size {
        self.line_size
    }

    /// How many lines were reclaimed since creation.
    pub closed spec fn spec_finished(self) -> Size {
        self.finished_lines_count
    }

    /// The live lines, oldest first.
    pub closed spec fn spec_lines(self) -> Seq<Line> {
        self.lines@
    }

    /// The non-coherent atom size that applies, if any.
    pub closed spec fn spec_atom_size(self) -> Option<Size> {
        self.non_coherent_atom_size
    }

    /// Lines ever created: reclaimed ones plus live ones.
    pub open spec fn spec_total_lines(self) -> int {
        self.spec_finished() + self.spec_lines().len()
    }

    /// One line's consistency with its allocator.
    pub open spec fn line_wf(self, line: Line) -> bool {
        &&& line.freed <= line.allocated <= self.spec_line_size()
        &&& line.memory.wf()
        &&& line.memory.spec_size() == self.spec_line_size()
        &&& line.memory.spec_properties() == self.spec_properties()
        &&& line.memory.spec_atom_size() == self.spec_atom_size()
    }

    /// The line size is positive and atom-aligned, the atom is present
    /// exactly for non-coherent host-visible memory, and every line is
    /// consistent.
    pub open spec fn wf(self) -> bool {
        &&& 1 <= self.spec_line_size() <= MAX_BLOCK_SIZE
        &&& (self.spec_atom_size() is Some) <==> is_non_coherent_visible(self.spec_properties())
        &&& self.spec_atom_size() matches Some(atom) ==> (is_power_of_two(atom) && atom
            <= MAX_REQUEST_SIZE && self.spec_line_size() as int % atom as int == 0)
        &&& forall|i: int|
            0 <= i < self.spec_lines().len() ==> self.line_wf(#[trigger] self.spec_lines()[i])
    }

    /// The request size and alignment after atom rounding.
    pub open spec fn spec_rounded(self, value: Size) -> int {
        match self.spec_atom_size() {
            Some(atom) => round_up_spec(value, atom),
            None => value as int,
        }
    }

    /// The block denotes bytes of a live line that are still outstanding:
    /// the free path will accept and credit it. Anything else (a foreign
    /// block, or a second free of the same bytes beyond the line's balance)
    /// fails one of these tests.
    pub open spec fn spec_block_live(self, block: LinearBlock) -> bool {
        let idx = block.spec_line_index() - self.spec_finished();
        &&& block.spec_line_index() >= self.spec_finished()
        &&& idx < self.spec_lines().len()
        &&& block.spec_size() <= self.spec_lines()[idx as int].allocated
        &&& self.spec_lines()[idx as int].freed <= self.spec_lines()[idx as int].allocated
            - block.spec_size()
    }

    /// A request fits the newest line when the aligned cursor leaves room.
    pub open spec fn fits_tail(self, rounded_size: int, rounded_align: Size) -> bool {
        &&& self.spec_lines().len() > 0
        &&& round_up_spec(
            self.spec_lines().last().allocated,
            rounded_align,
        ) + rounded_size <= self.spec_line_size()
    }

    /// Create a new linear allocator for one memory type. For non-coherent
    /// host-visible memory the line size is rounded up to the atom.
    pub fn new(
        memory_type: u32,
        memory_properties: Properties,
        config: &LinearConfig,
        non_coherent_atom_size: Size,
    ) -> (r: LinearAllocator)
        requires
            is_power_of_two(non_coherent_atom_size),
            non_coherent_atom_size <= MAX_REQUEST_SIZE,
            1 <= config.line_size <= MAX_REQUEST_SIZE,
        ensures
            r.wf(),
            r.spec_memory_type() == memory_type,
            r.spec_properties() == memory_properties,
            r.spec_finished() == 0,
            r.spec_lines().len() == 0,
            r.spec_line_size() == (if is_non_coherent_visible(memory_properties) {
                round_up_spec(config.line_size, non_coherent_atom_size)
            } else {
                config.line_size as int
            }),
    {
        let (line_size, atom) = if is_non_coherent_visible(memory_properties) {
            (align_size(config.line_size, non_coherent_atom_size), Some(non_coherent_atom_size))
        } else {
            (config.line_size, None)
        };
        LinearAllocator {
            memory_type,
            memory_properties,
            line_size,
            finished_lines_count: 0,
            lines: Vec::new(),
            non_coherent_atom_size: atom,
        }
    }

    /// Maximum allocation size: half a line, so that one request can never
    /// starve a line.
    pub fn max_allocation(&self) -> (r: Size)
        ensures
            r == self.spec_line_size() / 2,
    {
        self.line_size / 2
    }

    /// Reclaim fully freed lines from the head while more than `off` lines
    /// remain: pop the line, count it finished, unmap and free its memory.
    /// Returns the device bytes freed.
    fn cleanup(&mut self, device: &mut Device, off: usize) -> (freed: Size)
        requires
            old(self).wf(),
            old(device).wf(),
            old(self).spec_total_lines() <= old(device).spec_handles(),
        ensures
            final(self).wf(),
            final(device).wf(),
            final(self).spec_total_lines() <= final(device).spec_handles(),
            final(device).spec_handles() == old(device).spec_handles(),
            final(device).spec_injected_error() == old(device).spec_injected_error(),
            final(self).spec_line_size() == old(self).spec_line_size(),
            final(self).spec_properties() == old(self).spec_properties(),
            final(self).spec_atom_size() == old(self).spec_atom_size(),
            final(self).spec_memory_type() == old(self).spec_memory_type(),
            final(self).spec_total_lines() == old(self).spec_total_lines(),
            exists|p: int|
                {
                    &&& 0 <= p <= old(self).spec_lines().len()
                    &&& final(self).spec_lines() =~= old(self).spec_lines().subrange(
                        p,
                        old(self).spec_lines().len() as int,
                    )
                    &&& final(self).spec_finished() == old(self).spec_finished() + p
                    &&& (forall|j: int|
                        0 <= j < p ==> (#[trigger] old(self).spec_lines()[j]).freed
                            == old(self).spec_lines()[j].allocated)
                    &&& (final(self).spec_lines().len() > off
                        ==> final(self).spec_lines()[0].freed
                        < final(self).spec_lines()[0].allocated)
                    &&& freed == spec_saturated_lines(p, old(self).spec_line_size())
                    &&& final(device).live_view().len() >= old(device).live_view().len() - p
                },
            final(device).live_view().len() <= old(device).live_view().len(),
    {
        let ghost lines0 = self.lines@;
        let mut freed: Size = 0;
        let ghost mut p: int = 0;
        loop
            invariant
                self.wf(),
                device.wf(),
                0 <= p <= lines0.len(),
                self.lines@ =~= lines0.subrange(p, lines0.len() as int),
                self.finished_lines_count == old(self).spec_finished() + p,
                forall|j: int|
                    0 <= j < p ==> (#[trigger] lines0[j]).freed == lines0[j].allocated,
                self.spec_total_lines() == old(self).spec_total_lines(),
                self.spec_total_lines() <= device.spec_handles(),
                device.spec_handles() == old(device).spec_handles(),
                device.spec_injected_error() == old(device).spec_injected_error(),
                self.line_size == old(self).spec_line_size(),
                self.memory_properties == old(self).spec_properties(),
                self.non_coherent_atom_size == old(self).spec_atom_size(),
                self.memory_type == old(self).spec_memory_type(),
                device.live_view().len() <= old(device).live_view().len(),
                device.live_view().len() >= old(device).live_view().len() - p,
                freed == spec_saturated_lines(p, old(self).spec_line_size()),
                lines0 == old(self).spec_lines(),
            ensures
                self.lines@.len() <= off || self.lines@[0].freed < self.lines@[0].allocated,
            decreases self.lines@.len(),
        {
            if self.lines.len() <= off {
                break ;
            }
            if self.lines[0].allocated > self.lines[0].freed {
                break ;
            }
            let line = self.lines.remove(0);
            self.finished_lines_count = self.finished_lines_count + 1;
            let size = line.memory.size();
            device.free_memory(line.memory);
            freed = if freed <= Size::MAX - size {
                freed + size
            } else {
                Size::MAX
            };
            proof {
                let ls = old(self).spec_line_size() as int;
                assert((p + 1) * ls == p * ls + ls && (p + 1) * ls >= p * ls) by (nonlinear_arith)
                    requires
                        p >= 0,
                        ls >= 0,
                ;
                p = p + 1;
            }
        }
        freed
    }

    /// Force reclamation of every fully freed line. If every byte handed out
    /// was freed, no line remains.
    pub fn clear(&mut self, device: &mut Device)
        requires
            old(self).wf(),
            old(device).wf(),
            old(self).spec_total_lines() <= old(device).spec_handles(),
        ensures
            final(self).wf(),
            final(device).wf(),
            final(self).spec_total_lines() <= final(device).spec_handles(),
            final(self).spec_total_lines() == old(self).spec_total_lines(),
            final(device).spec_handles() == old(device).spec_handles(),
            final(device).live_view().len() <= old(device).live_view().len(),
            (forall|j: int|
                0 <= j < old(self).spec_lines().len() ==> (#[trigger] old(self).spec_lines()[j]).freed
                    == old(self).spec_lines()[j].allocated) ==> final(self).spec_lines().len()
                == 0,
            // each reclaimed line's device allocation is freed
            final(device).live_view().len() >= old(device).live_view().len() - old(
                self,
            ).spec_lines().len(),
    {
        let drained = self.cleanup(device, 0);
        proof {
            let p = choose|p: int|
                {
                    &&& 0 <= p <= old(self).spec_lines().len()
                    &&& self.spec_lines() =~= old(self).spec_lines().subrange(
                        p,
                        old(self).spec_lines().len() as int,
                    )
                    &&& self.spec_finished() == old(self).spec_finished() + p
                    &&& (forall|j: int|
                        0 <= j < p ==> (#[trigger] old(self).spec_lines()[j]).freed
                            == old(self).spec_lines()[j].allocated)
                    &&& (self.spec_lines().len() > 0 ==> self.spec_lines()[0].freed
                        < self.spec_lines()[0].allocated)
                    &&& drained == spec_saturated_lines(p, old(self).spec_line_size())
                    &&& device.live_view().len() >= old(device).live_view().len() - p
                };
            if forall|j: int|
                0 <= j < old(self).spec_lines().len() ==> (#[trigger] old(self).spec_lines()[j]).freed
                    == old(self).spec_lines()[j].allocated {
                if self.spec_lines().len() > 0 {
                    assert(old(self).spec_lines()[p].freed == old(self).spec_lines()[p].allocated);
                    assert(false);
                }
            }
        }
    }

    /// Allocate `size` bytes at `align` from the newest line, or from a
    /// fresh line when it does not fit. Returns the block and the device
    /// bytes consumed (a whole line, or none). Requests over the line size
    /// are refused with `TooManyObjects`.
    pub fn allocate(&mut self, device: &mut Device, size: Size, align: Size) -> (r: Result<
        (LinearBlock, Size),
        AllocationError,
    >)
        requires
            old(self).wf(),
            old(device).wf(),
            1 <= size <= MAX_REQUEST_SIZE,
            is_power_of_two(align),
            align <= MAX_REQUEST_SIZE,
            old(self).spec_total_lines() <= old(device).spec_handles(),
        ensures
            final(self).wf(),
            final(device).wf(),
            final(self).spec_total_lines() <= final(device).spec_handles(),
            final(device).spec_handles() >= old(device).spec_handles(),
            final(self).spec_line_size() == old(self).spec_line_size(),
            final(self).spec_atom_size() == old(self).spec_atom_size(),
            final(self).spec_properties() == old(self).spec_properties(),
            final(self).spec_memory_type() == old(self).spec_memory_type(),
            final(self).spec_finished() == old(self).spec_finished(),
            ({
                let rs = old(self).spec_rounded(size);
                let ra = old(self).spec_rounded(align);
                if rs > old(self).spec_line_size() || ra > old(self).spec_line_size() {
                    // Too large for a line: refused, nothing changes.
                    &&& r == Err::<(LinearBlock, Size), AllocationError>(
                        AllocationError::TooManyObjects,
                    )
                    &&& final(self).spec_lines() == old(self).spec_lines()
                    &&& final(self).spec_total_lines() == old(self).spec_total_lines()
                    &&& *final(device) == *old(device)
                } else if old(self).fits_tail(rs, ra as Size) {
                    // Bump-allocated from the newest line; no device call.
                    let off = round_up_spec(old(self).spec_lines().last().allocated, ra as Size);
                    let tail = old(self).spec_lines().last();
                    match r {
                        Ok((block, allocated)) => {
                            &&& allocated == 0
                            &&& block.wf()
                            &&& block.spec_memory() == tail.memory
                            &&& block.spec_line_index() == old(self).spec_finished()
                                + old(self).spec_lines().len() - 1
                            &&& block.spec_range() == (ByteRange {
                                start: off as Size,
                                end: (off + rs) as Size,
                            })
                            &&& (block.spec_range().start as int) % (ra as int) == 0
                            &&& block.spec_size() == rs >= size
                            &&& final(self).spec_lines() =~= old(self).spec_lines().update(
                                old(self).spec_lines().len() - 1,
                                Line {
                                    allocated: (off + rs) as Size,
                                    freed: (tail.freed + (off - tail.allocated)) as Size,
                                    memory: tail.memory,
                                },
                            )
                            &&& final(self).spec_total_lines() == old(self).spec_total_lines()
                            &&& final(device).live_view() == old(device).live_view()
                        },
                        Err(_) => false,
                    }
                } else {
                    // A fresh line is needed: one device allocation.
                    match r {
                        Ok((block, allocated)) => {
                            &&& old(device).ready()
                            &&& allocated == old(self).spec_line_size()
                            &&& block.wf()
                            &&& block.spec_line_index() == old(self).spec_finished()
                                + old(self).spec_lines().len()
                            &&& block.spec_range() == (ByteRange { start: 0, end: rs as Size })
                            &&& block.spec_size() == rs >= size
                            &&& final(self).spec_lines() =~= old(self).spec_lines().push(
                                Line {
                                    allocated: rs as Size,
                                    freed: 0,
                                    memory: block.spec_memory(),
                                },
                            )
                            &&& final(self).spec_total_lines() == old(self).spec_total_lines()
                                + 1
                            &&& final(device).live_view().len() == old(device).live_view().len()
                                + 1
                            &&& final(device).contains_raw(block.spec_memory().spec_raw())
                        },
                        Err(e) => {
                            &&& !old(device).ready()
                            &&& final(self).spec_lines() == old(self).spec_lines()
                            &&& final(self).spec_total_lines() == old(self).spec_total_lines()
                            &&& final(device).live_view() == old(device).live_view()
                            &&& final(device).spec_handles() == old(device).spec_handles()
                            &&& (old(device).spec_injected_error() is None
                                ==> final(device).spec_injected_error() is None)
                            &&& (old(device).spec_injected_error() matches Some(err) ==> e == err)
                        },
                    }
                }
            }),
    {
        let (size, align) = match self.non_coherent_atom_size {
            Some(atom) => (align_size(size, atom), self.round_align(align, atom)),
            None => (size, align),
        };
        if size > self.line_size || align > self.line_size {
            return Err(AllocationError::TooManyObjects);
        }
        let lines_count = self.lines.len();
        if lines_count > 0 {
            let tail_allocated = self.lines[lines_count - 1].allocated;
            let aligned_offset = align_offset(tail_allocated, align);
            if aligned_offset <= self.line_size && size <= self.line_size - aligned_offset {
                let mut line = self.lines.remove(lines_count - 1);
                let block = LinearBlock {
                    line_index: self.finished_lines_count + (lines_count as Size) - 1,
                    memory: line.memory,
                    range: ByteRange { start: aligned_offset, end: aligned_offset + size },
                };
                line.freed = line.freed + (aligned_offset - line.allocated);
                line.allocated = aligned_offset + size;
                self.lines.insert(lines_count - 1, line);
                proof {
                    assert(self.lines@ =~= old(self).spec_lines().update(
                        old(self).spec_lines().len() - 1,
                        self.lines@.last(),
                    ));
                }
                return Ok((block, 0));
            }
        }
        let memory = match device.allocate_memory(
            self.memory_type,
            self.line_size,
            self.memory_properties,
            self.non_coherent_atom_size,
        ) {
            Ok(memory) => memory,
            Err(e) => {
                return Err(e);
            },
        };
        let line = Line { allocated: size, freed: 0, memory };
        let block = LinearBlock {
            line_index: self.finished_lines_count + (lines_count as Size),
            memory,
            range: ByteRange { start: 0, end: size },
        };
        self.lines.push(line);
        Ok((block, self.line_size))
    }

    /// The request alignment after atom rounding: the larger power of two.
    fn round_align(&self, align: Size, atom: Size) -> (r: Size)
        requires
            is_power_of_two(align),
            is_power_of_two(atom),
            align <= MAX_REQUEST_SIZE,
            atom <= MAX_REQUEST_SIZE,
        ensures
            r == round_up_spec(align, atom),
            is_power_of_two(r),
            r <= MAX_REQUEST_SIZE,
            r >= 1,
    {
        proof {
            if align >= atom {
                crate::lemma_pow2_divides(atom, align);
                crate::lemma_round_up_characterisation(align, align, atom);
            } else {
                vstd::arithmetic::div_mod::lemma_mod_self_0(atom as int);
                crate::lemma_round_up_characterisation(atom, align, atom);
            }
        }
        if align >= atom {
            align
        } else {
            atom
        }
    }

    /// How many lines are currently live: the teardown check in place of a
    /// panicking destructor. After every block was freed and `clear` ran,
    /// no line remains.
    pub fn line_count(&self) -> (r: usize)
        ensures
            r == self.spec_lines().len(),
    {
        self.lines.len()
    }

    /// Credit the block's bytes back to its line, then reclaim fully freed
    /// lines from the head, never touching the newest line. Returns the
    /// device bytes freed. A block that does not belong to a live line is
    /// ignored.
    pub fn free(&mut self, device: &mut Device, block: LinearBlock) -> (freed: Size)
        requires
            old(self).wf(),
            old(device).wf(),
            block.spec_range().wf(),
            old(self).spec_total_lines() <= old(device).spec_handles(),
        ensures
            final(self).wf(),
            final(device).wf(),
            final(self).spec_total_lines() <= final(device).spec_handles(),
            final(self).spec_total_lines() == old(self).spec_total_lines(),
            final(self).spec_line_size() == old(self).spec_line_size(),
            final(self).spec_atom_size() == old(self).spec_atom_size(),
            final(self).spec_properties() == old(self).spec_properties(),
            final(self).spec_memory_type() == old(self).spec_memory_type(),
            final(self).spec_finished() >= old(self).spec_finished(),
            final(device).spec_handles() == old(device).spec_handles(),
            final(device).live_view().len() <= old(device).live_view().len(),
            !old(self).spec_block_live(block) ==> (freed == 0 && *final(self) == *old(self)
                && *final(device) == *old(device)),
            old(self).spec_block_live(block) ==> ({
                let idx = (block.spec_line_index() - old(self).spec_finished()) as int;
                let line0 = old(self).spec_lines()[idx];
                let credited = old(self).spec_lines().update(
                    idx,
                    Line {
                        allocated: line0.allocated,
                        freed: (line0.freed + block.spec_size()) as Size,
                        memory: line0.memory,
                    },
                );
                exists|p: int|
                    {
                        &&& 0 <= p <= credited.len()
                        &&& final(self).spec_lines() =~= credited.subrange(
                            p,
                            credited.len() as int,
                        )
                        &&& final(self).spec_finished() == old(self).spec_finished() + p
                        &&& (forall|j: int|
                            0 <= j < p ==> (#[trigger] credited[j]).freed == credited[j].allocated)
                        &&& (final(self).spec_lines().len() > 1
                            ==> final(self).spec_lines()[0].freed
                            < final(self).spec_lines()[0].allocated)
                        &&& freed == spec_saturated_lines(p, old(self).spec_line_size())
                        &&& final(device).live_view().len() >= old(device).live_view().len() - p
                    }
            }),
    {
        if block.line_index < self.finished_lines_count {
            return 0;
        }
        let index_u64 = block.line_index - self.finished_lines_count;
        if index_u64 >= self.lines.len() as u64 {
            return 0;
        }
        let index = index_u64 as usize;
        let block_size = block.size();
        let line_allocated = self.lines[index].allocated;
        let line_freed = self.lines[index].freed;
        if block_size > line_allocated || line_freed > line_allocated - block_size {
            // Not a block of this line: crediting it would corrupt the
            // cursors. Ignore it.
            return 0;
        }
        let mut line = self.lines.remove(index);
        line.freed = line.freed + block_size;
        self.lines.insert(index, line);
        let ghost credited_state = *self;
        proof {
            let line0 = old(self).spec_lines()[index as int];
            assert(self.lines@ =~= old(self).spec_lines().update(
                index as int,
                Line {
                    allocated: line0.allocated,
                    freed: (line0.freed + block.spec_size()) as Size,
                    memory: line0.memory,
                },
            ));
        }
        let freed = self.cleanup(device, 1);
        proof {
            let credited = credited_state.spec_lines();
            let p = choose|p: int|
                {
                    &&& 0 <= p <= credited.len()
                    &&& self.spec_lines() =~= credited.subrange(p, credited.len() as int)
                    &&& self.spec_finished() == credited_state.spec_finished() + p
                    &&& (forall|j: int|
                        0 <= j < p ==> (#[trigger] credited[j]).freed == credited[j].allocated)
                    &&& (self.spec_lines().len() > 1 ==> self.spec_lines()[0].freed
                        < self.spec_lines()[0].allocated)
                    &&& freed == spec_saturated_lines(p, credited_state.spec_line_size())
                    &&& device.live_view().len() >= old(device).live_view().len() - p
                };
            assert(0 <= p <= credited.len() && self.spec_lines() =~= credited.subrange(
                p,
                credited.len() as int,
            ) && self.spec_finished() == old(self).spec_finished() + p);
        }
        freed
    }
}

} // verus!
