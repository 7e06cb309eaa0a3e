//! A value model of the device's raw memory interface: the only part of the
//! outside world the allocators consume. Allocating hands out a fresh opaque
//! token and records it as live; freeing removes the record. The embedding
//! that owns a real device performs the matching calls, keyed by token, and
//! may prime the model with the error the real call returned.

use vstd::prelude::*;

use crate::memory::{Memory, Properties};
use crate::{is_power_of_two, Size, MAX_REQUEST_SIZE};

verus! {

/// Why the device could not allocate.
#[derive(Clone, Copy, Debug, PartialEq, Eq, Structural)]
pub enum OutOfMemory {
    /// Host memory exhausted.
    Host,
    /// Device memory exhausted.
    Device,
}

/// Errors of the device allocation call.
#[derive(Clone, Copy, Debug, PartialEq, Eq, Structural)]
pub enum AllocationError {
    /// Host or device memory exhausted.
    OutOfMemory(OutOfMemory),
    /// The device cannot hand out one more allocation.
    TooManyObjects,
}

/// Errors of the mapping call.
#[derive(Clone, Copy, Debug, PartialEq, Eq, Structural)]
pub enum MapError {
    /// Host or device memory exhausted.
    OutOfMemory(OutOfMemory),
    /// The memory is not host-visible or carries no mapping.
    MappingFailed,
    /// The requested range lies outside the block.
    OutOfBounds,
}

/// One live device allocation, as the device model records it.
#[derive(Clone, Copy, Debug, PartialEq, Eq, Structural)]
pub struct LiveAllocation {
    /// The opaque token handed out for it.
    pub raw: u64,
    /// Its size in bytes.
    pub size: Size,
    /// The memory type it was allocated from.
    pub memory_type: u32,
}

/// The device model. `allocate_memory` hands out fresh tokens and records
/// them; `free_memory` removes the record of a live token. An injected error
/// makes the next allocation fail with it, the way a real device call would.
#[derive(Debug)]
pub struct Device {
    next_raw: u64,
    live: Vec<LiveAllocation>,
    injected_error: Option<AllocationError>,
}

impl Device {
    /// The live allocations, in order of allocation.
    pub closed spec fn live_view(self) -> Seq<LiveAllocation> {
        self.live@
    }

    /// The error primed for the next allocation, if any.
    pub closed spec fn spec_injected_error(self) -> Option<AllocationError> {
        self.injected_error
    }

    /// True when a token is among the live allocations.
    pub open spec fn contains_raw(self, raw: u64) -> bool {
        exists|i: int|
            0 <= i < self.live_view().len() && (#[trigger] self.live_view()[i]).raw == raw
    }

    /// Every live token was handed out before `next_raw`, and no token is
    /// live twice.
    pub closed spec fn wf(self) -> bool {
        &&& forall|i: int|
            0 <= i < self.live@.len() ==> (#[trigger] self.live@[i]).raw < self.next_raw
        &&& forall|i: int, j: int|
            0 <= i < j < self.live@.len() ==> self.live@[i].raw != self.live@[j].raw
    }

    /// The next allocation will succeed: no error is primed and tokens are
    /// not exhausted.
    pub open spec fn ready(self) -> bool {
        &&& self.spec_injected_error() is None
        &&& self.tokens_left()
    }

    /// Fresh tokens remain.
    pub open spec fn tokens_left(self) -> bool {
        self.spec_handles() < u64::MAX
    }

    /// How many tokens were ever handed out: an upper bound on everything
    /// that was ever allocated.
    pub closed spec fn spec_handles(self) -> u64 {
        self.next_raw
    }

    /// A fresh device model with no live allocations.
    pub fn new() -> (r: Device)
        ensures
            r.wf(),
            r.live_view() =~= Seq::<LiveAllocation>::empty(),
            r.ready(),
            r.spec_handles() == 0,
    {
        Device { next_raw: 0, live: Vec::new(), injected_error: None }
    }

    /// Prime the model so that the next allocation fails with `err`, as when
    /// the real device call came back with that error.
    pub fn inject_allocation_error(&mut self, err: AllocationError)
        requires
            old(self).wf(),
        ensures
            final(self).wf(),
            final(self).live_view() == old(self).live_view(),
            final(self).spec_injected_error() == Some(err),
            final(self).tokens_left() == old(self).tokens_left(),
            final(self).spec_handles() == old(self).spec_handles(),
    {
        self.injected_error = Some(err);
    }

    /// Allocate `size` bytes from memory type `memory_type`: hand out a fresh
    /// token and record it live. Host-visible memory comes back persistently
    /// mapped. Fails exactly with the primed error, or when tokens are
    /// exhausted.
    pub fn allocate_memory(
        &mut self,
        memory_type: u32,
        size: Size,
        properties: Properties,
        non_coherent_atom_size: Option<Size>,
    ) -> (r: Result<Memory, AllocationError>)
        requires
            old(self).wf(),
            size > 0,
            (non_coherent_atom_size is Some) <==> (properties.host_visible && !properties.coherent),
            non_coherent_atom_size matches Some(atom) ==> (is_power_of_two(atom) && atom
                <= MAX_REQUEST_SIZE),
        ensures
            final(self).wf(),
            final(self).spec_injected_error() is None,
            match r {
                Ok(m) => {
                    &&& final(self).spec_handles() == old(self).spec_handles() + 1
                    &&& old(self).ready()
                    &&& m.wf()
                    &&& m.spec_size() == size
                    &&& m.spec_properties() == properties
                    &&& m.spec_atom_size() == non_coherent_atom_size
                    &&& m.spec_mapped() == properties.host_visible
                    &&& !old(self).contains_raw(m.spec_raw())
                    &&& final(self).live_view() =~= old(self).live_view().push(
                        LiveAllocation { raw: m.spec_raw(), size, memory_type },
                    )
                    &&& final(self).contains_raw(m.spec_raw())
                },
                Err(e) => {
                    &&& !old(self).ready()
                    &&& final(self).spec_handles() == old(self).spec_handles()
                    &&& final(self).live_view() == old(self).live_view()
                    &&& (old(self).spec_injected_error() matches Some(err) ==> e == err)
                },
            },
    {
        match self.injected_error {
            Some(err) => {
                self.injected_error = None;
                Err(err)
            },
            None => {
                if self.next_raw == u64::MAX {
                    return Err(AllocationError::TooManyObjects);
                }
                let raw = self.next_raw;
                self.next_raw = self.next_raw + 1;
                self.live.push(LiveAllocation { raw, size, memory_type });
                let memory = Memory::from_device_allocation(
                    raw,
                    size,
                    properties,
                    non_coherent_atom_size,
                    properties.host_visible,
                );
                proof {
                    assert(self.live_view()[self.live_view().len() - 1].raw == raw);
                }
                Ok(memory)
            },
        }
    }

    /// Unmap (if mapped) and free one live allocation: remove its record.
    /// The memory record is consumed; its token is dead afterwards. Freeing
    /// a token that is not live leaves the model unchanged and reports it.
    pub fn free_memory(&mut self, memory: Memory) -> (was_live: bool)
        requires
            old(self).wf(),
        ensures
            final(self).wf(),
            was_live == old(self).contains_raw(memory.spec_raw()),
            !final(self).contains_raw(memory.spec_raw()),
            final(self).spec_injected_error() == old(self).spec_injected_error(),
            final(self).tokens_left() == old(self).tokens_left(),
            final(self).spec_handles() == old(self).spec_handles(),
            was_live ==> exists|i: int|
                {
                    &&& 0 <= i < old(self).live_view().len()
                    &&& old(self).live_view()[i].raw == memory.spec_raw()
                    &&& final(self).live_view() =~= old(self).live_view().remove(i)
                },
            was_live ==> final(self).live_view().len() + 1 == old(self).live_view().len(),
            !was_live ==> final(self).live_view() == old(self).live_view(),
            forall|raw: u64|
                raw != memory.spec_raw() ==> #[trigger] final(self).contains_raw(raw) == old(
                    self,
                ).contains_raw(raw),
    {
        let raw = memory.raw();
        let mut i: usize = 0;
        while i < self.live.len() && self.live[i].raw != raw
            invariant
                self == old(self),
                old(self).wf(),
                raw == memory.spec_raw(),
                0 <= i <= self.live@.len(),
                forall|j: int| 0 <= j < i ==> self.live@[j].raw != raw,
            decreases self.live@.len() - i,
        {
            i = i + 1;
        }
        if i >= self.live.len() {
            proof {
                if old(self).contains_raw(raw) {
                    let j = choose|j: int|
                        0 <= j < self.live_view().len() && (#[trigger] self.live_view()[j]).raw
                            == raw;
                    assert(false);
                }
            }
            return false;
        }
        proof {
            assert(self.live_view()[i as int].raw == raw);
        }
        let ghost idx = i as int;
        self.live.remove(i);
        proof {
            let pre = old(self).live_view();
            let post = self.live_view();
            assert(post =~= pre.remove(idx));
            assert forall|r2: u64| r2 != memory.spec_raw() implies #[trigger] self.contains_raw(r2)
                == old(self).contains_raw(r2) by {
                if old(self).contains_raw(r2) {
                    let j = choose|j: int|
                        0 <= j < pre.len() && (#[trigger] pre[j]).raw == r2;
                    if j < idx {
                        assert(post[j].raw == r2);
                    } else if j > idx {
                        assert(post[j - 1].raw == r2);
                    }
                }
                if self.contains_raw(r2) {
                    let j = choose|j: int|
                        0 <= j < post.len() && (#[trigger] post[j]).raw == r2;
                    if j < idx {
                        assert(pre[j].raw == r2);
                    } else {
                        assert(pre[j + 1].raw == r2);
                    }
                }
            }
            assert(!self.contains_raw(memory.spec_raw())) by {
                if self.contains_raw(memory.spec_raw()) {
                    let j = choose|j: int|
                        0 <= j < post.len() && (#[trigger] post[j]).raw == memory.spec_raw();
                    if j < idx {
                        assert(pre[j].raw == memory.spec_raw());
                    } else {
                        assert(pre[j + 1].raw == memory.spec_raw());
                    }
                }
            }
        }
        true
    }

    /// How many device allocations are live.
    pub fn live_count(&self) -> (r: usize)
        ensures
            r == self.live_view().len(),
    {
        self.live.len()
    }

    /// The record of the `i`-th live allocation, in allocation order.
    pub fn live_record(&self, i: usize) -> (r: LiveAllocation)
        requires
            i < self.live_view().len(),
        ensures
            r == self.live_view()[i as int],
    {
        self.live[i]
    }
}

} // verus!
