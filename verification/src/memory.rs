//! The memory record: one live device allocation together with the facts the
//! allocators need about it (size, properties, atom size, mapping state).

use vstd::prelude::*;

use crate::{is_power_of_two, Size, MAX_REQUEST_SIZE};

verus! {

/// Property bits of a memory type, as the device reports them.
#[derive(Clone, Copy, Debug, PartialEq, Eq, Structural)]
pub struct Properties {
    /// Memory local to the device; fastest for device access.
    pub device_local: bool,
    /// Memory the host can map and access.
    pub host_visible: bool,
    /// Host writes become visible to the device without explicit flushes.
    pub coherent: bool,
    /// Host access to this memory is cached.
    pub cached: bool,
    /// Memory that the device may back lazily.
    pub lazily_allocated: bool,
}

impl Properties {
    /// Properties with no bit set.
    pub fn empty() -> (r: Properties)
        ensures
            r == (Properties {
                device_local: false,
                host_visible: false,
                coherent: false,
                cached: false,
                lazily_allocated: false,
            }),
    {
        Properties {
            device_local: false,
            host_visible: false,
            coherent: false,
            cached: false,
            lazily_allocated: false,
        }
    }
}

/// An owned record of one raw device memory object. The raw handle is an
/// opaque token; the embedding keeps the association from token to the real
/// device object. A memory record is host-visible iff it carries a
/// persistent mapping, and it carries a non-coherent atom size iff it is
/// host-visible and not coherent.
///
/// The record is a plain value: blocks and chunks carry copies of it, and
/// in place of shared-reference counting the allocators return the token to
/// the device only when their own bookkeeping shows no block outstanding
/// (a fully freed chunk, a fully freed line).
#[derive(Clone, Copy, Debug)]
pub struct Memory {
    raw: u64,
    size: Size,
    properties: Properties,
    non_coherent_atom_size: Option<Size>,
    mapped: bool,
}

impl Memory {
    /// The token standing for the raw device memory object.
    pub closed spec fn spec_raw(self) -> u64 {
        self.raw
    }

    /// Size in bytes of the underlying device allocation.
    pub closed spec fn spec_size(self) -> Size {
        self.size
    }

    /// Property bits of the memory type this was allocated from.
    pub closed spec fn spec_properties(self) -> Properties {
        self.properties
    }

    /// Whether the allocation carries a persistent host mapping.
    pub closed spec fn spec_mapped(self) -> bool {
        self.mapped
    }

    /// The non-coherent atom size, present iff the memory is host-visible
    /// and not coherent.
    pub closed spec fn spec_atom_size(self) -> Option<Size> {
        self.non_coherent_atom_size
    }

    /// A memory record is well formed when it is non-empty, its atom size is
    /// present exactly for non-coherent host-visible memory and is a power of
    /// two, and it is mapped exactly when host-visible.
    pub open spec fn wf(self) -> bool {
        &&& self.spec_size() > 0
        &&& self.spec_atom_size() is Some <==> (self.spec_properties().host_visible
            && !self.spec_properties().coherent)
        &&& self.spec_atom_size() matches Some(atom) ==> (is_power_of_two(atom) && atom
            <= MAX_REQUEST_SIZE)
        &&& self.spec_mapped() == self.spec_properties().host_visible
    }

    /// Assemble a record for a fresh device allocation. Only the device
    /// model creates these.
    pub(crate) fn from_device_allocation(
        raw: u64,
        size: Size,
        properties: Properties,
        non_coherent_atom_size: Option<Size>,
        mapped: bool,
    ) -> (r: Memory)
        ensures
            r.spec_raw() == raw,
            r.spec_size() == size,
            r.spec_properties() == properties,
            r.spec_atom_size() == non_coherent_atom_size,
            r.spec_mapped() == mapped,
    {
        Memory { raw, size, properties, non_coherent_atom_size, mapped }
    }

    /// The token standing for the raw device memory object.
    pub fn raw(&self) -> (r: u64)
        ensures
            r == self.spec_raw(),
    {
        self.raw
    }

    /// Size in bytes of the underlying device allocation.
    pub fn size(&self) -> (r: Size)
        ensures
            r == self.spec_size(),
    {
        self.size
    }

    /// Property bits of the memory type this was allocated from.
    pub fn properties(&self) -> (r: Properties)
        ensures
            r == self.spec_properties(),
    {
        self.properties
    }

    /// The non-coherent atom size that applies to this memory, if any.
    pub fn non_coherent_atom_size(&self) -> (r: Option<Size>)
        ensures
            r == self.spec_atom_size(),
    {
        self.non_coherent_atom_size
    }

    /// Whether the host can map this memory.
    pub fn is_mappable(&self) -> (r: bool)
        ensures
            r == self.spec_properties().host_visible,
    {
        self.properties.host_visible
    }

    /// Whether the allocation carries a persistent host mapping.
    pub fn is_mapped(&self) -> (r: bool)
        ensures
            r == self.spec_mapped(),
    {
        self.mapped
    }
}

} // verus!
