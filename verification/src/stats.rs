//! Utilization counters reported to callers.

use vstd::prelude::*;

use crate::memory::Properties;
use crate::Size;

verus! {

/// Used (allocated from the device) and effective (handed out to the user)
/// byte counts.
#[derive(Clone, Copy, Debug, PartialEq, Eq, Structural)]
pub struct MemoryUtilization {
    /// Bytes allocated from the device.
    pub used: Size,
    /// Bytes handed out to the user.
    pub effective: Size,
}

/// Utilization of one memory type.
#[derive(Clone, Copy, Debug, PartialEq, Eq, Structural)]
pub struct MemoryTypeUtilization {
    /// The counters.
    pub utilization: MemoryUtilization,
    /// Property bits of the type.
    pub properties: Properties,
    /// Index of the heap the type allocates from.
    pub heap_index: usize,
}

/// Utilization of one memory heap.
#[derive(Clone, Copy, Debug, PartialEq, Eq, Structural)]
pub struct MemoryHeapUtilization {
    /// The counters.
    pub utilization: MemoryUtilization,
    /// Capacity of the heap in bytes.
    pub size: Size,
}

/// Utilization of every type and heap.
#[derive(Debug)]
pub struct TotalMemoryUtilization {
    /// Per-type counters.
    pub types: Vec<MemoryTypeUtilization>,
    /// Per-heap counters.
    pub heaps: Vec<MemoryHeapUtilization>,
}

} // verus!
