//! Per-heap accounting: capacity, bytes taken from the device, and bytes
//! handed out to the user.

use vstd::prelude::*;

use crate::stats::{MemoryHeapUtilization, MemoryUtilization};
use crate::Size;

verus! {

/// One device memory heap and its counters.
#[derive(Debug)]
pub struct MemoryHeap {
    size: Size,
    used: Size,
    effective: Size,
}

impl MemoryHeap {
    /// Capacity of the heap in bytes.
    pub closed spec fn spec_size(self) -> Size {
        self.size
    }

    /// Bytes currently allocated from the device out of this heap.
    pub closed spec fn spec_used(self) -> Size {
        self.used
    }

    /// Bytes currently handed out to the user out of this heap.
    pub closed spec fn spec_effective(self) -> Size {
        self.effective
    }

    /// How many bytes are left before the heap's capacity.
    pub open spec fn spec_available(self) -> int {
        if self.spec_used() > self.spec_size() {
            0
        } else {
            self.spec_size() - self.spec_used()
        }
    }

    /// A fresh heap record with nothing used.
    pub fn new(size: Size) -> (r: MemoryHeap)
        ensures
            r.spec_size() == size,
            r.spec_used() == 0,
            r.spec_effective() == 0,
    {
        MemoryHeap { size, used: 0, effective: 0 }
    }

    /// How many bytes are left before the heap's capacity: zero once the
    /// used counter passes the size.
    pub fn available(&self) -> (r: Size)
        ensures
            r == self.spec_available(),
    {
        if self.used > self.size {
            0
        } else {
            self.size - self.used
        }
    }

    /// Record an allocation: `used` device bytes, `effective` user bytes.
    /// The counters saturate at the machine limit.
    pub fn allocated(&mut self, used: Size, effective: Size)
        ensures
            final(self).spec_size() == old(self).spec_size(),
            final(self).spec_used() == (if old(self).spec_used() + used <= Size::MAX {
                old(self).spec_used() + used
            } else {
                Size::MAX as int
            }),
            final(self).spec_effective() == (if old(self).spec_effective() + effective
                <= Size::MAX {
                old(self).spec_effective() + effective
            } else {
                Size::MAX as int
            }),
    {
        self.used = if self.used <= Size::MAX - used {
            self.used + used
        } else {
            Size::MAX
        };
        self.effective = if self.effective <= Size::MAX - effective {
            self.effective + effective
        } else {
            Size::MAX
        };
    }

    /// Record a free: the used counter never falls below zero, so freeing
    /// gives back at most what was taken.
    pub fn freed(&mut self, used: Size, effective: Size)
        ensures
            final(self).spec_size() == old(self).spec_size(),
            final(self).spec_used() == (if old(self).spec_used() >= used {
                old(self).spec_used() - used
            } else {
                0int
            }),
            final(self).spec_effective() == (if old(self).spec_effective() >= effective {
                old(self).spec_effective() - effective
            } else {
                0int
            }),
            final(self).spec_used() <= old(self).spec_used(),
            final(self).spec_effective() <= old(self).spec_effective(),
    {
        self.used = if self.used >= used {
            self.used - used
        } else {
            0
        };
        self.effective = if self.effective >= effective {
            self.effective - effective
        } else {
            0
        };
    }

    /// The heap's counters and capacity.
    pub fn utilization(&self) -> (r: MemoryHeapUtilization)
        ensures
            r.utilization.used == self.spec_used(),
            r.utilization.effective == self.spec_effective(),
            r.size == self.spec_size(),
    {
        MemoryHeapUtilization {
            utilization: MemoryUtilization { used: self.used, effective: self.effective },
            size: self.size,
        }
    }
}

} // verus!
