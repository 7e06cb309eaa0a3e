//! Usage intent and the fitness policy that routes requests to memory types
//! and allocator kinds. The exact scores are policy: higher is preferred.

use vstd::prelude::*;

use crate::memory::Properties;

verus! {

/// The three allocator kinds a request can be served by.
#[derive(Clone, Copy, Debug, PartialEq, Eq, Structural)]
pub enum Kind {
    /// One device allocation per block.
    Dedicated,
    /// The size-bucketed recycling allocator.
    General,
    /// The bump allocator over lines.
    Linear,
}

/// What the allocation will be used for.
#[derive(Clone, Copy, Debug, PartialEq, Eq, Structural)]
pub enum MemoryUsage {
    /// Full speed device access; the host never reads or writes.
    Private,
    /// Host-updated data the device reads often.
    Dynamic {
        /// Updates are sparse and batched rather than per frame.
        sparse_updates: bool,
    },
    /// Short-lived staging uploads from host to device.
    Upload,
    /// Reading results back from the device.
    Download,
}

impl MemoryUsage {
    /// The property bits a memory type must have to serve this usage.
    pub open spec fn spec_properties_required(self, properties: Properties) -> bool {
        match self {
            MemoryUsage::Private => true,
            MemoryUsage::Dynamic { .. } => properties.host_visible,
            MemoryUsage::Upload => properties.host_visible,
            MemoryUsage::Download => properties.host_visible,
        }
    }

    /// The fitness score of a memory type for this usage, when the type can
    /// serve it at all. Policy: private data prefers device-local memory
    /// away from the host; uploads prefer coherent uncached memory;
    /// downloads prefer cached memory.
    pub open spec fn spec_memory_fitness(self, properties: Properties) -> Option<u32> {
        if !self.spec_properties_required(properties) {
            None
        } else {
            Some(
                (match self {
                    MemoryUsage::Private => (if properties.device_local {
                        2int
                    } else {
                        0int
                    }) + (if !properties.host_visible {
                        1int
                    } else {
                        0int
                    }),
                    MemoryUsage::Dynamic { .. } => (if properties.device_local {
                        2int
                    } else {
                        0int
                    }) + (if properties.coherent {
                        1int
                    } else {
                        0int
                    }),
                    MemoryUsage::Upload => (if properties.coherent {
                        2int
                    } else {
                        0int
                    }) + (if !properties.cached {
                        1int
                    } else {
                        0int
                    }),
                    MemoryUsage::Download => (if properties.cached {
                        2int
                    } else {
                        0int
                    }) + (if properties.coherent {
                        1int
                    } else {
                        0int
                    }),
                }) as u32,
            )
        }
    }

    /// The fitness score of a memory type for this usage.
    pub fn memory_fitness(&self, properties: Properties) -> (r: Option<u32>)
        ensures
            r == self.spec_memory_fitness(properties),
    {
        match self {
            MemoryUsage::Private => Some(
                (if properties.device_local {
                    2u32
                } else {
                    0u32
                }) + (if !properties.host_visible {
                    1u32
                } else {
                    0u32
                }),
            ),
            MemoryUsage::Dynamic { .. } => if properties.host_visible {
                Some(
                    (if properties.device_local {
                        2u32
                    } else {
                        0u32
                    }) + (if properties.coherent {
                        1u32
                    } else {
                        0u32
                    }),
                )
            } else {
                None
            },
            MemoryUsage::Upload => if properties.host_visible {
                Some(
                    (if properties.coherent {
                        2u32
                    } else {
                        0u32
                    }) + (if !properties.cached {
                        1u32
                    } else {
                        0u32
                    }),
                )
            } else {
                None
            },
            MemoryUsage::Download => if properties.host_visible {
                Some(
                    (if properties.cached {
                        2u32
                    } else {
                        0u32
                    }) + (if properties.coherent {
                        1u32
                    } else {
                        0u32
                    }),
                )
            } else {
                None
            },
        }
    }

    /// How well each allocator kind serves this usage. Policy: long-lived
    /// resources score the general allocator highest; transient uploads and
    /// downloads score the linear allocator highest; the dedicated allocator
    /// is always a (last) resort.
    pub open spec fn spec_allocator_fitness(self, kind: Kind) -> u32 {
        match self {
            MemoryUsage::Private => match kind {
                Kind::Dedicated => 1u32,
                Kind::General => 2u32,
                Kind::Linear => 0u32,
            },
            MemoryUsage::Dynamic { .. } => match kind {
                Kind::Dedicated => 1u32,
                Kind::General => 2u32,
                Kind::Linear => 0u32,
            },
            MemoryUsage::Upload => match kind {
                Kind::Dedicated => 1u32,
                Kind::General => 0u32,
                Kind::Linear => 2u32,
            },
            MemoryUsage::Download => match kind {
                Kind::Dedicated => 1u32,
                Kind::General => 0u32,
                Kind::Linear => 2u32,
            },
        }
    }

    /// How well each allocator kind serves this usage.
    pub fn allocator_fitness(&self, kind: Kind) -> (r: u32)
        ensures
            r == self.spec_allocator_fitness(kind),
    {
        match self {
            MemoryUsage::Private | MemoryUsage::Dynamic { .. } => match kind {
                Kind::Dedicated => 1,
                Kind::General => 2,
                Kind::Linear => 0,
            },
            MemoryUsage::Upload | MemoryUsage::Download => match kind {
                Kind::Dedicated => 1,
                Kind::General => 0,
                Kind::Linear => 2,
            },
        }
    }
}

} // verus!
