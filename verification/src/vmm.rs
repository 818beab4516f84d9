//! Virtual-memory bring-up.
//!
//! Its position in the entry sequence is fixed: strictly after the frame
//! allocator has been seeded and before the diagnostic splash. Growing the
//! address space by mapping frames from the allocator is an open extension
//! point, so the step itself performs no mapping yet.

use vstd::prelude::*;

verus! {

use crate::pmm::PhysicalMemoryAllocator;

/// Virtual-memory initialization step of the entry sequence. Its input
/// contract is a ready, seeded frame allocator; what it will map is an
/// open extension point, so for now receiving that allocator is the whole
/// step.
pub fn init(pmm: &PhysicalMemoryAllocator)
    requires
        pmm.wf(),
{
}

} // verus!
