//! Boot-protocol negotiation.
//!
//! The bootloader hands the kernel a protocol revision marker, a memory map
//! and zero or more framebuffer descriptors. This module validates the
//! revision against the one the kernel is built for and exposes the memory
//! map and the first framebuffer. Every violation of the boot contract is
//! fatal for the caller: a loader that breaks its declared contract cannot
//! be trusted to retry, so the entry sequence halts on any of these errors.

use vstd::prelude::*;

verus! {

/// Boot-protocol revision this kernel is built for.
pub const SUPPORTED_REVISION: u64 = 0;

/// Firmware-reported usability classification of a physical memory region.
/// Only `Usable` regions may be fed to the frame allocator.
#[derive(Clone, Copy, Debug, PartialEq, Eq, Structural)]
pub enum RegionType {
    Usable,
    Reserved,
    AcpiReclaimable,
    AcpiNvs,
    BadMemory,
    BootloaderReclaimable,
    Unknown,
}

/// One entry of the loader-provided memory map: a contiguous physical
/// address range `[base, base + length)` with one classification.
#[derive(Clone, Copy, Debug, PartialEq, Eq, Structural)]
pub struct MemoryMapEntry {
    pub base: u64,
    pub length: u64,
    pub entry_type: RegionType,
}

/// Loader-discovered linear framebuffer: base address, pixel geometry and
/// `pitch` bytes per scanline, little-endian BGRA pixels.
#[derive(Clone, Copy, Debug, PartialEq, Eq, Structural)]
pub struct FramebufferInfo {
    pub address: u64,
    pub width: u64,
    pub height: u64,
    pub pitch: u64,
    pub bpp: u16,
}

/// Fatal boot failures. All of them halt the entry sequence; allocator
/// exhaustion is deliberately not among them, it is an ordinary return
/// value of the frame allocator.
#[derive(Clone, Copy, Debug, PartialEq, Eq, Structural)]
pub enum BootError {
    UnsupportedProtocolRevision,
    MissingMemoryMap,
    MissingFramebuffer,
}

/// Immutable snapshot of the loader handoff, read once at entry: the
/// revision marker the loader wrote, the memory map if it supplied one,
/// and the framebuffers it discovered, in discovery order.
pub struct BootInfo {
    pub loaded_revision: Option<u64>,
    pub memory_map: Option<Vec<MemoryMapEntry>>,
    pub framebuffers: Vec<FramebufferInfo>,
}

/// Compares the loader-reported protocol revision against the revision this
/// kernel is built for. Anything but an exact match on `SUPPORTED_REVISION`
/// (including a loader that wrote no revision at all) is unsupported:
/// continuing would mean trusting response structures whose layout is not
/// guaranteed.
pub fn validate_version(loaded_revision: Option<u64>) -> (r: Result<(), BootError>)
    ensures
        loaded_revision == Some(SUPPORTED_REVISION) ==> r is Ok,
        loaded_revision != Some(SUPPORTED_REVISION) ==> r == Err::<(), BootError>(
            BootError::UnsupportedProtocolRevision,
        ),
{
    match loaded_revision {
        Some(rev) => {
            if rev == SUPPORTED_REVISION {
                Ok(())
            } else {
                Err(BootError::UnsupportedProtocolRevision)
            }
        },
        None => Err(BootError::UnsupportedProtocolRevision),
    }
}

impl BootInfo {
    /// Returns the memory map in the order the loader reported it, or
    /// `MissingMemoryMap` when the loader supplied none; without a map the
    /// frame allocator cannot be seeded and nothing downstream can proceed.
    pub fn get_memory_map(&self) -> (r: Result<&Vec<MemoryMapEntry>, BootError>)
        ensures
            r is Ok <==> self.memory_map is Some,
            self.memory_map is Some ==> r is Ok && r->Ok_0@ == self.memory_map->Some_0@,
            self.memory_map is None ==> r == Err::<&Vec<MemoryMapEntry>, BootError>(
                BootError::MissingMemoryMap,
            ),
    {
        match &self.memory_map {
            Some(map) => Ok(map),
            None => Err(BootError::MissingMemoryMap),
        }
    }

    /// Returns the first framebuffer the loader discovered, or
    /// `MissingFramebuffer` when there is none; the diagnostic splash step
    /// requires one.
    pub fn get_framebuffer(&self) -> (r: Result<FramebufferInfo, BootError>)
        ensures
            self.framebuffers@.len() > 0 ==> r == Ok::<FramebufferInfo, BootError>(
                self.framebuffers@[0],
            ),
            self.framebuffers@.len() == 0 ==> r == Err::<FramebufferInfo, BootError>(
                BootError::MissingFramebuffer,
            ),
    {
        if self.framebuffers.len() > 0 {
            Ok(self.framebuffers[0])
        } else {
            Err(BootError::MissingFramebuffer)
        }
    }
}

} // verus!
