//! Boot-time core of a minimal kernel.
//!
//! The crate has three tightly coupled pieces: boot-protocol negotiation
//! (validating the loader's revision and handing out the memory map and
//! framebuffer it discovered), a physical frame allocator that manages
//! page-granular memory as a LIFO free pool, and the fixed kernel entry
//! sequence that seeds the allocator from the memory map and hands it on.
//!
//! The allocator is modelled over the addresses of its free frames; the
//! unsafe store that reuses a free frame's own bytes as the list link, the
//! loader handoff structures, and the lock-guarded sharing of the seeded
//! allocator live outside this crate, in the unverified embedding.

pub mod console;
pub mod kernel;
pub mod limine;
pub mod pmm;
pub mod vmm;
