//! Kernel entry sequencing.
//!
//! The initialization order is fixed and non-reorderable: diagnostics
//! bring-up (done by the embedding before calling in here), boot-protocol
//! revision validation, frame-allocator construction and seeding from the
//! memory map, virtual-memory initialization with the seeded allocator,
//! then the diagnostic splash. Each failure is fatal: the embedding halts
//! forever instead of retrying, because a loader that broke its contract
//! cannot be trusted again.

use vstd::prelude::*;

verus! {

use crate::limine::{validate_version, BootError, BootInfo, FramebufferInfo, SUPPORTED_REVISION};
use crate::pmm;
use crate::pmm::{seeded_frame_count, seeded_frames, PhysicalMemoryAllocator};
use crate::vmm;
use vstd::arithmetic::div_mod::{
    lemma_mod_multiples_vanish, lemma_small_mod,
};
use vstd::arithmetic::mul::{lemma_mul_is_distributive_add_other_way, lemma_mul_inequality};

/// What a successful entry sequence hands onward: the seeded physical
/// frame allocator (the embedding wraps it once in a lock-guarded shared
/// handle) and the framebuffer descriptor for the diagnostic splash.
pub struct KernelHandoff {
    pub pmm: PhysicalMemoryAllocator,
    pub framebuffer: FramebufferInfo,
}

/// The decision core of the entry sequence, run over the loader snapshot:
/// validate the protocol revision, require a memory map and seed the frame
/// allocator from it, hand the seeded allocator to the virtual-memory
/// step, and require a framebuffer for the splash step.
///
/// Revision validation strictly precedes seeding: on an unsupported
/// revision the allocator is never built, whatever else the snapshot
/// holds, and the sequence stops with `UnsupportedProtocolRevision`.
pub fn kernel_init(boot: &BootInfo) -> (r: Result<KernelHandoff, BootError>)
    requires
        boot.loaded_revision == Some(SUPPORTED_REVISION) && boot.memory_map is Some ==> {
            &&& forall|i: int|
                0 <= i < boot.memory_map->Some_0@.len() && (#[trigger] boot.memory_map->Some_0@[i]).entry_type
                    is Usable ==> boot.memory_map->Some_0@[i].base
                    + boot.memory_map->Some_0@[i].length <= usize::MAX
            &&& seeded_frames(boot.memory_map->Some_0@).no_duplicates()
        },
    ensures
        boot.loaded_revision != Some(SUPPORTED_REVISION) ==> r == Err::<
            KernelHandoff,
            BootError,
        >(BootError::UnsupportedProtocolRevision),
        boot.loaded_revision == Some(SUPPORTED_REVISION) && boot.memory_map is None ==> r
            == Err::<KernelHandoff, BootError>(BootError::MissingMemoryMap),
        boot.loaded_revision == Some(SUPPORTED_REVISION) && boot.memory_map is Some
            && boot.framebuffers@.len() == 0 ==> r == Err::<KernelHandoff, BootError>(
            BootError::MissingFramebuffer,
        ),
        boot.loaded_revision == Some(SUPPORTED_REVISION) && boot.memory_map is Some
            && boot.framebuffers@.len() > 0 ==> {
            &&& r is Ok
            &&& r->Ok_0.pmm.wf()
            &&& r->Ok_0.pmm@ == seeded_frames(boot.memory_map->Some_0@)
            &&& r->Ok_0.pmm@.len() == seeded_frame_count(boot.memory_map->Some_0@)
            &&& r->Ok_0.framebuffer == boot.framebuffers@[0]
        },
{
    match validate_version(boot.loaded_revision) {
        Err(e) => {
            return Err(e);
        },
        Ok(_) => {},
    }
    let map = match boot.get_memory_map() {
        Ok(m) => m,
        Err(e) => {
            return Err(e);
        },
    };
    let allocator = pmm::init(map);
    vmm::init(&allocator);
    let framebuffer = match boot.get_framebuffer() {
        Ok(f) => f,
        Err(e) => {
            return Err(e);
        },
    };
    Ok(KernelHandoff { pmm: allocator, framebuffer })
}

/// Expected byte at offset `i` of the rendered splash surface: scanlines
/// of little-endian BGRA pixels with blue and alpha at full intensity and
/// green and red zero across the visible width, zero padding from there to
/// the pitch.
pub open spec fn spec_splash_byte(fb: FramebufferInfo, i: int) -> u8 {
    let b = i % (fb.pitch as int);
    if b < fb.width * 4 {
        if b % 4 == 0 || b % 4 == 3 {
            0xff
        } else {
            0
        }
    } else {
        0
    }
}

/// Renders the diagnostic splash for a 32-bit BGRA framebuffer into a
/// fresh byte surface of `height` scanlines, `pitch` bytes each; the
/// embedding copies it onto the framebuffer memory at `fb.address`.
#[verifier::loop_isolation(false)]
pub fn splash_screen(fb: FramebufferInfo) -> (buf: Vec<u8>)
    requires
        fb.bpp == 32,
        fb.width * 4 <= fb.pitch,
        fb.pitch <= usize::MAX,
        fb.height <= usize::MAX,
        fb.height * fb.pitch <= usize::MAX,
    ensures
        buf@.len() == fb.height * fb.pitch,
        forall|i: int| 0 <= i < buf@.len() ==> buf@[i] == spec_splash_byte(fb, i),
{
    let pitch = fb.pitch as usize;
    let width4 = (fb.width as usize) * 4;
    let height = fb.height as usize;
    let mut buf: Vec<u8> = Vec::new();
    let mut y: usize = 0;
    while y < height
        invariant
            y <= height,
            buf@.len() == y * fb.pitch,
            forall|i: int| 0 <= i < buf@.len() ==> buf@[i] == spec_splash_byte(fb, i),
        decreases height - y,
    {
        let mut b: usize = 0;
        proof {
            lemma_mul_inequality(y as int + 1, height as int, pitch as int);
            lemma_mul_is_distributive_add_other_way(pitch as int, y as int, 1);
        }
        while b < pitch
            invariant
                y < height,
                b <= pitch,
                buf@.len() == y * fb.pitch + b,
                forall|i: int| 0 <= i < buf@.len() ==> buf@[i] == spec_splash_byte(fb, i),
            decreases pitch - b,
        {
            let v: u8 = if b < width4 {
                let k = b % 4;
                if k == 0 || k == 3 {
                    0xff
                } else {
                    0
                }
            } else {
                0
            };
            proof {
                lemma_mod_multiples_vanish(y as int, b as int, pitch as int);
                lemma_small_mod(b as nat, pitch as nat);
                assert(spec_splash_byte(fb, y * fb.pitch + b) == v);
            }
            buf.push(v);
            b = b + 1;
        }
        y = y + 1;
    }
    buf
}

/// The rendered splash surface holds, at each visible pixel, the four
/// little-endian BGRA bytes of a pure-blue, fully opaque pixel.
pub proof fn lemma_splash_pixel(fb: FramebufferInfo, x: int, y: int)
    requires
        0 <= x < fb.width,
        0 <= y < fb.height,
        fb.width * 4 <= fb.pitch,
    ensures
        spec_splash_byte(fb, y * fb.pitch + x * 4) == 0xff,
        spec_splash_byte(fb, y * fb.pitch + x * 4 + 1) == 0,
        spec_splash_byte(fb, y * fb.pitch + x * 4 + 2) == 0,
        spec_splash_byte(fb, y * fb.pitch + x * 4 + 3) == 0xff,
{
    let p = fb.pitch as int;
    lemma_mod_multiples_vanish(y, x * 4, p);
    lemma_mod_multiples_vanish(y, x * 4 + 1, p);
    lemma_mod_multiples_vanish(y, x * 4 + 2, p);
    lemma_mod_multiples_vanish(y, x * 4 + 3, p);
    lemma_small_mod((x * 4) as nat, p as nat);
    lemma_small_mod((x * 4 + 1) as nat, p as nat);
    lemma_small_mod((x * 4 + 2) as nat, p as nat);
    lemma_small_mod((x * 4 + 3) as nat, p as nat);
    lemma_mod_multiples_vanish(x, 0, 4);
    lemma_mod_multiples_vanish(x, 1, 4);
    lemma_mod_multiples_vanish(x, 2, 4);
    lemma_mod_multiples_vanish(x, 3, 4);
    lemma_small_mod(0nat, 4nat);
    lemma_small_mod(1nat, 4nat);
    lemma_small_mod(2nat, 4nat);
    lemma_small_mod(3nat, 4nat);
}

} // verus!
