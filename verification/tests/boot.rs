use atahos::kernel::{kernel_init, splash_screen};
use atahos::limine::{
    validate_version, BootError, BootInfo, FramebufferInfo, MemoryMapEntry, RegionType,
    SUPPORTED_REVISION,
};

fn usable(base: u64, length: u64) -> MemoryMapEntry {
    MemoryMapEntry {
        base,
        length,
        entry_type: RegionType::Usable,
    }
}

fn reserved(base: u64, length: u64) -> MemoryMapEntry {
    MemoryMapEntry {
        base,
        length,
        entry_type: RegionType::Reserved,
    }
}

fn small_framebuffer() -> FramebufferInfo {
    FramebufferInfo {
        address: 0xe000_0000,
        width: 2,
        height: 2,
        pitch: 12,
        bpp: 32,
    }
}

#[test]
fn validate_version_accepts_supported_revision() {
    assert!(validate_version(Some(SUPPORTED_REVISION)).is_ok());
}

#[test]
fn validate_version_rejects_other_revisions() {
    assert_eq!(
        validate_version(Some(SUPPORTED_REVISION + 1)),
        Err(BootError::UnsupportedProtocolRevision)
    );
    assert_eq!(
        validate_version(None),
        Err(BootError::UnsupportedProtocolRevision)
    );
}

#[test]
fn memory_map_is_handed_out_in_order() {
    let boot = BootInfo {
        loaded_revision: Some(SUPPORTED_REVISION),
        memory_map: Some(vec![usable(0x1000, 0x3000), reserved(0x9000, 0x1000)]),
        framebuffers: vec![],
    };
    let map = boot.get_memory_map().unwrap();
    assert_eq!(map.len(), 2);
    assert_eq!(map[0].base, 0x1000);
    assert_eq!(map[1].entry_type, RegionType::Reserved);
}

#[test]
fn missing_memory_map_is_reported() {
    let boot = BootInfo {
        loaded_revision: Some(SUPPORTED_REVISION),
        memory_map: None,
        framebuffers: vec![],
    };
    assert_eq!(
        boot.get_memory_map().unwrap_err(),
        BootError::MissingMemoryMap
    );
}

#[test]
fn first_framebuffer_is_returned() {
    let fb0 = small_framebuffer();
    let mut fb1 = small_framebuffer();
    fb1.address = 0xf000_0000;
    let boot = BootInfo {
        loaded_revision: Some(SUPPORTED_REVISION),
        memory_map: None,
        framebuffers: vec![fb0, fb1],
    };
    assert_eq!(boot.get_framebuffer(), Ok(fb0));
}

#[test]
fn missing_framebuffer_is_reported() {
    let boot = BootInfo {
        loaded_revision: Some(SUPPORTED_REVISION),
        memory_map: None,
        framebuffers: vec![],
    };
    assert_eq!(
        boot.get_framebuffer().unwrap_err(),
        BootError::MissingFramebuffer
    );
}

#[test]
fn entry_sequence_seeds_from_usable_regions_only() {
    let boot = BootInfo {
        loaded_revision: Some(SUPPORTED_REVISION),
        memory_map: Some(vec![
            usable(0x1000, 0x3000),
            reserved(0x5000, 0x10000),
            usable(0x1800_0000, 0x1800),
        ]),
        framebuffers: vec![small_framebuffer()],
    };
    let handoff = kernel_init(&boot).ok().unwrap();
    let mut pmm = handoff.pmm;
    assert_eq!(pmm.available_frames(), 3 + 1);
    assert_eq!(handoff.framebuffer, small_framebuffer());
    // Seeding went region by region, so the last usable region's frame
    // comes back first.
    assert_eq!(pmm.allocate_frame(), Some(0x1800_0000));
    assert_eq!(pmm.allocate_frame(), Some(0x3000));
}

#[test]
fn unsupported_revision_halts_before_seeding() {
    // The negotiator is replaced by a snapshot that carries a perfectly
    // good memory map but an unsupported revision: the sequence must stop
    // at validation, before the allocator is ever seeded.
    let boot = BootInfo {
        loaded_revision: Some(SUPPORTED_REVISION + 41),
        memory_map: Some(vec![usable(0x1000, 0x3000)]),
        framebuffers: vec![small_framebuffer()],
    };
    match kernel_init(&boot) {
        Err(e) => assert_eq!(e, BootError::UnsupportedProtocolRevision),
        Ok(_) => panic!("an unsupported revision must not produce a handoff"),
    }
}

#[test]
fn missing_memory_map_halts_the_sequence() {
    let boot = BootInfo {
        loaded_revision: Some(SUPPORTED_REVISION),
        memory_map: None,
        framebuffers: vec![small_framebuffer()],
    };
    assert_eq!(
        kernel_init(&boot).err().unwrap(),
        BootError::MissingMemoryMap
    );
}

#[test]
fn missing_framebuffer_halts_the_sequence() {
    let boot = BootInfo {
        loaded_revision: Some(SUPPORTED_REVISION),
        memory_map: Some(vec![usable(0x1000, 0x3000)]),
        framebuffers: vec![],
    };
    assert_eq!(
        kernel_init(&boot).err().unwrap(),
        BootError::MissingFramebuffer
    );
}

#[test]
fn splash_surface_is_blue_opaque_bgra() {
    let fb = small_framebuffer();
    let buf = splash_screen(fb);
    assert_eq!(buf.len(), 24);
    let scanline = [
        0xff, 0x00, 0x00, 0xff, // pixel 0: blue, opaque
        0xff, 0x00, 0x00, 0xff, // pixel 1: blue, opaque
        0x00, 0x00, 0x00, 0x00, // padding up to the pitch
    ];
    assert_eq!(&buf[..12], &scanline);
    assert_eq!(&buf[12..], &scanline);
}
