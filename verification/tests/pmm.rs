use atahos::pmm::{memory_region_to_string, PhysicalMemoryAllocator, PAGE_SIZE};
use atahos::limine::RegionType;

#[test]
fn new_allocator_is_empty() {
    let mut a = PhysicalMemoryAllocator::new();
    assert_eq!(a.available_frames(), 0);
    assert_eq!(a.total_memory(), 0);
    assert_eq!(a.allocate_frame(), None);
}

#[test]
fn allocate_on_empty_returns_none_repeatedly() {
    let mut a = PhysicalMemoryAllocator::new();
    for _ in 0..8 {
        assert_eq!(a.allocate_frame(), None);
        assert_eq!(a.available_frames(), 0);
    }
}

#[test]
fn aligned_region_of_three_pages() {
    // PAGE_SIZE = 0x1000; [0x1000, 0x4000) holds exactly the three frames
    // 0x1000, 0x2000 and 0x3000.
    assert_eq!(PAGE_SIZE, 0x1000);
    let mut a = PhysicalMemoryAllocator::new();
    a.add_region(0x1000, 0x3000);
    assert_eq!(a.available_frames(), 3);
    assert_eq!(a.total_memory(), 0x3000);
    assert_eq!(a.allocate_frame(), Some(0x3000));
    assert_eq!(a.allocate_frame(), Some(0x2000));
    assert_eq!(a.allocate_frame(), Some(0x1000));
    assert_eq!(a.allocate_frame(), None);
}

#[test]
fn misaligned_region_trims_to_one_page() {
    // [0x1800, 0x3800): the start aligns up to 0x2000 and only
    // [0x2000, 0x3000) fits as a whole page.
    let mut a = PhysicalMemoryAllocator::new();
    a.add_region(0x1800, 0x2000);
    assert_eq!(a.available_frames(), 1);
    assert_eq!(a.allocate_frame(), Some(0x2000));
    assert_eq!(a.allocate_frame(), None);
}

#[test]
fn short_region_contributes_nothing() {
    let mut a = PhysicalMemoryAllocator::new();
    a.add_region(0x1000, 0xfff);
    assert_eq!(a.available_frames(), 0);
    // A page-sized span that straddles a boundary holds no whole page
    // after alignment trimming either.
    a.add_region(0x1100, 0x1000);
    assert_eq!(a.available_frames(), 0);
    assert_eq!(a.total_memory(), 0);
}

#[test]
fn counts_add_up_over_disjoint_regions() {
    let mut a = PhysicalMemoryAllocator::new();
    a.add_region(0x1000, 0x3000); // 3 frames
    a.add_region(0x10000, 0x1800); // 1 frame
    a.add_region(0x20100, 0xfff); // 0 frames
    assert_eq!(a.available_frames(), 3 + 1);
    assert_eq!(a.total_memory(), 4 * PAGE_SIZE);
}

#[test]
fn allocate_then_deallocate_restores_count() {
    let mut a = PhysicalMemoryAllocator::new();
    a.add_region(0x1000, 0x2000);
    let before = a.available_frames();
    let frame = a.allocate_frame().unwrap();
    a.deallocate_frame(frame);
    assert_eq!(a.available_frames(), before);
    // The restored pool hands the same frame out again.
    assert_eq!(a.allocate_frame(), Some(frame));
}

#[test]
fn free_order_is_lifo() {
    let mut a = PhysicalMemoryAllocator::new();
    a.add_region(0x1000, 0x2000);
    let first = a.allocate_frame().unwrap();
    let second = a.allocate_frame().unwrap();
    // Free A = first, then B = second: the next allocations return B
    // then A.
    a.deallocate_frame(first);
    a.deallocate_frame(second);
    assert_eq!(a.allocate_frame(), Some(second));
    assert_eq!(a.allocate_frame(), Some(first));
}

#[test]
fn region_type_names() {
    assert_eq!(memory_region_to_string(RegionType::Usable), "Usable");
    assert_eq!(memory_region_to_string(RegionType::Reserved), "Reserved");
    assert_eq!(
        memory_region_to_string(RegionType::AcpiReclaimable),
        "ACPI Reclaimable"
    );
    assert_eq!(memory_region_to_string(RegionType::AcpiNvs), "ACPI NVS");
    assert_eq!(memory_region_to_string(RegionType::BadMemory), "Bad Memory");
    assert_eq!(
        memory_region_to_string(RegionType::BootloaderReclaimable),
        "Bootloader Reclaimable"
    );
    assert_eq!(memory_region_to_string(RegionType::Unknown), "Unknown");
}
