use kmem::frame_allocator::{MemoryRegion, MemoryRegionKind};
use kmem::heap::{HEAP_SIZE, HEAP_START};
use kmem::memory::MemorySystem;
use kmem::paging::{active_l4_table, containing_page, MapError, Translation, PRESENT, WRITABLE};

fn booted() -> MemorySystem {
    let mut m = MemorySystem::new();
    let regions = vec![
        MemoryRegion { start: 0, end: 0x10_0000, kind: MemoryRegionKind::Bootloader },
        MemoryRegion { start: 0x10_0000, end: 0x100_0000, kind: MemoryRegionKind::Usable },
    ];
    m.init(0, 0x1000, regions);
    m
}

#[test]
fn init_maps_the_heap() {
    let m = booted();
    assert!(m.is_initialized());
    // first heap page: its frame comes first, then one table per level
    assert_eq!(m.translate(HEAP_START), Some(Translation { frame: 0x10_0000, flags: PRESENT | WRITABLE }));
    assert_eq!(m.translate(HEAP_START + 0x1000), Some(Translation { frame: 0x10_4000, flags: 3 }));
    let mut a = HEAP_START;
    while a < HEAP_START + HEAP_SIZE {
        assert!(m.translate(a).is_some());
        a += 0x1000;
    }
    assert_eq!(m.translate(HEAP_START + HEAP_SIZE), None);
    assert_eq!(m.translate(HEAP_START - 0x1000), None);
    // 256 heap pages and three intermediate tables
    assert_eq!(m.frames_issued(), 259);
    assert_eq!(m.l4_table_address(), 0x1000);
}

#[test]
fn init_records_level_4_table_address() {
    let mut m = MemorySystem::new();
    let regions = vec![MemoryRegion { start: 0x10_0000, end: 0x20_0000, kind: MemoryRegionKind::Usable }];
    m.init(0xffff_8000_0000_0000, 0x2000, regions);
    assert_eq!(m.l4_table_address(), 0xffff_8000_0000_2000);
    let mut n = MemorySystem::new();
    let regions = vec![MemoryRegion { start: 0x10_0000, end: 0x20_0000, kind: MemoryRegionKind::Usable }];
    // bit 47 set with bits 48..64 clear is sign-extended
    n.init(0x8000_0000_0000, 0x2000, regions);
    assert_eq!(n.l4_table_address(), 0xffff_8000_0000_2000);
}

#[test]
fn exclusive_range_maps_three_pages() {
    let mut m = booted();
    assert_eq!(m.map_pages(0x1000_0000, 0x1000_3000, PRESENT, false), Ok(()));
    assert!(m.translate(0x1000_0000).is_some());
    assert!(m.translate(0x1000_1000).is_some());
    assert!(m.translate(0x1000_2000).is_some());
    assert_eq!(m.translate(0x1000_3000), None);
    assert_eq!(m.translate(0x0fff_f000), None);
}

#[test]
fn inclusive_range_maps_three_pages() {
    let mut m = booted();
    assert_eq!(m.map_pages(0x2000_0000, 0x2000_2000, PRESENT, true), Ok(()));
    assert!(m.translate(0x2000_0000).is_some());
    assert!(m.translate(0x2000_1000).is_some());
    assert!(m.translate(0x2000_2000).is_some());
    assert_eq!(m.translate(0x2000_3000), None);
}

#[test]
fn unaligned_bounds_cover_their_pages() {
    let mut m = booted();
    assert_eq!(m.map_pages(0x3000_0123, 0x3000_1456, WRITABLE | PRESENT, false), Ok(()));
    assert!(m.translate(0x3000_0000).is_some());
    assert_eq!(m.translate(0x3000_1000), None);
}

#[test]
fn empty_range_maps_nothing() {
    let mut m = booted();
    let before = m.frames_issued();
    assert_eq!(m.map_pages(0x4000_0000, 0x4000_0000, PRESENT, false), Ok(()));
    assert_eq!(m.map_pages(0x4000_5000, 0x4000_0000, PRESENT, true), Ok(()));
    assert_eq!(m.frames_issued(), before);
}

#[test]
fn mapping_twice_reports_conflict() {
    let mut m = booted();
    assert_eq!(m.map_pages(0x5000_0000, 0x5000_2000, PRESENT, false), Ok(()));
    let first = m.translate(0x5000_0000);
    let next = m.frames_issued();
    let r = m.map_pages(0x5000_0000, 0x5000_2000, PRESENT, false);
    assert!(matches!(r, Err(MapError::PageAlreadyMapped(_))));
    // the frame drawn for the refused page is the next one in line
    assert_eq!(r, Err(MapError::PageAlreadyMapped(0x10_0000 + next * 0x1000)));
    assert_eq!(m.translate(0x5000_0000), first);
}

#[test]
fn identity_map_binds_page_to_same_frame() {
    let mut m = booted();
    let before = m.frames_issued();
    assert_eq!(m.identity_map_pages(0xfee0_0000, 0xfee0_0001, PRESENT, true), Ok(()));
    assert_eq!(m.translate(0xfee0_0000), Some(Translation { frame: 0xfee0_0000, flags: PRESENT }));
    assert_eq!(m.translate(0xfee0_1000), None);
    // only the three missing intermediate tables consumed frames
    assert_eq!(m.frames_issued(), before + 3);
    let again = m.frames_issued();
    assert_eq!(
        m.identity_map_pages(0xfee0_0000, 0xfee0_0000, PRESENT, false),
        Ok(())
    );
    assert_eq!(
        m.identity_map_pages(0xfee0_0000, 0xfee0_0000, PRESENT, true),
        Err(MapError::PageAlreadyMapped(0xfee0_0000))
    );
    assert_eq!(m.frames_issued(), again);
}

#[test]
fn identity_map_within_existing_tables_keeps_cursor() {
    let mut m = booted();
    assert_eq!(m.identity_map_pages(0xfee0_0000, 0xfee0_0000, PRESENT, true), Ok(()));
    let before = m.frames_issued();
    assert_eq!(m.identity_map_pages(0xfee0_2000, 0xfee0_4000, PRESENT, false), Ok(()));
    assert_eq!(m.frames_issued(), before);
    assert_eq!(m.translate(0xfee0_3000), Some(Translation { frame: 0xfee0_3000, flags: PRESENT }));
}

#[test]
fn new_subsystem_is_not_initialized() {
    let m = MemorySystem::new();
    assert!(!m.is_initialized());
    assert!(booted().is_initialized());
}

#[test]
fn exactly_enough_frames_for_the_heap() {
    let mut m = MemorySystem::new();
    let regions = vec![MemoryRegion { start: 0x10_0000, end: 0x10_0000 + 259 * 0x1000, kind: MemoryRegionKind::Usable }];
    m.init(0, 0x1000, regions);
    assert_eq!(m.frames_issued(), 259);
    assert!(m.translate(HEAP_START + HEAP_SIZE - 0x1000).is_some());
    assert_eq!(m.map_pages(0x1000_0000, 0x1000_0000, PRESENT, true), Err(MapError::FrameAllocationFailed));
    assert_eq!(m.allocate_frame(), None);
}

#[test]
fn allocate_frame_through_the_subsystem() {
    let mut m = booted();
    assert_eq!(m.allocate_frame(), Some(0x10_0000 + 259 * 0x1000));
    assert_eq!(m.frames_issued(), 260);
}

#[test]
fn upper_half_mapping() {
    let mut m = booted();
    assert_eq!(m.map_pages(0xffff_8000_0000_0000, 0xffff_8000_0000_1000, PRESENT, true), Ok(()));
    assert!(m.translate(0xffff_8000_0000_0000).is_some());
    assert!(m.translate(0xffff_8000_0000_1000).is_some());
    // bit 47 set with bits 48..64 clear names the same page
    assert_eq!(m.map_pages(0x8000_0000_0000, 0x8000_0000_0000, PRESENT, true),
        Err(MapError::PageAlreadyMapped(0x10_0000 + 264 * 0x1000)));
}

#[test]
fn page_and_table_addresses() {
    assert_eq!(containing_page(0x1234), 0x1000);
    assert_eq!(containing_page(0x8000_0000_1234), 0xffff_8000_0000_1000);
    assert_eq!(containing_page(0xffff_ffff_ffff_ffff), 0xffff_ffff_ffff_f000);
    assert_eq!(active_l4_table(0x100_0000_0000, 0x1000), 0x100_0000_1000);
    assert_eq!(active_l4_table(0x8000_0000_0000, 0x1000), 0xffff_8000_0000_1000);
}

#[test]
fn upper_half_range_covers_three_pages() {
    let mut m = booted();
    let a = 0xffff_ffff_0000_0000u64;
    assert_eq!(m.map_pages(a, a + 0x3000, PRESENT, false), Ok(()));
    assert!(m.translate(a + 0x2000).is_some());
    assert_eq!(m.translate(a + 0x3000), None);
    assert_eq!(m.map_pages(a + 0x10000, a + 0x12000, PRESENT, true), Ok(()));
    assert!(m.translate(a + 0x12000).is_some());
    assert_eq!(m.translate(a + 0x13000), None);
}
