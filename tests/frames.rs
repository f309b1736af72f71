use kmem::frame_allocator::{GlobalFrameAllocator, MemoryRegion, MemoryRegionKind};

fn region(start: u64, end: u64, kind: MemoryRegionKind) -> MemoryRegion {
    MemoryRegion { start, end, kind }
}

#[test]
fn frames_follow_map_order() {
    let mut a = GlobalFrameAllocator::new(vec![
        region(0x1000, 0x4000, MemoryRegionKind::Usable),
        region(0x4000, 0x5000, MemoryRegionKind::Bootloader),
        region(0x10000, 0x12000, MemoryRegionKind::Usable),
    ]);
    assert_eq!(a.allocate_frame(), Some(0x1000));
    assert_eq!(a.allocate_frame(), Some(0x2000));
    assert_eq!(a.allocate_frame(), Some(0x3000));
    assert_eq!(a.allocate_frame(), Some(0x10000));
    assert_eq!(a.allocate_frame(), Some(0x11000));
    assert_eq!(a.allocate_frame(), None);
    assert_eq!(a.issued(), 5);
}

#[test]
fn unaligned_region_start_rounds_down() {
    let mut a = GlobalFrameAllocator::new(vec![region(0x1800, 0x3000, MemoryRegionKind::Usable)]);
    assert_eq!(a.allocate_frame(), Some(0x1000));
    assert_eq!(a.allocate_frame(), Some(0x2000));
    assert_eq!(a.allocate_frame(), None);
}

#[test]
fn exhaustion_after_exactly_n_frames() {
    let mut a = GlobalFrameAllocator::new(vec![
        region(0x1000, 0x3000, MemoryRegionKind::Usable),
        region(0x8000, 0x9000, MemoryRegionKind::Usable),
        region(0x9000, 0xa000, MemoryRegionKind::UnknownUefi(7)),
    ]);
    for _ in 0..3 {
        assert!(a.allocate_frame().is_some());
    }
    assert_eq!(a.allocate_frame(), None);
    assert_eq!(a.allocate_frame(), None);
    assert_eq!(a.issued(), 3);
}

#[test]
fn empty_and_reserved_maps_issue_nothing() {
    let mut a = GlobalFrameAllocator::new(vec![]);
    assert_eq!(a.allocate_frame(), None);
    let mut b = GlobalFrameAllocator::new(vec![
        region(0x5000, 0x5000, MemoryRegionKind::Usable),
        region(0x1000, 0x9000, MemoryRegionKind::UnknownBios(1)),
    ]);
    assert_eq!(b.allocate_frame(), None);
}

#[test]
fn issued_frames_strictly_increase() {
    let mut a = GlobalFrameAllocator::new(vec![
        region(0x0, 0x5000, MemoryRegionKind::Usable),
        region(0x5000, 0x6000, MemoryRegionKind::Bootloader),
        region(0x6000, 0x9800, MemoryRegionKind::Usable),
    ]);
    let mut seen = Vec::new();
    while let Some(f) = a.allocate_frame() {
        if let Some(&last) = seen.last() {
            assert!(f > last);
        }
        seen.push(f);
    }
    assert_eq!(seen.len(), 9);
    assert_eq!(*seen.last().unwrap(), 0x9000);
}

#[test]
fn regions_sharing_a_frame_issue_it_twice() {
    // the second region starts inside the last frame of the first one
    let mut a = GlobalFrameAllocator::new(vec![
        region(0x1000, 0x2800, MemoryRegionKind::Usable),
        region(0x2800, 0x4000, MemoryRegionKind::Usable),
    ]);
    assert_eq!(a.allocate_frame(), Some(0x1000));
    assert_eq!(a.allocate_frame(), Some(0x2000));
    assert_eq!(a.allocate_frame(), Some(0x2000));
    assert_eq!(a.allocate_frame(), Some(0x3000));
    assert_eq!(a.allocate_frame(), None);
}

#[test]
fn regions_out_of_order_never_repeat_a_frame() {
    let mut a = GlobalFrameAllocator::new(vec![
        region(0x10000, 0x12000, MemoryRegionKind::Usable),
        region(0x1000, 0x3000, MemoryRegionKind::Usable),
    ]);
    let mut seen = Vec::new();
    while let Some(f) = a.allocate_frame() {
        assert!(!seen.contains(&f));
        seen.push(f);
    }
    // ascending within each region, regions in map order
    assert_eq!(seen, vec![0x10000, 0x11000, 0x1000, 0x2000]);
}
