use kmem::acpi::{self as tables, AcpiHeader, AcpiTableIterator, RsdpHeader, RsdtType, SdtHeader};
use kmem::frame_allocator::{MemoryRegion, MemoryRegionKind};
use kmem::memory::MemorySystem;
use kmem::paging::{MapError, Translation, PRESENT};

fn rsdp_bytes(revision: u8) -> Vec<u8> {
    let mut b = vec![0u8; 36];
    b[..8].copy_from_slice(b"RSD PTR ");
    b[15] = revision;
    b[16..20].copy_from_slice(&0x1234_5678u32.to_le_bytes());
    b[24..32].copy_from_slice(&0x1122_3344_5566_7788u64.to_le_bytes());
    b
}

fn sdt_bytes(sig: &[u8; 4], length: u32) -> Vec<u8> {
    let mut b = vec![0u8; 36];
    b[..4].copy_from_slice(sig);
    b[4..8].copy_from_slice(&length.to_le_bytes());
    b
}

#[test]
fn rsdp_revision_two_points_to_xsdt() {
    let r = RsdpHeader::from_bytes(&rsdp_bytes(2)).unwrap();
    assert_eq!(r.revision, 2);
    assert_eq!(r.sdt_type(), RsdtType::Xsdt);
    assert_eq!(r.sdt_address(), 0x1122_3344_5566_7788);
}

#[test]
fn rsdp_revision_zero_points_to_rsdt() {
    let r = RsdpHeader::from_bytes(&rsdp_bytes(0)).unwrap();
    assert_eq!(r.sdt_type(), RsdtType::Rsdt);
    assert_eq!(r.sdt_address(), 0x1234_5678);
}

#[test]
fn short_buffers_are_refused() {
    assert!(RsdpHeader::from_bytes(&[0u8; 35]).is_none());
    assert!(SdtHeader::from_bytes(0x1000, &[0u8; 10]).is_none());
}

#[test]
fn sdt_header_fields() {
    let h = SdtHeader::from_bytes(0x1000, &sdt_bytes(b"XSDT", 52)).unwrap();
    assert_eq!(h.address(), 0x1000);
    assert_eq!(&h.signature(), b"XSDT");
    assert_eq!(h.data_address(), 0x1024);
    assert_eq!(h.data_length(), 16);
}

#[test]
fn xsdt_walk_steps_eight_bytes() {
    let h = SdtHeader::from_bytes(0x1000, &sdt_bytes(b"XSDT", 52)).unwrap();
    let mut it = AcpiTableIterator::from_xsdt(h);
    assert_eq!(it.next(), Some(0x1024));
    assert_eq!(it.next(), Some(0x102c));
    assert_eq!(it.next(), None);
    assert_eq!(it.next(), None);
}

#[test]
fn rsdt_walk_steps_four_bytes() {
    let h = SdtHeader::from_bytes(0x2000, &sdt_bytes(b"RSDT", 50)).unwrap();
    let mut it = AcpiTableIterator::from_rsdt(h);
    assert_eq!(it.next(), Some(0x2024));
    assert_eq!(it.next(), Some(0x2028));
    assert_eq!(it.next(), Some(0x202c));
    assert_eq!(it.next(), None);
}

#[test]
fn explicit_walk_and_empty_table() {
    let h = SdtHeader::from_bytes(0x3000, &sdt_bytes(b"RSDT", 36)).unwrap();
    let mut it = AcpiTableIterator::from_rsdt(h);
    assert_eq!(it.next(), None);
    let mut it = AcpiTableIterator::new(RsdtType::Xsdt, h, 1);
    assert_eq!(it.next(), Some(0x3024));
    assert_eq!(it.next(), None);
}

#[test]
fn init_lists_every_entry() {
    let rsdp = RsdpHeader::from_bytes(&rsdp_bytes(2)).unwrap();
    let sdt = SdtHeader::from_bytes(0x5000, &sdt_bytes(b"XSDT", 36 + 24)).unwrap();
    let header = AcpiHeader::from_rsdp(&rsdp, sdt);
    assert!(matches!(header, AcpiHeader::Xsdt(_, _)));
    let (main, entries) = tables::init(header);
    assert_eq!(main.address(), 0x5000);
    assert_eq!(entries, vec![0x5024, 0x502c, 0x5034]);

    let rsdp = RsdpHeader::from_bytes(&rsdp_bytes(0)).unwrap();
    let header = AcpiHeader::from_rsdp(&rsdp, sdt);
    assert!(matches!(header, AcpiHeader::Rsdt(_, _)));
    let (_, entries) = tables::init(header);
    assert_eq!(entries, vec![0x5024, 0x5028, 0x502c, 0x5030, 0x5034, 0x5038]);
}

#[test]
fn table_pages_are_identity_mapped_once() {
    let mut m = MemorySystem::new();
    let regions = vec![MemoryRegion { start: 0x10_0000, end: 0x100_0000, kind: MemoryRegionKind::Usable }];
    m.init(0, 0x1000, regions);
    assert_eq!(tables::map_table(&mut m, 0xe_0010), Ok(()));
    assert_eq!(m.translate(0xe_0000), Some(Translation { frame: 0xe_0000, flags: PRESENT }));
    assert_eq!(tables::map_table(&mut m, 0xe_0020), Err(MapError::PageAlreadyMapped(0xe_0000)));
    // a table that straddles a page boundary needs both pages
    assert_eq!(tables::map_table(&mut m, 0xe_1fff), Ok(()));
    assert_eq!(m.translate(0xe_1000), Some(Translation { frame: 0xe_1000, flags: PRESENT }));
    assert_eq!(m.translate(0xe_2000), Some(Translation { frame: 0xe_2000, flags: PRESENT }));
}
