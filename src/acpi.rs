//! Firmware descriptor tables: the root pointer, table headers, and the walk
//! over the entries of the root table.
use vstd::prelude::*;
use crate::frame_allocator::PHYS_ADDR_LIMIT;
use crate::memory::{map_all, MemorySystem};
use crate::paging::{range_accepted, range_pages, PRESENT};

verus! {

/// Bytes in the root system description pointer.
pub const RSDP_SIZE: usize = 36;

/// Bytes in a system description table header.
pub const SDT_HEADER_SIZE: u64 = 36;

/// Which root table the firmware provides: 32-bit or 64-bit entries.
#[derive(Clone, Copy, Debug, PartialEq, Eq, Structural)]
pub enum RsdtType {
    Rsdt,
    Xsdt,
}

/// Little-endian value of `n` bytes of `b` from `off`.
pub open spec fn le_value(b: Seq<u8>, off: int, n: nat) -> nat
    decreases n,
{
    if n == 0 {
        0
    } else {
        b[off] as nat + 256 * le_value(b, off + 1, (n - 1) as nat)
    }
}

fn read_u32(b: &[u8], off: usize) -> (r: u32)
    requires
        off + 4 <= b@.len(),
    ensures
        r == le_value(b@, off as int, 4),
{
    let v: u32 = b[off] as u32 + 256 * (b[off + 1] as u32 + 256 * (b[off + 2] as u32 + 256 * (b[off
        + 3] as u32)));
    proof {
        reveal_with_fuel(le_value, 5);
    }
    v
}

fn read_u64(b: &[u8], off: usize) -> (r: u64)
    requires
        off + 8 <= b@.len(),
    ensures
        r == le_value(b@, off as int, 8),
{
    let len = b.len();
    let lo = read_u32(b, off) as u64;
    let hi = read_u32(b, off + 4) as u64;
    proof {
        lemma_le_split(b@, off as int, 4, 4);
        reveal_with_fuel(pow256, 5);
    }
    lo + 0x1_0000_0000 * hi
}

/// A little-endian value splits into its low and high bytes.
proof fn lemma_le_split(b: Seq<u8>, off: int, m: nat, n: nat)
    ensures
        le_value(b, off, m + n) == le_value(b, off, m) + pow256(m) * le_value(b, off + m, n),
    decreases m,
{
    if m > 0 {
        lemma_le_split(b, off + 1, (m - 1) as nat, n);
        assert((m + n - 1) as nat == (m - 1) as nat + n);
        assert(off + 1 + (m - 1) as nat == off + m);
        let x = le_value(b, off + 1, (m - 1) as nat);
        let y = le_value(b, off + m, n);
        let p = pow256((m - 1) as nat);
        assert(le_value(b, off, m + n) == b[off] as nat + 256 * (x + p * y));
        assert(le_value(b, off, m) == b[off] as nat + 256 * x);
        assert(pow256(m) == 256 * p);
        let bo = b[off] as nat;
        let q = pow256(m);
        let lm = le_value(b, off, m);
        let lmn = le_value(b, off, m + n);
        assert(lmn == lm + q * y) by (nonlinear_arith)
            requires
                lmn == bo + 256 * (x + p * y),
                lm == bo + 256 * x,
                q == 256 * p,
        ;
    } else {
        assert(m + n == n);
        assert(off + m == off);
        assert(pow256(m) == 1);
        assert(le_value(b, off, m) == 0);
    }
}

pub open spec fn pow256(n: nat) -> nat
    decreases n,
{
    if n == 0 {
        1
    } else {
        256 * pow256((n - 1) as nat)
    }
}

/// The root system description pointer, as far as the table walk reads it.
#[derive(Clone, Copy, Debug, PartialEq, Eq, Structural)]
pub struct RsdpHeader {
    pub revision: u8,
    pub rsdt_address: u32,
    pub xsdt_address: u64,
}

impl RsdpHeader {
    /// Revisions this walk knows: 0 (32-bit root table) and 2 (64-bit).
    pub open spec fn known_revision(&self) -> bool {
        self.revision == 0 || self.revision == 2
    }

    /// The root table kind of a known revision.
    pub open spec fn sdt_type_spec(&self) -> RsdtType {
        if self.revision == 0 {
            RsdtType::Rsdt
        } else {
            RsdtType::Xsdt
        }
    }

    /// Reads the pointer from its packed little-endian layout; `None` when
    /// fewer than `RSDP_SIZE` bytes are given.
    pub fn from_bytes(b: &[u8]) -> (r: Option<RsdpHeader>)
        ensures
            b@.len() < RSDP_SIZE ==> r is None,
            b@.len() >= RSDP_SIZE ==> r == Some(
                RsdpHeader {
                    revision: b@[15],
                    rsdt_address: le_value(b@, 16, 4) as u32,
                    xsdt_address: le_value(b@, 24, 8) as u64,
                },
            ),
    {
        if b.len() < RSDP_SIZE {
            return None;
        }
        Some(
            RsdpHeader {
                revision: b[15],
                rsdt_address: read_u32(b, 16),
                xsdt_address: read_u64(b, 24),
            },
        )
    }

    /// The kind of root table this revision points to.
    pub fn sdt_type(&self) -> (r: RsdtType)
        requires
            self.known_revision(),
        ensures
            r == self.sdt_type_spec(),
    {
        if self.revision == 0 {
            RsdtType::Rsdt
        } else {
            RsdtType::Xsdt
        }
    }

    /// Physical address of the root table.
    pub fn sdt_address(&self) -> (r: u64)
        requires
            self.known_revision(),
        ensures
            r == (if self.revision == 0 {
                self.rsdt_address as u64
            } else {
                self.xsdt_address
            }),
    {
        match self.sdt_type() {
            RsdtType::Rsdt => self.rsdt_address as u64,
            RsdtType::Xsdt => self.xsdt_address,
        }
    }
}

/// The header shared by all system description tables, with the address
/// it was read from.
#[derive(Clone, Copy, Debug)]
pub struct SdtHeader {
    pub address: u64,
    pub signature: [u8; 4],
    pub length: u32,
}

impl SdtHeader {
    /// The table holds its own header and fits below the top of memory.
    pub open spec fn wf(&self) -> bool {
        &&& self.length >= SDT_HEADER_SIZE
        &&& self.address as int + self.length as int <= u64::MAX
    }

    /// Reads a header found at `address` from its packed layout; `None`
    /// when fewer than `SDT_HEADER_SIZE` bytes are given.
    pub fn from_bytes(address: u64, b: &[u8]) -> (r: Option<SdtHeader>)
        ensures
            b@.len() < SDT_HEADER_SIZE ==> r is None,
            b@.len() >= SDT_HEADER_SIZE ==> r is Some && r->Some_0.address == address
                && r->Some_0.signature@ == b@.subrange(0, 4) && r->Some_0.length == le_value(
                b@,
                4,
                4,
            ),
    {
        if b.len() < 36 {
            return None;
        }
        let signature = [b[0], b[1], b[2], b[3]];
        assert(signature@ =~= b@.subrange(0, 4));
        Some(SdtHeader { address, signature, length: read_u32(b, 4) })
    }

    pub fn address(&self) -> (r: u64)
        ensures
            r == self.address,
    {
        self.address
    }

    /// Address of the first byte after the header.
    pub fn data_address(&self) -> (r: u64)
        requires
            self.address as int + SDT_HEADER_SIZE <= u64::MAX,
        ensures
            r == self.address + SDT_HEADER_SIZE,
    {
        self.address + SDT_HEADER_SIZE
    }

    /// Bytes of the table after the header.
    pub fn data_length(&self) -> (r: usize)
        requires
            self.wf(),
        ensures
            r == self.length - SDT_HEADER_SIZE,
    {
        (self.length as u64 - SDT_HEADER_SIZE) as usize
    }

    pub fn signature(&self) -> (r: [u8; 4])
        ensures
            r == self.signature,
    {
        self.signature
    }
}

/// Bytes per entry of a root table of this kind.
pub open spec fn entry_width(kind: RsdtType) -> nat {
    match kind {
        RsdtType::Rsdt => 4,
        RsdtType::Xsdt => 8,
    }
}

/// Address of entry `i` of the root table `sdt`.
pub open spec fn entry_address(kind: RsdtType, sdt: SdtHeader, i: nat) -> int {
    sdt.address + SDT_HEADER_SIZE + i * entry_width(kind)
}

/// Walks the entries of a root table, yielding the address of each.
#[derive(Clone, Copy, Debug)]
pub struct AcpiTableIterator {
    kind: RsdtType,
    sdt: SdtHeader,
    entries: usize,
    current: usize,
}

impl AcpiTableIterator {
    pub closed spec fn kind_view(&self) -> RsdtType {
        self.kind
    }

    pub closed spec fn sdt_view(&self) -> SdtHeader {
        self.sdt
    }

    pub closed spec fn entries_view(&self) -> nat {
        self.entries as nat
    }

    /// Index of the next entry.
    pub closed spec fn current_view(&self) -> nat {
        self.current as nat
    }

    pub closed spec fn wf(&self) -> bool {
        &&& entry_address(self.kind, self.sdt, self.entries as nat) <= u64::MAX
        &&& self.current <= self.entries
    }

    pub fn new(kind: RsdtType, sdt: SdtHeader, entries: usize) -> (r: Self)
        requires
            entry_address(kind, sdt, entries as nat) <= u64::MAX,
        ensures
            r.wf(),
            r.kind_view() == kind,
            r.sdt_view() == sdt,
            r.entries_view() == entries,
            r.current_view() == 0,
    {
        AcpiTableIterator { kind, sdt, entries, current: 0 }
    }

    /// Walk over a root table with 32-bit entries.
    pub fn from_rsdt(sdt: SdtHeader) -> (r: Self)
        requires
            sdt.wf(),
        ensures
            r.wf(),
            r.kind_view() == RsdtType::Rsdt,
            r.sdt_view() == sdt,
            r.entries_view() == (sdt.length - SDT_HEADER_SIZE) / 4,
            r.current_view() == 0,
    {
        Self::new(RsdtType::Rsdt, sdt, sdt.data_length() / 4)
    }

    /// Walk over a root table with 64-bit entries.
    pub fn from_xsdt(sdt: SdtHeader) -> (r: Self)
        requires
            sdt.wf(),
        ensures
            r.wf(),
            r.kind_view() == RsdtType::Xsdt,
            r.sdt_view() == sdt,
            r.entries_view() == (sdt.length - SDT_HEADER_SIZE) / 8,
            r.current_view() == 0,
    {
        Self::new(RsdtType::Xsdt, sdt, sdt.data_length() / 8)
    }

    /// Address of the next entry, or `None` once all have been yielded.
    pub fn next(&mut self) -> (r: Option<u64>)
        requires
            old(self).wf(),
        ensures
            final(self).wf(),
            final(self).kind_view() == old(self).kind_view(),
            final(self).sdt_view() == old(self).sdt_view(),
            final(self).entries_view() == old(self).entries_view(),
            old(self).current_view() >= old(self).entries_view() ==> r is None
                && final(self).current_view() == old(self).current_view(),
            old(self).current_view() < old(self).entries_view() ==> r == Some(
                entry_address(old(self).kind_view(), old(self).sdt_view(), old(self).current_view())
                    as u64,
            ) && final(self).current_view() == old(self).current_view() + 1,
    {
        if self.current >= self.entries {
            return None;
        }
        let width: u64 = match self.kind {
            RsdtType::Rsdt => 4,
            RsdtType::Xsdt => 8,
        };
        proof {
            let c = self.current as int;
            let e = self.entries as int;
            let w = width as int;
            assert(c * w <= e * w) by (nonlinear_arith)
                requires
                    c < e,
                    w >= 0,
            ;
        }
        let entry = self.sdt.address + SDT_HEADER_SIZE + self.current as u64 * width;
        self.current = self.current + 1;
        Some(entry)
    }
}

/// The root table the firmware describes, with a walk over its entries.
pub enum AcpiHeader {
    Rsdt(SdtHeader, AcpiTableIterator),
    Xsdt(SdtHeader, AcpiTableIterator),
}

impl AcpiHeader {
    /// Pairs the root table header with the walk its kind calls for.
    pub fn from_rsdp(rsdp: &RsdpHeader, sdt: SdtHeader) -> (r: AcpiHeader)
        requires
            rsdp.known_revision(),
            sdt.wf(),
        ensures
            rsdp.revision == 0 ==> r is Rsdt,
            rsdp.revision == 2 ==> r is Xsdt,
            header_sdt(r) == sdt,
            header_walk(r).wf(),
            header_walk(r).kind_view() == rsdp.sdt_type_spec(),
            header_walk(r).sdt_view() == sdt,
            header_walk(r).entries_view() == (sdt.length - SDT_HEADER_SIZE) as nat / entry_width(
                rsdp.sdt_type_spec(),
            ),
            header_walk(r).current_view() == 0,
    {
        match rsdp.sdt_type() {
            RsdtType::Rsdt => AcpiHeader::Rsdt(sdt, AcpiTableIterator::from_rsdt(sdt)),
            RsdtType::Xsdt => AcpiHeader::Xsdt(sdt, AcpiTableIterator::from_xsdt(sdt)),
        }
    }
}

/// The walk an `AcpiHeader` carries.
pub open spec fn header_walk(header: AcpiHeader) -> AcpiTableIterator {
    match header {
        AcpiHeader::Rsdt(_, i) => i,
        AcpiHeader::Xsdt(_, i) => i,
    }
}

/// The root table header an `AcpiHeader` carries.
pub open spec fn header_sdt(header: AcpiHeader) -> SdtHeader {
    match header {
        AcpiHeader::Rsdt(s, _) => s,
        AcpiHeader::Xsdt(s, _) => s,
    }
}

/// The root table header and the addresses of its remaining entries, in order.
pub fn init(header: AcpiHeader) -> (r: (SdtHeader, Vec<u64>))
    requires
        header_walk(header).wf(),
    ensures
        r.0 == header_sdt(header),
        r.1@.len() == header_walk(header).entries_view() - header_walk(header).current_view(),
        forall|j: int|
            0 <= j < r.1@.len() ==> #[trigger] r.1@[j] == entry_address(
                header_walk(header).kind_view(),
                header_walk(header).sdt_view(),
                (header_walk(header).current_view() + j) as nat,
            ),
{
    let (sdt, mut entries) = match header {
        AcpiHeader::Rsdt(s, i) => (s, i),
        AcpiHeader::Xsdt(s, i) => (s, i),
    };
    assert(entries == header_walk(header));
    let ghost start = entries;
    let mut out: Vec<u64> = Vec::new();
    loop
        invariant
            entries.wf(),
            entries.kind_view() == start.kind_view(),
            entries.sdt_view() == start.sdt_view(),
            entries.entries_view() == start.entries_view(),
            start.current_view() <= entries.current_view() <= entries.entries_view(),
            out@.len() == entries.current_view() - start.current_view(),
            forall|j: int|
                0 <= j < out@.len() ==> #[trigger] out@[j] == entry_address(
                    start.kind_view(),
                    start.sdt_view(),
                    (start.current_view() + j) as nat,
                ),
        ensures
            out@.len() == start.entries_view() - start.current_view(),
            forall|j: int|
                0 <= j < out@.len() ==> #[trigger] out@[j] == entry_address(
                    start.kind_view(),
                    start.sdt_view(),
                    (start.current_view() + j) as nat,
                ),
        decreases entries.entries_view() - entries.current_view() + 1,
    {
        match entries.next() {
            Some(e) => out.push(e),
            None => break,
        }
    }
    (sdt, out)
}

/// Makes the page that holds a firmware table at physical `addr` reachable
/// at the same virtual address. A refusal (most often: the page was mapped
/// before) is handed back and changes no translation.
pub fn map_table(mem: &mut MemorySystem, addr: u64) -> (r: Result<(), crate::paging::MapError>)
    requires
        old(mem).wf(),
        old(mem).initialized(),
        addr < u64::MAX,
        range_accepted(addr, (addr + 1) as u64, true),
        forall|i: int|
            0 <= i < range_pages(addr, (addr + 1) as u64, true).len() ==> #[trigger] range_pages(
                addr,
                (addr + 1) as u64,
                true,
            )[i] < PHYS_ADDR_LIMIT,
    ensures
        final(mem).wf(),
        final(mem).initialized(),
        final(mem).regions() == old(mem).regions(),
        (final(mem).state(), r) == map_all(
            old(mem).state(),
            old(mem).regions(),
            range_pages(addr, (addr + 1) as u64, true),
            PRESENT,
            true,
        ),
{
    mem.identity_map_pages(addr, addr + 1, PRESENT, true)
}

} // verus!
