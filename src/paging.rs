//! Virtual pages and the four-level page-table hierarchy.
use vstd::prelude::*;
use vstd::hash_map::HashMapWithView;
use crate::frame_allocator::{frame_at, GlobalFrameAllocator, MemoryRegion};

verus! {

broadcast use vstd::std_specs::hash::group_hash_axioms;

/// The translation is in use.
pub const PRESENT: u64 = 1;

/// Writes through the translation are allowed.
pub const WRITABLE: u64 = 2;

/// Top of the lower canonical half of the virtual address space.
pub const LOWER_HALF_END: u64 = 0x8000_0000_0000;

/// Start of the highest virtual page.
pub const LAST_PAGE: u64 = 0xffff_ffff_ffff_f000;

/// Bits 47 to 63 of an address.
pub open spec fn high_bits(a: u64) -> u64 {
    a / LOWER_HALF_END
}

/// An address whose bits 48 to 63 are a sign extension of bit 47, or all zero.
pub open spec fn virt_accepted(a: u64) -> bool {
    high_bits(a) == 0 || high_bits(a) == 1 || high_bits(a) == 0x1ffff
}

/// The canonical form of an accepted address: bit 47 copied into bits 48 to 63.
pub open spec fn canonical(a: u64) -> u64 {
    if high_bits(a) == 1 {
        (a + 0xffff_0000_0000_0000u64) as u64
    } else {
        a
    }
}

/// Start of the page that holds the canonical form of `a`.
pub open spec fn page_of(a: u64) -> u64 {
    (canonical(a) - canonical(a) % 4096) as u64
}

/// The page after `p`, across the hole between the two canonical halves.
pub open spec fn next_page(p: u64) -> u64 {
    if p as int + 4096 <= u64::MAX {
        canonical((p + 4096) as u64)
    } else {
        u64::MAX
    }
}

/// Pages from `p` up to, not including, `end`, in ascending order.
pub open spec fn page_seq(p: u64, end: u64) -> Seq<u64>
    decreases (if p < end { end - p } else { 0 }),
    via page_seq_decreases
{
    if p < end {
        seq![p].add(page_seq(next_page(p), end))
    } else {
        Seq::empty()
    }
}

#[via_fn]
proof fn page_seq_decreases(p: u64, end: u64) {
    if p < end {
        lemma_next_page_grows(p);
    }
}

/// Stepping to the next page moves strictly upward below the top page.
pub proof fn lemma_next_page_grows(p: u64)
    requires
        p < u64::MAX,
    ensures
        next_page(p) > p,
        p as int + 4096 <= u64::MAX ==> next_page(p) >= p + 4096,
{
    if p as int + 4096 <= u64::MAX {
        let x = (p + 4096) as u64;
        if high_bits(x) == 1 {
            assert(x < 0x1_0000_0000_0000);
        }
    }
}

/// First page past a range that ends at `end`.
pub open spec fn range_end(end: u64, inclusive: bool) -> u64 {
    if inclusive {
        next_page(page_of(end))
    } else {
        page_of(end)
    }
}

/// The pages a mapping request covers, in the order they are mapped.
pub open spec fn range_pages(start: u64, end: u64, inclusive: bool) -> Seq<u64> {
    page_seq(page_of(start), range_end(end, inclusive))
}

/// Addresses a mapping request may name.
pub open spec fn range_accepted(start: u64, end: u64, inclusive: bool) -> bool {
    &&& virt_accepted(start)
    &&& virt_accepted(end)
    &&& !(inclusive && page_of(end) == LAST_PAGE)
}

pub fn canonicalize(a: u64) -> (r: u64)
    requires
        virt_accepted(a),
    ensures
        r == canonical(a),
{
    if a / LOWER_HALF_END == 1 {
        a + 0xffff_0000_0000_0000u64
    } else {
        a
    }
}

/// Start of the page that holds `a`.
pub fn containing_page(a: u64) -> (r: u64)
    requires
        virt_accepted(a),
    ensures
        r == page_of(a),
        r % 4096 == 0,
{
    let c = canonicalize(a);
    c - c % 4096
}

/// Virtual address of the level-4 table held in frame `l4_frame`, with all
/// physical memory seen from `phys_mem_offset` on.
pub fn active_l4_table(phys_mem_offset: u64, l4_frame: u64) -> (r: u64)
    requires
        phys_mem_offset as int + l4_frame as int <= u64::MAX,
        virt_accepted((phys_mem_offset + l4_frame) as u64),
    ensures
        r == canonical((phys_mem_offset + l4_frame) as u64),
{
    canonicalize(phys_mem_offset + l4_frame)
}

/// Index that names the table of a level (3, 2 or 1) serving `page`.
pub open spec fn table_key(level: nat, page: u64) -> u64 {
    if level == 3 {
        page / 0x80_0000_0000
    } else if level == 2 {
        page / 0x4000_0000
    } else {
        page / 0x20_0000
    }
}

/// A leaf entry: the frame a page is bound to and its protection flags.
#[derive(Clone, Copy, Debug, PartialEq, Eq, Structural)]
pub struct Translation {
    pub frame: u64,
    pub flags: u64,
}

/// Why a mapping request was refused.
#[derive(Clone, Copy, Debug, PartialEq, Eq, Structural)]
pub enum MapError {
    /// The frame allocator ran out of frames.
    FrameAllocationFailed,
    /// The page already holds a translation; carries the frame of the refused request.
    PageAlreadyMapped(u64),
}

/// Mathematical state of the frame allocator together with the page tables.
pub struct MemState {
    /// Frames issued so far.
    pub next: nat,
    /// Level-3, level-2 and level-1 tables present, by key, with their frames.
    pub l3: Map<u64, u64>,
    pub l2: Map<u64, u64>,
    pub l1: Map<u64, u64>,
    /// Installed translations, by page.
    pub leaves: Map<u64, Translation>,
}

impl MemState {
    pub open spec fn table(self, level: nat) -> Map<u64, u64> {
        if level == 3 {
            self.l3
        } else if level == 2 {
            self.l2
        } else {
            self.l1
        }
    }

    pub open spec fn with_table(self, level: nat, key: u64, frame: u64) -> MemState {
        if level == 3 {
            MemState { next: self.next + 1, l3: self.l3.insert(key, frame), ..self }
        } else if level == 2 {
            MemState { next: self.next + 1, l2: self.l2.insert(key, frame), ..self }
        } else {
            MemState { next: self.next + 1, l1: self.l1.insert(key, frame), ..self }
        }
    }
}

/// Creates, from `level` down to level 1, each table that `page` needs and
/// that is missing, one fresh frame each; `false` once frames run out.
pub open spec fn create_tables(s: MemState, regions: Seq<MemoryRegion>, page: u64, level: nat) -> (
    MemState,
    bool,
)
    decreases level,
{
    if level == 0 {
        (s, true)
    } else if s.table(level).contains_key(table_key(level, page)) {
        create_tables(s, regions, page, (level - 1) as nat)
    } else {
        match frame_at(regions, s.next) {
            None => (s, false),
            Some(f) => create_tables(
                s.with_table(level, table_key(level, page), f),
                regions,
                page,
                (level - 1) as nat,
            ),
        }
    }
}

/// Binds `page` to `frame`: intermediate tables first, then the leaf,
/// which must be free.
pub open spec fn map_to_spec(
    s: MemState,
    regions: Seq<MemoryRegion>,
    page: u64,
    frame: u64,
    flags: u64,
) -> (MemState, Result<(), MapError>) {
    let (s1, ok) = create_tables(s, regions, page, 3);
    if !ok {
        (s1, Err(MapError::FrameAllocationFailed))
    } else if s1.leaves.contains_key(page) {
        (s1, Err(MapError::PageAlreadyMapped(frame)))
    } else {
        (MemState { leaves: s1.leaves.insert(page, Translation { frame, flags }), ..s1 }, Ok(()))
    }
}

/// The page table: tables present at each level and the leaf translations.
pub struct PageTable {
    phys_offset: u64,
    root: u64,
    l3: HashMapWithView<u64, u64>,
    l2: HashMapWithView<u64, u64>,
    l1: HashMapWithView<u64, u64>,
    leaves: HashMapWithView<u64, Translation>,
}

/// The combined state of an allocator and a page table.
pub open spec fn state_of(alloc: GlobalFrameAllocator, pt: PageTable) -> MemState {
    MemState {
        next: alloc.cursor(),
        l3: pt.l3_view(),
        l2: pt.l2_view(),
        l1: pt.l1_view(),
        leaves: pt.leaves_view(),
    }
}

impl PageTable {
    pub closed spec fn l3_view(&self) -> Map<u64, u64> {
        self.l3@
    }

    pub closed spec fn l2_view(&self) -> Map<u64, u64> {
        self.l2@
    }

    pub closed spec fn l1_view(&self) -> Map<u64, u64> {
        self.l1@
    }

    pub closed spec fn leaves_view(&self) -> Map<u64, Translation> {
        self.leaves@
    }

    pub closed spec fn root_view(&self) -> u64 {
        self.root
    }

    pub closed spec fn offset_view(&self) -> u64 {
        self.phys_offset
    }

    /// An empty hierarchy whose level-4 table sits in frame `root`, with all
    /// physical memory visible at virtual `phys_offset`.
    pub fn new(root: u64, phys_offset: u64) -> (r: Self)
        ensures
            r.root_view() == root,
            r.offset_view() == phys_offset,
            r.l3_view() == Map::<u64, u64>::empty(),
            r.l2_view() == Map::<u64, u64>::empty(),
            r.l1_view() == Map::<u64, u64>::empty(),
            r.leaves_view() == Map::<u64, Translation>::empty(),
    {
        PageTable {
            phys_offset,
            root,
            l3: HashMapWithView::new(),
            l2: HashMapWithView::new(),
            l1: HashMapWithView::new(),
            leaves: HashMapWithView::new(),
        }
    }

    /// Frame of the level-4 table.
    pub fn root(&self) -> (r: u64)
        ensures
            r == self.root_view(),
    {
        self.root
    }

    /// Virtual address at which physical memory starts.
    pub fn phys_offset(&self) -> (r: u64)
        ensures
            r == self.offset_view(),
    {
        self.phys_offset
    }

    /// The translation of `page`, if one is installed.
    pub fn translate(&self, page: u64) -> (r: Option<Translation>)
        ensures
            r == (if self.leaves_view().contains_key(page) {
                Some(self.leaves_view()[page])
            } else {
                None
            }),
    {
        match self.leaves.get(&page) {
            Some(t) => Some(*t),
            None => None,
        }
    }

    fn table_key(level: u64, page: u64) -> (r: u64)
        requires
            1 <= level <= 3,
        ensures
            r == table_key(level as nat, page),
    {
        if level == 3 {
            page / 0x80_0000_0000
        } else if level == 2 {
            page / 0x4000_0000
        } else {
            page / 0x20_0000
        }
    }

    fn has_table(&self, level: u64, key: u64) -> (r: bool)
        requires
            1 <= level <= 3,
        ensures
            r == state_of_table(self, level as nat).contains_key(key),
    {
        if level == 3 {
            self.l3.contains_key(&key)
        } else if level == 2 {
            self.l2.contains_key(&key)
        } else {
            self.l1.contains_key(&key)
        }
    }

    fn add_table(&mut self, level: u64, key: u64, frame: u64)
        requires
            1 <= level <= 3,
        ensures
            final(self).root_view() == old(self).root_view(),
            final(self).offset_view() == old(self).offset_view(),
            final(self).leaves_view() == old(self).leaves_view(),
            level == 3 ==> final(self).l3_view() == old(self).l3_view().insert(key, frame),
            level != 3 ==> final(self).l3_view() == old(self).l3_view(),
            level == 2 ==> final(self).l2_view() == old(self).l2_view().insert(key, frame),
            level != 2 ==> final(self).l2_view() == old(self).l2_view(),
            level == 1 ==> final(self).l1_view() == old(self).l1_view().insert(key, frame),
            level != 1 ==> final(self).l1_view() == old(self).l1_view(),
    {
        if level == 3 {
            self.l3.insert(key, frame);
        } else if level == 2 {
            self.l2.insert(key, frame);
        } else {
            self.l1.insert(key, frame);
        }
    }

    /// Installs `page -> frame` with `flags`, creating missing intermediate
    /// tables from `alloc` on the way down.
    pub fn map_to(
        &mut self,
        alloc: &mut GlobalFrameAllocator,
        page: u64,
        frame: u64,
        flags: u64,
    ) -> (r: Result<(), MapError>)
        requires
            old(alloc).wf(),
        ensures
            final(alloc).wf(),
            final(alloc).regions() == old(alloc).regions(),
            final(self).root_view() == old(self).root_view(),
            final(self).offset_view() == old(self).offset_view(),
            (state_of(*final(alloc), *final(self)), r) == map_to_spec(
                state_of(*old(alloc), *old(self)),
                old(alloc).regions(),
                page,
                frame,
                flags,
            ),
    {
        let ghost s0 = state_of(*old(alloc), *old(self));
        let ghost regions = old(alloc).regions();
        let mut level: u64 = 3;
        while level > 0
            invariant
                level <= 3,
                alloc.wf(),
                alloc.regions() == regions,
                self.root_view() == old(self).root_view(),
                self.offset_view() == old(self).offset_view(),
                create_tables(s0, regions, page, 3) == create_tables(
                    state_of(*alloc, *self),
                    regions,
                    page,
                    level as nat,
                ),
            ensures
                alloc.wf(),
                alloc.regions() == regions,
                self.root_view() == old(self).root_view(),
                self.offset_view() == old(self).offset_view(),
                create_tables(s0, regions, page, 3) == (if level == 0 {
                    (state_of(*alloc, *self), true)
                } else {
                    (state_of(*alloc, *self), false)
                }),
            decreases level,
        {
            let key = Self::table_key(level, page);
            if !self.has_table(level, key) {
                let fr = alloc.allocate_frame();
                match fr {
                    Some(f) => {
                        self.add_table(level, key, f);
                    },
                    None => {
                        break;
                    },
                }
            }
            level = level - 1;
        }
        if level > 0 {
            return Err(MapError::FrameAllocationFailed);
        }
        if self.leaves.contains_key(&page) {
            return Err(MapError::PageAlreadyMapped(frame));
        }
        self.leaves.insert(page, Translation { frame, flags });
        Ok(())
    }
}

pub open spec fn state_of_table(pt: &PageTable, level: nat) -> Map<u64, u64> {
    if level == 3 {
        pt.l3_view()
    } else if level == 2 {
        pt.l2_view()
    } else {
        pt.l1_view()
    }
}

} // verus!
