//! The memory subsystem: one frame allocator and one page table, set up
//! once, through which every mapping request goes.
use vstd::prelude::*;
use crate::heap::HEAP_FRAMES;
use crate::frame_allocator::{
    frame_at, regions_valid, total_frames, GlobalFrameAllocator, MemoryRegion, PHYS_ADDR_LIMIT,
};
use crate::paging::{
    active_l4_table, canonical, canonicalize, containing_page, high_bits, lemma_next_page_grows, map_to_spec,
    next_page, page_of, page_seq, range_accepted, range_end, range_pages, state_of, virt_accepted,
    MapError, MemState, PageTable, LAST_PAGE,
};

verus! {

/// One step of a mapping request: pick the frame (the page itself when
/// `identity`, else a fresh one from the allocator), then install it.
pub open spec fn map_step(
    s: MemState,
    regions: Seq<MemoryRegion>,
    page: u64,
    flags: u64,
    identity: bool,
) -> (MemState, Result<(), MapError>) {
    if identity {
        map_to_spec(s, regions, page, page, flags)
    } else {
        match frame_at(regions, s.next) {
            None => (s, Err(MapError::FrameAllocationFailed)),
            Some(f) => map_to_spec(MemState { next: s.next + 1, ..s }, regions, page, f, flags),
        }
    }
}

/// A whole mapping request: the pages in order, stopping at the first failure.
pub open spec fn map_all(
    s: MemState,
    regions: Seq<MemoryRegion>,
    pages: Seq<u64>,
    flags: u64,
    identity: bool,
) -> (MemState, Result<(), MapError>)
    decreases pages.len(),
{
    if pages.len() == 0 {
        (s, Ok(()))
    } else {
        let (s1, r) = map_step(s, regions, pages[0], flags, identity);
        if r is Err {
            (s1, r)
        } else {
            map_all(s1, regions, pages.drop_first(), flags, identity)
        }
    }
}

/// An address with bits 47 to 63 all equal.
pub open spec fn is_canonical(a: u64) -> bool {
    high_bits(a) == 0 || high_bits(a) == 0x1ffff
}

/// The frame allocator and the page table, behind a single set-up point.
pub struct MemorySystem {
    frame_alloc: GlobalFrameAllocator,
    mapper: PageTable,
    l4_table: u64,
    initialized: bool,
}

impl MemorySystem {
    pub closed spec fn wf(&self) -> bool {
        self.frame_alloc.wf()
    }

    pub closed spec fn initialized(&self) -> bool {
        self.initialized
    }

    /// The memory map the allocator draws from.
    pub closed spec fn regions(&self) -> Seq<MemoryRegion> {
        self.frame_alloc.regions()
    }

    /// Allocator cursor, tables and translations.
    pub closed spec fn state(&self) -> MemState {
        state_of(self.frame_alloc, self.mapper)
    }

    pub closed spec fn root_view(&self) -> u64 {
        self.mapper.root_view()
    }

    pub closed spec fn offset_view(&self) -> u64 {
        self.mapper.offset_view()
    }

    /// Virtual address of the active level-4 table.
    pub closed spec fn l4_view(&self) -> u64 {
        self.l4_table
    }

    /// A subsystem that has not been set up yet.
    pub fn new() -> (r: Self)
        ensures
            r.wf(),
            !r.initialized(),
    {
        MemorySystem {
            frame_alloc: GlobalFrameAllocator::new(Vec::new()),
            mapper: PageTable::new(0, 0),
            l4_table: 0,
            initialized: false,
        }
    }

    /// Whether `init` has run.
    pub fn is_initialized(&self) -> (r: bool)
        ensures
            r == self.initialized(),
    {
        self.initialized
    }

    /// The translation installed for `page`, if any.
    pub fn translate(&self, page: u64) -> (r: Option<crate::paging::Translation>)
        ensures
            r == (if self.state().leaves.contains_key(page) {
                Some(self.state().leaves[page])
            } else {
                None
            }),
    {
        self.mapper.translate(page)
    }

    /// How many frames the allocator has issued.
    pub fn frames_issued(&self) -> (r: u64)
        ensures
            r == self.state().next,
    {
        self.frame_alloc.issued()
    }

    /// Issues one frame from the subsystem's allocator; `None` once frames
    /// run out.
    pub fn allocate_frame(&mut self) -> (r: Option<u64>)
        requires
            old(self).wf(),
            old(self).initialized(),
        ensures
            final(self).wf(),
            final(self).initialized(),
            final(self).regions() == old(self).regions(),
            final(self).l4_view() == old(self).l4_view(),
            r == frame_at(old(self).regions(), old(self).state().next),
            final(self).state() == (MemState {
                next: if r is Some {
                    old(self).state().next + 1
                } else {
                    old(self).state().next
                },
                ..old(self).state()
            }),
    {
        self.frame_alloc.allocate_frame()
    }

    /// Virtual address at which the active level-4 table is reached.
    pub fn l4_table_address(&self) -> (r: u64)
        ensures
            r == self.l4_view(),
    {
        self.l4_table
    }

    /// Sets up the allocator over `regions` and the page table rooted at
    /// frame `l4_frame`, with physical memory seen at `phys_mem_offset`, then
    /// maps the heap. Called once, with a memory map that has room for the
    /// heap.
    pub fn init(&mut self, phys_mem_offset: u64, l4_frame: u64, regions: Vec<MemoryRegion>)
        requires
            old(self).wf(),
            !old(self).initialized(),
            regions_valid(regions@),
            HEAP_FRAMES <= total_frames(regions@) < u64::MAX,
            phys_mem_offset as int + l4_frame as int <= u64::MAX,
            virt_accepted((phys_mem_offset + l4_frame) as u64),
        ensures
            final(self).wf(),
            final(self).initialized(),
            final(self).regions() == regions@,
            final(self).root_view() == l4_frame,
            final(self).offset_view() == phys_mem_offset,
            final(self).l4_view() == canonical((phys_mem_offset + l4_frame) as u64),
            map_all(
                MemState {
                    next: 0,
                    l3: Map::empty(),
                    l2: Map::empty(),
                    l1: Map::empty(),
                    leaves: Map::empty(),
                },
                regions@,
                crate::heap::heap_pages(),
                crate::heap::heap_flags(),
                false,
            ) == (final(self).state(), Ok::<(), MapError>(())),
    {
        self.frame_alloc = GlobalFrameAllocator::new(regions);
        self.mapper = PageTable::new(l4_frame, phys_mem_offset);
        self.l4_table = active_l4_table(phys_mem_offset, l4_frame);
        self.initialized = true;
        proof {
            assert(self.state().l3 =~= Map::empty());
            assert(self.state().l2 =~= Map::empty());
            assert(self.state().l1 =~= Map::empty());
            assert(self.state().leaves =~= Map::empty());
        }
        crate::heap::init(self)
    }

    /// Maps every page of the range to a fresh frame, with `flags`, in
    /// ascending order; stops at the first page that fails.
    pub fn map_pages(&mut self, start: u64, end: u64, flags: u64, inclusive: bool) -> (r: Result<
        (),
        MapError,
    >)
        requires
            old(self).wf(),
            old(self).initialized(),
            range_accepted(start, end, inclusive),
        ensures
            final(self).wf(),
            final(self).initialized() == old(self).initialized(),
            final(self).regions() == old(self).regions(),
            final(self).root_view() == old(self).root_view(),
            final(self).offset_view() == old(self).offset_view(),
            final(self).l4_view() == old(self).l4_view(),
            (final(self).state(), r) == map_all(
                old(self).state(),
                old(self).regions(),
                range_pages(start, end, inclusive),
                flags,
                false,
            ),
    {
        self.map_range(start, end, flags, inclusive, false)
    }

    /// Maps every page of the range to the frame at the same address, with
    /// `flags`, in ascending order; stops at the first page that fails.
    /// Only for ranges whose physical location is fixed from outside.
    pub fn identity_map_pages(&mut self, start: u64, end: u64, flags: u64, inclusive: bool) -> (r:
        Result<(), MapError>)
        requires
            old(self).wf(),
            old(self).initialized(),
            range_accepted(start, end, inclusive),
            forall|i: int|
                0 <= i < range_pages(start, end, inclusive).len() ==> #[trigger] range_pages(
                    start,
                    end,
                    inclusive,
                )[i] < PHYS_ADDR_LIMIT,
        ensures
            final(self).wf(),
            final(self).initialized() == old(self).initialized(),
            final(self).regions() == old(self).regions(),
            final(self).root_view() == old(self).root_view(),
            final(self).offset_view() == old(self).offset_view(),
            final(self).l4_view() == old(self).l4_view(),
            (final(self).state(), r) == map_all(
                old(self).state(),
                old(self).regions(),
                range_pages(start, end, inclusive),
                flags,
                true,
            ),
    {
        self.map_range(start, end, flags, inclusive, true)
    }

    fn map_range(&mut self, start: u64, end: u64, flags: u64, inclusive: bool, identity: bool) -> (r:
        Result<(), MapError>)
        requires
            old(self).wf(),
            old(self).initialized(),
            range_accepted(start, end, inclusive),
            identity ==> forall|i: int|
                0 <= i < range_pages(start, end, inclusive).len() ==> #[trigger] range_pages(
                    start,
                    end,
                    inclusive,
                )[i] < PHYS_ADDR_LIMIT,
        ensures
            final(self).wf(),
            final(self).initialized() == old(self).initialized(),
            final(self).regions() == old(self).regions(),
            final(self).root_view() == old(self).root_view(),
            final(self).offset_view() == old(self).offset_view(),
            final(self).l4_view() == old(self).l4_view(),
            (final(self).state(), r) == map_all(
                old(self).state(),
                old(self).regions(),
                range_pages(start, end, inclusive),
                flags,
                identity,
            ),
    {
        let ghost s0 = old(self).state();
        let ghost regions = old(self).regions();
        let ghost pages = range_pages(start, end, inclusive);
        let first = containing_page(start);
        let last = containing_page(end);
        proof {
            lemma_page_of_canonical(start);
            lemma_page_of_canonical(end);
        }
        let stop = if inclusive {
            step_page(last)
        } else {
            last
        };
        assert(stop == range_end(end, inclusive));
        let mut p = first;
        let mut res: Result<(), MapError> = Ok(());
        while p < stop && res.is_ok()
            invariant
                self.wf(),
                self.initialized() == old(self).initialized(),
                self.regions() == regions,
                self.root_view() == old(self).root_view(),
                self.offset_view() == old(self).offset_view(),
                self.l4_view() == old(self).l4_view(),
                is_canonical(p),
                p % 4096 == 0,
                stop % 4096 == 0,
                res is Ok ==> map_all(s0, regions, pages, flags, identity) == map_all(
                    self.state(),
                    regions,
                    page_seq(p, stop),
                    flags,
                    identity,
                ),
                res is Err ==> map_all(s0, regions, pages, flags, identity) == (self.state(), res),
                identity ==> forall|i: int|
                    0 <= i < page_seq(p, stop).len() ==> #[trigger] page_seq(p, stop)[i]
                        < PHYS_ADDR_LIMIT,
            decreases (if p < stop { stop - p } else { 0 }) + if res is Ok { 1int } else { 0int },
        {
            let ghost rest = page_seq(p, stop);
            let ghost next = next_page(p);
            assert(rest[0] == p);
            assert(rest.drop_first() =~= page_seq(next, stop));
            let frame = if identity {
                Some(p)
            } else {
                self.frame_alloc.allocate_frame()
            };
            match frame {
                None => {
                    res = Err(MapError::FrameAllocationFailed);
                },
                Some(f) => {
                    let r = self.mapper.map_to(&mut self.frame_alloc, p, f, flags);
                    if r.is_err() {
                        res = r;
                    } else {
                        assert(p as int + 4096 <= stop as int);
                        proof {
                            assert forall|i: int|
                                identity && 0 <= i < page_seq(next, stop).len() implies #[trigger] page_seq(
                                next,
                                stop,
                            )[i] < PHYS_ADDR_LIMIT by {
                                assert(page_seq(next, stop)[i] == rest[i + 1]);
                            }
                        }
                        p = step_page(p);
                    }
                },
            }
        }
        proof {
            if res is Ok {
                assert(page_seq(p, stop) =~= Seq::<u64>::empty());
                assert(res->Ok_0 == ());
            }
        }
        res
    }
}

/// The page after a canonical page that is not the last one.
fn step_page(p: u64) -> (r: u64)
    requires
        is_canonical(p),
        p % 4096 == 0,
        p != LAST_PAGE,
    ensures
        r == next_page(p),
        r > p,
        is_canonical(r),
        r % 4096 == 0,
{
    assert(p as int + 4096 <= u64::MAX);
    proof {
        lemma_next_page_grows(p);
    }
    let q = p + 4096;
    assert(virt_accepted(q));
    canonicalize(q)
}

/// The page of an accepted address is canonical and page-aligned.
proof fn lemma_page_of_canonical(a: u64)
    requires
        virt_accepted(a),
    ensures
        is_canonical(page_of(a)),
        page_of(a) % 4096 == 0,
{
    let c = canonical(a);
    assert(is_canonical(c));
}

} // verus!
