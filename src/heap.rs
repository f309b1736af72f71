//! The kernel heap: one fixed virtual range, mapped once at start-up.
use vstd::prelude::*;
use crate::memory::{map_all, MemorySystem};
use crate::frame_allocator::total_frames;
use crate::laws::{lemma_heap_succeeds, missing_tables};
use crate::paging::{range_pages, MapError, PRESENT, WRITABLE};

verus! {

/// First address of the heap.
pub const HEAP_START: u64 = 0x4444_4444_0000;

/// Size of the heap in bytes.
pub const HEAP_SIZE: u64 = 1024 * 1024;

/// Pages that back the heap, `[HEAP_START, HEAP_START + HEAP_SIZE)`.
pub open spec fn heap_pages() -> Seq<u64> {
    range_pages(HEAP_START, (HEAP_START + HEAP_SIZE) as u64, false)
}

/// Heap pages are present and writable.
pub open spec fn heap_flags() -> u64 {
    PRESENT | WRITABLE
}

/// Frames a fresh memory map must offer for the heap: one per heap page
/// and one per intermediate table level.
pub const HEAP_FRAMES: u64 = HEAP_SIZE / 4096 + 3;

/// Maps the heap range `[HEAP_START, HEAP_START + HEAP_SIZE)` present and
/// writable; the dynamic allocator may then be set up over it. The heap
/// pages must be free and the allocator must hold a frame for each of
/// them and for each table they still lack.
pub fn init(mem: &mut MemorySystem)
    requires
        old(mem).wf(),
        old(mem).initialized(),
        forall|i: int|
            0 <= i < heap_pages().len() ==> !old(mem).state().leaves.contains_key(
                #[trigger] heap_pages()[i],
            ),
        old(mem).state().next + HEAP_SIZE / 4096 + missing_tables(old(mem).state(), HEAP_START, 3)
            <= total_frames(old(mem).regions()),
    ensures
        final(mem).wf(),
        final(mem).initialized(),
        final(mem).regions() == old(mem).regions(),
        final(mem).root_view() == old(mem).root_view(),
        final(mem).offset_view() == old(mem).offset_view(),
        final(mem).l4_view() == old(mem).l4_view(),
        map_all(old(mem).state(), old(mem).regions(), heap_pages(), heap_flags(), false) == (
            final(mem).state(),
            Ok::<(), MapError>(()),
        ),
{
    proof {
        lemma_heap_succeeds(old(mem).state(), old(mem).regions());
    }
    let r = mem.map_pages(HEAP_START, HEAP_START + HEAP_SIZE, PRESENT | WRITABLE, false);
    assert(r->Ok_0 == ());
}

} // verus!
