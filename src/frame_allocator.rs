//! Physical frame allocation over the boot memory map.
use vstd::prelude::*;

verus! {

/// Size of a physical frame and of a virtual page, in bytes.
pub const FRAME_SIZE: u64 = 4096;

/// Physical addresses must stay below 2^52.
pub const PHYS_ADDR_LIMIT: u64 = 0x10_0000_0000_0000;

/// What a region of the boot memory map is used for.
#[derive(Clone, Copy, Debug, PartialEq, Eq, Structural)]
pub enum MemoryRegionKind {
    Usable,
    Bootloader,
    UnknownUefi(u32),
    UnknownBios(u32),
}

/// A contiguous physical range `[start, end)` of the boot memory map.
#[derive(Clone, Copy, Debug, PartialEq, Eq, Structural)]
pub struct MemoryRegion {
    pub start: u64,
    pub end: u64,
    pub kind: MemoryRegionKind,
}

/// Start of the frame that holds address `a`.
pub open spec fn align_down(a: int) -> int {
    a - a % 4096
}

pub open spec fn is_usable(r: MemoryRegion) -> bool {
    r.kind == MemoryRegionKind::Usable
}

/// Number of frame-sized steps from `start` that stay below `end`.
pub open spec fn region_frame_count(r: MemoryRegion) -> nat {
    if r.start < r.end {
        let d = (r.end - r.start) as int;
        (d / 4096 + if d % 4096 == 0 { 0int } else { 1int }) as nat
    } else {
        0
    }
}

/// Frames that a region contributes: all of them when usable, none otherwise.
pub open spec fn usable_count(r: MemoryRegion) -> nat {
    if is_usable(r) {
        region_frame_count(r)
    } else {
        0
    }
}

/// Number of frames the whole memory map offers.
pub open spec fn total_frames(regions: Seq<MemoryRegion>) -> nat
    decreases regions.len(),
{
    if regions.len() == 0 {
        0
    } else {
        usable_count(regions[0]) + total_frames(regions.drop_first())
    }
}

/// The `k`-th frame of the lazy sequence: usable regions in map order, each
/// walked from its start in frame-sized steps.
pub open spec fn frame_at(regions: Seq<MemoryRegion>, k: nat) -> Option<u64>
    decreases regions.len(),
{
    if regions.len() == 0 {
        None
    } else if k < usable_count(regions[0]) {
        Some((align_down(regions[0].start as int) + 4096 * k) as u64)
    } else {
        frame_at(regions.drop_first(), (k - usable_count(regions[0])) as nat)
    }
}

/// Every region lies below the physical address limit.
pub open spec fn regions_valid(regions: Seq<MemoryRegion>) -> bool {
    forall|i: int| 0 <= i < regions.len() ==> #[trigger] regions[i].end <= PHYS_ADDR_LIMIT
}

/// Usable regions come in ascending order and never share a frame.
pub open spec fn regions_disjoint(regions: Seq<MemoryRegion>) -> bool {
    forall|i: int, j: int|
        0 <= i < j < regions.len() && is_usable(#[trigger] regions[i]) && is_usable(
            #[trigger] regions[j],
        ) ==> regions[i].end <= align_down(regions[j].start as int)
}

/// Hands out physical frames in the order of the memory map, never twice.
pub struct GlobalFrameAllocator {
    regions: Vec<MemoryRegion>,
    next: u64,
}

impl GlobalFrameAllocator {
    pub closed spec fn regions(&self) -> Seq<MemoryRegion> {
        self.regions@
    }

    /// How many frames have been issued so far.
    pub closed spec fn cursor(&self) -> nat {
        self.next as nat
    }

    pub closed spec fn wf(&self) -> bool {
        &&& regions_valid(self.regions@)
        &&& total_frames(self.regions@) < u64::MAX
        &&& self.next <= total_frames(self.regions@)
    }

    /// Frames still to be issued.
    pub open spec fn remaining(&self) -> nat {
        (total_frames(self.regions()) - self.cursor()) as nat
    }

    pub fn new(regions: Vec<MemoryRegion>) -> (r: Self)
        requires
            regions_valid(regions@),
            total_frames(regions@) < u64::MAX,
        ensures
            r.wf(),
            r.regions() == regions@,
            r.cursor() == 0,
    {
        GlobalFrameAllocator { regions, next: 0 }
    }

    /// How many frames have been issued so far.
    pub fn issued(&self) -> (r: u64)
        ensures
            r == self.cursor(),
    {
        self.next
    }

    /// Frame count of one region, computed without overflow.
    fn frame_count(r: &MemoryRegion) -> (c: u64)
        ensures
            c == region_frame_count(*r),
    {
        if r.start < r.end {
            let d: u64 = r.end - r.start;
            d / 4096 + if d % 4096 == 0 { 0 } else { 1 }
        } else {
            0
        }
    }

    /// The `n`-th frame of the usable sequence, if there is one.
    fn nth_frame(&self, n: u64) -> (r: Option<u64>)
        requires
            regions_valid(self.regions@),
        ensures
            r == frame_at(self.regions@, n as nat),
    {
        let mut k: u64 = n;
        let mut i: usize = 0;
        assert(self.regions@.skip(0) =~= self.regions@);
        while i < self.regions.len()
            invariant
                i <= self.regions@.len(),
                regions_valid(self.regions@),
                frame_at(self.regions@, n as nat) == frame_at(self.regions@.skip(i as int), k as nat),
            decreases self.regions@.len() - i,
        {
            let r = self.regions[i];
            let ghost rest = self.regions@.skip(i as int);
            assert(rest[0] == r);
            assert(rest.drop_first() =~= self.regions@.skip(i + 1));
            if r.kind == MemoryRegionKind::Usable {
                let c = Self::frame_count(&r);
                if k < c {
                    assert(r.end <= PHYS_ADDR_LIMIT);
                    let base: u64 = r.start - r.start % 4096;
                    proof {
                        let d = (r.end - r.start) as int;
                        let kk = k as int;
                        assert(kk < d / 4096 + if d % 4096 == 0 { 0int } else { 1int });
                        assert(4096 * kk < d) by (nonlinear_arith)
                            requires
                                kk < d / 4096 + if d % 4096 == 0 { 0int } else { 1int },
                                d > 0,
                        ;
                    }
                    return Some(base + 4096 * k);
                }
                k = k - c;
            }
            i = i + 1;
        }
        assert(self.regions@.skip(i as int).len() == 0);
        None
    }

    /// Issues the next never-issued frame, or `None` once the map is used up.
    pub fn allocate_frame(&mut self) -> (r: Option<u64>)
        requires
            old(self).wf(),
        ensures
            final(self).wf(),
            final(self).regions() == old(self).regions(),
            r == frame_at(old(self).regions(), old(self).cursor()),
            final(self).cursor() == if r is Some {
                old(self).cursor() + 1
            } else {
                old(self).cursor()
            },
    {
        let r = self.nth_frame(self.next);
        if r.is_some() {
            proof {
                lemma_frame_at_some(self.regions@, self.next as nat);
            }
            self.next = self.next + 1;
        }
        r
    }
}

/// A frame exists exactly at the positions below the total.
pub proof fn lemma_frame_at_some(regions: Seq<MemoryRegion>, k: nat)
    ensures
        frame_at(regions, k) is Some <==> k < total_frames(regions),
    decreases regions.len(),
{
    if regions.len() > 0 && k >= usable_count(regions[0]) {
        lemma_frame_at_some(regions.drop_first(), (k - usable_count(regions[0])) as nat);
    }
}

/// A frame issued from the first region lies inside it.
proof fn lemma_first_region_frame(r: MemoryRegion, k: nat)
    requires
        k < region_frame_count(r),
    ensures
        align_down(r.start as int) + 4096 * k < r.end,
{
    let d = (r.end - r.start) as int;
    let kk = k as int;
    assert(4096 * kk < d) by (nonlinear_arith)
        requires
            kk < d / 4096 + if d % 4096 == 0 { 0int } else { 1int },
            d > 0,
    ;
}

/// Every frame lies at or above a bound that all usable regions start from.
proof fn lemma_frame_lower(regions: Seq<MemoryRegion>, k: nat, b: int)
    requires
        regions_valid(regions),
        frame_at(regions, k) is Some,
        forall|i: int|
            0 <= i < regions.len() && is_usable(#[trigger] regions[i]) ==> align_down(
                regions[i].start as int,
            ) >= b,
    ensures
        frame_at(regions, k).unwrap() >= b,
    decreases regions.len(),
{
    let r = regions[0];
    if k < usable_count(r) {
        lemma_first_region_frame(r, k);
        assert(r.end <= PHYS_ADDR_LIMIT);
    } else {
        let rest = regions.drop_first();
        assert forall|i: int| 0 <= i < rest.len() && is_usable(#[trigger] rest[i]) implies align_down(
            rest[i].start as int,
        ) >= b by {
            assert(rest[i] == regions[i + 1]);
        }
        assert forall|i: int| 0 <= i < rest.len() implies #[trigger] rest[i].end <= PHYS_ADDR_LIMIT by {
            assert(rest[i] == regions[i + 1]);
        }
        lemma_frame_lower(rest, (k - usable_count(r)) as nat, b);
    }
}

/// Issued frames strictly increase with their position, so none repeats:
/// on a memory map whose usable regions are ordered and share no frame, a
/// later allocation always returns a higher frame than an earlier one.
pub proof fn lemma_frames_increase(regions: Seq<MemoryRegion>, k1: nat, k2: nat)
    requires
        regions_valid(regions),
        regions_disjoint(regions),
        k1 < k2 < total_frames(regions),
    ensures
        frame_at(regions, k1) is Some,
        frame_at(regions, k2) is Some,
        frame_at(regions, k1).unwrap() < frame_at(regions, k2).unwrap(),
    decreases regions.len(),
{
    lemma_frame_at_some(regions, k1);
    lemma_frame_at_some(regions, k2);
    let r = regions[0];
    let c = usable_count(r);
    let rest = regions.drop_first();
    assert(r.end <= PHYS_ADDR_LIMIT);
    assert forall|i: int| 0 <= i < rest.len() implies #[trigger] rest[i].end <= PHYS_ADDR_LIMIT by {
        assert(rest[i] == regions[i + 1]);
    }
    if k2 < c {
        lemma_first_region_frame(r, k2);
    } else if k1 < c {
        lemma_first_region_frame(r, k1);
        assert forall|i: int| 0 <= i < rest.len() && is_usable(#[trigger] rest[i]) implies align_down(
            rest[i].start as int,
        ) >= r.end by {
            assert(rest[i] == regions[i + 1]);
        }
        lemma_frame_at_some(rest, (k2 - c) as nat);
        lemma_frame_lower(rest, (k2 - c) as nat, r.end as int);
    } else {
        assert forall|i: int, j: int|
            0 <= i < j < rest.len() && is_usable(#[trigger] rest[i]) && is_usable(
                #[trigger] rest[j],
            ) implies rest[i].end <= align_down(rest[j].start as int) by {
            assert(rest[i] == regions[i + 1]);
            assert(rest[j] == regions[j + 1]);
        }
        lemma_frames_increase(rest, (k1 - c) as nat, (k2 - c) as nat);
    }
}

/// A memory map with `n` usable frames issues exactly `n` of them: every
/// position below `n` yields a frame and position `n` reports exhaustion.
pub proof fn lemma_exhaustion(regions: Seq<MemoryRegion>, k: nat)
    ensures
        k < total_frames(regions) ==> frame_at(regions, k) is Some,
        frame_at(regions, total_frames(regions)) is None,
{
    lemma_frame_at_some(regions, k);
    lemma_frame_at_some(regions, total_frames(regions));
}

/// Frame `f` lies in the frame range of region `r`.
pub open spec fn in_region(r: MemoryRegion, f: int) -> bool {
    align_down(r.start as int) <= f < r.end
}

/// No two usable regions share a frame, whatever their order.
pub open spec fn regions_pairwise_disjoint(regions: Seq<MemoryRegion>) -> bool {
    forall|i: int, j: int|
        0 <= i < regions.len() && 0 <= j < regions.len() && i != j && is_usable(#[trigger] regions[i])
            && is_usable(#[trigger] regions[j]) ==> regions[i].end <= align_down(regions[j].start as int)
            || regions[j].end <= align_down(regions[i].start as int)
}

proof fn lemma_rest_valid(regions: Seq<MemoryRegion>)
    requires
        regions.len() > 0,
        regions_valid(regions),
    ensures
        regions_valid(regions.drop_first()),
{
    let rest = regions.drop_first();
    assert forall|i: int| 0 <= i < rest.len() implies #[trigger] rest[i].end <= PHYS_ADDR_LIMIT by {
        assert(rest[i] == regions[i + 1]);
    }
}

/// Every issued frame lies in the range of some usable region.
proof fn lemma_frame_in_region(regions: Seq<MemoryRegion>, k: nat)
    requires
        regions_valid(regions),
        k < total_frames(regions),
    ensures
        frame_at(regions, k) is Some,
        exists|j: int|
            0 <= j < regions.len() && is_usable(regions[j]) && #[trigger] in_region(
                regions[j],
                frame_at(regions, k).unwrap() as int,
            ),
    decreases regions.len(),
{
    lemma_frame_at_some(regions, k);
    let r = regions[0];
    assert(r.end <= PHYS_ADDR_LIMIT);
    if k < usable_count(r) {
        lemma_first_region_frame(r, k);
        assert(in_region(regions[0], frame_at(regions, k).unwrap() as int));
    } else {
        let rest = regions.drop_first();
        lemma_rest_valid(regions);
        lemma_frame_in_region(rest, (k - usable_count(r)) as nat);
        let f = frame_at(regions, k).unwrap() as int;
        let j = choose|j: int| 0 <= j < rest.len() && is_usable(rest[j]) && #[trigger] in_region(rest[j], f);
        assert(regions[j + 1] == rest[j]);
        assert(in_region(regions[j + 1], f));
    }
}

proof fn lemma_rest_pairwise(regions: Seq<MemoryRegion>)
    requires
        regions.len() > 0,
        regions_pairwise_disjoint(regions),
    ensures
        regions_pairwise_disjoint(regions.drop_first()),
{
    let rest = regions.drop_first();
    assert forall|i: int, j: int|
        0 <= i < rest.len() && 0 <= j < rest.len() && i != j && is_usable(#[trigger] rest[i])
            && is_usable(#[trigger] rest[j]) implies rest[i].end <= align_down(rest[j].start as int)
        || rest[j].end <= align_down(rest[i].start as int) by {
        assert(rest[i] == regions[i + 1]);
        assert(rest[j] == regions[j + 1]);
    }
}

/// On a memory map whose usable regions share no frame, in any order, no
/// frame is issued twice; and two frames issued from the same region come
/// out in ascending order.
pub proof fn lemma_frames_unique(regions: Seq<MemoryRegion>, k1: nat, k2: nat)
    requires
        regions_valid(regions),
        regions_pairwise_disjoint(regions),
        k1 < k2 < total_frames(regions),
    ensures
        frame_at(regions, k1) is Some,
        frame_at(regions, k2) is Some,
        frame_at(regions, k1) != frame_at(regions, k2),
        forall|i: int|
            0 <= i < regions.len() && is_usable(regions[i]) && #[trigger] in_region(
                regions[i],
                frame_at(regions, k1).unwrap() as int,
            ) && in_region(regions[i], frame_at(regions, k2).unwrap() as int) ==> frame_at(
                regions,
                k1,
            ).unwrap() < frame_at(regions, k2).unwrap(),
    decreases regions.len(),
{
    lemma_frame_at_some(regions, k1);
    lemma_frame_at_some(regions, k2);
    let r = regions[0];
    let c = usable_count(r);
    let rest = regions.drop_first();
    assert(r.end <= PHYS_ADDR_LIMIT);
    lemma_rest_valid(regions);
    let f1 = frame_at(regions, k1).unwrap() as int;
    let f2 = frame_at(regions, k2).unwrap() as int;
    if k2 < c {
        lemma_first_region_frame(r, k2);
    } else if k1 < c {
        lemma_first_region_frame(r, k1);
        assert(in_region(regions[0], f1));
        lemma_frame_in_region(rest, (k2 - c) as nat);
        let j = choose|j: int| 0 <= j < rest.len() && is_usable(rest[j]) && #[trigger] in_region(rest[j], f2);
        assert(regions[j + 1] == rest[j]);
        assert(in_region(regions[j + 1], f2));
        assert forall|i: int|
            0 <= i < regions.len() && is_usable(regions[i]) && #[trigger] in_region(regions[i], f1)
                && in_region(regions[i], f2) implies f1 < f2 by {
            if i == 0 {
                assert(regions[0].end <= align_down(regions[j + 1].start as int) || regions[j + 1].end
                    <= align_down(regions[0].start as int));
            } else {
                assert(regions[0].end <= align_down(regions[i].start as int) || regions[i].end
                    <= align_down(regions[0].start as int));
            }
        }
    } else {
        lemma_rest_pairwise(regions);
        lemma_frames_unique(rest, (k1 - c) as nat, (k2 - c) as nat);
        lemma_frame_in_region(rest, (k1 - c) as nat);
        let j = choose|j: int| 0 <= j < rest.len() && is_usable(rest[j]) && #[trigger] in_region(rest[j], f1);
        assert(regions[j + 1] == rest[j]);
        assert forall|i: int|
            0 <= i < regions.len() && is_usable(regions[i]) && #[trigger] in_region(regions[i], f1)
                && in_region(regions[i], f2) implies f1 < f2 by {
            if i == 0 {
                assert(regions[0].end <= align_down(regions[j + 1].start as int) || regions[j + 1].end
                    <= align_down(regions[0].start as int));
            } else {
                assert(regions[i] == rest[i - 1]);
                assert(in_region(rest[i - 1], f1));
            }
        }
    }
}

} // verus!
