//! Facts about mapping requests, proved over the mapping model.
use vstd::prelude::*;
use crate::frame_allocator::{frame_at, lemma_frame_at_some, total_frames, MemoryRegion};
use crate::heap::{heap_flags, heap_pages, HEAP_SIZE, HEAP_START};
use crate::memory::{map_all, map_step};
use crate::paging::{
    create_tables, next_page, page_of, page_seq, range_pages, table_key, MemState, Translation,
    LOWER_HALF_END,
};

verus! {

/// Every table present in `s` is still present in `t`.
pub open spec fn tables_grow(s: MemState, t: MemState) -> bool {
    &&& forall|k: u64| #[trigger] s.l3.contains_key(k) ==> t.l3.contains_key(k)
    &&& forall|k: u64| #[trigger] s.l2.contains_key(k) ==> t.l2.contains_key(k)
    &&& forall|k: u64| #[trigger] s.l1.contains_key(k) ==> t.l1.contains_key(k)
}

/// The tables that `page` needs, from `level` down to level 1, are present.
pub open spec fn has_levels(s: MemState, page: u64, level: nat) -> bool {
    &&& level >= 3 ==> s.l3.contains_key(table_key(3, page))
    &&& level >= 2 ==> s.l2.contains_key(table_key(2, page))
    &&& level >= 1 ==> s.l1.contains_key(table_key(1, page))
}

proof fn lemma_create_tables(s: MemState, regions: Seq<MemoryRegion>, page: u64, level: nat)
    requires
        level <= 3,
    ensures
        ({
            let (t, ok) = create_tables(s, regions, page, level);
            &&& t.leaves == s.leaves
            &&& t.next >= s.next
            &&& tables_grow(s, t)
            &&& ok ==> has_levels(t, page, level)
            &&& has_levels(s, page, level) ==> t == s && ok
        }),
    decreases level,
{
    if level > 0 {
        assert(level == 1 || level == 2 || level == 3);
        let l = (level - 1) as nat;
        if s.table(level).contains_key(table_key(level, page)) {
            lemma_create_tables(s, regions, page, l);
        } else {
            match frame_at(regions, s.next) {
                None => {},
                Some(f) => {
                    let s2 = s.with_table(level, table_key(level, page), f);
                    lemma_create_tables(s2, regions, page, l);
                    assert(s2.table(level).contains_key(table_key(level, page)));
                    assert(tables_grow(s, s2));
                },
            }
        }
    }
}

/// The translation a successful step installs.
pub open spec fn step_translation(
    s: MemState,
    regions: Seq<MemoryRegion>,
    page: u64,
    flags: u64,
    identity: bool,
) -> Translation {
    Translation {
        frame: if identity {
            page
        } else {
            frame_at(regions, s.next).unwrap()
        },
        flags,
    }
}

proof fn lemma_map_step(s: MemState, regions: Seq<MemoryRegion>, page: u64, flags: u64, identity: bool)
    ensures
        ({
            let (t, r) = map_step(s, regions, page, flags, identity);
            &&& tables_grow(s, t)
            &&& t.next >= s.next
            &&& r is Err ==> t.leaves == s.leaves
            &&& r is Ok ==> {
                &&& !s.leaves.contains_key(page)
                &&& t.leaves == s.leaves.insert(
                    page,
                    step_translation(s, regions, page, flags, identity),
                )
                &&& has_levels(t, page, 3)
            }
        }),
{
    if identity {
        lemma_create_tables(s, regions, page, 3);
    } else {
        match frame_at(regions, s.next) {
            None => {},
            Some(f) => {
                let s2 = MemState { next: s.next + 1, ..s };
                lemma_create_tables(s2, regions, page, 3);
            },
        }
    }
}

proof fn lemma_map_all(
    s: MemState,
    regions: Seq<MemoryRegion>,
    pages: Seq<u64>,
    flags: u64,
    identity: bool,
)
    ensures
        ({
            let (t, r) = map_all(s, regions, pages, flags, identity);
            &&& tables_grow(s, t)
            &&& t.next >= s.next
            &&& forall|p: u64| #[trigger] s.leaves.contains_key(p) ==> t.leaves.contains_key(p)
                && t.leaves[p] == s.leaves[p]
            &&& r is Ok ==> {
                &&& forall|p: u64| #[trigger]
                    t.leaves.contains_key(p) <==> s.leaves.contains_key(p) || pages.contains(p)
                &&& forall|i: int|
                    0 <= i < pages.len() ==> {
                        &&& !s.leaves.contains_key(#[trigger] pages[i])
                        &&& t.leaves[pages[i]].flags == flags
                        &&& identity ==> t.leaves[pages[i]].frame == pages[i]
                        &&& has_levels(t, pages[i], 3)
                    }
            }
        }),
    decreases pages.len(),
{
    if pages.len() > 0 {
        let (m, r) = map_step(s, regions, pages[0], flags, identity);
        lemma_map_step(s, regions, pages[0], flags, identity);
        if r is Ok {
            let rest = pages.drop_first();
            lemma_map_all(m, regions, rest, flags, identity);
            let (t, r2) = map_all(m, regions, rest, flags, identity);
            assert forall|p: u64| #[trigger] s.leaves.contains_key(p) implies t.leaves.contains_key(p)
                && t.leaves[p] == s.leaves[p] by {
                assert(m.leaves.contains_key(p));
            }
            if r2 is Ok {
                assert forall|p: u64| #[trigger]
                    t.leaves.contains_key(p) <==> s.leaves.contains_key(p) || pages.contains(
                        p,
                    ) by {
                    if pages.contains(p) {
                        let j = choose|j: int| 0 <= j < pages.len() && pages[j] == p;
                        if j > 0 {
                            assert(rest[j - 1] == p);
                        }
                    }
                    if rest.contains(p) {
                        let j = choose|j: int| 0 <= j < rest.len() && rest[j] == p;
                        assert(pages[j + 1] == p);
                    }
                }
                assert forall|i: int| 0 <= i < pages.len() implies {
                    &&& !s.leaves.contains_key(#[trigger] pages[i])
                    &&& t.leaves[pages[i]].flags == flags
                    &&& identity ==> t.leaves[pages[i]].frame == pages[i]
                    &&& has_levels(t, pages[i], 3)
                } by {
                    if i > 0 {
                        assert(rest[i - 1] == pages[i]);
                    } else {
                        assert(m.leaves.contains_key(pages[0]));
                    }
                }
            }
        }
    }
}

/// Mapping the same range a second time, right after a successful first
/// request that covered at least one page, is refused and installs nothing;
/// where a frame was available to the second request (or it is an identity
/// request) the refusal names the conflict.
pub proof fn lemma_map_twice(
    s: MemState,
    regions: Seq<MemoryRegion>,
    pages: Seq<u64>,
    flags: u64,
    identity: bool,
)
    requires
        pages.len() > 0,
        map_all(s, regions, pages, flags, identity).1 is Ok,
    ensures
        ({
            let t = map_all(s, regions, pages, flags, identity).0;
            let (u, r) = map_all(t, regions, pages, flags, identity);
            &&& r is Err
            &&& u.leaves == t.leaves
            &&& (identity || frame_at(regions, t.next) is Some) ==> r is Err && r->Err_0 is PageAlreadyMapped
        }),
{
    let t = map_all(s, regions, pages, flags, identity).0;
    lemma_map_all(s, regions, pages, flags, identity);
    assert(pages.contains(pages[0]));
    lemma_map_step(t, regions, pages[0], flags, identity);
    if identity {
        lemma_create_tables(t, regions, pages[0], 3);
    } else {
        match frame_at(regions, t.next) {
            None => {},
            Some(f) => {
                lemma_create_tables(MemState { next: t.next + 1, ..t }, regions, pages[0], 3);
            },
        }
    }
}

/// A successful identity request binds every page to the frame at the same
/// address; where all tables the pages need were already present, it leaves
/// the frame allocator's cursor where it was.
#[verifier::rlimit(40)]
pub proof fn lemma_identity_map(s: MemState, regions: Seq<MemoryRegion>, pages: Seq<u64>, flags: u64)
    ensures
        ({
            let (t, r) = map_all(s, regions, pages, flags, true);
            &&& r is Ok ==> forall|i: int|
                0 <= i < pages.len() ==> #[trigger] t.leaves[pages[i]].frame == pages[i]
                    && t.leaves.contains_key(pages[i])
            &&& (forall|i: int| 0 <= i < pages.len() ==> has_levels(s, #[trigger] pages[i], 3))
                ==> t.next == s.next
        }),
    decreases pages.len(),
{
    lemma_map_all(s, regions, pages, flags, true);
    if pages.len() > 0 {
        let (m, r) = map_step(s, regions, pages[0], flags, true);
        lemma_create_tables(s, regions, pages[0], 3);
        let rest = pages.drop_first();
        if r is Ok {
            if forall|i: int| 0 <= i < pages.len() ==> has_levels(s, #[trigger] pages[i], 3) {
                assert(has_levels(s, pages[0], 3));
                lemma_map_step(s, regions, pages[0], flags, true);
                assert forall|i: int| 0 <= i < rest.len() implies has_levels(m, #[trigger] rest[i], 3) by {
                    assert(rest[i] == pages[i + 1]);
                    assert(has_levels(s, pages[i + 1], 3));
                }
            }
            lemma_identity_map(m, regions, rest, flags);
            assert forall|i: int| 0 <= i < pages.len() implies pages.contains(#[trigger] pages[i]) by {}
        }
        assert(pages.contains(pages[0]));
    }
}

/// A page-aligned start whose next three pages lie in one canonical half.
pub open spec fn three_pages_fit(a: u64) -> bool {
    &&& a % 4096 == 0
    &&& (a as int + 3 * 4096 <= LOWER_HALF_END || (a >= 0xffff_8000_0000_0000u64 && a as int + 3
        * 4096 <= u64::MAX))
}

/// `[a, a + 3 pages)` and `[a, a + 2 pages]` both cover the three pages
/// `a`, `a + 1 page`, `a + 2 pages`.
pub proof fn lemma_three_pages(a: u64)
    requires
        three_pages_fit(a),
    ensures
        range_pages(a, (a + 3 * 4096) as u64, false) == seq![a, (a + 4096) as u64, (a + 8192) as u64],
        range_pages(a, (a + 2 * 4096) as u64, true) == seq![a, (a + 4096) as u64, (a + 8192) as u64],
{
    let b = (a + 4096) as u64;
    let c = (a + 8192) as u64;
    let e = (a + 3 * 4096) as u64;
    assert(page_of(a) == a);
    assert(next_page(a) == b);
    assert(next_page(b) == c);
    assert(page_of(c) == c);
    let stop = next_page(c);
    assert(stop == page_of(e));
    assert(page_seq(stop, stop) =~= Seq::<u64>::empty());
    assert(page_seq(c, stop) =~= seq![c]);
    assert(page_seq(b, stop) =~= seq![b, c]);
    assert(page_seq(a, stop) =~= seq![a, b, c]);
}

/// Mapping `[a, a + 3 pages)`, or `[a, a + 2 pages]` inclusively, succeeds
/// when the three pages are free and the allocator holds enough frames for
/// them and any tables they lack; and whenever it succeeds it installs
/// exactly three translations: the three pages were free before, and are
/// the only ones added.
pub proof fn lemma_range_coverage(
    s: MemState,
    regions: Seq<MemoryRegion>,
    a: u64,
    flags: u64,
    inclusive: bool,
    identity: bool,
)
    requires
        three_pages_fit(a),
    ensures
        ({
            let end = if inclusive {
                (a + 2 * 4096) as u64
            } else {
                (a + 3 * 4096) as u64
            };
            let (t, r) = map_all(s, regions, range_pages(a, end, inclusive), flags, identity);
            &&& (!s.leaves.contains_key(a) && !s.leaves.contains_key((a + 4096) as u64)
                && !s.leaves.contains_key((a + 8192) as u64) && s.next + (if identity {
                0nat
            } else {
                3nat
            }) + 9 <= total_frames(regions)) ==> r is Ok
            &&& r is Ok ==> {
                &&& !s.leaves.contains_key(a)
                &&& !s.leaves.contains_key((a + 4096) as u64)
                &&& !s.leaves.contains_key((a + 8192) as u64)
                &&& forall|p: u64| #[trigger]
                    t.leaves.contains_key(p) <==> s.leaves.contains_key(p) || p == a || p == a
                        + 4096 || p == a + 8192
            }
        }),
{
    lemma_three_pages(a);
    let pages = seq![a, (a + 4096) as u64, (a + 8192) as u64];
    lemma_map_all(s, regions, pages, flags, identity);
    assert forall|p: u64| pages.contains(p) <==> p == a || p == a + 4096 || p == a + 8192 by {
        if p == a {
            assert(pages[0] == p);
        }
        if p == a + 4096 {
            assert(pages[1] == p);
        }
        if p == a + 8192 {
            assert(pages[2] == p);
        }
    }
    assert(pages[1] == a + 4096);
    assert(pages[2] == a + 8192);
    if !s.leaves.contains_key(a) && !s.leaves.contains_key((a + 4096) as u64)
        && !s.leaves.contains_key((a + 8192) as u64) && s.next + (if identity {
        0nat
    } else {
        3nat
    }) + 9 <= total_frames(regions) {
        assert(fresh_pages(s, pages));
        lemma_map_succeeds(s, regions, pages, flags, identity);
    }
}

/// Inside the lower half, a page sequence is an arithmetic progression.
pub proof fn lemma_lower_seq(p: u64, end: u64)
    requires
        p % 4096 == 0,
        end % 4096 == 0,
        p <= end <= LOWER_HALF_END,
    ensures
        page_seq(p, end).len() == (end - p) / 4096,
        forall|i: int| 0 <= i < page_seq(p, end).len() ==> #[trigger] page_seq(p, end)[i] == p + 4096 * i,
    decreases end - p,
{
    if p < end {
        let n = next_page(p);
        if p + 4096 == LOWER_HALF_END {
            assert(end == LOWER_HALF_END);
            assert(page_seq(n, end) =~= Seq::<u64>::empty());
        } else {
            assert(n == p + 4096);
            lemma_lower_seq(n, end);
            assert forall|i: int| 0 <= i < page_seq(p, end).len() implies #[trigger] page_seq(p, end)[i]
                == p + 4096 * i by {
                if i > 0 {
                    assert(page_seq(p, end)[i] == page_seq(n, end)[i - 1]);
                }
            }
        }
    } else {
        assert(page_seq(p, end) =~= Seq::<u64>::empty());
    }
}

/// Number of tables `page` still lacks at `level` and below.
pub open spec fn missing_tables(s: MemState, page: u64, level: nat) -> nat {
    (if level >= 3 && !s.l3.contains_key(table_key(3, page)) { 1nat } else { 0nat })
        + (if level >= 2 && !s.l2.contains_key(table_key(2, page)) { 1nat } else { 0nat })
        + (if level >= 1 && !s.l1.contains_key(table_key(1, page)) { 1nat } else { 0nat })
}

/// With a frame left for each missing table, table creation succeeds and
/// takes exactly one frame per missing table.
proof fn lemma_create_tables_enough(s: MemState, regions: Seq<MemoryRegion>, page: u64, level: nat)
    requires
        level <= 3,
        s.next + missing_tables(s, page, level) <= total_frames(regions),
    ensures
        ({
            let (t, ok) = create_tables(s, regions, page, level);
            &&& ok
            &&& t.next == s.next + missing_tables(s, page, level)
            &&& has_levels(t, page, level)
        }),
    decreases level,
{
    lemma_create_tables(s, regions, page, level);
    if level > 0 {
        assert(level == 1 || level == 2 || level == 3);
        let l = (level - 1) as nat;
        if s.table(level).contains_key(table_key(level, page)) {
            lemma_create_tables_enough(s, regions, page, l);
        } else {
            lemma_frame_at_some(regions, s.next);
            let f = frame_at(regions, s.next).unwrap();
            let s2 = s.with_table(level, table_key(level, page), f);
            assert(missing_tables(s2, page, l) == missing_tables(s, page, l));
            lemma_create_tables_enough(s2, regions, page, l);
            lemma_create_tables(s2, regions, page, l);
            assert(s2.table(level).contains_key(table_key(level, page)));
        }
    }
}

/// Every page of `pages` is free in `s`, and no page repeats.
pub open spec fn fresh_pages(s: MemState, pages: Seq<u64>) -> bool {
    &&& forall|i: int| 0 <= i < pages.len() ==> !s.leaves.contains_key(#[trigger] pages[i])
    &&& forall|i: int, j: int| 0 <= i < j < pages.len() ==> #[trigger] pages[i] != #[trigger] pages[j]
}

/// Pages that all lie under the same three tables as `key`.
pub open spec fn share_tables(pages: Seq<u64>, key: u64) -> bool {
    forall|i: int|
        0 <= i < pages.len() ==> {
            &&& table_key(3, #[trigger] pages[i]) == table_key(3, key)
            &&& table_key(2, pages[i]) == table_key(2, key)
            &&& table_key(1, pages[i]) == table_key(1, key)
        }
}

proof fn lemma_fresh_rest(s: MemState, t: MemState, pages: Seq<u64>)
    requires
        pages.len() > 0,
        fresh_pages(s, pages),
        t.leaves == s.leaves.insert(pages[0], t.leaves[pages[0]]),
    ensures
        fresh_pages(t, pages.drop_first()),
{
    let rest = pages.drop_first();
    assert forall|i: int| 0 <= i < rest.len() implies !t.leaves.contains_key(#[trigger] rest[i]) by {
        assert(rest[i] == pages[i + 1]);
        assert(pages[0] != pages[i + 1]);
    }
    assert forall|i: int, j: int| 0 <= i < j < rest.len() implies #[trigger] rest[i] != #[trigger] rest[j] by {
        assert(rest[i] == pages[i + 1]);
        assert(rest[j] == pages[j + 1]);
    }
}

/// A request over free pages that share their tables succeeds when the
/// allocator has a frame for each page and for each table still missing.
pub proof fn lemma_map_shared_succeeds(
    s: MemState,
    regions: Seq<MemoryRegion>,
    pages: Seq<u64>,
    flags: u64,
    key: u64,
)
    requires
        fresh_pages(s, pages),
        share_tables(pages, key),
        s.next + pages.len() + missing_tables(s, key, 3) <= total_frames(regions),
    ensures
        map_all(s, regions, pages, flags, false).1 is Ok,
    decreases pages.len(),
{
    if pages.len() > 0 {
        let p0 = pages[0];
        lemma_frame_at_some(regions, s.next);
        let f = frame_at(regions, s.next).unwrap();
        let s1 = MemState { next: s.next + 1, ..s };
        assert(missing_tables(s1, p0, 3) == missing_tables(s, key, 3));
        lemma_create_tables_enough(s1, regions, p0, 3);
        lemma_create_tables(s1, regions, p0, 3);
        let (t, ok) = create_tables(s1, regions, p0, 3);
        let m = MemState { leaves: t.leaves.insert(p0, Translation { frame: f, flags }), ..t };
        assert(map_step(s, regions, p0, flags, false) == (m, Ok::<(), crate::paging::MapError>(())));
        lemma_fresh_rest(s, m, pages);
        let rest = pages.drop_first();
        assert forall|i: int| 0 <= i < rest.len() implies {
            &&& table_key(3, #[trigger] rest[i]) == table_key(3, key)
            &&& table_key(2, rest[i]) == table_key(2, key)
            &&& table_key(1, rest[i]) == table_key(1, key)
        } by {
            assert(rest[i] == pages[i + 1]);
        }
        assert(missing_tables(m, key, 3) == 0);
        lemma_map_shared_succeeds(m, regions, rest, flags, key);
    }
}

/// A request over free pages succeeds when the allocator has, for each
/// page, its own frame (unless identity mapping) and three more for tables.
pub proof fn lemma_map_succeeds(
    s: MemState,
    regions: Seq<MemoryRegion>,
    pages: Seq<u64>,
    flags: u64,
    identity: bool,
)
    requires
        fresh_pages(s, pages),
        s.next + (if identity { 0 } else { pages.len() }) + 3 * pages.len() <= total_frames(regions),
    ensures
        map_all(s, regions, pages, flags, identity).1 is Ok,
    decreases pages.len(),
{
    if pages.len() > 0 {
        let p0 = pages[0];
        lemma_frame_at_some(regions, s.next);
        let f = if identity { p0 } else { frame_at(regions, s.next).unwrap() };
        let s1 = if identity { s } else { MemState { next: s.next + 1, ..s } };
        lemma_create_tables_enough(s1, regions, p0, 3);
        lemma_create_tables(s1, regions, p0, 3);
        let (t, ok) = create_tables(s1, regions, p0, 3);
        let m = MemState { leaves: t.leaves.insert(p0, Translation { frame: f, flags }), ..t };
        assert(map_step(s, regions, p0, flags, identity) == (m, Ok::<(), crate::paging::MapError>(())));
        lemma_fresh_rest(s, m, pages);
        lemma_map_succeeds(m, regions, pages.drop_first(), flags, identity);
    }
}

/// Identity mapping does not depend on the allocator's cursor: from two
/// states with the same translations and enough frames for any missing
/// tables, the same request succeeds in both and installs the same
/// translations.
pub proof fn lemma_identity_cursor_free(
    s1: MemState,
    s2: MemState,
    regions: Seq<MemoryRegion>,
    pages: Seq<u64>,
    flags: u64,
)
    requires
        s1.leaves == s2.leaves,
        fresh_pages(s1, pages),
        s1.next + 3 * pages.len() <= total_frames(regions),
        s2.next + 3 * pages.len() <= total_frames(regions),
    ensures
        map_all(s1, regions, pages, flags, true).1 is Ok,
        map_all(s2, regions, pages, flags, true).1 is Ok,
        map_all(s1, regions, pages, flags, true).0.leaves == map_all(
            s2,
            regions,
            pages,
            flags,
            true,
        ).0.leaves,
{
    lemma_map_succeeds(s1, regions, pages, flags, true);
    lemma_map_succeeds(s2, regions, pages, flags, true);
    lemma_map_all(s1, regions, pages, flags, true);
    lemma_map_all(s2, regions, pages, flags, true);
    let t1 = map_all(s1, regions, pages, flags, true).0;
    let t2 = map_all(s2, regions, pages, flags, true).0;
    assert forall|p: u64| #[trigger] t1.leaves.contains_key(p) implies t1.leaves[p] == t2.leaves[p] by {
        if s1.leaves.contains_key(p) {
            assert(s2.leaves.contains_key(p));
        } else {
            assert(pages.contains(p));
            let i = choose|i: int| 0 <= i < pages.len() && pages[i] == p;
            assert(t1.leaves[pages[i]].frame == pages[i]);
            assert(t2.leaves[pages[i]].frame == pages[i]);
        }
    }
    assert forall|p: u64| t1.leaves.contains_key(p) <==> #[trigger] t2.leaves.contains_key(p) by {
        assert(t1.leaves.contains_key(p) <==> s1.leaves.contains_key(p) || pages.contains(p));
    }
    assert(t1.leaves =~= t2.leaves);
}

/// The heap pages: consecutive pages from `HEAP_START`, all under one set
/// of tables.
pub proof fn lemma_heap_pages()
    ensures
        heap_pages().len() == HEAP_SIZE / 4096,
        forall|i: int| 0 <= i < heap_pages().len() ==> #[trigger] heap_pages()[i] == HEAP_START + 4096 * i,
        share_tables(heap_pages(), HEAP_START),
        forall|i: int, j: int| 0 <= i < j < heap_pages().len() ==> #[trigger] heap_pages()[i] != #[trigger] heap_pages()[j],
{
    let end = (HEAP_START + HEAP_SIZE) as u64;
    assert(page_of(HEAP_START) == HEAP_START);
    assert(page_of(end) == end);
    lemma_lower_seq(HEAP_START, end);
    assert forall|i: int| 0 <= i < heap_pages().len() implies {
        &&& table_key(3, #[trigger] heap_pages()[i]) == table_key(3, HEAP_START)
        &&& table_key(2, heap_pages()[i]) == table_key(2, HEAP_START)
        &&& table_key(1, heap_pages()[i]) == table_key(1, HEAP_START)
    } by {
        let x = heap_pages()[i];
        assert(HEAP_START <= x < 0x4444_4460_0000);
    }
}

/// On a state where no heap page is mapped yet, mapping the heap succeeds
/// as soon as the allocator has a frame for each heap page and for each
/// table the heap still lacks.
pub proof fn lemma_heap_succeeds(s: MemState, regions: Seq<MemoryRegion>)
    requires
        forall|i: int| 0 <= i < heap_pages().len() ==> !s.leaves.contains_key(#[trigger] heap_pages()[i]),
        s.next + HEAP_SIZE / 4096 + missing_tables(s, HEAP_START, 3) <= total_frames(regions),
    ensures
        map_all(s, regions, heap_pages(), heap_flags(), false).1 is Ok,
{
    lemma_heap_pages();
    lemma_map_shared_succeeds(s, regions, heap_pages(), heap_flags(), HEAP_START);
}

/// Once the heap is mapped, the page of every address in the heap range
/// holds a present, writable translation.
pub proof fn lemma_heap_mapped(s: MemState, regions: Seq<MemoryRegion>, a: u64)
    requires
        map_all(s, regions, heap_pages(), heap_flags(), false).1 is Ok,
        HEAP_START <= a < HEAP_START + HEAP_SIZE,
    ensures
        ({
            let t = map_all(s, regions, heap_pages(), heap_flags(), false).0;
            &&& t.leaves.contains_key(page_of(a))
            &&& t.leaves[page_of(a)].flags == heap_flags()
        }),
{
    lemma_map_all(s, regions, heap_pages(), heap_flags(), false);
    lemma_heap_pages();
    let i = (page_of(a) - HEAP_START) / 4096;
    assert(heap_pages()[i] == page_of(a));
    assert(heap_pages().contains(page_of(a)));
}

} // verus!
