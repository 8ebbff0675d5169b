//! Provisioning of the kernel heap: a fixed virtual window, backed page by
//! page with frames from the frame source.

use crate::memory::{FrameAllocator, PhysFrame};
use crate::paging::{
    lemma_entry_round_trip, MapToError, OffsetPageTable, Page, PageTableFlags, PageTableMemory,
};
use vstd::prelude::*;

verus! {

/// Virtual address at which the heap starts.
pub const HEAP_START: u64 = 0x4444_4444_0000;

/// Size of the heap in bytes: 100 KiB.
pub const HEAP_SIZE: u64 = 102400;

/// Number of pages that cover the heap window.
pub const HEAP_PAGES: u64 = 25;

/// Placeholder for a heap allocator that serves no request.
#[derive(Debug, Clone, Copy, PartialEq, Eq, Structural)]
pub struct Dummy;

/// The byte range `[start, start + size)` that is handed to the dynamic
/// allocator once every page of it is mapped.
#[derive(Debug, Clone, Copy, PartialEq, Eq, Structural)]
pub struct HeapRegion {
    pub start: u64,
    pub size: u64,
}

impl HeapRegion {
    /// Whether the `len` bytes from `addr` on lie wholly inside the region.
    pub open spec fn holds(self, addr: u64, len: u64) -> bool {
        self.start <= addr && addr + len <= self.start + self.size
    }

    /// Whether the `len` bytes from `addr` on lie wholly inside the region.
    pub fn contains(&self, addr: u64, len: u64) -> (inside: bool)
        ensures
            inside == self.holds(addr, len),
    {
        addr >= self.start && addr - self.start <= self.size && len <= self.size - (addr
            - self.start)
    }
}

/// The `k`-th page of the heap window.
pub open spec fn heap_page(k: int) -> Page {
    Page { start_address: (HEAP_START + k * 4096) as u64 }
}

/// Whether `page` is one of the first `count` pages of the heap window.
pub open spec fn among_heap_pages(page: Page, count: int) -> bool {
    exists|k: int| 0 <= k < count && page == #[trigger] heap_page(k)
}

/// Position in the frame source's stream of the frame that backs the `k`-th
/// heap page, where `missing` tables had to be created for the first page:
/// the frame of the first page is taken before those of its tables.
pub open spec fn backing_index(missing: nat, k: int) -> int {
    if k == 0 {
        0
    } else {
        missing + k
    }
}

/// How a run of `init_heap` ends: its answer, the number of heap pages it
/// mapped, and the number of frames it took from the source.
pub struct HeapProgress {
    pub outcome: Result<(), MapToError>,
    pub mapped: int,
    pub taken: int,
}

/// How `init_heap` goes on when pages `k` and later are still to be mapped
/// and the frame source holds `available` frames; `taken` counts the frames
/// from here on. The tables and translations are those of `mapper`, the
/// state before the first page.
///
/// For each page a frame is taken first; the run ends where the source has
/// none. The first page is then mapped as `map_to` maps it, which may take
/// frames for tables and may fail. All later pages are reached through the
/// tables of the first, so each of them is mapped unless it is mapped
/// already.
pub open spec fn heap_progress_from<M: PageTableMemory>(
    mapper: OffsetPageTable<M>,
    available: int,
    k: int,
) -> HeapProgress
    decreases HEAP_PAGES - k,
{
    if k >= HEAP_PAGES {
        HeapProgress { outcome: Ok(()), mapped: k, taken: 0 }
    } else if available <= 0 {
        HeapProgress { outcome: Err(MapToError::FrameAllocationFailed), mapped: k, taken: 0 }
    } else if k == 0 {
        match mapper.map_outcome(heap_page(0), (available - 1) as nat) {
            Err(e) => HeapProgress {
                outcome: Err(e),
                mapped: 0,
                taken: 1 + mapper.frames_taken(heap_page(0), (available - 1) as nat) as int,
            },
            Ok(()) => {
                let missing = mapper.missing_tables(heap_page(0));
                let rest = heap_progress_from(mapper, available - 1 - missing, 1);
                HeapProgress {
                    outcome: rest.outcome,
                    mapped: rest.mapped,
                    taken: 1 + missing + rest.taken,
                }
            },
        }
    } else {
        match mapper.translate(heap_page(k)) {
            Some((frame, _)) => HeapProgress {
                outcome: Err(MapToError::PageAlreadyMapped(frame)),
                mapped: k,
                taken: 1,
            },
            None => {
                let rest = heap_progress_from(mapper, available - 1, k + 1);
                HeapProgress { outcome: rest.outcome, mapped: rest.mapped, taken: 1 + rest.taken }
            },
        }
    }
}

/// Number of tables that `init_heap` makes: those that `map_to` makes for
/// the first page, once a frame for the page itself is taken.
pub open spec fn heap_tables_made<M: PageTableMemory>(
    mapper: OffsetPageTable<M>,
    available: nat,
) -> nat {
    if available == 0 {
        0
    } else {
        mapper.frames_taken(heap_page(0), (available - 1) as nat)
    }
}

/// How `init_heap` ends for a hierarchy in state `mapper` and a frame source
/// that holds `available` frames.
pub open spec fn heap_progress<M: PageTableMemory>(
    mapper: OffsetPageTable<M>,
    available: nat,
) -> HeapProgress {
    heap_progress_from(mapper, available as int, 0)
}

proof fn lemma_later_pages_unmapped<M: PageTableMemory>(
    mapper: OffsetPageTable<M>,
    available: int,
    k: int,
)
    requires
        1 <= k <= HEAP_PAGES,
        available >= HEAP_PAGES - k,
        forall|j: int| k <= j < HEAP_PAGES ==> (#[trigger] mapper.translate(heap_page(j))) is None,
    ensures
        heap_progress_from(mapper, available, k) == (HeapProgress {
            outcome: Ok(()),
            mapped: HEAP_PAGES as int,
            taken: HEAP_PAGES - k,
        }),
    decreases HEAP_PAGES - k,
{
    if k < HEAP_PAGES {
        assert(mapper.translate(heap_page(k)) is None);
        lemma_later_pages_unmapped(mapper, available - 1, k + 1);
    }
}

/// A window of which no page is mapped is provisioned whole where the frame
/// source holds a frame for each page and for each table that the first page
/// misses: `init_heap` succeeds, maps all the pages and takes just those
/// frames.
pub proof fn lemma_unmapped_window_succeeds<M: PageTableMemory>(
    mapper: OffsetPageTable<M>,
    available: nat,
)
    requires
        !mapper.under_huge_page(heap_page(0)),
        forall|j: int| 0 <= j < HEAP_PAGES ==> (#[trigger] mapper.translate(heap_page(j))) is None,
        available >= HEAP_PAGES + mapper.missing_tables(heap_page(0)),
    ensures
        heap_progress(mapper, available) == (HeapProgress {
            outcome: Ok(()),
            mapped: HEAP_PAGES as int,
            taken: HEAP_PAGES + mapper.missing_tables(heap_page(0)),
        }),
{
    assert(mapper.translate(heap_page(0)) is None);
    lemma_later_pages_unmapped(
        mapper,
        available - 1 - mapper.missing_tables(heap_page(0)),
        1,
    );
}

/// A window whose first page is mapped already is refused at that page:
/// where the frame source holds a frame at all, `init_heap` takes one, maps
/// nothing and names the frame that the page is mapped to.
pub proof fn lemma_mapped_first_page_fails<M: PageTableMemory>(
    mapper: OffsetPageTable<M>,
    available: nat,
    frame: PhysFrame,
    flags: PageTableFlags,
)
    requires
        available >= 1,
        mapper.translate(heap_page(0)) == Some((frame, flags)),
    ensures
        heap_progress(mapper, available) == (HeapProgress {
            outcome: Err(MapToError::PageAlreadyMapped(frame)),
            mapped: 0,
            taken: 1,
        }),
{
}

/// Every heap page is well formed, all are reached through one level-1
/// table, and different positions name different pages.
pub proof fn lemma_heap_pages(j: int, k: int)
    requires
        0 <= j < HEAP_PAGES,
        0 <= k < HEAP_PAGES,
    ensures
        heap_page(k).wf(),
        heap_page(k).start_address == HEAP_START + k * 4096,
        heap_page(k).shares_table_with(heap_page(j)),
        j != k ==> heap_page(j) != heap_page(k),
{
    let a: u64 = j as u64;
    let b: u64 = k as u64;
    assert({
        let x = (0x4444_4444_0000u64 + a * 4096) as u64;
        let y = (0x4444_4444_0000u64 + b * 4096) as u64;
        &&& y % 4096 == 0
        &&& y < 0x8000_0000_0000
        &&& (x >> 39) & 0x1ff == (y >> 39) & 0x1ff
        &&& (x >> 30) & 0x1ff == (y >> 30) & 0x1ff
        &&& (x >> 21) & 0x1ff == (y >> 21) & 0x1ff
    }) by (bit_vector)
        requires
            a < 25,
            b < 25,
    ;
}

/// The heap pages cover the heap window: every object that lies inside the
/// region that `init_heap` returns begins in one of the heap pages, and so
/// do all of its bytes.
pub proof fn lemma_heap_window_covered(addr: u64, len: u64, byte: u64)
    requires
        (HeapRegion { start: HEAP_START, size: HEAP_SIZE }).holds(addr, len),
        addr <= byte < addr + len,
    ensures
        0 <= (byte - HEAP_START) / 4096 < HEAP_PAGES,
        heap_page((byte - HEAP_START) / 4096).start_address <= byte < heap_page(
            (byte - HEAP_START) / 4096,
        ).start_address + 4096,
{
}

/// Maps every page of the heap window, present and writable, each to a frame
/// fresh from `frame_allocator`, and returns the byte range to hand to the
/// dynamic allocator. Stops at the first page that cannot be mapped and
/// returns its error; what was mapped before stays mapped.
pub fn init_heap<M: PageTableMemory, A: FrameAllocator>(
    mapper: &mut OffsetPageTable<M>,
    frame_allocator: &mut A,
) -> (r: Result<HeapRegion, MapToError>)
    requires
        old(mapper).wf(),
        old(frame_allocator).wf(),
        old(mapper).fresh(old(frame_allocator).upcoming()),
    ensures
        final(mapper).wf(),
        final(frame_allocator).wf(),
        final(mapper).fresh(final(frame_allocator).upcoming()),
        final(mapper).offset() == old(mapper).offset(),
        final(mapper).root() == old(mapper).root(),
        match r {
            Ok(region) => heap_progress(*old(mapper), old(frame_allocator).upcoming().len()).outcome
                is Ok && region == (HeapRegion { start: HEAP_START, size: HEAP_SIZE }),
            Err(e) => heap_progress(*old(mapper), old(frame_allocator).upcoming().len()).outcome
                == Err::<(), MapToError>(e),
        },
        r is Ok <==> heap_progress(*old(mapper), old(frame_allocator).upcoming().len()).mapped
            == HEAP_PAGES,
        ({
            let progress = heap_progress(*old(mapper), old(frame_allocator).upcoming().len());
            let missing = old(mapper).missing_tables(heap_page(0));
            &&& 0 <= progress.mapped <= HEAP_PAGES
            &&& 0 <= progress.taken <= old(frame_allocator).upcoming().len()
            &&& final(frame_allocator).upcoming() == old(frame_allocator).upcoming().skip(
                progress.taken,
            )
            &&& forall|k: int|
                0 <= k < progress.mapped ==> #[trigger] final(mapper).translate(heap_page(k))
                    == Some(
                    (
                        old(frame_allocator).upcoming()[backing_index(missing, k)],
                        PageTableFlags { present: true, writable: true },
                    ),
                )
            &&& forall|q: Page|
                q.wf() && !among_heap_pages(q, progress.mapped)
                    ==> #[trigger] final(mapper).translate(q) == old(mapper).translate(q)
            &&& final(mapper).memory().last_invalidated() == if progress.mapped > 0 {
                Some(heap_page(progress.mapped - 1))
            } else {
                old(mapper).memory().last_invalidated()
            }
        }),
        forall|f: PhysFrame| #[trigger]
            final(mapper).is_table_frame(f) <==> old(mapper).is_table_frame(f) || exists|i: int|
                1 <= i < 1 + heap_tables_made(*old(mapper), old(frame_allocator).upcoming().len())
                    && #[trigger] old(frame_allocator).upcoming()[i] == f,
{
    let ghost s0 = *mapper;
    let ghost up0 = frame_allocator.upcoming();
    let ghost missing = s0.missing_tables(heap_page(0));
    let ghost total = heap_progress_from(s0, up0.len() as int, 0);
    let flags = PageTableFlags { present: true, writable: true };
    let mut k: u64 = 0;
    proof {
        assert(up0.skip(0) =~= up0);
    }
    while k < HEAP_PAGES
        invariant
            0 <= k <= HEAP_PAGES,
            flags == (PageTableFlags { present: true, writable: true }),
            missing == s0.missing_tables(heap_page(0)),
            s0 == *old(mapper),
            up0 == old(frame_allocator).upcoming(),
            total == heap_progress_from(s0, up0.len() as int, 0),
            s0.wf(),
            s0.fresh(up0),
            mapper.wf(),
            frame_allocator.wf(),
            mapper.fresh(frame_allocator.upcoming()),
            mapper.offset() == s0.offset(),
            mapper.root() == s0.root(),
            k > 0 ==> backing_index(missing, k as int) <= up0.len(),
            frame_allocator.upcoming() == up0.skip(
                if k == 0 {
                    0
                } else {
                    backing_index(missing, k as int)
                },
            ),
            ({
                let here = heap_progress_from(
                    s0,
                    frame_allocator.upcoming().len() as int,
                    k as int,
                );
                &&& total.outcome == here.outcome
                &&& total.mapped == here.mapped
                &&& total.taken == up0.len() - frame_allocator.upcoming().len() + here.taken
            }),
            k == 0 ==> *mapper == s0,
            k > 0 ==> mapper.missing_tables(heap_page(0)) == 0 && !mapper.under_huge_page(
                heap_page(0),
            ),
            k > 0 ==> missing == heap_tables_made(s0, up0.len()),
            mapper.memory().last_invalidated() == if k > 0 {
                Some(heap_page(k - 1))
            } else {
                s0.memory().last_invalidated()
            },
            forall|f: PhysFrame| #[trigger]
                mapper.is_table_frame(f) <==> s0.is_table_frame(f) || exists|i: int|
                    1 <= i < 1 + (if k == 0 {
                        0
                    } else {
                        missing as int
                    }) && #[trigger] up0[i] == f,
            forall|q: Page|
                q.wf() && !among_heap_pages(q, k as int) ==> #[trigger] mapper.translate(q)
                    == s0.translate(q),
            forall|j: int|
                0 <= j < k ==> #[trigger] mapper.translate(heap_page(j)) == Some(
                    (up0[backing_index(missing, j)], flags),
                ),
        decreases HEAP_PAGES - k,
    {
        let page = Page { start_address: HEAP_START + k * 4096 };
        let ghost before = *mapper;
        let ghost up = frame_allocator.upcoming();
        proof {
            lemma_heap_pages(0, k as int);
            assert(page == heap_page(k as int));
            assert(before.translate(page) == s0.translate(page)) by {
                assert forall|j: int| 0 <= j < k implies page != #[trigger] heap_page(j) by {
                    lemma_heap_pages(j, k as int);
                }
            }
            before.lemma_shared_table(page, heap_page(0));
            assert(heap_progress_from(s0, up.len() as int, k as int) == if up.len() == 0 {
                HeapProgress {
                    outcome: Err(MapToError::FrameAllocationFailed),
                    mapped: k as int,
                    taken: 0,
                }
            } else {
                match before.map_outcome(page, (up.len() - 1) as nat) {
                    Err(e) => HeapProgress {
                        outcome: Err(e),
                        mapped: k as int,
                        taken: 1 + before.frames_taken(page, (up.len() - 1) as nat) as int,
                    },
                    Ok(()) => {
                        let rest = heap_progress_from(
                            s0,
                            up.len() - 1 - before.missing_tables(page),
                            k + 1,
                        );
                        HeapProgress {
                            outcome: rest.outcome,
                            mapped: rest.mapped,
                            taken: 1 + before.missing_tables(page) + rest.taken,
                        }
                    },
                }
            });
        }
        let frame = match frame_allocator.allocate_frame() {
            Some(frame) => frame,
            None => {
                return Err(MapToError::FrameAllocationFailed);
            },
        };
        proof {
            let rest = up.skip(1);
            assert forall|i: int| 0 <= i < rest.len() implies (#[trigger] rest[i]).wf()
                && !mapper.is_table_frame(rest[i]) by {
                assert(rest[i] == up[i + 1]);
            }
            assert(frame == up[0]);
            assert(frame.wf());
        }
        let ghost taken = before.frames_taken(page, up.skip(1).len());
        proof {
            let base = if k == 0 {
                0
            } else {
                backing_index(missing, k as int)
            };
            assert(up0.skip(base).skip(1).skip(taken as int) =~= up0.skip(base + 1 + taken));
        }
        let outcome = mapper.map_to(page, frame, flags, frame_allocator);
        proof {
            let rest = up.skip(1);
            let made = if k == 0 {
                taken as int
            } else {
                0
            };
            assert(taken == before.frames_taken(page, rest.len()));
            if k > 0 {
                assert(taken == 0);
            } else {
                assert(taken == heap_tables_made(s0, up0.len()));
            }
            assert forall|f: PhysFrame| #[trigger]
                mapper.is_table_frame(f) <==> s0.is_table_frame(f) || exists|i: int|
                    1 <= i < 1 + (if k == 0 {
                        made
                    } else {
                        missing as int
                    }) && #[trigger] up0[i] == f by {
                if k == 0 {
                    if exists|i: int| 0 <= i < taken && #[trigger] rest[i] == f {
                        let i = choose|i: int| 0 <= i < taken && #[trigger] rest[i] == f;
                        assert(up0[i + 1] == f);
                    }
                    if exists|i: int| 1 <= i < 1 + made && #[trigger] up0[i] == f {
                        let i = choose|i: int| 1 <= i < 1 + made && #[trigger] up0[i] == f;
                        assert(rest[i - 1] == f);
                    }
                }
            }
        }
        match outcome {
            Ok(()) => {},
            Err(e) => {
                proof {
                    assert forall|q: Page|
                        q.wf() && !among_heap_pages(q, k as int) implies #[trigger] mapper.translate(
                        q,
                    ) == s0.translate(q) by {
                        assert(mapper.translate(q) == before.translate(q));
                    }
                    assert forall|j: int| 0 <= j < k implies #[trigger] mapper.translate(
                        heap_page(j),
                    ) == Some((up0[backing_index(missing, j)], flags)) by {
                        lemma_heap_pages(0, j);
                        assert(mapper.translate(heap_page(j)) == before.translate(heap_page(j)));
                    }
                }
                return Err(e);
            },
        }
        proof {
            assert(frame == up0[backing_index(missing, k as int)]);
            lemma_entry_round_trip(frame, flags);
            assert(mapper.missing_tables(heap_page(0)) == 0) by {
                assert(heap_page(0).shares_table_with(page));
            }
            mapper.lemma_shared_table(page, heap_page(0));
            assert forall|q: Page|
                q.wf() && !among_heap_pages(q, k + 1) implies #[trigger] mapper.translate(q)
                == s0.translate(q) by {
                assert(q != heap_page(k as int));
                assert(mapper.translate(q) == before.translate(q));
                if among_heap_pages(q, k as int) {
                    let j = choose|j: int| 0 <= j < k && q == #[trigger] heap_page(j);
                    assert(0 <= j < k + 1 && q == heap_page(j));
                }
            }
            assert forall|j: int| 0 <= j < k + 1 implies #[trigger] mapper.translate(heap_page(j))
                == Some((up0[backing_index(missing, j)], flags)) by {
                lemma_heap_pages(j, k as int);
                lemma_heap_pages(0, j);
                if j < k {
                    assert(mapper.translate(heap_page(j)) == before.translate(heap_page(j)));
                }
            }
        }
        k = k + 1;
    }
    Ok(HeapRegion { start: HEAP_START, size: HEAP_SIZE })
}

} // verus!
