//! Physical frames, boot-reported memory regions and the frame allocators
//! built on them.

use crate::paging::{
    is_hierarchy, is_table_of, mapping_of, MapToError, OffsetPageTable, Page, PageTableFlags, PageTableMemory,
};
use vstd::prelude::*;

verus! {

/// Size in bytes of a physical frame and of a virtual page.
pub const PAGE_SIZE: usize = 4096;

/// First address beyond the physical address space (52 address bits).
pub const PHYS_ADDR_LIMIT: u64 = 0x10_0000_0000_0000;

/// A 4 KiB physical frame, named by the address of its first byte.
#[derive(Debug, Clone, Copy, PartialEq, Eq, Structural)]
pub struct PhysFrame {
    pub start_address: u64,
}

impl PhysFrame {
    /// A frame is well formed when it starts on a frame boundary inside the
    /// physical address space.
    pub open spec fn wf(self) -> bool {
        &&& self.start_address % 4096 == 0
        &&& self.start_address < PHYS_ADDR_LIMIT
    }

    /// The frame that holds the physical address `addr`.
    pub fn containing_address(addr: u64) -> (frame: PhysFrame)
        requires
            addr < PHYS_ADDR_LIMIT,
        ensures
            frame.wf(),
            frame.start_address == addr - addr % 4096,
    {
        PhysFrame { start_address: addr - addr % 4096 }
    }

    /// Address of the first byte of the frame.
    pub fn start_address(&self) -> (addr: u64)
        ensures
            addr == self.start_address,
    {
        self.start_address
    }
}

/// One entry of the memory map handed over at boot: the address range
/// `[start, end)` and whether the kernel may use it.
#[derive(Debug, Clone, Copy, PartialEq, Eq, Structural)]
pub struct MemoryRegion {
    pub start: u64,
    pub end: u64,
    pub usable: bool,
}

impl MemoryRegion {
    /// A region is well formed when both bounds lie on frame boundaries, the
    /// range is not reversed and it ends inside the physical address space.
    pub open spec fn wf(self) -> bool {
        &&& self.start % 4096 == 0
        &&& self.end % 4096 == 0
        &&& self.start <= self.end
        &&& self.end <= PHYS_ADDR_LIMIT
    }

    /// Number of frames the region contributes to the allocation stream.
    pub open spec fn frame_count(self) -> nat {
        if self.usable && self.start < self.end {
            ((self.end - self.start) / 4096) as nat
        } else {
            0
        }
    }

    /// The frames of the region in ascending order; empty unless the region
    /// is usable.
    pub open spec fn frames(self) -> Seq<PhysFrame> {
        Seq::new(
            self.frame_count(),
            |i: int| PhysFrame { start_address: (self.start + i * 4096) as u64 },
        )
    }

    /// Whether `frame` lies wholly inside this region.
    pub open spec fn contains_frame(self, frame: PhysFrame) -> bool {
        self.start <= frame.start_address && frame.start_address + 4096 <= self.end
    }

    /// Tests well-formedness at run time.
    pub fn is_well_formed(&self) -> (ok: bool)
        ensures
            ok == self.wf(),
    {
        self.start % 4096 == 0 && self.end % 4096 == 0 && self.start <= self.end && self.end
            <= PHYS_ADDR_LIMIT
    }
}

/// Every usable region of the list is well formed. Of a region that is not
/// usable nothing is asked: it gives no frame.
pub open spec fn regions_wf(regions: Seq<MemoryRegion>) -> bool {
    forall|i: int| 0 <= i < regions.len() && (#[trigger] regions[i]).usable ==> regions[i].wf()
}

/// No two usable regions of the list share an address.
pub open spec fn regions_disjoint(regions: Seq<MemoryRegion>) -> bool {
    forall|i: int, j: int|
        #![trigger regions[i], regions[j]]
        0 <= i < j < regions.len() && regions[i].usable && regions[j].usable ==> regions[i].end
            <= regions[j].start || regions[j].end <= regions[i].start
}

/// The allocation stream of a region list: the frames of its usable regions,
/// region by region in list order, each region in ascending address order.
pub open spec fn usable_frames(regions: Seq<MemoryRegion>) -> Seq<PhysFrame>
    decreases regions.len(),
{
    if regions.len() == 0 {
        Seq::empty()
    } else {
        usable_frames(regions.drop_last()) + regions.last().frames()
    }
}

/// The stream of a prefix of the list is a prefix of the stream of the list.
pub proof fn lemma_usable_frames_prefix(regions: Seq<MemoryRegion>, k: int)
    requires
        0 <= k <= regions.len(),
    ensures
        usable_frames(regions.take(k)).len() <= usable_frames(regions).len(),
        forall|i: int|
            0 <= i < usable_frames(regions.take(k)).len() ==> usable_frames(regions)[i]
                == #[trigger] usable_frames(regions.take(k))[i],
    decreases regions.len() - k,
{
    if k == regions.len() {
        assert(regions.take(k) =~= regions);
    } else {
        lemma_usable_frames_prefix(regions, k + 1);
        lemma_usable_frames_step(regions, k);
        assert forall|i: int| 0 <= i < usable_frames(regions.take(k)).len() implies usable_frames(
            regions,
        )[i] == #[trigger] usable_frames(regions.take(k))[i] by {
            assert(usable_frames(regions.take(k + 1))[i] == usable_frames(regions.take(k))[i]);
        }
    }
}

/// Taking one more region appends that region's frames to the stream.
pub proof fn lemma_usable_frames_step(regions: Seq<MemoryRegion>, k: int)
    requires
        0 <= k < regions.len(),
    ensures
        usable_frames(regions.take(k + 1)) == usable_frames(regions.take(k)) + regions[k].frames(),
{
    assert(regions.take(k + 1).drop_last() =~= regions.take(k));
    assert(regions.take(k + 1).last() == regions[k]);
}

/// Every frame of the stream of a well-formed list is well formed and lies
/// wholly inside a usable region of the list.
pub proof fn lemma_usable_frames_in_regions(regions: Seq<MemoryRegion>, i: int)
    requires
        regions_wf(regions),
        0 <= i < usable_frames(regions).len(),
    ensures
        usable_frames(regions)[i].wf(),
        exists|r: int|
            0 <= r < regions.len() && (#[trigger] regions[r]).usable && regions[r].contains_frame(
                usable_frames(regions)[i],
            ),
    decreases regions.len(),
{
    let head = regions.drop_last();
    let last = regions.last();
    if i < usable_frames(head).len() {
        lemma_usable_frames_in_regions(head, i);
        let r = choose|r: int|
            0 <= r < head.len() && (#[trigger] head[r]).usable && head[r].contains_frame(
                usable_frames(head)[i],
            );
        assert(regions[r] == head[r]);
    } else {
        let j = i - usable_frames(head).len();
        assert(usable_frames(regions)[i] == last.frames()[j]);
        assert(regions[regions.len() - 1] == last);
        assert(last.usable && last.wf());
        lemma_region_frame_bounds(last, j);
        assert(regions[regions.len() - 1] == last);
    }
}

/// The `j`-th frame of a well-formed region is well formed and inside it.
pub proof fn lemma_region_frame_bounds(region: MemoryRegion, j: int)
    requires
        region.wf(),
        0 <= j < region.frame_count(),
    ensures
        region.usable,
        region.frames()[j].start_address == region.start + j * 4096,
        region.frames()[j].wf(),
        region.contains_frame(region.frames()[j]),
{
    let span = region.end - region.start;
    assert(span % 4096 == 0) by {
        vstd::arithmetic::div_mod::lemma_sub_mod_noop(region.end as int, region.start as int, 4096);
    }
    assert(span == 4096 * (span / 4096)) by {
        vstd::arithmetic::div_mod::lemma_fundamental_div_mod(span, 4096);
    }
    assert((region.start + j * 4096) % 4096 == 0) by {
        vstd::arithmetic::div_mod::lemma_mod_multiples_vanish(j, region.start as int, 4096);
    }
}

/// In a well-formed list whose usable regions are disjoint, no frame occurs
/// twice in the allocation stream.
pub proof fn lemma_usable_frames_distinct(regions: Seq<MemoryRegion>)
    requires
        regions_wf(regions),
        regions_disjoint(regions),
    ensures
        usable_frames(regions).no_duplicates(),
    decreases regions.len(),
{
    if regions.len() > 0 {
        let head = regions.drop_last();
        let last = regions.last();
        let n = usable_frames(head).len() as int;
        assert(regions_disjoint(head)) by {
            assert forall|i: int, j: int|
                #![trigger head[i], head[j]]
                0 <= i < j < head.len() && head[i].usable && head[j].usable implies head[i].end
                <= head[j].start || head[j].end <= head[i].start by {
                assert(head[i] == regions[i] && head[j] == regions[j]);
            }
        }
        lemma_usable_frames_distinct(head);
        let all = usable_frames(regions);
        assert forall|a: int, b: int| 0 <= a < all.len() && 0 <= b < all.len() && a != b implies all[a]
            != all[b] by {
            if a < n && b < n {
                assert(all[a] == usable_frames(head)[a]);
                assert(all[b] == usable_frames(head)[b]);
            } else if a >= n && b >= n {
                lemma_region_frame_bounds(last, a - n);
                lemma_region_frame_bounds(last, b - n);
                assert(all[a] == last.frames()[a - n]);
                assert(all[b] == last.frames()[b - n]);
            } else {
                let (lo, hi) = if a < n {
                    (a, b)
                } else {
                    (b, a)
                };
                lemma_region_frame_bounds(last, hi - n);
                assert(all[hi] == last.frames()[hi - n]);
                lemma_usable_frames_in_regions(head, lo);
                let r = choose|r: int|
                    0 <= r < head.len() && (#[trigger] head[r]).usable && head[r].contains_frame(
                        usable_frames(head)[lo],
                    );
                assert(all[lo] == usable_frames(head)[lo]);
                assert(regions[r] == head[r]);
                assert(regions[regions.len() - 1] == last);
            }
        }
    }
}

/// A source of physical frames for page tables and mappings.
pub trait FrameAllocator {
    /// Validity of the allocator's own state.
    spec fn wf(&self) -> bool;

    /// The frames this source will still hand out, in the order in which it
    /// will hand them out.
    spec fn upcoming(&self) -> Seq<PhysFrame>;

    /// Hands out the next frame, or nothing once the source is exhausted.
    fn allocate_frame(&mut self) -> (frame: Option<PhysFrame>)
        requires
            old(self).wf(),
        ensures
            final(self).wf(),
            match frame {
                Some(f) => {
                    &&& old(self).upcoming().len() > 0
                    &&& f == old(self).upcoming()[0]
                    &&& final(self).upcoming() == old(self).upcoming().skip(1)
                },
                None => {
                    &&& old(self).upcoming().len() == 0
                    &&& final(self).upcoming() == old(self).upcoming()
                },
            },
    ;
}

/// A frame source that never has a frame to give.
#[derive(Debug, Clone, Copy, PartialEq, Eq, Structural)]
pub struct EmptyFrameAllocator;

impl FrameAllocator for EmptyFrameAllocator {
    open spec fn wf(&self) -> bool {
        true
    }

    open spec fn upcoming(&self) -> Seq<PhysFrame> {
        Seq::empty()
    }

    fn allocate_frame(&mut self) -> (frame: Option<PhysFrame>) {
        None
    }
}

/// Tests at run time that a region list can back a `BootInfoFrameAllocator`:
/// every usable region is well formed and the allocation stream is short
/// enough to be counted in a `usize`.
pub fn regions_well_formed(regions: &[MemoryRegion]) -> (ok: bool)
    ensures
        ok == (regions_wf(regions@) && usable_frames(regions@).len() <= usize::MAX),
{
    let mut total: u128 = 0;
    let mut i: usize = 0;
    while i < regions.len()
        invariant
            0 <= i <= regions.len(),
            regions_wf(regions@.take(i as int)),
            total == usable_frames(regions@.take(i as int)).len(),
            total <= i * PHYS_ADDR_LIMIT,
        decreases regions.len() - i,
    {
        let region = regions[i];
        if region.usable && !region.is_well_formed() {
            assert(!regions_wf(regions@)) by {
                assert(regions@[i as int] == region);
            }
            return false;
        }
        proof {
            lemma_usable_frames_step(regions@, i as int);
            assert forall|k: int|
                0 <= k < i + 1 && (#[trigger] regions@.take(i + 1)[k]).usable implies regions@.take(
                i + 1,
            )[k].wf() by {
                if k < i {
                    assert(regions@.take(i as int)[k] == regions@.take(i + 1)[k]);
                }
            }
        }
        if region.usable && region.start < region.end {
            let count: u64 = (region.end - region.start) / 4096;
            total = total + count as u128;
        }
        i = i + 1;
    }
    assert(regions@.take(i as int) =~= regions@);
    total <= usize::MAX as u128
}

/// Tests at run time that no two usable regions of the list share an
/// address.
pub fn regions_are_disjoint(regions: &[MemoryRegion]) -> (ok: bool)
    ensures
        ok == regions_disjoint(regions@),
{
    let mut i: usize = 0;
    while i < regions.len()
        invariant
            0 <= i <= regions.len(),
            forall|a: int, b: int|
                #![trigger regions@[a], regions@[b]]
                0 <= a < b < regions.len() && a < i && regions@[a].usable && regions@[b].usable
                    ==> regions@[a].end <= regions@[b].start || regions@[b].end
                    <= regions@[a].start,
        decreases regions.len() - i,
    {
        let first = regions[i];
        let mut j: usize = i + 1;
        while j < regions.len()
            invariant
                0 <= i < j <= regions.len(),
                first == regions@[i as int],
                forall|a: int, b: int|
                    #![trigger regions@[a], regions@[b]]
                    0 <= a < b < regions.len() && a < i && regions@[a].usable && regions@[b].usable
                        ==> regions@[a].end <= regions@[b].start || regions@[b].end
                        <= regions@[a].start,
                forall|b: int|
                    i < b < j && first.usable && (#[trigger] regions@[b]).usable ==> first.end
                        <= regions@[b].start || regions@[b].end <= first.start,
            decreases regions.len() - j,
        {
            let second = regions[j];
            if first.usable && second.usable && !(first.end <= second.start || second.end
                <= first.start) {
                return false;
            }
            j = j + 1;
        }
        i = i + 1;
    }
    true
}

/// Frame allocator over the memory map reported at boot. It hands out the
/// frames of the usable regions in stream order and never takes one back.
pub struct BootInfoFrameAllocator<'a> {
    mem_map: &'a [MemoryRegion],
    next: usize,
}

impl<'a> BootInfoFrameAllocator<'a> {
    /// The region list the allocator draws from.
    pub closed spec fn regions(&self) -> Seq<MemoryRegion> {
        self.mem_map@
    }

    /// Position in the allocation stream of the next frame to hand out.
    pub closed spec fn cursor(&self) -> nat {
        self.next as nat
    }

    /// The allocation stream of the allocator's region list.
    pub open spec fn stream(&self) -> Seq<PhysFrame> {
        usable_frames(self.regions())
    }

    /// Creates an allocator positioned at the start of the stream of
    /// `mem_map`.
    pub fn init(mem_map: &'a [MemoryRegion]) -> (allocator: Self)
        requires
            regions_wf(mem_map@),
            usable_frames(mem_map@).len() <= usize::MAX,
        ensures
            allocator.wf(),
            allocator.regions() == mem_map@,
            allocator.cursor() == 0,
            allocator.upcoming() == usable_frames(mem_map@),
    {
        BootInfoFrameAllocator { mem_map, next: 0 }
    }

    /// Position in the allocation stream of the next frame to hand out.
    pub fn next_index(&self) -> (next: usize)
        ensures
            next == self.cursor(),
    {
        self.next
    }

    /// The frame at position `index` of the allocation stream, if the stream
    /// is that long.
    pub fn usable_frame(&self, index: usize) -> (frame: Option<PhysFrame>)
        requires
            regions_wf(self.regions()),
        ensures
            frame == if index < self.stream().len() {
                Some(self.stream()[index as int])
            } else {
                None
            },
    {
        let ghost regions = self.mem_map@;
        let mut remaining: usize = index;
        let mut i: usize = 0;
        while i < self.mem_map.len()
            invariant
                0 <= i <= self.mem_map.len(),
                regions == self.mem_map@,
                regions_wf(regions),
                remaining + usable_frames(regions.take(i as int)).len() == index,
            decreases self.mem_map.len() - i,
        {
            let region = self.mem_map[i];
            proof {
                lemma_usable_frames_step(regions, i as int);
                lemma_usable_frames_prefix(regions, i + 1);
                assert(regions[i as int].usable ==> regions[i as int].wf());
            }
            if region.usable && region.start < region.end {
                let count: u64 = (region.end - region.start) / 4096;
                if (remaining as u64) < count {
                    proof {
                        lemma_region_frame_bounds(region, remaining as int);
                        assert(usable_frames(regions.take(i + 1))[index as int] == region.frames()[remaining as int]);
                    }
                    return Some(PhysFrame { start_address: region.start + (remaining as u64) * 4096 });
                }
                remaining = remaining - (count as usize);
            }
            i = i + 1;
        }
        assert(regions.take(i as int) =~= regions);
        None
    }
}

impl<'a> FrameAllocator for BootInfoFrameAllocator<'a> {
    open spec fn wf(&self) -> bool {
        &&& regions_wf(self.regions())
        &&& self.stream().len() <= usize::MAX
    }

    open spec fn upcoming(&self) -> Seq<PhysFrame> {
        if self.cursor() <= self.stream().len() {
            self.stream().skip(self.cursor() as int)
        } else {
            Seq::empty()
        }
    }

    /// Hands out the frame at the cursor and moves the cursor one position
    /// on; hands out nothing once the cursor has passed the stream.
    fn allocate_frame(&mut self) -> (frame: Option<PhysFrame>)
        ensures
            frame == if old(self).cursor() < old(self).stream().len() {
                Some(old(self).stream()[old(self).cursor() as int])
            } else {
                None
            },
            final(self).regions() == old(self).regions(),
            final(self).cursor() == if old(self).cursor() < usize::MAX {
                old(self).cursor() + 1
            } else {
                old(self).cursor()
            },
    {
        let frame = self.usable_frame(self.next);
        if self.next < usize::MAX {
            self.next = self.next + 1;
        }
        proof {
            let stream = old(self).stream();
            let c = old(self).cursor() as int;
            if c < stream.len() {
                assert(stream.skip(c).skip(1) =~= stream.skip(c + 1));
            }
        }
        frame
    }
}

/// Allocation law of the boot-time allocator. For a well-formed region list
/// whose usable regions are disjoint, the stream that `allocate_frame` walks
/// holds no frame twice, every frame of it is well formed and lies wholly
/// inside a usable region, and its length is the number of frames that the
/// usable regions cover: so as many calls as there are such frames return
/// distinct usable frames, and every later call returns nothing.
pub proof fn lemma_allocation_stream(regions: Seq<MemoryRegion>)
    requires
        regions_wf(regions),
        regions_disjoint(regions),
    ensures
        usable_frames(regions).no_duplicates(),
        usable_frames(regions).len() == covered_frames(regions),
        forall|i: int|
            0 <= i < usable_frames(regions).len() ==> {
                &&& (#[trigger] usable_frames(regions)[i]).wf()
                &&& exists|r: int|
                    0 <= r < regions.len() && (#[trigger] regions[r]).usable
                        && regions[r].contains_frame(usable_frames(regions)[i])
            },
{
    lemma_usable_frames_distinct(regions);
    lemma_covered_frames(regions);
    assert forall|i: int| 0 <= i < usable_frames(regions).len() implies {
        &&& (#[trigger] usable_frames(regions)[i]).wf()
        &&& exists|r: int|
            0 <= r < regions.len() && (#[trigger] regions[r]).usable && regions[r].contains_frame(
                usable_frames(regions)[i],
            )
    } by {
        lemma_usable_frames_in_regions(regions, i);
    }
}

/// Number of frames that the usable regions of the list cover.
pub open spec fn covered_frames(regions: Seq<MemoryRegion>) -> nat
    decreases regions.len(),
{
    if regions.len() == 0 {
        0
    } else {
        covered_frames(regions.drop_last()) + regions.last().frame_count()
    }
}

/// The allocation stream is as long as the number of covered frames.
pub proof fn lemma_covered_frames(regions: Seq<MemoryRegion>)
    ensures
        usable_frames(regions).len() == covered_frames(regions),
    decreases regions.len(),
{
    if regions.len() > 0 {
        lemma_covered_frames(regions.drop_last());
    }
}

/// Physical address of the text-mode display memory.
pub const VGA_TEXT_FRAME: u64 = 0xb8000;

/// Virtual address of the active level-4 table: the offset at which all
/// physical memory is visible plus the physical address of the table's frame.
pub fn active_level_4_table(physical_memory_offset: u64, level_4_frame: PhysFrame) -> (address: u64)
    requires
        level_4_frame.wf(),
        physical_memory_offset + PHYS_ADDR_LIMIT <= u64::MAX + 1,
    ensures
        address == physical_memory_offset + level_4_frame.start_address,
{
    physical_memory_offset + level_4_frame.start_address
}

/// Binds a page-table handle to the hierarchy whose level-4 table lies in
/// `level_4_frame`, the frame named by the page-table root register, in a
/// memory that shows all physical memory at `physical_memory_offset`.
pub fn init<M: PageTableMemory>(
    memory: M,
    physical_memory_offset: u64,
    level_4_frame: PhysFrame,
) -> (table: OffsetPageTable<M>)
    requires
        is_hierarchy(&memory, physical_memory_offset, level_4_frame),
    ensures
        table.wf(),
        table.memory() == memory,
        table.offset() == physical_memory_offset,
        table.root() == level_4_frame,
        forall|f: PhysFrame| #[trigger]
            table.is_table_frame(f) <==> is_table_of(
                &memory,
                physical_memory_offset,
                level_4_frame,
                f,
            ),
{
    OffsetPageTable::new(memory, physical_memory_offset, level_4_frame)
}

/// Maps `page` to the frame of the text-mode display memory, present and
/// writable, as `map_to` does: tables that are missing on the way are taken
/// from `frame_allocator`, and the cached translation of `page` is dropped.
pub fn create_example_mapping<M: PageTableMemory, A: FrameAllocator>(
    page: Page,
    mapper: &mut OffsetPageTable<M>,
    frame_allocator: &mut A,
) -> (r: Result<(), MapToError>)
    requires
        old(mapper).wf(),
        page.wf(),
        old(frame_allocator).wf(),
        old(mapper).fresh(old(frame_allocator).upcoming()),
    ensures
        final(mapper).wf(),
        final(frame_allocator).wf(),
        final(mapper).fresh(final(frame_allocator).upcoming()),
        r == old(mapper).map_outcome(page, old(frame_allocator).upcoming().len()),
        final(frame_allocator).upcoming() == old(frame_allocator).upcoming().skip(
            old(mapper).frames_taken(page, old(frame_allocator).upcoming().len()) as int,
        ),
        forall|q: Page|
            q.wf() ==> #[trigger] final(mapper).translate(q) == if q == page && r is Ok {
                Some(
                    (
                        PhysFrame { start_address: VGA_TEXT_FRAME },
                        PageTableFlags { present: true, writable: true },
                    ),
                )
            } else {
                old(mapper).translate(q)
            },
        forall|f: PhysFrame| #[trigger]
            final(mapper).is_table_frame(f) <==> old(mapper).is_table_frame(f) || exists|i: int|
                0 <= i < old(mapper).frames_taken(page, old(frame_allocator).upcoming().len())
                    && #[trigger] old(frame_allocator).upcoming()[i] == f,
        OffsetPageTable::tables_hung(
            *old(mapper),
            *final(mapper),
            page,
            old(frame_allocator).upcoming(),
            old(mapper).frames_taken(page, old(frame_allocator).upcoming().len()) as int,
        ),
        final(mapper).memory().last_invalidated() == if r is Ok {
            Some(page)
        } else {
            old(mapper).memory().last_invalidated()
        },
{
    let frame = PhysFrame::containing_address(VGA_TEXT_FRAME);
    let flags = PageTableFlags { present: true, writable: true };
    mapper.map_to(page, frame, flags, frame_allocator)
}

} // verus!
