//! Virtual pages, page-table entries and the four-level mapping operation
//! over an offset-mapped page-table hierarchy.

use crate::memory::{FrameAllocator, PhysFrame, PHYS_ADDR_LIMIT};
use vstd::prelude::*;

verus! {

/// A 4 KiB virtual page, named by the address of its first byte.
#[derive(Debug, Clone, Copy, PartialEq, Eq, Structural)]
pub struct Page {
    pub start_address: u64,
}

/// Whether `addr` is a canonical virtual address: bits 47 to 63 all agree.
pub open spec fn is_canonical(addr: u64) -> bool {
    addr < 0x8000_0000_0000 || addr >= 0xffff_8000_0000_0000
}

impl Page {
    /// A page is well formed when it starts on a page boundary at a
    /// canonical address.
    pub open spec fn wf(self) -> bool {
        &&& self.start_address % 4096 == 0
        &&& is_canonical(self.start_address)
    }

    /// Index of the page in the level-4 table.
    pub open spec fn p4(self) -> int {
        ((self.start_address >> 39) & 0x1ff) as int
    }

    /// Index of the page in its level-3 table.
    pub open spec fn p3(self) -> int {
        ((self.start_address >> 30) & 0x1ff) as int
    }

    /// Index of the page in its level-2 table.
    pub open spec fn p2(self) -> int {
        ((self.start_address >> 21) & 0x1ff) as int
    }

    /// Index of the page in its level-1 table.
    pub open spec fn p1(self) -> int {
        ((self.start_address >> 12) & 0x1ff) as int
    }

    /// Whether two pages are reached through the same level-1 table.
    pub open spec fn shares_table_with(self, other: Page) -> bool {
        self.p4() == other.p4() && self.p3() == other.p3() && self.p2() == other.p2()
    }

    /// The page that holds the virtual address `addr`.
    pub fn containing_address(addr: u64) -> (page: Page)
        requires
            is_canonical(addr),
        ensures
            page.wf(),
            page.start_address == addr - addr % 4096,
    {
        Page { start_address: addr - addr % 4096 }
    }

    /// Address of the first byte of the page.
    pub fn start_address(&self) -> (addr: u64)
        ensures
            addr == self.start_address,
    {
        self.start_address
    }

    /// Index of the page in the level-4 table.
    pub fn p4_index(&self) -> (index: usize)
        ensures
            index == self.p4(),
            index < 512,
    {
        let a = self.start_address;
        assert((a >> 39) & 0x1ff < 512) by (bit_vector);
        ((a >> 39) & 0x1ff) as usize
    }

    /// Index of the page in its level-3 table.
    pub fn p3_index(&self) -> (index: usize)
        ensures
            index == self.p3(),
            index < 512,
    {
        let a = self.start_address;
        assert((a >> 30) & 0x1ff < 512) by (bit_vector);
        ((a >> 30) & 0x1ff) as usize
    }

    /// Index of the page in its level-2 table.
    pub fn p2_index(&self) -> (index: usize)
        ensures
            index == self.p2(),
            index < 512,
    {
        let a = self.start_address;
        assert((a >> 21) & 0x1ff < 512) by (bit_vector);
        ((a >> 21) & 0x1ff) as usize
    }

    /// Index of the page in its level-1 table.
    pub fn p1_index(&self) -> (index: usize)
        ensures
            index == self.p1(),
            index < 512,
    {
        let a = self.start_address;
        assert((a >> 12) & 0x1ff < 512) by (bit_vector);
        ((a >> 12) & 0x1ff) as usize
    }
}

/// A well-formed page is determined by its four table indices.
pub proof fn lemma_page_indices_injective(a: Page, b: Page)
    requires
        a.wf(),
        b.wf(),
        a.p4() == b.p4(),
        a.p3() == b.p3(),
        a.p2() == b.p2(),
        a.p1() == b.p1(),
    ensures
        a == b,
{
    let x = a.start_address;
    let y = b.start_address;
    assert(x == y) by (bit_vector)
        requires
            x % 4096 == 0,
            y % 4096 == 0,
            x < 0x8000_0000_0000 || x >= 0xffff_8000_0000_0000,
            y < 0x8000_0000_0000 || y >= 0xffff_8000_0000_0000,
            (x >> 39) & 0x1ff == (y >> 39) & 0x1ff,
            (x >> 30) & 0x1ff == (y >> 30) & 0x1ff,
            (x >> 21) & 0x1ff == (y >> 21) & 0x1ff,
            (x >> 12) & 0x1ff == (y >> 12) & 0x1ff,
    ;
}

/// The flags of a page-table entry that this kernel sets and reads.
#[derive(Debug, Clone, Copy, PartialEq, Eq, Structural)]
pub struct PageTableFlags {
    pub present: bool,
    pub writable: bool,
}

/// One 64-bit page-table entry: the address of a frame in bits 12 to 51,
/// flags around it. An entry of all zero bits is unused.
#[derive(Debug, Clone, Copy, PartialEq, Eq, Structural)]
pub struct PageTableEntry {
    pub bits: u64,
}

/// What a non-leaf entry says about the next table on the way down.
#[derive(Debug, Clone, Copy, PartialEq, Eq, Structural)]
pub enum Link {
    /// The entry is unused: no table hangs below it.
    Unused,
    /// The entry maps a huge page: the walk ends here.
    HugePage,
    /// The entry points at the next table.
    Table(PhysFrame),
}

impl PageTableEntry {
    /// The entry that points at `frame` with `flags`.
    pub open spec fn encode(frame: PhysFrame, flags: PageTableFlags) -> PageTableEntry {
        PageTableEntry {
            bits: frame.start_address | (if flags.present {
                1u64
            } else {
                0u64
            }) | (if flags.writable {
                2u64
            } else {
                0u64
            }),
        }
    }

    /// Whether no bit of the entry is set.
    pub open spec fn unused(self) -> bool {
        self.bits == 0
    }

    /// Whether the entry maps a huge page.
    pub open spec fn huge(self) -> bool {
        self.bits & 0x80 != 0
    }

    /// The frame the entry points at.
    pub open spec fn target(self) -> PhysFrame {
        PhysFrame { start_address: self.bits & 0x000f_ffff_ffff_f000 }
    }

    /// The present and writable flags of the entry.
    pub open spec fn flag_set(self) -> PageTableFlags {
        PageTableFlags { present: self.bits & 1 != 0, writable: self.bits & 2 != 0 }
    }

    /// The entry read as a pointer to the next table.
    pub open spec fn link(self) -> Link {
        if self.unused() {
            Link::Unused
        } else if self.huge() {
            Link::HugePage
        } else {
            Link::Table(self.target())
        }
    }

    /// Builds the entry that points at `frame` with `flags`.
    pub fn new(frame: PhysFrame, flags: PageTableFlags) -> (entry: PageTableEntry)
        ensures
            entry == Self::encode(frame, flags),
    {
        let p: u64 = if flags.present {
            1
        } else {
            0
        };
        let w: u64 = if flags.writable {
            2
        } else {
            0
        };
        PageTableEntry { bits: frame.start_address | p | w }
    }

    /// Whether no bit of the entry is set.
    pub fn is_unused(&self) -> (r: bool)
        ensures
            r == self.unused(),
    {
        self.bits == 0
    }

    /// Whether the entry maps a huge page.
    pub fn is_huge(&self) -> (r: bool)
        ensures
            r == self.huge(),
    {
        self.bits & 0x80 != 0
    }

    /// The frame the entry points at.
    pub fn frame(&self) -> (frame: PhysFrame)
        ensures
            frame == self.target(),
            frame.wf(),
    {
        let bits = self.bits;
        assert((bits & 0x000f_ffff_ffff_f000) % 4096 == 0 && (bits & 0x000f_ffff_ffff_f000)
            < 0x10_0000_0000_0000) by (bit_vector);
        PhysFrame { start_address: bits & 0x000f_ffff_ffff_f000 }
    }

    /// The present and writable flags of the entry.
    pub fn flags(&self) -> (flags: PageTableFlags)
        ensures
            flags == self.flag_set(),
    {
        PageTableFlags { present: self.bits & 1 != 0, writable: self.bits & 2 != 0 }
    }
}

/// Reading back an entry built from a well-formed frame gives the frame and
/// the flags it was built from; such an entry is never a huge-page entry, and
/// it is unused only when built from frame zero without flags.
pub proof fn lemma_entry_round_trip(frame: PhysFrame, flags: PageTableFlags)
    requires
        frame.wf(),
    ensures
        PageTableEntry::encode(frame, flags).target() == frame,
        PageTableEntry::encode(frame, flags).flag_set() == flags,
        !PageTableEntry::encode(frame, flags).huge(),
        PageTableEntry::encode(frame, flags).unused() <==> (frame.start_address == 0
            && !flags.present && !flags.writable),
{
    let f = frame.start_address;
    let p: u64 = if flags.present {
        1
    } else {
        0
    };
    let w: u64 = if flags.writable {
        2
    } else {
        0
    };
    assert({
        &&& (f | p | w) & 0x000f_ffff_ffff_f000 == f
        &&& ((f | p | w) & 1 != 0) == (p == 1)
        &&& ((f | p | w) & 2 != 0) == (w == 2)
        &&& (f | p | w) & 0x80 == 0
        &&& ((f | p | w) == 0) == (f == 0 && p == 0 && w == 0)
    }) by (bit_vector)
        requires
            f % 4096 == 0,
            f < 0x10_0000_0000_0000,
            p == 0 || p == 1,
            w == 0 || w == 2,
    ;
}

/// Word-wise access to the memory that holds the page tables, and to the
/// translation cache of the processor. A table is named by the virtual
/// address at which its frame is visible. An entry holds what was last
/// written to it: the status bits that a processor sets in entries it has
/// walked are outside this model.
pub trait PageTableMemory {
    /// Content of entry `index` of the table at virtual address `table`.
    spec fn slot(&self, table: u64, index: usize) -> u64;

    /// The page whose cached translation was dropped last, if any was.
    spec fn last_invalidated(&self) -> Option<Page>;

    /// Reads entry `index` of the table at `table`.
    fn read_slot(&self, table: u64, index: usize) -> (bits: u64)
        requires
            table % 4096 == 0,
            index < 512,
        ensures
            bits == self.slot(table, index),
    ;

    /// Writes entry `index` of the table at `table` and leaves every other
    /// entry of every table as it was.
    fn write_slot(&mut self, table: u64, index: usize, bits: u64)
        requires
            table % 4096 == 0,
            index < 512,
        ensures
            final(self).slot(table, index) == bits,
            forall|t: u64, i: usize|
                t % 4096 == 0 && i < 512 && (t != table || i != index)
                    ==> #[trigger] final(self).slot(t, i) == old(self).slot(t, i),
            final(self).last_invalidated() == old(self).last_invalidated(),
    ;

    /// Drops the cached translation of `page`. No table entry changes.
    fn invalidate(&mut self, page: Page)
        ensures
            forall|t: u64, i: usize| #[trigger] final(self).slot(t, i) == old(self).slot(t, i),
            final(self).last_invalidated() == Some(page),
    ;
}

/// Place of a table in the hierarchy: its level (4 at the root, 1 at the
/// leaves) and the indices of the entries that lead to it from the root.
pub struct TablePosition {
    pub level: int,
    pub i4: int,
    pub i3: int,
    pub i2: int,
}

impl TablePosition {
    /// Position of the level-4 table.
    pub open spec fn root() -> TablePosition {
        TablePosition { level: 4, i4: 0, i3: 0, i2: 0 }
    }

    /// Position of the table that entry `index` of a table at this position
    /// points at.
    pub open spec fn child(self, index: int) -> TablePosition {
        if self.level == 4 {
            TablePosition { level: 3, i4: index, i3: 0, i2: 0 }
        } else if self.level == 3 {
            TablePosition { level: 2, i4: self.i4, i3: index, i2: 0 }
        } else {
            TablePosition { level: 1, i4: self.i4, i3: self.i3, i2: index }
        }
    }
}

/// Why a page could not be mapped.
#[derive(Debug, Clone, Copy, PartialEq, Eq, Structural)]
pub enum MapToError {
    /// The frame source had no frame left for a missing page table.
    FrameAllocationFailed,
    /// A huge page already covers the page.
    ParentEntryHugePage,
    /// The page is already mapped, to the frame given here.
    PageAlreadyMapped(PhysFrame),
}

/// Entry `index` of the table in `frame`, read through the offset mapping.
pub open spec fn table_entry<M: PageTableMemory>(
    memory: &M,
    offset: u64,
    frame: PhysFrame,
    index: int,
) -> PageTableEntry {
    PageTableEntry { bits: memory.slot((offset + frame.start_address) as u64, index as usize) }
}

/// The hierarchy rooted at `root` is a tree whose tables stand at
/// `positions`: every table has one position, and each used entry of a table
/// above level 1 that is no huge page points at the table one position below.
pub open spec fn hierarchy_inv<M: PageTableMemory>(
    memory: &M,
    offset: u64,
    root: PhysFrame,
    positions: Map<PhysFrame, TablePosition>,
) -> bool {
    &&& offset % 4096 == 0
    &&& offset + PHYS_ADDR_LIMIT <= u64::MAX + 1
    &&& root.wf()
    &&& positions.dom().contains(root)
    &&& positions[root] == TablePosition::root()
    &&& forall|f: PhysFrame| #[trigger]
        positions.dom().contains(f) ==> f.wf() && 1 <= positions[f].level <= 4
    &&& forall|f: PhysFrame, i: int|
        #![trigger table_entry(memory, offset, f, i)]
        positions.dom().contains(f) && positions[f].level > 1 && 0 <= i < 512 ==> (match table_entry(
            memory,
            offset,
            f,
            i,
        ).link() {
            Link::Table(c) => positions.dom().contains(c) && positions[c] == positions[f].child(i),
            _ => true,
        })
}

/// Whether the memory holds a tree-shaped hierarchy rooted at `root`.
pub open spec fn is_hierarchy<M: PageTableMemory>(memory: &M, offset: u64, root: PhysFrame) -> bool {
    exists|positions: Map<PhysFrame, TablePosition>| hierarchy_inv(memory, offset, root, positions)
}

/// A root table without a used entry is a hierarchy.
pub proof fn lemma_empty_root_is_hierarchy<M: PageTableMemory>(
    memory: &M,
    offset: u64,
    root: PhysFrame,
)
    requires
        offset % 4096 == 0,
        offset + PHYS_ADDR_LIMIT <= u64::MAX + 1,
        root.wf(),
        forall|i: int| 0 <= i < 512 ==> #[trigger] table_entry(memory, offset, root, i).unused(),
    ensures
        is_hierarchy(memory, offset, root),
{
    let positions = Map::<PhysFrame, TablePosition>::empty().insert(root, TablePosition::root());
    assert(hierarchy_inv(memory, offset, root, positions));
}

/// What the level-4 entry of `page` says about its level-3 table.
pub open spec fn walk_p3<M: PageTableMemory>(
    memory: &M,
    offset: u64,
    root: PhysFrame,
    page: Page,
) -> Link {
    table_entry(memory, offset, root, page.p4()).link()
}

/// What the walk from `root` says about the level-2 table of `page`.
pub open spec fn walk_p2<M: PageTableMemory>(
    memory: &M,
    offset: u64,
    root: PhysFrame,
    page: Page,
) -> Link {
    match walk_p3(memory, offset, root, page) {
        Link::Table(t) => table_entry(memory, offset, t, page.p3()).link(),
        other => other,
    }
}

/// What the walk from `root` says about the level-1 table of `page`.
pub open spec fn walk_p1<M: PageTableMemory>(
    memory: &M,
    offset: u64,
    root: PhysFrame,
    page: Page,
) -> Link {
    match walk_p2(memory, offset, root, page) {
        Link::Table(t) => table_entry(memory, offset, t, page.p2()).link(),
        other => other,
    }
}

/// The level-1 entry of `page`, where the walk from `root` reaches a
/// level-1 table.
pub open spec fn walk_leaf<M: PageTableMemory>(
    memory: &M,
    offset: u64,
    root: PhysFrame,
    page: Page,
) -> Option<PageTableEntry> {
    match walk_p1(memory, offset, root, page) {
        Link::Table(t) => Some(table_entry(memory, offset, t, page.p1())),
        _ => None,
    }
}

/// Whether `frame` holds a table of the hierarchy rooted at `root`: the root
/// table itself, or a table that the walk to some page passes through.
pub open spec fn is_table_of<M: PageTableMemory>(
    memory: &M,
    offset: u64,
    root: PhysFrame,
    frame: PhysFrame,
) -> bool {
    frame == root || exists|q: Page| passes_through(memory, offset, root, q, frame)
}

/// Whether the walk from `root` to `page` passes through a table in `frame`
/// below the root.
pub open spec fn passes_through<M: PageTableMemory>(
    memory: &M,
    offset: u64,
    root: PhysFrame,
    page: Page,
    frame: PhysFrame,
) -> bool {
    walk_p3(memory, offset, root, page) == Link::Table(frame) || walk_p2(
        memory,
        offset,
        root,
        page,
    ) == Link::Table(frame) || walk_p1(memory, offset, root, page) == Link::Table(frame)
}

/// A hierarchy whose root table has no used entry has the root as its only
/// table.
pub proof fn lemma_empty_root_tables<M: PageTableMemory>(
    memory: &M,
    offset: u64,
    root: PhysFrame,
    frame: PhysFrame,
)
    requires
        forall|i: int| 0 <= i < 512 ==> #[trigger] table_entry(memory, offset, root, i).unused(),
    ensures
        is_table_of(memory, offset, root, frame) <==> frame == root,
{
    assert forall|q: Page| !#[trigger] passes_through(memory, offset, root, q, frame) by {
        lemma_index_bounds(q);
        assert(table_entry(memory, offset, root, q.p4()).unused());
    }
}

/// The four table indices of a page lie below 512.
pub proof fn lemma_index_bounds(q: Page)
    ensures
        0 <= q.p4() < 512,
        0 <= q.p3() < 512,
        0 <= q.p2() < 512,
        0 <= q.p1() < 512,
{
    let a = q.start_address;
    assert((a >> 39) & 0x1ff < 512 && (a >> 30) & 0x1ff < 512 && (a >> 21) & 0x1ff < 512 && (a
        >> 12) & 0x1ff < 512) by (bit_vector);
}

/// A page with the table indices `a`, `b`, `c` and `d`.
spec fn page_at(a: int, b: int, c: int, d: int) -> Page {
    Page {
        start_address: ((a as u64) << 39) | ((b as u64) << 30) | ((c as u64) << 21) | ((d as u64)
            << 12),
    }
}

proof fn lemma_page_at(a: int, b: int, c: int, d: int)
    requires
        0 <= a < 512,
        0 <= b < 512,
        0 <= c < 512,
        0 <= d < 512,
    ensures
        page_at(a, b, c, d).p4() == a,
        page_at(a, b, c, d).p3() == b,
        page_at(a, b, c, d).p2() == c,
        page_at(a, b, c, d).p1() == d,
{
    let x = a as u64;
    let y = b as u64;
    let z = c as u64;
    let w = d as u64;
    assert({
        let v = (x << 39) | (y << 30) | (z << 21) | (w << 12);
        &&& (v >> 39) & 0x1ff == x
        &&& (v >> 30) & 0x1ff == y
        &&& (v >> 21) & 0x1ff == z
        &&& (v >> 12) & 0x1ff == w
    }) by (bit_vector)
        requires
            x < 512,
            y < 512,
            z < 512,
            w < 512,
    ;
}

/// In a tree, the tables on the way to a page stand at the positions that
/// the indices of the page name.
proof fn lemma_walk_positions_in<M: PageTableMemory>(
    memory: &M,
    offset: u64,
    root: PhysFrame,
    positions: Map<PhysFrame, TablePosition>,
    q: Page,
)
    requires
        hierarchy_inv(memory, offset, root, positions),
    ensures
        walk_p3(memory, offset, root, q) matches Link::Table(t) ==> positions.dom().contains(t)
            && positions[t] == (TablePosition { level: 3, i4: q.p4(), i3: 0, i2: 0 }),
        walk_p2(memory, offset, root, q) matches Link::Table(t) ==> positions.dom().contains(t)
            && positions[t] == (TablePosition { level: 2, i4: q.p4(), i3: q.p3(), i2: 0 }),
        walk_p1(memory, offset, root, q) matches Link::Table(t) ==> positions.dom().contains(t)
            && positions[t] == (TablePosition { level: 1, i4: q.p4(), i3: q.p3(), i2: q.p2() }),
{
    lemma_index_bounds(q);
    match walk_p3(memory, offset, root, q) {
        Link::Table(t3) => {
            match walk_p2(memory, offset, root, q) {
                Link::Table(t2) => {},
                _ => {},
            }
        },
        _ => {},
    }
}

/// A tree can be described by positions for its tables alone.
proof fn lemma_canonical_positions<M: PageTableMemory>(memory: &M, offset: u64, root: PhysFrame) -> (positions:
    Map<PhysFrame, TablePosition>)
    requires
        is_hierarchy(memory, offset, root),
    ensures
        hierarchy_inv(memory, offset, root, positions),
        forall|f: PhysFrame|
            #[trigger] positions.dom().contains(f) <==> is_table_of(memory, offset, root, f),
{
    let all = choose|positions: Map<PhysFrame, TablePosition>|
        hierarchy_inv(memory, offset, root, positions);
    let tables = Set::<PhysFrame>::new(|f: PhysFrame| is_table_of(memory, offset, root, f));
    let positions = all.restrict(tables);
    assert forall|f: PhysFrame| is_table_of(memory, offset, root, f) implies all.dom().contains(
        f,
    ) by {
        if f != root {
            let q = choose|q: Page| passes_through(memory, offset, root, q, f);
            lemma_walk_positions_in(memory, offset, root, all, q);
        }
    }
    assert forall|f: PhysFrame, i: int|
        #![trigger table_entry(memory, offset, f, i)]
        positions.dom().contains(f) && positions[f].level > 1 && 0 <= i < 512 implies (match table_entry(
        memory,
        offset,
        f,
        i,
    ).link() {
        Link::Table(c) => positions.dom().contains(c) && positions[c] == positions[f].child(i),
        _ => true,
    }) by {
        match table_entry(memory, offset, f, i).link() {
            Link::Table(c) => {
                if f == root {
                    let w = page_at(i, 0, 0, 0);
                    lemma_page_at(i, 0, 0, 0);
                    assert(walk_p3(memory, offset, root, w) == Link::Table(c));
                    assert(passes_through(memory, offset, root, w, c));
                } else {
                    let q = choose|q: Page| passes_through(memory, offset, root, q, f);
                    lemma_walk_positions_in(memory, offset, root, all, q);
                    lemma_index_bounds(q);
                    if walk_p3(memory, offset, root, q) == Link::Table(f) {
                        let w = page_at(q.p4(), i, 0, 0);
                        lemma_page_at(q.p4(), i, 0, 0);
                        assert(walk_p3(memory, offset, root, w) == Link::Table(f));
                        assert(walk_p2(memory, offset, root, w) == Link::Table(c));
                        assert(passes_through(memory, offset, root, w, c));
                    } else if walk_p2(memory, offset, root, q) == Link::Table(f) {
                        let w = page_at(q.p4(), q.p3(), i, 0);
                        lemma_page_at(q.p4(), q.p3(), i, 0);
                        assert(walk_p3(memory, offset, root, w) == walk_p3(memory, offset, root, q));
                        assert(walk_p2(memory, offset, root, w) == Link::Table(f));
                        assert(walk_p1(memory, offset, root, w) == Link::Table(c));
                        assert(passes_through(memory, offset, root, w, c));
                    } else {
                        assert(walk_p1(memory, offset, root, q) == Link::Table(f));
                        assert(all[f].level == 1);
                        assert(false);
                    }
                }
                assert(is_table_of(memory, offset, root, c));
            },
            _ => {},
        }
    }
    positions
}

/// Handle on the active four-level page-table hierarchy, reached through a
/// mapping of all physical memory at a fixed virtual offset.
pub struct OffsetPageTable<M: PageTableMemory> {
    memory: M,
    physical_memory_offset: u64,
    level_4_frame: PhysFrame,
    positions: Ghost<Map<PhysFrame, TablePosition>>,
}

impl<M: PageTableMemory> OffsetPageTable<M> {
    /// The memory behind the handle.
    pub closed spec fn memory(&self) -> M {
        self.memory
    }

    /// Virtual address at which physical address zero is visible.
    pub closed spec fn offset(&self) -> u64 {
        self.physical_memory_offset
    }

    /// Frame of the level-4 table.
    pub closed spec fn root(&self) -> PhysFrame {
        self.level_4_frame
    }

    /// The handle's hierarchy is a tree.
    pub closed spec fn wf(&self) -> bool {
        hierarchy_inv(&self.memory, self.physical_memory_offset, self.level_4_frame, self.positions@)
    }

    /// Whether `frame` holds a table of the hierarchy.
    pub closed spec fn is_table_frame(&self, frame: PhysFrame) -> bool {
        self.positions@.dom().contains(frame)
    }

    /// Whether the frames of `frames` may be handed to the hierarchy for new
    /// tables: all are well formed, none occurs twice and none holds a table.
    pub open spec fn fresh(&self, frames: Seq<PhysFrame>) -> bool {
        &&& frames.no_duplicates()
        &&& forall|i: int|
            0 <= i < frames.len() ==> (#[trigger] frames[i]).wf() && !self.is_table_frame(frames[i])
    }

    /// Entry `index` of the table in `frame`.
    pub open spec fn entry(&self, frame: PhysFrame, index: int) -> PageTableEntry {
        table_entry(&self.memory(), self.offset(), frame, index)
    }

    /// What the level-4 entry of `page` says about its level-3 table.
    pub open spec fn p3_link(&self, page: Page) -> Link {
        walk_p3(&self.memory(), self.offset(), self.root(), page)
    }

    /// What the walk says about the level-2 table of `page`.
    pub open spec fn p2_link(&self, page: Page) -> Link {
        walk_p2(&self.memory(), self.offset(), self.root(), page)
    }

    /// What the walk says about the level-1 table of `page`.
    pub open spec fn p1_link(&self, page: Page) -> Link {
        walk_p1(&self.memory(), self.offset(), self.root(), page)
    }

    /// The level-1 entry of `page`, where the walk reaches a level-1 table.
    pub open spec fn leaf(&self, page: Page) -> Option<PageTableEntry> {
        walk_leaf(&self.memory(), self.offset(), self.root(), page)
    }

    /// The frame and flags that `page` is mapped with, if its level-1 entry
    /// exists and is in use.
    pub open spec fn translate(&self, page: Page) -> Option<(PhysFrame, PageTableFlags)> {
        match self.leaf(page) {
            Some(e) => if e.unused() {
                None
            } else {
                Some((e.target(), e.flag_set()))
            },
            None => None,
        }
    }

    /// Whether a huge-page entry stands on the way to `page`.
    pub open spec fn under_huge_page(&self, page: Page) -> bool {
        self.p1_link(page) is HugePage
    }

    /// Number of tables that are missing on the way to `page`.
    pub open spec fn missing_tables(&self, page: Page) -> nat {
        if self.p3_link(page) is Unused {
            3
        } else if self.p2_link(page) is Unused {
            2
        } else if self.p1_link(page) is Unused {
            1
        } else {
            0
        }
    }

    /// Whether every entry of the table in `table` but entry `index` is
    /// unused.
    pub open spec fn cleared_but(&self, table: PhysFrame, index: int) -> bool {
        forall|i: int| 0 <= i < 512 && i != index ==> (#[trigger] self.entry(table, i)).unused()
    }

    /// Whether `table` hangs on the way to `page` as a new table does: the
    /// entry above it points at it, present and writable, and the table has
    /// no used entry but the one that leads on to `page`. `depth` counts the
    /// tables below the root: 0 for the level-3 table, 2 for the level-1
    /// table.
    pub open spec fn hung_at(&self, page: Page, depth: int, table: PhysFrame) -> bool {
        let entered = PageTableEntry::encode(table, PageTableFlags { present: true, writable: true });
        if depth == 0 {
            self.entry(self.root(), page.p4()) == entered && self.cleared_but(table, page.p3())
        } else if depth == 1 {
            match self.p3_link(page) {
                Link::Table(above) => self.entry(above, page.p3()) == entered && self.cleared_but(
                    table,
                    page.p2(),
                ),
                _ => false,
            }
        } else {
            match self.p2_link(page) {
                Link::Table(above) => self.entry(above, page.p2()) == entered && self.cleared_but(
                    table,
                    page.p1(),
                ),
                _ => false,
            }
        }
    }

    /// Whether the first `taken` frames of `frames` hang in `new` as the
    /// tables that `old` missed on the way to `page`, the highest first.
    pub open spec fn tables_hung(
        old: Self,
        new: Self,
        page: Page,
        frames: Seq<PhysFrame>,
        taken: int,
    ) -> bool {
        forall|j: int|
            0 <= j < taken ==> new.hung_at(
                page,
                3 - old.missing_tables(page) + j,
                #[trigger] frames[j],
            )
    }

    /// What `map_to` answers for `page` when the frame source still has
    /// `available` frames.
    pub open spec fn map_outcome(&self, page: Page, available: nat) -> Result<(), MapToError> {
        if self.under_huge_page(page) {
            Err(MapToError::ParentEntryHugePage)
        } else if self.missing_tables(page) > available {
            Err(MapToError::FrameAllocationFailed)
        } else {
            match self.translate(page) {
                Some((frame, _)) => Err(MapToError::PageAlreadyMapped(frame)),
                None => Ok(()),
            }
        }
    }

    /// Number of frames that `map_to` takes from a source that still has
    /// `available` frames.
    pub open spec fn frames_taken(&self, page: Page, available: nat) -> nat {
        if self.under_huge_page(page) {
            0
        } else if self.missing_tables(page) > available {
            available
        } else {
            self.missing_tables(page)
        }
    }

    /// Binds a handle to the hierarchy rooted at `level_4_frame`, whose
    /// tables are visible at `physical_memory_offset` plus their physical
    /// address.
    pub fn new(memory: M, physical_memory_offset: u64, level_4_frame: PhysFrame) -> (table: Self)
        requires
            is_hierarchy(&memory, physical_memory_offset, level_4_frame),
        ensures
            table.wf(),
            table.memory() == memory,
            table.offset() == physical_memory_offset,
            table.root() == level_4_frame,
            forall|f: PhysFrame| #[trigger]
                table.is_table_frame(f) <==> is_table_of(
                    &memory,
                    physical_memory_offset,
                    level_4_frame,
                    f,
                ),
    {
        let ghost positions = lemma_canonical_positions(
            &memory,
            physical_memory_offset,
            level_4_frame,
        );
        OffsetPageTable { memory, physical_memory_offset, level_4_frame, positions: Ghost(positions) }
    }

    /// Virtual address of the level-4 table: the offset plus the physical
    /// address of its frame.
    pub fn level_4_table_address(&self) -> (addr: u64)
        requires
            self.wf(),
        ensures
            addr == self.offset() + self.root().start_address,
    {
        self.physical_memory_offset + self.level_4_frame.start_address
    }

    /// Gives the memory back.
    pub fn into_memory(self) -> (memory: M)
        ensures
            memory == self.memory(),
    {
        self.memory
    }

    /// The memory behind the handle.
    pub fn memory_ref(&self) -> (memory: &M)
        ensures
            *memory == self.memory(),
    {
        &self.memory
    }

    fn read(&self, table: PhysFrame, index: usize) -> (entry: PageTableEntry)
        requires
            self.physical_memory_offset % 4096 == 0,
            self.physical_memory_offset + PHYS_ADDR_LIMIT <= u64::MAX + 1,
            table.wf(),
            index < 512,
        ensures
            entry == self.entry(table, index as int),
    {
        PageTableEntry {
            bits: self.memory.read_slot(self.physical_memory_offset + table.start_address, index),
        }
    }

    /// The frame and flags that `page` is mapped with, if it is mapped.
    pub fn translate_page(&self, page: Page) -> (mapping: Option<(PhysFrame, PageTableFlags)>)
        requires
            self.wf(),
        ensures
            mapping == self.translate(page),
    {
        let e4 = self.read(self.level_4_frame, page.p4_index());
        if e4.is_unused() || e4.is_huge() {
            return None;
        }
        let e3 = self.read(e4.frame(), page.p3_index());
        if e3.is_unused() || e3.is_huge() {
            return None;
        }
        let e2 = self.read(e3.frame(), page.p2_index());
        if e2.is_unused() || e2.is_huge() {
            return None;
        }
        let e1 = self.read(e2.frame(), page.p1_index());
        if e1.is_unused() {
            None
        } else {
            Some((e1.frame(), e1.flags()))
        }
    }
}

impl<M: PageTableMemory> OffsetPageTable<M> {
    /// `new` arises from `old` by hanging the empty table in `f` below entry
    /// `index` of `table`.
    spec fn created(old: Self, new: Self, table: PhysFrame, index: int, f: PhysFrame) -> bool {
        &&& new.physical_memory_offset == old.physical_memory_offset
        &&& new.level_4_frame == old.level_4_frame
        &&& new.positions@ == old.positions@.insert(f, old.positions@[table].child(index))
        &&& new.entry(table, index) == PageTableEntry::encode(
            f,
            PageTableFlags { present: true, writable: true },
        )
        &&& forall|i: int| 0 <= i < 512 ==> (#[trigger] new.entry(f, i)).unused()
        &&& forall|g: PhysFrame, i: int|
            old.positions@.dom().contains(g) && 0 <= i < 512 && (g != table || i != index)
                ==> #[trigger] new.entry(g, i) == old.entry(g, i)
        &&& new.memory.last_invalidated() == old.memory.last_invalidated()
    }

    /// `new` arises from `old` by a write to entry `index` of the level-1
    /// table in `table`.
    spec fn leaf_written(old: Self, new: Self, table: PhysFrame, index: int) -> bool {
        &&& new.physical_memory_offset == old.physical_memory_offset
        &&& new.level_4_frame == old.level_4_frame
        &&& new.positions@ == old.positions@
        &&& forall|g: PhysFrame, i: int|
            old.positions@.dom().contains(g) && 0 <= i < 512 && (g != table || i != index)
                ==> #[trigger] new.entry(g, i) == old.entry(g, i)
    }

    proof fn lemma_created_wf(old: Self, new: Self, table: PhysFrame, index: int, f: PhysFrame)
        requires
            old.wf(),
            old.positions@.dom().contains(table),
            old.positions@[table].level > 1,
            0 <= index < 512,
            f.wf(),
            !old.positions@.dom().contains(f),
            Self::created(old, new, table, index, f),
        ensures
            new.wf(),
            new.entry(table, index).link() == Link::Table(f),
    {
        lemma_entry_round_trip(f, PageTableFlags { present: true, writable: true });
        assert forall|g: PhysFrame, i: int|
            #![trigger table_entry(&new.memory, new.physical_memory_offset, g, i)]
            new.positions@.dom().contains(g) && new.positions@[g].level > 1 && 0 <= i < 512 implies (match table_entry(
            &new.memory,
            new.physical_memory_offset,
            g,
            i,
        ).link() {
            Link::Table(c) => new.positions@.dom().contains(c) && new.positions@[c]
                == new.positions@[g].child(i),
            _ => true,
        }) by {
            if g == f {
                assert(new.entry(f, i).unused());
            } else if g == table && i == index {
            } else {
                assert(new.entry(g, i) == old.entry(g, i));
                assert(table_entry(&old.memory, old.physical_memory_offset, g, i) == old.entry(
                    g,
                    i,
                ));
            }
        }
    }

    /// Hanging an empty table into the hierarchy changes no translation.
    proof fn lemma_created_walk(
        old: Self,
        new: Self,
        table: PhysFrame,
        index: int,
        f: PhysFrame,
        q: Page,
    )
        requires
            old.wf(),
            old.positions@.dom().contains(table),
            old.positions@[table].level > 1,
            0 <= index < 512,
            f.wf(),
            !old.positions@.dom().contains(f),
            old.entry(table, index).unused(),
            Self::created(old, new, table, index, f),
        ensures
            new.translate(q) == old.translate(q),
            new.under_huge_page(q) == old.under_huge_page(q),
            new.missing_tables(q) <= old.missing_tables(q),
    {
        lemma_entry_round_trip(f, PageTableFlags { present: true, writable: true });
        let root = old.level_4_frame;
        lemma_index_bounds(q);
        // level 4
        if table == root && index == q.p4() {
            assert(new.entry(f, q.p3()).unused());
        } else {
            assert(new.entry(root, q.p4()) == old.entry(root, q.p4()));
            assert(table_entry(&old.memory, old.physical_memory_offset, root, q.p4()) == old.entry(
                root,
                q.p4(),
            ));
            match old.p3_link(q) {
                Link::Table(t3) => {
                    if table == t3 && index == q.p3() {
                        assert(new.entry(f, q.p2()).unused());
                    } else {
                        assert(new.entry(t3, q.p3()) == old.entry(t3, q.p3()));
                        assert(table_entry(&old.memory, old.physical_memory_offset, t3, q.p3())
                            == old.entry(t3, q.p3()));
                        match old.p2_link(q) {
                            Link::Table(t2) => {
                                if table == t2 && index == q.p2() {
                                    assert(new.entry(f, q.p1()).unused());
                                } else {
                                    assert(new.entry(t2, q.p2()) == old.entry(t2, q.p2()));
                                    assert(table_entry(
                                        &old.memory,
                                        old.physical_memory_offset,
                                        t2,
                                        q.p2(),
                                    ) == old.entry(t2, q.p2()));
                                    match old.p1_link(q) {
                                        Link::Table(t1) => {
                                            assert(new.entry(t1, q.p1()) == old.entry(t1, q.p1()));
                                        },
                                        _ => {},
                                    }
                                }
                            },
                            _ => {},
                        }
                    }
                },
                _ => {},
            }
        }
    }

    /// Entry `index` of `parent` points at `table`, present and writable,
    /// and `table` has no used entry but entry `next`.
    spec fn hung(s: Self, parent: PhysFrame, index: int, table: PhysFrame, next: int) -> bool {
        &&& s.entry(parent, index) == PageTableEntry::encode(
            table,
            PageTableFlags { present: true, writable: true },
        )
        &&& s.cleared_but(table, next)
    }

    /// A table stays hung while nothing is written but entry `idx` of `t`,
    /// where that is neither the entry above the table nor an entry of the
    /// table other than entry `next`.
    proof fn lemma_hung_kept(
        a: Self,
        b: Self,
        parent: PhysFrame,
        index: int,
        table: PhysFrame,
        next: int,
        t: PhysFrame,
        idx: int,
    )
        requires
            Self::hung(a, parent, index, table, next),
            a.positions@.dom().contains(parent),
            a.positions@.dom().contains(table),
            0 <= index < 512,
            parent != t || index != idx,
            table != t || next == idx,
            forall|g: PhysFrame, i: int|
                a.positions@.dom().contains(g) && 0 <= i < 512 && (g != t || i != idx)
                    ==> #[trigger] b.entry(g, i) == a.entry(g, i),
        ensures
            Self::hung(b, parent, index, table, next),
    {
        assert(b.entry(parent, index) == a.entry(parent, index));
        assert forall|i: int| 0 <= i < 512 && i != next implies (#[trigger] b.entry(
            table,
            i,
        )).unused() by {
            assert(b.entry(table, i) == a.entry(table, i));
        }
    }

    /// `new` has the offset and the root of `old`, translates every page as
    /// `old` does, and misses no table that `old` has.
    spec fn extends(old: Self, new: Self) -> bool {
        &&& new.physical_memory_offset == old.physical_memory_offset
        &&& new.level_4_frame == old.level_4_frame
        &&& new.memory.last_invalidated() == old.memory.last_invalidated()
        &&& forall|q: Page| #[trigger] new.translate(q) == old.translate(q)
        &&& forall|q: Page| #[trigger] new.under_huge_page(q) == old.under_huge_page(q)
        &&& forall|q: Page| #[trigger] new.missing_tables(q) <= old.missing_tables(q)
    }

    proof fn lemma_created_extends(old: Self, new: Self, table: PhysFrame, index: int, f: PhysFrame)
        requires
            old.wf(),
            old.positions@.dom().contains(table),
            old.positions@[table].level > 1,
            0 <= index < 512,
            f.wf(),
            !old.positions@.dom().contains(f),
            old.entry(table, index).unused(),
            Self::created(old, new, table, index, f),
        ensures
            Self::extends(old, new),
    {
        assert forall|q: Page| #[trigger] new.translate(q) == old.translate(q) by {
            Self::lemma_created_walk(old, new, table, index, f, q);
        }
        assert forall|q: Page| #[trigger] new.under_huge_page(q) == old.under_huge_page(q) by {
            Self::lemma_created_walk(old, new, table, index, f, q);
        }
        assert forall|q: Page| #[trigger] new.missing_tables(q) <= old.missing_tables(q) by {
            Self::lemma_created_walk(old, new, table, index, f, q);
        }
    }

    /// A write to a level-1 table keeps the hierarchy a tree.
    proof fn lemma_leaf_wf(old: Self, new: Self, table: PhysFrame, index: int)
        requires
            old.wf(),
            old.positions@.dom().contains(table),
            old.positions@[table].level == 1,
            Self::leaf_written(old, new, table, index),
        ensures
            new.wf(),
    {
        assert forall|g: PhysFrame, i: int|
            #![trigger table_entry(&new.memory, new.physical_memory_offset, g, i)]
            new.positions@.dom().contains(g) && new.positions@[g].level > 1 && 0 <= i < 512 implies (match table_entry(
            &new.memory,
            new.physical_memory_offset,
            g,
            i,
        ).link() {
            Link::Table(c) => new.positions@.dom().contains(c) && new.positions@[c]
                == new.positions@[g].child(i),
            _ => true,
        }) by {
            assert(new.entry(g, i) == old.entry(g, i));
            assert(table_entry(&old.memory, old.physical_memory_offset, g, i) == old.entry(g, i));
        }
    }

    /// Two handles whose tables hold the same entries walk alike.
    proof fn lemma_same_entries(a: Self, b: Self, q: Page)
        requires
            a.physical_memory_offset == b.physical_memory_offset,
            a.level_4_frame == b.level_4_frame,
            forall|t: u64, i: usize| #[trigger] b.memory.slot(t, i) == a.memory.slot(t, i),
        ensures
            b.p3_link(q) == a.p3_link(q),
            b.p2_link(q) == a.p2_link(q),
            b.p1_link(q) == a.p1_link(q),
            b.leaf(q) == a.leaf(q),
            b.translate(q) == a.translate(q),
            b.under_huge_page(q) == a.under_huge_page(q),
            b.missing_tables(q) == a.missing_tables(q),
    {
        let root = a.level_4_frame;
        assert(b.entry(root, q.p4()) == a.entry(root, q.p4()));
        match a.p3_link(q) {
            Link::Table(t3) => {
                assert(b.entry(t3, q.p3()) == a.entry(t3, q.p3()));
                match a.p2_link(q) {
                    Link::Table(t2) => {
                        assert(b.entry(t2, q.p2()) == a.entry(t2, q.p2()));
                        match a.p1_link(q) {
                            Link::Table(t1) => {
                                assert(b.entry(t1, q.p1()) == a.entry(t1, q.p1()));
                            },
                            _ => {},
                        }
                    },
                    _ => {},
                }
            },
            _ => {},
        }
    }

    /// A write to the level-1 entry of `page` changes the translation of no
    /// other page, and no link.
    proof fn lemma_leaf_walk(old: Self, new: Self, table: PhysFrame, page: Page, q: Page)
        requires
            old.wf(),
            page.wf(),
            old.p1_link(page) == Link::Table(table),
            Self::leaf_written(old, new, table, page.p1()),
        ensures
            new.p3_link(q) == old.p3_link(q),
            new.p2_link(q) == old.p2_link(q),
            new.p1_link(q) == old.p1_link(q),
            q.wf() && q != page ==> new.leaf(q) == old.leaf(q),
            new.leaf(page) == Some(new.entry(table, page.p1())),
    {
        let root = old.level_4_frame;
        lemma_index_bounds(q);
        lemma_index_bounds(page);
        Self::lemma_walk_positions(old, page);
        Self::lemma_walk_positions(old, q);
        assert(new.entry(root, page.p4()) == old.entry(root, page.p4()));
        match old.p3_link(page) {
            Link::Table(t3) => {
                assert(new.entry(t3, page.p3()) == old.entry(t3, page.p3()));
                match old.p2_link(page) {
                    Link::Table(t2) => {
                        assert(new.entry(t2, page.p2()) == old.entry(t2, page.p2()));
                    },
                    _ => {},
                }
            },
            _ => {},
        }
        assert(new.entry(root, q.p4()) == old.entry(root, q.p4()));
        match old.p3_link(q) {
            Link::Table(t3) => {
                assert(new.entry(t3, q.p3()) == old.entry(t3, q.p3()));
                match old.p2_link(q) {
                    Link::Table(t2) => {
                        assert(new.entry(t2, q.p2()) == old.entry(t2, q.p2()));
                        match old.p1_link(q) {
                            Link::Table(t1) => {
                                if q.wf() && q != page {
                                    if t1 == table && q.p1() == page.p1() {
                                        lemma_page_indices_injective(q, page);
                                    }
                                    assert(new.entry(t1, q.p1()) == old.entry(t1, q.p1()));
                                }
                            },
                            _ => {},
                        }
                    },
                    _ => {},
                }
            },
            _ => {},
        }
    }

    /// The tables on the way to a page stand at the positions that the
    /// indices of the page name.
    proof fn lemma_walk_positions(s: Self, q: Page)
        requires
            s.wf(),
        ensures
            s.p3_link(q) matches Link::Table(t) ==> s.positions@.dom().contains(t)
                && s.positions@[t] == (TablePosition { level: 3, i4: q.p4(), i3: 0, i2: 0 }),
            s.p2_link(q) matches Link::Table(t) ==> s.positions@.dom().contains(t)
                && s.positions@[t] == (TablePosition { level: 2, i4: q.p4(), i3: q.p3(), i2: 0 }),
            s.p1_link(q) matches Link::Table(t) ==> s.positions@.dom().contains(t)
                && s.positions@[t] == (TablePosition {
                level: 1,
                i4: q.p4(),
                i3: q.p3(),
                i2: q.p2(),
            }),
    {
        let root = s.level_4_frame;
        lemma_index_bounds(q);
        assert(table_entry(&s.memory, s.physical_memory_offset, root, q.p4()) == s.entry(
            root,
            q.p4(),
        ));
        match s.p3_link(q) {
            Link::Table(t3) => {
                assert(table_entry(&s.memory, s.physical_memory_offset, t3, q.p3()) == s.entry(
                    t3,
                    q.p3(),
                ));
                match s.p2_link(q) {
                    Link::Table(t2) => {
                        assert(table_entry(&s.memory, s.physical_memory_offset, t2, q.p2())
                            == s.entry(t2, q.p2()));
                    },
                    _ => {},
                }
            },
            _ => {},
        }
    }
}

impl<M: PageTableMemory> OffsetPageTable<M> {
    fn write(&mut self, table: PhysFrame, index: usize, entry: PageTableEntry)
        requires
            old(self).physical_memory_offset % 4096 == 0,
            old(self).physical_memory_offset + PHYS_ADDR_LIMIT <= u64::MAX + 1,
            table.wf(),
            index < 512,
        ensures
            final(self).physical_memory_offset == old(self).physical_memory_offset,
            final(self).level_4_frame == old(self).level_4_frame,
            final(self).positions@ == old(self).positions@,
            final(self).memory.last_invalidated() == old(self).memory.last_invalidated(),
            final(self).entry(table, index as int) == entry,
            forall|g: PhysFrame, i: int|
                g.wf() && 0 <= i < 512 && (g != table || i != index) ==> #[trigger] final(self).entry(
                    g,
                    i,
                ) == old(self).entry(g, i),
    {
        self.memory.write_slot(self.physical_memory_offset + table.start_address, index, entry.bits);
    }

    /// Clears every entry of the table in `frame`.
    fn zero_table(&mut self, frame: PhysFrame)
        requires
            old(self).physical_memory_offset % 4096 == 0,
            old(self).physical_memory_offset + PHYS_ADDR_LIMIT <= u64::MAX + 1,
            frame.wf(),
        ensures
            final(self).physical_memory_offset == old(self).physical_memory_offset,
            final(self).level_4_frame == old(self).level_4_frame,
            final(self).positions@ == old(self).positions@,
            final(self).memory.last_invalidated() == old(self).memory.last_invalidated(),
            forall|i: int| 0 <= i < 512 ==> (#[trigger] final(self).entry(frame, i)).unused(),
            forall|g: PhysFrame, i: int|
                g.wf() && 0 <= i < 512 && g != frame ==> #[trigger] final(self).entry(g, i) == old(
                    self,
                ).entry(g, i),
    {
        let mut index: usize = 0;
        while index < 512
            invariant
                0 <= index <= 512,
                frame.wf(),
                self.physical_memory_offset % 4096 == 0,
                self.physical_memory_offset + PHYS_ADDR_LIMIT <= u64::MAX + 1,
                self.physical_memory_offset == old(self).physical_memory_offset,
                self.level_4_frame == old(self).level_4_frame,
                self.positions@ == old(self).positions@,
                self.memory.last_invalidated() == old(self).memory.last_invalidated(),
                forall|i: int| 0 <= i < index ==> (#[trigger] self.entry(frame, i)).unused(),
                forall|g: PhysFrame, i: int|
                    g.wf() && 0 <= i < 512 && g != frame ==> #[trigger] self.entry(g, i) == old(
                        self,
                    ).entry(g, i),
            decreases 512 - index,
        {
            let ghost before = *self;
            self.write(frame, index, PageTableEntry { bits: 0 });
            assert forall|i: int| 0 <= i < index + 1 implies (#[trigger] self.entry(
                frame,
                i,
            )).unused() by {
                if i < index {
                    assert(self.entry(frame, i) == before.entry(frame, i));
                }
            }
            assert forall|g: PhysFrame, i: int|
                g.wf() && 0 <= i < 512 && g != frame implies #[trigger] self.entry(g, i) == old(
                self,
            ).entry(g, i) by {
                assert(self.entry(g, i) == before.entry(g, i));
            }
            index = index + 1;
        }
    }

    /// The table below entry `index` of `table`; where the entry is unused, a
    /// frame is taken from `allocator`, cleared and hung in as that table.
    fn next_table<A: FrameAllocator>(&mut self, table: PhysFrame, index: usize, allocator: &mut A) -> (r:
        Result<PhysFrame, MapToError>)
        requires
            old(self).wf(),
            old(allocator).wf(),
            old(self).fresh(old(allocator).upcoming()),
            old(self).positions@.dom().contains(table),
            old(self).positions@[table].level > 1,
            index < 512,
        ensures
            final(self).wf(),
            final(allocator).wf(),
            final(self).fresh(final(allocator).upcoming()),
            match old(self).entry(table, index as int).link() {
                Link::Table(t) => {
                    &&& r == Ok::<PhysFrame, MapToError>(t)
                    &&& *final(self) == *old(self)
                    &&& final(allocator).upcoming() == old(allocator).upcoming()
                },
                Link::HugePage => {
                    &&& r == Err::<PhysFrame, MapToError>(MapToError::ParentEntryHugePage)
                    &&& *final(self) == *old(self)
                    &&& final(allocator).upcoming() == old(allocator).upcoming()
                },
                Link::Unused => if old(allocator).upcoming().len() == 0 {
                    &&& r == Err::<PhysFrame, MapToError>(MapToError::FrameAllocationFailed)
                    &&& *final(self) == *old(self)
                    &&& final(allocator).upcoming() == old(allocator).upcoming()
                } else {
                    &&& r == Ok::<PhysFrame, MapToError>(old(allocator).upcoming()[0])
                    &&& final(allocator).upcoming() == old(allocator).upcoming().skip(1)
                    &&& Self::created(
                        *old(self),
                        *final(self),
                        table,
                        index as int,
                        old(allocator).upcoming()[0],
                    )
                },
            },
            r matches Ok(t) ==> {
                &&& final(self).entry(table, index as int).link() == Link::Table(t)
                &&& final(self).positions@.dom().contains(t)
                &&& final(self).positions@[t] == old(self).positions@[table].child(index as int)
            },
            Self::extends(*old(self), *final(self)),
    {
        let entry = self.read(table, index);
        proof {
            assert(table_entry(&self.memory, self.physical_memory_offset, table, index as int)
                == self.entry(table, index as int));
        }
        if entry.is_unused() {
            match allocator.allocate_frame() {
                None => Err(MapToError::FrameAllocationFailed),
                Some(frame) => {
                    let ghost upcoming = old(allocator).upcoming();
                    assert(upcoming[0] == frame);
                    assert(frame.wf() && !self.positions@.dom().contains(frame));
                    self.zero_table(frame);
                    let ghost cleared = *self;
                    self.write(
                        table,
                        index,
                        PageTableEntry::new(frame, PageTableFlags { present: true, writable: true }),
                    );
                    let ghost written = *self;
                    proof {
                        self.positions@ = self.positions@.insert(
                            frame,
                            old(self).positions@[table].child(index as int),
                        );
                        assert forall|i: int| 0 <= i < 512 implies (#[trigger] self.entry(
                            frame,
                            i,
                        )).unused() by {
                            assert(written.entry(frame, i) == cleared.entry(frame, i));
                        }
                        assert forall|g: PhysFrame, i: int|
                            old(self).positions@.dom().contains(g) && 0 <= i < 512 && (g != table
                                || i != index) implies #[trigger] self.entry(g, i) == old(
                            self,
                        ).entry(g, i) by {
                            assert(g.wf());
                            assert(written.entry(g, i) == cleared.entry(g, i));
                            assert(cleared.entry(g, i) == old(self).entry(g, i));
                        }
                        assert(self.entry(table, index as int) == written.entry(table, index as int));
                        assert(Self::created(*old(self), *self, table, index as int, frame));
                        Self::lemma_created_wf(*old(self), *self, table, index as int, frame);
                        Self::lemma_created_extends(*old(self), *self, table, index as int, frame);
                        assert forall|i: int| 0 <= i < upcoming.skip(1).len() implies (
                        #[trigger] upcoming.skip(1)[i]).wf() && !self.is_table_frame(
                            upcoming.skip(1)[i],
                        ) by {
                            assert(upcoming.skip(1)[i] == upcoming[i + 1]);
                        }
                    }
                    Ok(frame)
                },
            }
        } else if entry.is_huge() {
            Err(MapToError::ParentEntryHugePage)
        } else {
            Ok(entry.frame())
        }
    }
}

/// What a page translates to once its level-1 entry points at `frame` with
/// `flags`: an entry without a set bit counts as unused.
pub open spec fn mapping_of(frame: PhysFrame, flags: PageTableFlags) -> Option<
    (PhysFrame, PageTableFlags),
> {
    if frame.start_address == 0 && !flags.present && !flags.writable {
        None
    } else {
        Some((frame, flags))
    }
}

impl<M: PageTableMemory> OffsetPageTable<M> {
    /// Maps `page` to `frame` with `flags`. Walks the hierarchy from the
    /// root; each missing table on the way is taken from `frame_allocator`,
    /// cleared and hung in as present and writable; then the level-1 entry is
    /// written and the cached translation of `page` dropped. A page whose
    /// level-1 entry is in use is rejected: nothing is written then, and no
    /// cached translation dropped.
    pub fn map_to<A: FrameAllocator>(
        &mut self,
        page: Page,
        frame: PhysFrame,
        flags: PageTableFlags,
        frame_allocator: &mut A,
    ) -> (r: Result<(), MapToError>)
        requires
            old(self).wf(),
            page.wf(),
            frame.wf(),
            old(frame_allocator).wf(),
            old(self).fresh(old(frame_allocator).upcoming()),
        ensures
            final(self).wf(),
            final(frame_allocator).wf(),
            final(self).fresh(final(frame_allocator).upcoming()),
            final(self).offset() == old(self).offset(),
            final(self).root() == old(self).root(),
            r == old(self).map_outcome(page, old(frame_allocator).upcoming().len()),
            final(frame_allocator).upcoming() == old(frame_allocator).upcoming().skip(
                old(self).frames_taken(page, old(frame_allocator).upcoming().len()) as int,
            ),
            forall|q: Page|
                q.wf() ==> #[trigger] final(self).translate(q) == if q == page && r is Ok {
                    mapping_of(frame, flags)
                } else {
                    old(self).translate(q)
                },
            forall|q: Page| #[trigger] final(self).under_huge_page(q) == old(self).under_huge_page(q),
            forall|q: Page| #[trigger] final(self).missing_tables(q) <= old(self).missing_tables(q),
            r is Ok ==> forall|q: Page|
                q.shares_table_with(page) ==> #[trigger] final(self).missing_tables(q) == 0,
            forall|f: PhysFrame| #[trigger]
                final(self).is_table_frame(f) <==> old(self).is_table_frame(f) || exists|i: int|
                    0 <= i < old(self).frames_taken(page, old(frame_allocator).upcoming().len())
                        && #[trigger] old(frame_allocator).upcoming()[i] == f,
            final(self).memory().last_invalidated() == if r is Ok {
                Some(page)
            } else {
                old(self).memory().last_invalidated()
            },
            Self::tables_hung(
                *old(self),
                *final(self),
                page,
                old(frame_allocator).upcoming(),
                old(self).frames_taken(page, old(frame_allocator).upcoming().len()) as int,
            ),
            (r is Err && r != Err::<(), MapToError>(MapToError::FrameAllocationFailed))
                ==> final(self).memory() == old(self).memory(),
    {
        let ghost s0 = *self;
        let ghost up0 = frame_allocator.upcoming();
        let root = self.level_4_frame;
        proof {
            lemma_index_bounds(page);
        }
        let ghost c1 = s0.entry(root, page.p4()).link() is Unused;
        let p3 = match self.next_table(root, page.p4_index(), frame_allocator) {
            Ok(table) => table,
            Err(e) => {
                assert(up0.skip(0) =~= up0);
                return Err(e);
            },
        };
        let ghost s1 = *self;
        let ghost up1 = frame_allocator.upcoming();
        proof {
            if c1 {
                assert(p3 == up0[0]);
                assert(Self::hung(s1, root, page.p4(), p3, page.p3()));
            }
        }
        let ghost c2 = s1.entry(p3, page.p3()).link() is Unused;
        let p2 = match self.next_table(p3, page.p3_index(), frame_allocator) {
            Ok(table) => table,
            Err(e) => {
                proof {
                    assert(up0.skip(0) =~= up0);
                    if s1 != s0 {
                        assert(s1.entry(p3, page.p3()).unused());
                    }
                    assert(s1.p3_link(page) == Link::Table(p3));
                }
                return Err(e);
            },
        };
        let ghost s2 = *self;
        let ghost up2 = frame_allocator.upcoming();
        proof {
            if s1 != s0 {
                assert(s1.entry(p3, page.p3()).unused());
            }
            if s2 != s1 {
                assert(s2.entry(root, page.p4()) == s1.entry(root, page.p4()));
            }
            assert(s2.p3_link(page) == Link::Table(p3));
            assert(s2.p2_link(page) == Link::Table(p2));
            if c1 {
                Self::lemma_hung_kept(s1, s2, root, page.p4(), p3, page.p3(), p3, page.p3());
            }
            if c2 {
                assert(p2 == up1[0]);
                assert(Self::hung(s2, p3, page.p3(), p2, page.p2()));
            }
        }
        let ghost c3 = s2.entry(p2, page.p2()).link() is Unused;
        let p1 = match self.next_table(p2, page.p2_index(), frame_allocator) {
            Ok(table) => table,
            Err(e) => {
                proof {
                    assert(up0.skip(0) =~= up0);
                    if up0.len() >= 2 {
                        assert(up0.skip(1).skip(1) =~= up0.skip(2));
                    }
                    if s2 != s1 {
                        assert(s2.entry(p2, page.p2()).unused());
                    }
                    if c1 && c2 {
                        assert(up1[0] == up0[1]);
                    }
                }
                return Err(e);
            },
        };
        let ghost s3 = *self;
        let ghost up3 = frame_allocator.upcoming();
        proof {
            if c1 {
                Self::lemma_hung_kept(s2, s3, root, page.p4(), p3, page.p3(), p2, page.p2());
            }
            if c2 {
                Self::lemma_hung_kept(s2, s3, p3, page.p3(), p2, page.p2(), p2, page.p2());
            }
            if c3 {
                assert(p1 == up2[0]);
                assert(Self::hung(s3, p2, page.p2(), p1, page.p1()));
            }
            if c1 && c2 {
                assert(up1[0] == up0[1]);
            }
            if c2 && c3 {
                assert(up2[0] == up1[1]);
            }
            if c1 && c3 {
                assert(up2[0] == up0[2]);
            }
            assert(up0.skip(0) =~= up0);
            if up0.len() >= 2 {
                assert(up0.skip(1).skip(1) =~= up0.skip(2));
            }
            if up0.len() >= 3 {
                assert(up0.skip(2).skip(1) =~= up0.skip(3));
            }
            if s2 != s1 {
                assert(s2.entry(p2, page.p2()).unused());
            }
            if s3 != s2 {
                assert(s3.entry(root, page.p4()) == s2.entry(root, page.p4()));
                assert(s3.entry(p3, page.p3()) == s2.entry(p3, page.p3()));
            }
            assert(s3.p3_link(page) == Link::Table(p3));
            assert(s3.p2_link(page) == Link::Table(p2));
            assert(s3.p1_link(page) == Link::Table(p1));
            assert(s3.missing_tables(page) == 0);
            assert(!s3.under_huge_page(page));
            assert(!s0.under_huge_page(page));
        }
        let entry = self.read(p1, page.p1_index());
        if !entry.is_unused() {
            proof {
                assert(s3.translate(page) == Some((entry.target(), entry.flag_set())));
                assert(s0.translate(page) == s3.translate(page));
                assert(s0.missing_tables(page) == 0);
                assert(s3 == s0);
            }
            return Err(MapToError::PageAlreadyMapped(entry.frame()));
        }
        proof {
            assert(s3.translate(page) is None);
            assert(s0.translate(page) == s3.translate(page));
        }
        self.write(p1, page.p1_index(), PageTableEntry::new(frame, flags));
        let ghost s4 = *self;
        self.memory.invalidate(page);
        proof {
            let s5 = *self;
            lemma_entry_round_trip(frame, flags);
            assert(Self::leaf_written(s3, s4, p1, page.p1())) by {
                assert forall|g: PhysFrame, i: int|
                    s3.positions@.dom().contains(g) && 0 <= i < 512 && (g != p1 || i != page.p1())
                    implies #[trigger] s4.entry(g, i) == s3.entry(g, i) by {
                    assert(g.wf());
                }
            }
            Self::lemma_leaf_wf(s3, s4, p1, page.p1());
            assert(Self::leaf_written(s3, s5, p1, page.p1())) by {
                assert forall|g: PhysFrame, i: int|
                    s3.positions@.dom().contains(g) && 0 <= i < 512 && (g != p1 || i != page.p1())
                    implies #[trigger] s5.entry(g, i) == s3.entry(g, i) by {
                    assert(s5.entry(g, i) == s4.entry(g, i));
                    assert(s4.entry(g, i) == s3.entry(g, i));
                }
            }
            Self::lemma_leaf_wf(s3, s5, p1, page.p1());
            assert(s5.entry(p1, page.p1()) == s4.entry(p1, page.p1()));
            assert forall|q: Page|
                q.wf() implies #[trigger] s5.translate(q) == if q == page {
                mapping_of(frame, flags)
            } else {
                s0.translate(q)
            } by {
                Self::lemma_leaf_walk(s3, s5, p1, page, q);
                assert(s3.translate(q) == s0.translate(q));
            }
            assert forall|q: Page| #[trigger] s5.under_huge_page(q) == s0.under_huge_page(q) by {
                Self::lemma_leaf_walk(s3, s5, p1, page, q);
                assert(s3.under_huge_page(q) == s0.under_huge_page(q));
            }
            assert forall|q: Page| #[trigger] s5.missing_tables(q) <= s0.missing_tables(q) by {
                Self::lemma_leaf_walk(s3, s5, p1, page, q);
                assert(s3.missing_tables(q) <= s0.missing_tables(q));
            }
            assert forall|q: Page| q.shares_table_with(page) implies #[trigger] s5.missing_tables(q)
                == 0 by {
                Self::lemma_leaf_walk(s3, s5, p1, page, q);
                Self::lemma_leaf_walk(s3, s5, p1, page, page);
            }
            Self::lemma_leaf_walk(s3, s5, p1, page, page);
            Self::lemma_walk_positions(s3, page);
            if c1 {
                Self::lemma_hung_kept(s3, s5, root, page.p4(), p3, page.p3(), p1, page.p1());
            }
            if c2 {
                Self::lemma_hung_kept(s3, s5, p3, page.p3(), p2, page.p2(), p1, page.p1());
            }
            if c3 {
                Self::lemma_hung_kept(s3, s5, p2, page.p2(), p1, page.p1(), p1, page.p1());
            }
        }
        Ok(())
    }
}

impl<M: PageTableMemory> OffsetPageTable<M> {
    /// Pages that are reached through the same level-1 table miss the same
    /// tables and stand under the same huge pages.
    pub proof fn lemma_shared_table(self, a: Page, b: Page)
        requires
            a.shares_table_with(b),
        ensures
            self.under_huge_page(a) == self.under_huge_page(b),
            self.missing_tables(a) == self.missing_tables(b),
    {
    }

    /// No remapping without unmapping. Let `after` be a state that a
    /// successful `map_to` of `page` to `frame` with `flags` has left, with an
    /// entry that has a bit set. Then `map_to` rejects `page` in `after`,
    /// whatever frame and flags it is given and however many frames the
    /// source holds, and names `frame` as the one the page is mapped to.
    pub proof fn lemma_remap_rejected(
        after: Self,
        page: Page,
        frame: PhysFrame,
        flags: PageTableFlags,
        available: nat,
    )
        requires
            after.translate(page) == mapping_of(frame, flags),
            frame.start_address != 0 || flags.present || flags.writable,
        ensures
            after.map_outcome(page, available) == Err::<(), MapToError>(
                MapToError::PageAlreadyMapped(frame),
            ),
    {
    }
}

} // verus!
