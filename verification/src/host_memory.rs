//! Page-table memory kept in ordinary vectors: tables come into being on
//! their first write and read as zero before it. It lets the mapping code run
//! where no hardware page tables are at hand.

use crate::paging::{Page, PageTableMemory};
use vstd::prelude::*;

verus! {

/// The 512 entries of one table and the address the table is visible at.
#[derive(Clone, Copy)]
struct TableImage {
    address: u64,
    entries: [u64; 512],
}

/// Entry `index` of the table at `table`: that of the last image kept for
/// the address, zero where none is kept.
spec fn lookup(tables: Seq<TableImage>, table: u64, index: int) -> u64
    decreases tables.len(),
{
    if tables.len() == 0 {
        0
    } else if tables.last().address == table {
        tables.last().entries@[index]
    } else {
        lookup(tables.drop_last(), table, index)
    }
}

proof fn lemma_lookup_found(tables: Seq<TableImage>, k: int, index: int)
    requires
        0 <= k < tables.len(),
        forall|j: int| k < j < tables.len() ==> tables[j].address != tables[k].address,
    ensures
        lookup(tables, tables[k].address, index) == tables[k].entries@[index],
    decreases tables.len(),
{
    if k < tables.len() - 1 {
        assert(tables.last() == tables[tables.len() - 1]);
        lemma_lookup_found(tables.drop_last(), k, index);
    }
}

proof fn lemma_lookup_missing(tables: Seq<TableImage>, table: u64, index: int)
    requires
        forall|j: int| 0 <= j < tables.len() ==> tables[j].address != table,
    ensures
        lookup(tables, table, index) == 0,
    decreases tables.len(),
{
    if tables.len() > 0 {
        assert(tables.last() == tables[tables.len() - 1]);
        lemma_lookup_missing(tables.drop_last(), table, index);
    }
}

proof fn lemma_lookup_other(tables: Seq<TableImage>, k: int, image: TableImage, table: u64, index: int)
    requires
        0 <= k < tables.len(),
        image.address == tables[k].address,
        table != image.address,
    ensures
        lookup(tables.update(k, image), table, index) == lookup(tables, table, index),
    decreases tables.len(),
{
    let updated = tables.update(k, image);
    if k == tables.len() - 1 {
        assert(updated.drop_last() =~= tables.drop_last());
    } else {
        assert(updated.drop_last() =~= tables.drop_last().update(k, image));
        assert(updated.last() == tables.last());
        lemma_lookup_other(tables.drop_last(), k, image, table, index);
    }
}

/// Page-table memory held in vectors, with a log of the invalidations asked
/// of it.
pub struct HostMemory {
    tables: Vec<TableImage>,
    flushed: Vec<Page>,
}

impl HostMemory {
    /// Memory in which every entry of every table reads as zero.
    pub fn new() -> (memory: HostMemory)
        ensures
            forall|t: u64, i: usize| #[trigger] memory.slot(t, i) == 0,
            memory.invalidated() == Seq::<Page>::empty(),
            memory.last_invalidated() is None,
    {
        HostMemory { tables: Vec::new(), flushed: Vec::new() }
    }

    /// The pages invalidated so far, oldest first.
    pub closed spec fn invalidated(&self) -> Seq<Page> {
        self.flushed@
    }

    /// The pages invalidated so far, oldest first.
    pub fn invalidations(&self) -> (pages: &Vec<Page>)
        ensures
            pages@ == self.invalidated(),
    {
        &self.flushed
    }

    /// Position of the last image kept for `table`.
    fn find(&self, table: u64) -> (found: Option<usize>)
        ensures
            match found {
                Some(k) => {
                    &&& k < self.tables@.len()
                    &&& self.tables@[k as int].address == table
                    &&& forall|j: int| k < j < self.tables@.len() ==> self.tables@[j].address != table
                },
                None => forall|j: int| 0 <= j < self.tables@.len() ==> self.tables@[j].address != table,
            },
    {
        let mut k: usize = self.tables.len();
        while k > 0
            invariant
                0 <= k <= self.tables@.len(),
                forall|j: int| k <= j < self.tables@.len() ==> self.tables@[j].address != table,
            decreases k,
        {
            k = k - 1;
            if self.tables[k].address == table {
                return Some(k);
            }
        }
        None
    }
}

impl PageTableMemory for HostMemory {
    closed spec fn slot(&self, table: u64, index: usize) -> u64 {
        lookup(self.tables@, table, index as int)
    }

    closed spec fn last_invalidated(&self) -> Option<Page> {
        if self.flushed@.len() == 0 {
            None
        } else {
            Some(self.flushed@.last())
        }
    }

    fn read_slot(&self, table: u64, index: usize) -> (bits: u64) {
        match self.find(table) {
            Some(k) => {
                proof {
                    lemma_lookup_found(self.tables@, k as int, index as int);
                }
                self.tables[k].entries[index]
            },
            None => {
                proof {
                    lemma_lookup_missing(self.tables@, table, index as int);
                }
                0
            },
        }
    }

    fn write_slot(&mut self, table: u64, index: usize, bits: u64)
        ensures
            final(self).invalidated() == old(self).invalidated(),
    {
        match self.find(table) {
            Some(k) => {
                let mut image = self.tables[k];
                image.entries[index] = bits;
                self.tables[k] = image;
                proof {
                    let before = old(self).tables@;
                    assert(self.tables@ == before.update(k as int, image));
                    lemma_lookup_found(self.tables@, k as int, index as int);
                    assert forall|t: u64, i: usize|
                        t % 4096 == 0 && i < 512 && (t != table || i != index)
                        implies #[trigger] self.slot(t, i) == old(self).slot(t, i) by {
                        if t == table {
                            lemma_lookup_found(self.tables@, k as int, i as int);
                            lemma_lookup_found(before, k as int, i as int);
                        } else {
                            lemma_lookup_other(before, k as int, image, t, i as int);
                        }
                    }
                }
            },
            None => {
                let mut image = TableImage { address: table, entries: [0u64;512] };
                image.entries[index] = bits;
                self.tables.push(image);
                proof {
                    let before = old(self).tables@;
                    assert(self.tables@.drop_last() =~= before);
                    assert forall|t: u64, i: usize|
                        t % 4096 == 0 && i < 512 && (t != table || i != index)
                        implies #[trigger] self.slot(t, i) == old(self).slot(t, i) by {
                        if t == table {
                            lemma_lookup_missing(before, table, i as int);
                        }
                    }
                }
            },
        }
    }

    fn invalidate(&mut self, page: Page)
        ensures
            final(self).invalidated() == old(self).invalidated().push(page),
    {
        self.flushed.push(page);
    }
}

} // verus!
