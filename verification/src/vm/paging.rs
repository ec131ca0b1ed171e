//! Page tables and page directories, and how entries are found in them.
//!
//! A directory has 1024 entries, one per table. Where an entry is present it
//! names the frame of a table, and the directory holds that table. A table
//! has 1024 page entries. The entry for an address is found through the
//! directory index and the table index of the address.

#![allow(non_snake_case)]

use crate::virtual_memory::{
    directory_index, lemma_address_parts, page_base, table_index, LogicalAddress, PageEntry,
    PhysicalAddress, NUM_PAGE_ENTRIES,
};
use vstd::prelude::*;

verus! {

/// A page table: 1024 page entries, and the frame in which the table lies.
pub struct PageTable {
    entries: Vec<PageEntry>,
    frame: PhysicalAddress,
}

/// A page directory: 1024 table entries, the tables they name, and the frame
/// in which the directory lies.
pub struct PageDirectory {
    entries: Vec<PageEntry>,
    tables: Vec<Option<PageTable>>,
    frame: PhysicalAddress,
}

/// 1024 empty entries.
fn empty_entries() -> (entries: Vec<PageEntry>)
    ensures
        entries.len() == NUM_PAGE_ENTRIES,
        forall|i: int| 0 <= i < NUM_PAGE_ENTRIES ==> entries[i] == PageEntry(0),
{
    let mut entries: Vec<PageEntry> = Vec::new();
    while entries.len() < NUM_PAGE_ENTRIES
        invariant
            entries.len() <= NUM_PAGE_ENTRIES,
            forall|i: int| 0 <= i < entries.len() ==> entries[i] == PageEntry(0),
        decreases NUM_PAGE_ENTRIES - entries.len(),
    {
        entries.push(PageEntry(0));
    }
    entries
}

/// Writes `entry` at `index` of the table in `slot`.
fn put_entry(slot: &mut Option<PageTable>, index: usize, entry: PageEntry)
    requires
        *old(slot) matches Some(t) && t.wf(),
        index < NUM_PAGE_ENTRIES,
    ensures
        *final(slot) matches Some(t) && t@ == old(slot)->0@.update(index as int, entry) && t.base()
            == old(slot)->0.base(),
{
    match slot {
        Some(table) => {
            table.entries.set(index, entry);
        },
        None => {},
    }
}

impl PageTable {
    /// The entries of the table.
    pub closed spec fn view(&self) -> Seq<PageEntry> {
        self.entries@
    }

    /// The frame in which the table lies.
    pub closed spec fn base(&self) -> PhysicalAddress {
        self.frame
    }

    /// The table has its 1024 entries.
    pub open spec fn wf(&self) -> bool {
        self@.len() == NUM_PAGE_ENTRIES
    }

    /// An empty table that lies in the frame at `frame`.
    pub fn new(frame: PhysicalAddress) -> (table: PageTable)
        ensures
            table.wf(),
            table.base() == frame,
            forall|i: int| 0 <= i < NUM_PAGE_ENTRIES ==> table@[i] == PageEntry(0),
    {
        PageTable { entries: empty_entries(), frame }
    }

    /// The frame in which the table lies.
    pub fn frame(&self) -> (frame: PhysicalAddress)
        ensures
            frame == self.base(),
    {
        self.frame
    }

    /// The page entry for `addr`.
    pub fn getPageEntry(&self, addr: LogicalAddress) -> (entry: &PageEntry)
        requires
            self.wf(),
        ensures
            *entry == self@[table_index(addr.0) as int],
    {
        let tableIndex = addr.get_page() as usize;
        &self.entries[tableIndex]
    }

    /// The page entry for `addr`, to be rewritten in place.
    pub fn getPageEntryMut(&mut self, addr: LogicalAddress) -> (entry: &mut PageEntry)
        requires
            old(self).wf(),
        ensures
            *entry == old(self)@[table_index(addr.0) as int],
            final(self)@ == old(self)@.update(table_index(addr.0) as int, *final(entry)),
            final(self).base() == old(self).base(),
    {
        let tableIndex = addr.get_page() as usize;
        &mut self.entries[tableIndex]
    }
}

impl PageDirectory {
    /// The table entries of the directory.
    pub closed spec fn directory(&self) -> Seq<PageEntry> {
        self.entries@
    }

    /// The entries of the table at index `i`, where the directory holds one.
    pub closed spec fn table(&self, i: int) -> Option<Seq<PageEntry>> {
        match self.tables@[i] {
            Some(t) => Some(t@),
            None => None,
        }
    }

    /// The frame of the table at index `i`.
    pub closed spec fn table_frame(&self, i: int) -> PhysicalAddress {
        self.tables@[i]->0.base()
    }

    /// The frame in which the directory lies.
    pub closed spec fn base(&self) -> PhysicalAddress {
        self.frame
    }

    /// The directory has room for its 1024 entries and 1024 tables.
    pub closed spec fn shaped(&self) -> bool {
        &&& self.entries.len() == NUM_PAGE_ENTRIES
        &&& self.tables.len() == NUM_PAGE_ENTRIES
    }

    /// Index `i` is in order: where the directory holds a table, the table is
    /// whole, and the entry is present and names the table's frame; where it
    /// holds none, the entry is empty.
    pub open spec fn slot_wf(&self, i: int) -> bool {
        match self.table(i) {
            Some(t) => {
                &&& t.len() == NUM_PAGE_ENTRIES
                &&& self.directory()[i].present()
                &&& self.directory()[i].address() == self.table_frame(i)
            },
            None => self.directory()[i] == PageEntry(0),
        }
    }

    /// The directory is in order at every index.
    pub open spec fn wf(&self) -> bool {
        &&& self.shaped()
        &&& self.directory().len() == NUM_PAGE_ENTRIES
        &&& forall|i: int| 0 <= i < NUM_PAGE_ENTRIES ==> #[trigger] self.slot_wf(i)
    }

    /// The page entry for `addr`, where the directory holds a table for it.
    pub open spec fn entry_at(&self, addr: LogicalAddress) -> Option<PageEntry> {
        match self.table(directory_index(addr.0) as int) {
            Some(t) => Some(t[table_index(addr.0) as int]),
            None => None,
        }
    }

    /// The frame that `addr` is mapped to, where it is mapped.
    pub open spec fn page_at(&self, addr: LogicalAddress) -> Option<PhysicalAddress> {
        match self.entry_at(addr) {
            Some(e) => if e.present() {
                Some(e.address())
            } else {
                None
            },
            None => None,
        }
    }

    /// The directory is `before` with the page entry for `at` replaced by
    /// `entry`: every lookup in the page of `at` gives `entry`, every other
    /// lookup gives what it gave before, and the table entries are the same.
    pub open spec fn rewritten_at(
        &self,
        before: &PageDirectory,
        at: LogicalAddress,
        entry: PageEntry,
    ) -> bool {
        &&& self.base() == before.base()
        &&& self.directory() == before.directory()
        &&& forall|a: LogicalAddress| #[trigger]
            self.entry_at(a) == if page_start(a) == page_start(at) {
                Some(entry)
            } else {
                before.entry_at(a)
            }
    }

    /// The directory holds the same tables, in the same frames, at every
    /// index but `i`.
    pub open spec fn same_tables_but(&self, other: &PageDirectory, i: int) -> bool {
        forall|k: int|
            0 <= k < NUM_PAGE_ENTRIES && k != i ==> #[trigger] self.table(k) == other.table(k)
                && self.table_frame(k) == other.table_frame(k)
    }

    /// An empty directory that lies in the frame at `frame`.
    pub fn empty(frame: PhysicalAddress) -> (dir: PageDirectory)
        ensures
            dir.wf(),
            dir.base() == frame,
            forall|i: int| 0 <= i < NUM_PAGE_ENTRIES ==> #[trigger] dir.table(i) is None,
            forall|i: int| 0 <= i < NUM_PAGE_ENTRIES ==> dir.directory()[i] == PageEntry(0),
    {
        let mut tables: Vec<Option<PageTable>> = Vec::new();
        while tables.len() < NUM_PAGE_ENTRIES
            invariant
                tables.len() <= NUM_PAGE_ENTRIES,
                forall|i: int| 0 <= i < tables.len() ==> tables[i] is None,
            decreases NUM_PAGE_ENTRIES - tables.len(),
        {
            tables.push(None);
        }
        let dir = PageDirectory { entries: empty_entries(), tables, frame };
        assert forall|i: int| 0 <= i < NUM_PAGE_ENTRIES implies #[trigger] dir.slot_wf(i) by {
            assert(dir.table(i) is None);
        }
        dir
    }

    /// The frame in which the directory lies.
    pub fn frame(&self) -> (frame: PhysicalAddress)
        ensures
            frame == self.base(),
    {
        self.frame
    }

    /// The table entry for `addr`.
    pub fn getPageTableEntry(&self, addr: LogicalAddress) -> (entry: &PageEntry)
        requires
            self.wf(),
        ensures
            *entry == self.directory()[directory_index(addr.0) as int],
    {
        let directoryIndex = addr.get_page_table() as usize;
        &self.entries[directoryIndex]
    }

    /// The table entry for `addr`, to be rewritten in place. The tables stay
    /// as they are; it is on the caller to keep the entry in step with them.
    pub fn getPageTableEntryMut(&mut self, addr: LogicalAddress) -> (entry: &mut PageEntry)
        requires
            old(self).wf(),
        ensures
            *entry == old(self).directory()[directory_index(addr.0) as int],
            final(self).directory() == old(self).directory().update(
                directory_index(addr.0) as int,
                *final(entry),
            ),
            final(self).shaped(),
            final(self).base() == old(self).base(),
            forall|k: int|
                0 <= k < NUM_PAGE_ENTRIES ==> #[trigger] final(self).table(k) == old(self).table(k)
                    && final(self).table_frame(k) == old(self).table_frame(k),
    {
        let directoryIndex = addr.get_page_table() as usize;
        &mut self.entries[directoryIndex]
    }

    /// The table for `addr`, where the directory holds one.
    pub fn tryGetPageTable(&self, addr: LogicalAddress) -> (table: Option<&PageTable>)
        requires
            self.wf(),
        ensures
            match table {
                Some(t) => self.table(directory_index(addr.0) as int) == Some(t@) && t.wf()
                    && t.base() == self.table_frame(directory_index(addr.0) as int),
                None => self.table(directory_index(addr.0) as int) is None,
            },
    {
        let directoryIndex = addr.get_page_table() as usize;
        assert(self.slot_wf(directoryIndex as int));
        match &self.tables[directoryIndex] {
            Some(t) => Some(t),
            None => None,
        }
    }

    /// The page entry for `addr`, where the directory holds a table for it.
    pub fn tryGetPageEntry(&self, addr: LogicalAddress) -> (entry: Option<&PageEntry>)
        requires
            self.wf(),
        ensures
            match entry {
                Some(e) => self.entry_at(addr) == Some(*e),
                None => self.entry_at(addr) is None,
            },
    {
        match self.tryGetPageTable(addr) {
            Some(table) => Some(table.getPageEntry(addr)),
            None => None,
        }
    }

    /// The frame that `addr` is mapped to, where the directory maps it.
    pub fn tryGetPage(&self, addr: LogicalAddress) -> (page: Option<PhysicalAddress>)
        requires
            self.wf(),
        ensures
            page == self.page_at(addr),
    {
        match self.tryGetPageEntry(addr) {
            Some(entry) => if entry.page_is_present() {
                Some(entry.page_address())
            } else {
                None
            },
            None => None,
        }
    }

    /// Writes `entry` as the page entry for `addr`. The directory must hold a
    /// table for `addr`.
    pub fn setPageEntry(&mut self, addr: LogicalAddress, entry: PageEntry)
        requires
            old(self).wf(),
            old(self).entry_at(addr) is Some,
        ensures
            final(self).wf(),
            final(self).base() == old(self).base(),
            final(self).directory() == old(self).directory(),
            final(self).table(directory_index(addr.0) as int) == Some(
                old(self).table(directory_index(addr.0) as int)->0.update(
                    table_index(addr.0) as int,
                    entry,
                ),
            ),
            final(self).table_frame(directory_index(addr.0) as int) == old(self).table_frame(
                directory_index(addr.0) as int,
            ),
            final(self).same_tables_but(old(self), directory_index(addr.0) as int),
            final(self).entry_at(addr) == Some(entry),
            final(self).rewritten_at(old(self), addr, entry),
    {
        let directoryIndex = addr.get_page_table() as usize;
        let tableIndex = addr.get_page() as usize;
        assert(self.slot_wf(directoryIndex as int));
        put_entry(&mut self.tables[directoryIndex], tableIndex, entry);
        proof {
            assert forall|i: int| 0 <= i < NUM_PAGE_ENTRIES implies #[trigger] self.slot_wf(i) by {
                assert(old(self).slot_wf(i));
            }
            assert forall|a: LogicalAddress| #[trigger]
                self.entry_at(a) == if page_start(a) == page_start(addr) {
                    Some(entry)
                } else {
                    old(self).entry_at(a)
                } by {
                lemma_same_entry(a, addr);
                if page_start(a) != page_start(addr) {
                    lemma_other_entry(old(self), self, addr, a);
                }
            }
        }
    }

    /// Puts `table` at `index` of the directory, with the table entry
    /// `entry`. The index must be free, and the entry must be present and
    /// name the table's frame.
    pub fn installTable(&mut self, table: PageTable, index: usize, entry: PageEntry)
        requires
            old(self).wf(),
            table.wf(),
            index < NUM_PAGE_ENTRIES,
            old(self).table(index as int) is None,
            entry.present(),
            entry.address() == table.base(),
        ensures
            final(self).wf(),
            final(self).base() == old(self).base(),
            final(self).directory() == old(self).directory().update(index as int, entry),
            final(self).table(index as int) == Some(table@),
            final(self).table_frame(index as int) == table.base(),
            final(self).same_tables_but(old(self), index as int),
    {
        self.entries.set(index, entry);
        self.tables.set(index, Some(table));
        proof {
            assert forall|i: int| 0 <= i < NUM_PAGE_ENTRIES implies #[trigger] self.slot_wf(i) by {
                assert(old(self).slot_wf(i));
            }
        }
    }

    /// Takes the table at `index` out of the directory and empties the entry.
    pub fn removeTable(&mut self, index: usize) -> (table: Option<PageTable>)
        requires
            old(self).wf(),
            index < NUM_PAGE_ENTRIES,
        ensures
            final(self).wf(),
            final(self).base() == old(self).base(),
            final(self).directory() == old(self).directory().update(index as int, PageEntry(0)),
            final(self).table(index as int) is None,
            final(self).same_tables_but(old(self), index as int),
            match table {
                Some(t) => old(self).table(index as int) == Some(t@) && t.base()
                    == old(self).table_frame(index as int) && t.wf(),
                None => old(self).table(index as int) is None,
            },
    {
        assert(self.slot_wf(index as int));
        let mut taken: Option<PageTable> = None;
        core::mem::swap(&mut self.tables[index], &mut taken);
        self.entries.set(index, PageEntry(0));
        proof {
            assert forall|i: int| 0 <= i < NUM_PAGE_ENTRIES implies #[trigger] self.slot_wf(i) by {
                assert(old(self).slot_wf(i));
            }
        }
        taken
    }
}

/// Start of the page that holds `a`, as a number.
pub open spec fn page_start(a: LogicalAddress) -> int {
    page_base(a.0) as int
}

/// Two addresses of one page share their page entry: they have the same
/// directory index and the same table index.
pub proof fn lemma_same_entry(a: LogicalAddress, b: LogicalAddress)
    ensures
        page_start(a) == page_start(b) <==> directory_index(a.0)
            == directory_index(b.0) && table_index(a.0) == table_index(b.0),
{
    lemma_address_parts(a.0);
    lemma_address_parts(b.0);
}

/// After the page entry for `at` has been rewritten, the lookup for an
/// address of another page gives what it gave before.
pub proof fn lemma_other_entry(
    before: &PageDirectory,
    after: &PageDirectory,
    at: LogicalAddress,
    a: LogicalAddress,
)
    requires
        before.wf(),
        before.entry_at(at) is Some,
        after.table(directory_index(at.0) as int) is Some,
        exists|e: PageEntry|
            after.table(directory_index(at.0) as int) == Some(
                before.table(directory_index(at.0) as int)->0.update(
                    table_index(at.0) as int,
                    e,
                ),
            ),
        after.same_tables_but(before, directory_index(at.0) as int),
        page_start(a) != page_start(at),
    ensures
        after.entry_at(a) == before.entry_at(a),
{
    lemma_same_entry(a, at);
    lemma_address_parts(a.0);
    lemma_address_parts(at.0);
    let i = directory_index(at.0) as int;
    let k = directory_index(a.0) as int;
    assert(before.slot_wf(i));
    if k != i {
        assert(after.table(k) == before.table(k));
    }
}


} // verus!
