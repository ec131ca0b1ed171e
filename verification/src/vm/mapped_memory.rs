//! Putting pages and tables into a directory, and asking for the page
//! behind an address.

#![allow(non_snake_case)]

use crate::byte_utils::{bit_at, GET_BIT};
use crate::virtual_memory::{
    directory_index, foreach_page_in, in_span, lemma_address_parts, page_base, page_offset,
    range_limit, AddressMapping, LogicalAddress, PageDirectory, PageEntry, PageTable,
    PhysicalAddress, NUM_PAGE_ENTRIES, PAGE_COPY_ON_WRITE, PAGE_PRESENT, PAGE_WRITABLE,
    PAGE_WRITABLE_BIT, TABLE_SIZE,
};
use crate::vm::manager::{foreach_entry_in, stride_from};
use crate::vm::memory_alloc::{mapPage, span_end};
use crate::vm::invalidate_page::invalidatePage;
use crate::vm::mmu::Mmu;
use crate::vm::page_entry::{lemma_flag_bits, lemma_make, lemma_with};
use crate::vm::paging::{lemma_same_entry, page_start};
use vstd::prelude::*;

verus! {

/// The flag bits of an entry that is made present with `flags`: the low
/// twelve bits of `flags`, and the present bit.
pub open spec fn present_flags(flags: u32) -> u16 {
    ((flags | 0x001) & 0xfff) as u16
}

/// What `present_flags` gives: a value below 4096 with the present bit, and
/// with the writable and user bits exactly where `flags` has them.
pub proof fn lemma_present_flags(flags: u32)
    by (bit_vector)
    ensures
        ((flags | 0x001) & 0xfff) < 4096,
        bit_at(((flags | 0x001) & 0xfff) as u16 as u32, 0),
        bit_at(((flags | 0x001) & 0xfff) as u16 as u32, 1) == bit_at(flags, 1),
        bit_at(((flags | 0x001) & 0xfff) as u16 as u32, 2) == bit_at(flags, 2),
        bit_at(((flags | 0x001) & 0xfff) as u16 as u32, 5) == bit_at(flags, 5),
        bit_at(((flags | 0x001) & 0xfff) as u16 as u32, 6) == bit_at(flags, 6),
        bit_at(((flags | 0x001) & 0xfff) as u16 as u32, 8) == bit_at(flags, 8),
        bit_at(((flags | 0x001) & 0xfff) as u16 as u32, 9) == bit_at(flags, 9),
        bit_at(((flags | 0x001) & 0xfff) as u16 as u32, 10) == bit_at(flags, 10),
{
}

/// The flag bits of an entry that is made present with `flags`.
pub fn presentFlags(flags: u32) -> (bits: u16)
    ensures
        bits == present_flags(flags),
        bits < 4096,
{
    proof {
        lemma_present_flags(flags);
    }
    ((flags | PAGE_PRESENT) & 0xfff) as u16
}

impl PageEntry {
    /// The entry with writing allowed in addition where `flags` allows it.
    /// Permissions only grow: an entry that allows writing keeps doing so.
    pub open spec fn upgraded(self, flags: u32) -> PageEntry {
        if !self.writable() && bit_at(flags, 1) {
            self.with(PAGE_WRITABLE)
        } else {
            self
        }
    }

    /// What upgrading keeps and what it changes: the frame and every flag
    /// but the writable one stay, and writing is allowed afterwards where
    /// the entry or `flags` allowed it.
    pub proof fn lemma_upgraded(self, flags: u32)
        ensures
            self.upgraded(flags).address() == self.address(),
            self.upgraded(flags).present() == self.present(),
            self.upgraded(flags).user() == self.user(),
            self.upgraded(flags).free() == self.free(),
            self.upgraded(flags).copy_on_write() == self.copy_on_write(),
            self.upgraded(flags).global() == self.global(),
            self.upgraded(flags).accessed() == self.accessed(),
            self.upgraded(flags).dirty() == self.dirty(),
            self.upgraded(flags).writable() == (self.writable() || bit_at(flags, 1)),
            self.upgraded(flags).upgraded(flags) == self.upgraded(flags),
    {
        lemma_with(self.0, PAGE_WRITABLE);
        lemma_flag_bits();
    }

    /// Gives the entry at least the permissions in `flags`.
    pub fn upgradeFlags(&mut self, flags: u32)
        ensures
            *final(self) == old(self).upgraded(flags),
    {
        if !GET_BIT(self.0, PAGE_WRITABLE_BIT) && GET_BIT(flags, PAGE_WRITABLE_BIT) {
            *self = PageEntry(self.0 | PAGE_WRITABLE);
        }
    }
}

/// The table entry that makes the table in the frame at `block` present with
/// `flags`.
pub open spec fn table_entry_for(block: PhysicalAddress, flags: u32) -> PageEntry {
    PageEntry::make(block, present_flags(flags))
}

/// How making sure of the table for `addr` changes the table entries and the
/// paging unit, where it succeeds. A table that is there has its entry
/// upgraded, and the translation of `addr` is flushed where the directory is
/// the loaded one. A missing table is built in the spare block handed out
/// next.
pub open spec fn table_ensured(
    pre: &PageDirectory,
    pre_mmu: &Mmu,
    addr: LogicalAddress,
    flags: u32,
    post: &PageDirectory,
    post_mmu: &Mmu,
) -> bool {
    let i = directory_index(addr.0) as int;
    &&& post.base() == pre.base()
    &&& post_mmu.cr3() == pre_mmu.cr3()
    &&& post_mmu.kernel() == pre_mmu.kernel()
    &&& post_mmu.zeroed() == pre_mmu.zeroed()
    &&& if pre.table(i) is Some {
        &&& post.directory() == pre.directory().update(i, pre.directory()[i].upgraded(flags))
        &&& post_mmu.spare() == pre_mmu.spare()
        &&& post_mmu.flushed() == if pre_mmu.live(pre.base()) {
            pre_mmu.flushed().push(addr)
        } else {
            pre_mmu.flushed()
        }
    } else {
        &&& pre_mmu.spare().len() > 0
        &&& post.directory() == pre.directory().update(
            i,
            table_entry_for(pre_mmu.spare().last(), flags),
        )
        &&& post_mmu.spare() == pre_mmu.spare().drop_last()
        &&& post_mmu.flushed() == pre_mmu.flushed()
    }
}

/// What a lookup gives once the table for `addr` has been made sure of: the
/// entries of a newly built table are empty, and every other lookup gives
/// what it gave before.
pub open spec fn entry_with_table(pre: &PageDirectory, addr: LogicalAddress,
    a: LogicalAddress) -> Option<
    PageEntry,
> {
    if directory_index(a.0) == directory_index(addr.0) && pre.table(directory_index(addr.0) as int)
        is None {
        Some(PageEntry(0))
    } else {
        pre.entry_at(a)
    }
}

/// What `getPageTable` does. It fails, and changes nothing, exactly when the
/// table is missing and no spare block is left.
pub open spec fn table_got(
    pre: &PageDirectory,
    pre_mmu: &Mmu,
    addr: LogicalAddress,
    flags: u32,
    post: &PageDirectory,
    post_mmu: &Mmu,
    result: Option<PhysicalAddress>,
) -> bool {
    let i = directory_index(addr.0) as int;
    if pre.table(i) is None && pre_mmu.spare().len() == 0 {
        result is None && *post == *pre && *post_mmu == *pre_mmu
    } else {
        &&& result == Some(post.table_frame(i))
        &&& post.table_frame(i) == if pre.table(i) is Some {
            pre.table_frame(i)
        } else {
            pre_mmu.spare().last()
        }
        &&& table_ensured(pre, pre_mmu, addr, flags, post, post_mmu)
        &&& forall|a: LogicalAddress| #[trigger] post.entry_at(a) == entry_with_table(pre, addr, a)
    }
}

/// What `insertPage` does. It fails, and changes nothing, exactly when the
/// table for `addr` is missing and no spare block is left. Otherwise the
/// table is made sure of and the page entry for `addr` names the frame of
/// `page` with `flags` and the present bit.
pub open spec fn page_inserted(
    pre: &PageDirectory,
    pre_mmu: &Mmu,
    page: PhysicalAddress,
    addr: LogicalAddress,
    flags: u32,
    post: &PageDirectory,
    post_mmu: &Mmu,
    done: bool,
) -> bool {
    let i = directory_index(addr.0) as int;
    if pre.table(i) is None && pre_mmu.spare().len() == 0 {
        !done && *post == *pre && *post_mmu == *pre_mmu
    } else {
        &&& done
        &&& table_ensured(pre, pre_mmu, addr, flags, post, post_mmu)
        &&& forall|a: LogicalAddress| #[trigger]
            post.entry_at(a) == if page_start(a) == page_start(addr) {
                Some(PageEntry::make(page, present_flags(flags)))
            } else {
                entry_with_table(pre, addr, a)
            }
    }
}

impl PageDirectory {
    /// Puts a table that was set up before at `index` of the directory,
    /// present and with `flags`. The index must be free and the table must
    /// lie in a page-aligned frame.
    pub fn insertPageTable(&mut self, table: PageTable, index: u32, flags: u32)
        requires
            old(self).wf(),
            table.wf(),
            table.base() % 4096 == 0,
            index < NUM_PAGE_ENTRIES,
            old(self).table(index as int) is None,
        ensures
            final(self).wf(),
            final(self).base() == old(self).base(),
            final(self).directory() == old(self).directory().update(
                index as int,
                table_entry_for(table.base(), flags),
            ),
            final(self).table(index as int) == Some(table@),
            final(self).table_frame(index as int) == table.base(),
            final(self).same_tables_but(old(self), index as int),
    {
        let bits = presentFlags(flags);
        let entry = PageEntry::new(table.frame(), bits);
        proof {
            lemma_present_flags(flags);
            lemma_make(table.base(), bits);
            crate::vm::page_entry::lemma_entry_fields(table.base());
        }
        self.installTable(table, index as usize, entry);
    }

    /// Makes sure that the directory holds a table for `addr` and returns
    /// the frame of the table. A table that is there gets at least the
    /// permissions in `flags`; a missing one is built in a spare block.
    /// `None` when a table has to be built and no spare block is left.
    pub fn getPageTable(&mut self, mmu: &mut Mmu, addr: LogicalAddress, flags: u32)
        -> (table: Option<
        PhysicalAddress,
    >)
        requires
            old(self).wf(),
            old(mmu).wf(),
        ensures
            final(self).wf(),
            final(mmu).wf(),
            table_got(old(self), old(mmu), addr, flags, final(self), final(mmu), table),
            table is Some ==> final(self).entry_at(addr) is Some,
    {
        let index = addr.get_page_table();
        let present = self.getPageTableEntry(addr).page_is_present();
        assert(self.slot_wf(index as int));
        proof {
            crate::vm::page_entry::lemma_no_page();
        }
        if !present {
            match mmu.takeBlock() {
                None => None,
                Some(block) => {
                    let table = PageTable::new(block);
                    self.insertPageTable(table, index as u32, flags);
                    proof {
                        assert forall|a: LogicalAddress| #[trigger]
                            self.entry_at(a) == entry_with_table(old(self), addr, a) by {
                            lemma_address_parts(a.0);
                            if directory_index(a.0) != directory_index(addr.0) {
                                assert(self.table(directory_index(a.0) as int) == old(self).table(
                                    directory_index(a.0) as int,
                                ));
                            }
                        }
                    }
                    Some(block)
                },
            }
        } else {
            let ghost before = *self;
            let entry = self.getPageTableEntryMut(addr);
            entry.upgradeFlags(flags);
            proof {
                before.directory()[index as int].lemma_upgraded(flags);
                assert forall|i: int| 0 <= i < NUM_PAGE_ENTRIES implies #[trigger] self.slot_wf(
                    i,
                ) by {
                    assert(before.slot_wf(i));
                }
            }
            proof {
                assert(self.slot_wf(index as int));
                assert forall|a: LogicalAddress| #[trigger]
                    self.entry_at(a) == entry_with_table(old(self), addr, a) by {
                    lemma_address_parts(a.0);
                    assert(self.table(directory_index(a.0) as int) == before.table(
                        directory_index(a.0) as int,
                    ));
                }
            }
            if mmu.isLive(self.frame()) {
                invalidatePage(mmu, addr);
            }
            let frame = self.getPageTableEntry(addr).page_address();
            Some(frame)
        }
    }

    /// Puts the frame at `page` behind the address `addr`, present and with
    /// `flags`. Fails when the table for `addr` has to be built and no spare
    /// block is left.
    pub fn insertPage(&mut self, mmu: &mut Mmu, page: PhysicalAddress, addr: LogicalAddress,
        flags: u32) -> (outcome:
        Result<(), ()>)
        requires
            old(self).wf(),
            old(mmu).wf(),
        ensures
            final(self).wf(),
            final(mmu).wf(),
            page_inserted(
                old(self),
                old(mmu),
                page,
                addr,
                flags,
                final(self),
                final(mmu),
                outcome is Ok,
            ),
            outcome is Ok ==> final(self).entry_at(addr) == Some(
                PageEntry::make(page, present_flags(flags)),
            ),
    {
        match self.getPageTable(mmu, addr, flags) {
            None => Err(()),
            Some(_) => {
                let ghost mid = *self;
                let entry = PageEntry::new(page, presentFlags(flags));
                self.setPageEntry(addr, entry);
                proof {
                    assert forall|a: LogicalAddress| #[trigger]
                        self.entry_at(a) == if page_start(a) == page_start(addr) {
                            Some(PageEntry::make(page, present_flags(flags)))
                        } else {
                            entry_with_table(old(self), addr, a)
                        } by {
                        assert(mid.entry_at(a) == entry_with_table(old(self), addr, a));
                    }
                }
                Ok(())
            },
        }
    }
}

/// A page that was inserted is found again: it is present, and it names
/// the frame that was handed in, cut to its page.
pub proof fn lemma_inserted_page_found(
    pre: &PageDirectory,
    pre_mmu: &Mmu,
    page: PhysicalAddress,
    addr: LogicalAddress,
    flags: u32,
    post: &PageDirectory,
    post_mmu: &Mmu,
)
    requires
        page_inserted(pre, pre_mmu, page, addr, flags, post, post_mmu, true),
    ensures
        post.page_at(addr) == Some(page & 0xffff_f000),
        post.entry_at(addr)->0.writable() == bit_at(flags, 1),
        post.entry_at(addr)->0.user() == bit_at(flags, 2),
{
    lemma_present_flags(flags);
    lemma_make(page, present_flags(flags));
}

/// The spare blocks once the table for `addr` has been made sure of: the
/// block handed out next is gone where the table had to be built.
pub open spec fn spare_with_table(dir: &PageDirectory, mmu: &Mmu, addr: LogicalAddress) -> Seq<
    PhysicalAddress,
> {
    if dir.table(directory_index(addr.0) as int) is None && mmu.spare().len() > 0 {
        mmu.spare().drop_last()
    } else {
        mmu.spare()
    }
}

/// The frame that a strategy handed out, where it can serve as a page: it
/// is page aligned.
pub open spec fn usable(frame: Option<PhysicalAddress>) -> Option<PhysicalAddress> {
    match frame {
        Some(f) => if f % 4096 == 0 {
            Some(f)
        } else {
            None
        },
        None => None,
    }
}

/// The zeroing requests that getting the page of `addr` leaves behind: one
/// for the frame found for a page that had none, in the loaded directory.
pub open spec fn zeroes_for(
    dir: &PageDirectory,
    mmu: &Mmu,
    addr: LogicalAddress,
    page: Option<PhysicalAddress>,
) -> Seq<PhysicalAddress> {
    if mmu.live(dir.base()) && needs_frame(dir, addr) && page is Some {
        seq![page->0]
    } else {
        Seq::empty()
    }
}

/// The flush requests that getting the page of `addr` leaves behind. In a
/// directory that is not loaded there are none. In the loaded one, `addr` is
/// flushed once for a table that was there already, and once more where a
/// frame was found for a page that had none.
pub open spec fn flushes_for(dir: &PageDirectory, mmu: &Mmu, addr: LogicalAddress, got: bool)
    -> Seq<
    LogicalAddress,
> {
    if !mmu.live(dir.base()) {
        Seq::empty()
    } else {
        let for_table = if dir.table(directory_index(addr.0) as int) is Some {
            seq![addr]
        } else {
            Seq::empty()
        };
        if needs_frame(dir, addr) && got {
            for_table.push(addr)
        } else {
            for_table
        }
    }
}

/// What getting the page of `addr` asks of the strategy. A page that needs
/// a frame, in a directory that has or can build the table for it, asks for
/// one, and the page is the frame handed out where that can serve as a
/// page. Any other page asks nothing.
pub open spec fn page_asked<M: AddressMapping>(
    dir: &PageDirectory,
    mmu: &Mmu,
    pre: M,
    addr: LogicalAddress,
    post: M,
    page: Option<PhysicalAddress>,
) -> bool {
    if needs_frame(dir, addr) && !no_table_to_be_had(dir, mmu, addr) {
        exists|frame: Option<PhysicalAddress>| #[trigger]
            M::allocated(pre, LogicalAddress(page_base(addr.0)), post, frame) && page == usable(
                frame,
            )
    } else {
        post == pre
    }
}

/// What getting the page at `page` asks of the strategy where it succeeds,
/// going by the entry that `dir` has for the page: a frame that can serve as
/// a page for a page that needs one, and nothing for any other page.
pub open spec fn page_got<M: AddressMapping>(dir: &PageDirectory, pre: M, page: int, post: M) -> bool {
    let at = LogicalAddress(page as u32);
    if needs_frame(dir, at) {
        exists|frame: Option<PhysicalAddress>| #[trigger]
            M::allocated(pre, at, post, frame) && usable(frame) is Some
    } else {
        post == pre
    }
}

/// What the strategy has done once every page from `first` up to, and not
/// including, `upto` has got its frame, in rising order, going by the
/// entries of `dir`.
pub open spec fn got_upto<M: AddressMapping>(
    dir: &PageDirectory,
    pre: M,
    first: int,
    upto: int,
    post: M,
) -> bool
    decreases (if upto > first { upto - first } else { 0 }),
{
    if upto <= first {
        post == pre
    } else {
        exists|mid: M|
            got_upto(dir, pre, first, upto - 4096, mid) && mid.inv() && #[trigger] page_got(
                dir,
                mid,
                upto - 4096,
                post,
            )
    }
}

/// Getting one more page extends what `got_upto` says by that page.
pub proof fn lemma_got_one_more<M: AddressMapping>(
    dir: &PageDirectory,
    pre: M,
    first: int,
    upto: int,
    mid: M,
    post: M,
)
    requires
        first < upto,
        got_upto(dir, pre, first, upto - 4096, mid),
        mid.inv(),
        page_got(dir, mid, upto - 4096, post),
    ensures
        got_upto(dir, pre, first, upto, post),
{
}

/// Whether the page entry for `addr` has to get a frame before the page
/// can be used: the table is missing, or the entry is neither present nor
/// reserved.
pub open spec fn needs_frame(dir: &PageDirectory, addr: LogicalAddress) -> bool {
    match dir.entry_at(addr) {
        Some(e) => !e.present() && !e.free(),
        None => true,
    }
}

/// The table for `addr` is missing and there is no spare block to build it
/// in.
pub open spec fn no_table_to_be_had(dir: &PageDirectory, mmu: &Mmu, addr: LogicalAddress) -> bool {
    dir.table(directory_index(addr.0) as int) is None && mmu.spare().len() == 0
}

/// The page of `addr` is reserved and not yet backed: its entry carries the
/// free mark and is not present.
pub open spec fn is_reserved(dir: &PageDirectory, addr: LogicalAddress) -> bool {
    dir.entry_at(addr) matches Some(e) && !e.present() && e.free()
}

/// The address `a` is mapped with `flags`: its page entry is present and
/// carries the flag bits that go with `flags`.
pub open spec fn mapped_with(dir: &PageDirectory, a: LogicalAddress, flags: u32) -> bool {
    dir.entry_at(a) matches Some(e) && e.present() && e.flags() == present_flags(flags)
}

/// The flag bits of `flags`: its low twelve bits.
pub open spec fn flag_bits(flags: u32) -> u32 {
    flags & 0xfff
}

/// The entry that `setRangeFlags` writes for a present entry: the entry with
/// the flag bits of `flags` set in addition. The frame and the flags that
/// were set stay, but that a copy-on-write entry ends not writable and still
/// copy-on-write.
pub open spec fn reflagged(entry: PageEntry, flags: u32) -> PageEntry {
    let merged = entry.with(flag_bits(flags));
    if entry.copy_on_write() {
        merged.cleared(PAGE_WRITABLE).with(PAGE_COPY_ON_WRITE)
    } else {
        merged
    }
}

/// What a lookup gives once the flags of the page have been set: a present
/// entry is rewritten, anything else is left as it was.
pub open spec fn reflagged_entry(entry: Option<PageEntry>, flags: u32) -> Option<PageEntry> {
    match entry {
        Some(e) => Some(
            if e.present() {
                reflagged(e, flags)
            } else {
                e
            },
        ),
        None => None,
    }
}

/// A rewritten present entry keeps its frame, stays present and keeps
/// every flag it had; it has the flags of `flags` in addition. A
/// copy-on-write entry stays copy-on-write and ends not writable.
pub proof fn lemma_reflagged(entry: PageEntry, flags: u32)
    requires
        entry.present(),
    ensures
        reflagged(entry, flags).present(),
        reflagged(entry, flags).address() == entry.address(),
        reflagged(entry, flags).user() == (entry.user() || bit_at(flags, 2)),
        reflagged(entry, flags).global() == (entry.global() || bit_at(flags, 8)),
        reflagged(entry, flags).free() == (entry.free() || bit_at(flags, 10)),
        reflagged(entry, flags).accessed() == (entry.accessed() || bit_at(flags, 5)),
        reflagged(entry, flags).dirty() == (entry.dirty() || bit_at(flags, 6)),
        entry.copy_on_write() ==> reflagged(entry, flags).copy_on_write() && !reflagged(
            entry,
            flags,
        ).writable(),
        !entry.copy_on_write() ==> reflagged(entry, flags).writable() == (entry.writable()
            || bit_at(flags, 1)) && reflagged(entry, flags).copy_on_write() == bit_at(flags, 9),
{
    let merged = entry.with(flag_bits(flags));
    lemma_flag_bits_of(flags);
    lemma_with(entry.0, flag_bits(flags));
    crate::vm::page_entry::lemma_cleared(merged.0, PAGE_WRITABLE);
    lemma_with(merged.cleared(PAGE_WRITABLE).0, PAGE_COPY_ON_WRITE);
    lemma_flag_bits();
}

/// The flag bits of `flags` fit in twelve bits and are the named bits of
/// `flags`.
pub proof fn lemma_flag_bits_of(flags: u32)
    by (bit_vector)
    ensures
        flags & 0xfff < 4096,
        bit_at(flags & 0xfff, 0) == bit_at(flags, 0),
        bit_at(flags & 0xfff, 1) == bit_at(flags, 1),
        bit_at(flags & 0xfff, 2) == bit_at(flags, 2),
        bit_at(flags & 0xfff, 5) == bit_at(flags, 5),
        bit_at(flags & 0xfff, 6) == bit_at(flags, 6),
        bit_at(flags & 0xfff, 8) == bit_at(flags, 8),
        bit_at(flags & 0xfff, 9) == bit_at(flags, 9),
        bit_at(flags & 0xfff, 10) == bit_at(flags, 10),
{
}

/// What `getPage` does for the page of `addr`. A page that is present
/// stays as it is. A page that is reserved is made present. Any other page
/// is mapped with `flags` to the frame that the strategy hands out, in the
/// table that is there or is built for it; where no table or no frame is to
/// be had, the page stays without one. The requests to the paging unit are
/// those of `flushes_for` and `zeroes_for`.
pub open spec fn page_fetched<M: AddressMapping>(
    pre: &PageDirectory,
    pre_mmu: &Mmu,
    pre_m: M,
    addr: LogicalAddress,
    flags: u32,
    post: &PageDirectory,
    post_mmu: &Mmu,
    post_m: M,
    page: Option<PhysicalAddress>,
) -> bool {
    &&& post.base() == pre.base()
    &&& post_mmu.cr3() == pre_mmu.cr3()
    &&& post_mmu.kernel() == pre_mmu.kernel()
    &&& post_mmu.spare() == spare_with_table(pre, pre_mmu, addr)
    &&& post_mmu.flushed() == pre_mmu.flushed() + flushes_for(pre, pre_mmu, addr, page is Some)
    &&& post_mmu.zeroed() == pre_mmu.zeroed() + zeroes_for(pre, pre_mmu, addr, page)
    &&& page_asked(pre, pre_mmu, pre_m, addr, post_m, page)
    &&& page == post.page_at(addr)
    &&& page is None ==> needs_frame(pre, addr)
    &&& if no_table_to_be_had(pre, pre_mmu, addr) {
        page is None && *post == *pre && *post_mmu == *pre_mmu
    } else {
        forall|a: LogicalAddress|
            page_start(a) != page_start(addr) ==> #[trigger] post.entry_at(a) == entry_with_table(
                pre,
                addr,
                a,
            )
    }
    &&& pre.page_at(addr) matches Some(p0) ==> page == Some(p0) && post.entry_at(addr)
        == pre.entry_at(addr)
    &&& is_reserved(pre, addr) ==> {
        &&& page == Some(pre.entry_at(addr)->0.address())
        &&& post.entry_at(addr) == Some(pre.entry_at(addr)->0.with(PAGE_PRESENT))
    }
    &&& needs_frame(pre, addr) && !no_table_to_be_had(pre, pre_mmu, addr) ==> {
        &&& page matches Some(p) ==> p % 4096 == 0 && post.entry_at(addr) == Some(
            PageEntry::make(p, present_flags(flags)),
        )
        &&& page is None ==> post.entry_at(addr) == entry_with_table(pre, addr, addr)
    }
}

/// What has happened once every page from `first` up to, and not
/// including, `upto` has got its frame, in rising order, each as `getPage`
/// gets one.
pub open spec fn fetched_upto<M: AddressMapping>(
    pre: &PageDirectory,
    pre_mmu: &Mmu,
    pre_m: M,
    first: int,
    upto: int,
    flags: u32,
    post: &PageDirectory,
    post_mmu: &Mmu,
    post_m: M,
) -> bool
    decreases (if upto > first { upto - first } else { 0 }),
{
    if upto <= first {
        *post == *pre && *post_mmu == *pre_mmu && post_m == pre_m
    } else {
        exists|mid: PageDirectory, mid_mmu: Mmu, mid_m: M, page: PhysicalAddress|
            fetched_upto(pre, pre_mmu, pre_m, first, upto - 4096, flags, &mid, &mid_mmu, mid_m)
                && mid.wf() && mid_mmu.wf() && mid_m.inv() && #[trigger] page_fetched(
                &mid,
                &mid_mmu,
                mid_m,
                LogicalAddress((upto - 4096) as u32),
                flags,
                post,
                post_mmu,
                post_m,
                Some(page),
            )
    }
}

/// Getting one more page extends what `fetched_upto` says by that page.
pub proof fn lemma_fetched_one_more<M: AddressMapping>(
    pre: &PageDirectory,
    pre_mmu: &Mmu,
    pre_m: M,
    first: int,
    upto: int,
    flags: u32,
    mid: &PageDirectory,
    mid_mmu: &Mmu,
    mid_m: M,
    page: PhysicalAddress,
    post: &PageDirectory,
    post_mmu: &Mmu,
    post_m: M,
)
    requires
        first < upto,
        fetched_upto(pre, pre_mmu, pre_m, first, upto - 4096, flags, mid, mid_mmu, mid_m),
        mid.wf(),
        mid_mmu.wf(),
        mid_m.inv(),
        page_fetched(
            mid,
            mid_mmu,
            mid_m,
            LogicalAddress((upto - 4096) as u32),
            flags,
            post,
            post_mmu,
            post_m,
            Some(page),
        ),
    ensures
        fetched_upto(pre, pre_mmu, pre_m, first, upto, flags, post, post_mmu, post_m),
{
}

/// What has happened once the pages from `first` up to the page `at` have
/// got their frames, in rising order, and the page `at` has then got none.
pub open spec fn fetch_stopped<M: AddressMapping>(
    pre: &PageDirectory,
    pre_mmu: &Mmu,
    pre_m: M,
    first: int,
    at: LogicalAddress,
    flags: u32,
    post: &PageDirectory,
    post_mmu: &Mmu,
    post_m: M,
) -> bool {
    exists|mid: PageDirectory, mid_mmu: Mmu, mid_m: M|
        fetched_upto(pre, pre_mmu, pre_m, first, at.0 as int, flags, &mid, &mid_mmu, mid_m)
            && mid.wf() && mid_mmu.wf() && mid_m.inv() && #[trigger] page_fetched(
            &mid,
            &mid_mmu,
            mid_m,
            at,
            flags,
            post,
            post_mmu,
            post_m,
            None,
        )
}

/// How `getMemoryRange` gets from the state before the call to the state
/// after it. Success: every page of the range has got its frame in turn.
/// Failure on a range that holds a page: the pages before some page of the
/// range have got their frames in turn, and that page has then got none.
/// Failure on a range that holds no page: nothing has changed.
pub open spec fn range_fetched<M: AddressMapping>(
    pre: &PageDirectory,
    pre_mmu: &Mmu,
    pre_m: M,
    start: LogicalAddress,
    end: LogicalAddress,
    flags: u32,
    post: &PageDirectory,
    post_mmu: &Mmu,
    post_m: M,
    physical: Option<PhysicalAddress>,
) -> bool {
    let first = page_base(start.0) as int;
    match physical {
        Some(_) => fetched_upto(
            pre,
            pre_mmu,
            pre_m,
            first,
            span_end(start.0, end.0),
            flags,
            post,
            post_mmu,
            post_m,
        ),
        None => if range_limit(end.0) <= page_base(start.0) {
            *post == *pre && *post_mmu == *pre_mmu && post_m == pre_m
        } else {
            exists|k: LogicalAddress|
                in_span(start.0, end.0, k) && k.0 % 4096 == 0 && #[trigger] fetch_stopped(
                    pre,
                    pre_mmu,
                    pre_m,
                    first,
                    k,
                    flags,
                    post,
                    post_mmu,
                    post_m,
                )
        },
    }
}

impl PageDirectory {
    /// The physical address behind `addr`, where `addr` is mapped: the
    /// frame of its page and its offset in the page.
    pub open spec fn physical_at(&self, addr: LogicalAddress) -> Option<PhysicalAddress> {
        match self.page_at(addr) {
            Some(frame) => Some((frame + page_offset(addr.0)) as u32),
            None => None,
        }
    }

    /// The frame behind `addr`, with a frame found for the page where it has
    /// none yet. A page that is present stays as it is. A page that is
    /// reserved is made present. Any other page is mapped to a frame from
    /// the strategy, with `flags`; where the directory is the loaded one, the
    /// new frame is to be filled with zeroes. `None` when no table or no
    /// frame is to be had.
    pub fn getPage<M: AddressMapping>(
        &mut self,
        mmu: &mut Mmu,
        mapping: &mut M,
        addr: LogicalAddress,
        flags: u32,
    ) -> (page: Option<PhysicalAddress>)
        requires
            old(self).wf(),
            old(mmu).wf(),
            old(mapping).inv(),
        ensures
            final(self).wf(),
            final(mmu).wf(),
            final(mapping).inv(),
            page_fetched(
                old(self),
                old(mmu),
                *old(mapping),
                addr,
                flags,
                final(self),
                final(mmu),
                *final(mapping),
                page,
            ),
    {
        if self.getPageTable(mmu, addr, flags).is_none() {
            return None;
        }
        let entry = *self.tryGetPageEntry(addr).unwrap();
        proof {
            crate::vm::page_entry::lemma_no_page();
        }
        if !entry.page_is_present() && !entry.page_is_free() {
            let page = match mapPage(self, mmu, mapping, addr, flags) {
                Some(page) => page,
                None => {
                    proof {
                        assert(mmu.flushed() =~= old(mmu).flushed() + flushes_for(
                            old(self),
                            old(mmu),
                            addr,
                            false,
                        ));
                        assert(mmu.zeroed() =~= old(mmu).zeroed() + zeroes_for(
                            old(self),
                            old(mmu),
                            addr,
                            None,
                        ));
                    }
                    return None;
                },
            };
            if mmu.isLive(self.frame()) {
                mmu.zeroFrame(page);
            }
            proof {
                assert(mmu.flushed() =~= old(mmu).flushed() + flushes_for(
                    old(self),
                    old(mmu),
                    addr,
                    true,
                ));
                assert(mmu.zeroed() =~= old(mmu).zeroed() + zeroes_for(
                    old(self),
                    old(mmu),
                    addr,
                    Some(page),
                ));
                assert(mmu.spare() =~= spare_with_table(old(self), old(mmu), addr));
            }
            Some(page)
        } else if !entry.page_is_present() {
            self.setPageEntry(addr, PageEntry(entry.0 | PAGE_PRESENT));
            proof {
                lemma_with(entry.0, PAGE_PRESENT);
                lemma_flag_bits();
                let page = Some(entry.address());
                assert(mmu.flushed() =~= old(mmu).flushed() + flushes_for(
                    old(self),
                    old(mmu),
                    addr,
                    true,
                ));
                assert(mmu.zeroed() =~= old(mmu).zeroed() + zeroes_for(
                    old(self),
                    old(mmu),
                    addr,
                    page,
                ));
            }
            Some(entry.page_address())
        } else {
            proof {
                let page = Some(entry.address());
                assert(mmu.flushed() =~= old(mmu).flushed() + flushes_for(
                    old(self),
                    old(mmu),
                    addr,
                    true,
                ));
                assert(mmu.zeroed() =~= old(mmu).zeroed() + zeroes_for(
                    old(self),
                    old(mmu),
                    addr,
                    page,
                ));
            }
            Some(entry.page_address())
        }
    }

    /// The physical address behind `addr`, with a frame found for the page
    /// where it has none yet.
    pub fn getPhysicalAddress<M: AddressMapping>(
        &mut self,
        mmu: &mut Mmu,
        mapping: &mut M,
        addr: LogicalAddress,
        flags: u32,
    ) -> (physical: Option<PhysicalAddress>)
        requires
            old(self).wf(),
            old(mmu).wf(),
            old(mapping).inv(),
        ensures
            final(self).wf(),
            final(mmu).wf(),
            final(mapping).inv(),
            final(self).base() == old(self).base(),
            final(mmu).cr3() == old(mmu).cr3(),
            final(mmu).kernel() == old(mmu).kernel(),
            final(mmu).spare() == spare_with_table(old(self), old(mmu), addr),
            final(mmu).flushed() == old(mmu).flushed() + flushes_for(
                old(self),
                old(mmu),
                addr,
                physical is Some,
            ),
            page_asked(
                old(self),
                old(mmu),
                *old(mapping),
                addr,
                *final(mapping),
                final(self).page_at(addr),
            ),
            final(mmu).zeroed() == old(mmu).zeroed() + zeroes_for(
                old(self),
                old(mmu),
                addr,
                final(self).page_at(addr),
            ),
            physical == final(self).physical_at(addr),
            physical matches Some(p) ==> final(self).page_at(addr) matches Some(frame) && p == frame
                + page_offset(addr.0),
            physical is None ==> needs_frame(old(self), addr),
            old(self).page_at(addr) matches Some(frame) ==> physical == Some(
                (frame + page_offset(addr.0)) as u32,
            ),
            no_table_to_be_had(old(self), old(mmu), addr) ==> physical is None && *final(self)
                == *old(self),
            !no_table_to_be_had(old(self), old(mmu), addr) ==> forall|a: LogicalAddress|
                page_start(a) != page_start(addr) ==> #[trigger] final(self).entry_at(a)
                    == entry_with_table(old(self), addr, a),
    {
        let page = match self.getPage(mmu, mapping, addr, flags) {
            Some(page) => page,
            None => {
                return None;
            },
        };
        let offset = addr.get_page_offset();
        proof {
            crate::vm::page_entry::lemma_entry_fields(self.entry_at(addr)->0 .0);
        }
        Some(page + offset as u32)
    }

    /// Makes sure that every page of the range `[start, end)` has a frame,
    /// as `getPage` does page by page, and returns the physical address
    /// behind `start`. `None` as soon as a page cannot get a frame; the pages
    /// before it keep theirs, and the pages behind it are not touched.
    pub fn getMemoryRange<M: AddressMapping>(
        &mut self,
        mmu: &mut Mmu,
        mapping: &mut M,
        start: LogicalAddress,
        end: LogicalAddress,
        flags: u32,
    ) -> (physical: Option<PhysicalAddress>)
        requires
            old(self).wf(),
            old(mmu).wf(),
            old(mapping).inv(),
        ensures
            final(self).wf(),
            final(mmu).wf(),
            final(mapping).inv(),
            final(self).base() == old(self).base(),
            final(mmu).cr3() == old(mmu).cr3(),
            final(mmu).kernel() == old(mmu).kernel(),
            !old(mmu).live(old(self).base()) ==> final(mmu).flushed() == old(mmu).flushed()
                && final(mmu).zeroed() == old(mmu).zeroed(),
            final(mmu).spare() == old(mmu).spare().take(final(mmu).spare().len() as int),
            physical == if all_mapped(final(self), start, end) {
                final(self).physical_at(start)
            } else {
                None
            },
            range_got(
                old(self),
                *old(mapping),
                start,
                end,
                flags,
                final(self),
                final(mmu),
                *final(mapping),
                physical,
            ),
            range_fetched(
                old(self),
                old(mmu),
                *old(mapping),
                start,
                end,
                flags,
                final(self),
                final(mmu),
                *final(mapping),
                physical,
            ),
            range_limit(end.0) <= page_base(start.0) ==> *final(self) == *old(self) && *final(mmu)
                == *old(mmu),
            range_limit(end.0) > page_base(start.0) && (forall|a: LogicalAddress|
                in_span(start.0, end.0, a) ==> !#[trigger] needs_frame(old(self), a))
                ==> physical is Some,
            forall|a: LogicalAddress|
                old(self).page_at(a) is Some ==> #[trigger] final(self).page_at(a)
                    == old(self).page_at(a),
            forall|a: LogicalAddress|
                !in_span(start.0, end.0, a) && old(self).entry_at(a) is Some
                    ==> #[trigger] final(self).entry_at(a) == old(self).entry_at(a),
    {
        let mut pages = foreach_page_in(start.0, end.0);
        proof {
            lemma_address_parts(start.0);
        }
        loop
            invariant
                self.wf(),
                mmu.wf(),
                mapping.inv(),
                pages.wf(),
                self.base() == old(self).base(),
                mmu.cr3() == old(mmu).cr3(),
                mmu.kernel() == old(mmu).kernel(),
                !old(mmu).live(old(self).base()) ==> mmu.flushed() == old(mmu).flushed()
                    && mmu.zeroed() == old(mmu).zeroed(),
                mmu.spare().len() <= old(mmu).spare().len(),
                mmu.spare() == old(mmu).spare().take(mmu.spare().len() as int),
                pages.limit() == range_limit(end.0),
                page_base(start.0) <= pages.position(),
                page_base(start.0) % 4096 == 0,
                pages.position() % 4096 == 0,
                pages.position() == page_base(start.0) || pages.position() - 4096 < pages.limit(),
                pages.position() == page_base(start.0) ==> *self == *old(self) && *mmu == *old(mmu)
                    && *mapping == *old(mapping),
                got_upto(
                    old(self),
                    *old(mapping),
                    page_base(start.0) as int,
                    pages.position(),
                    *mapping,
                ),
                fetched_upto(
                    old(self),
                    old(mmu),
                    *old(mapping),
                    page_base(start.0) as int,
                    pages.position(),
                    flags,
                    self,
                    mmu,
                    *mapping,
                ),
                settled_upto(old(self), self, start, end, flags, pages.position()),
            ensures
                pages.position() >= pages.limit(),
            decreases
                    (if pages.limit() > pages.position() {
                        pages.limit() - pages.position()
                    } else {
                        0
                    }),
        {
            let ghost at = pages.position();
            let addr = match pages.next() {
                Some(addr) => addr,
                None => {
                    break ;
                },
            };
            let ghost before = *self;
            let ghost before_mmu = *mmu;
            let ghost before_mapping = *mapping;
            proof {
                lemma_address_parts(addr.0);
            }
            let got = self.getPage(mmu, mapping, addr, flags);
            proof {
                lemma_prefix_shrinks(old(mmu).spare(), before_mmu.spare(), mmu.spare());
                lemma_settle_step(
                    old(self),
                    &before,
                    &before_mmu,
                    self,
                    addr,
                    start,
                    end,
                    flags,
                    got,
                );
            }
            if got.is_none() {
                proof {
                    lemma_settled_pages(old(self), self, start, end, flags, at);
                    assert(page_refused(before_mapping, at, self, mmu, *mapping));
                    assert(stopped_at(
                        old(self),
                        *old(mapping),
                        start,
                        end,
                        flags,
                        self,
                        mmu,
                        *mapping,
                        addr,
                    ));
                    assert(self.page_at(addr) is None);
                    assert(addr == LogicalAddress(at as u32));
                    assert(fetch_stopped(
                        old(self),
                        old(mmu),
                        *old(mapping),
                        page_base(start.0) as int,
                        addr,
                        flags,
                        self,
                        mmu,
                        *mapping,
                    ));
                }
                return None;
            }
            proof {
                lemma_fetched_one_more(
                    old(self),
                    old(mmu),
                    *old(mapping),
                    page_base(start.0) as int,
                    at + 4096,
                    flags,
                    &before,
                    &before_mmu,
                    before_mapping,
                    got->0,
                    self,
                    mmu,
                    *mapping,
                );
                assert(page_got(old(self), before_mapping, at, *mapping));
                lemma_got_one_more(
                    old(self),
                    *old(mapping),
                    page_base(start.0) as int,
                    at + 4096,
                    before_mapping,
                    *mapping,
                );
            }
        }
        proof {
            lemma_settled_pages(old(self), self, start, end, flags, pages.position());
        }
        let startPage = match self.tryGetPage(start) {
            Some(page) => page,
            None => {
                return None;
            },
        };
        proof {
            crate::vm::page_entry::lemma_entry_fields(self.entry_at(start)->0 .0);
        }
        Some(startPage + start.get_page_offset() as u32)
    }

    /// Sets the flag bits of `flags` in the entry of every present page of
    /// the range `[start, end)`, in addition to those that are set. The pages
    /// stay present and keep their frames, and a copy-on-write page stays
    /// copy-on-write and not writable. Pages that are not present stay as
    /// they are.
    pub fn setRangeFlags(&mut self, start: LogicalAddress, end: LogicalAddress, flags: u32)
        requires
            old(self).wf(),
        ensures
            final(self).wf(),
            final(self).base() == old(self).base(),
            final(self).directory() == old(self).directory(),
            forall|a: LogicalAddress| #[trigger]
                final(self).entry_at(a) == if in_span(start.0, end.0, a) {
                    reflagged_entry(old(self).entry_at(a), flags)
                } else {
                    old(self).entry_at(a)
                },
    {
        let mut entries = foreach_entry_in(start.0, end.0);
        loop
            invariant
                self.wf(),
                old(self).wf(),
                entries.wf(),
                self.base() == old(self).base(),
                self.directory() == old(self).directory(),
                entries.limit() == range_limit(end.0),
                page_base(start.0) <= entries.position(),
                entries.position() % 4096 == 0,
                forall|a: LogicalAddress| #[trigger]
                    self.entry_at(a) == if page_base(start.0) <= page_start(a) < entries.position()
                        && page_start(a) < entries.limit() {
                        reflagged_entry(old(self).entry_at(a), flags)
                    } else {
                        old(self).entry_at(a)
                    },
            ensures
                entries.position() >= entries.limit(),
            decreases
                    (if entries.limit() > entries.position() {
                        entries.limit() - entries.position()
                    } else {
                        0
                    }),
        {
            let ghost at = entries.position();
            let addr = match entries.next(self) {
                Some(addr) => addr,
                None => {
                    break ;
                },
            };
            let ghost before = *self;
            proof {
                lemma_address_parts(addr.0);
                lemma_skipped(&before, addr, at, entries.position());
            }
            let found = match self.tryGetPageEntry(addr) {
                Some(entry) => Some(*entry),
                None => None,
            };
            match found {
                None => {},
                Some(entry) => {
                    if entry.page_is_present() {
                        let merged = PageEntry(entry.0 | (flags & 0xfff));
                        let rewritten = if entry.page_is_copy_on_write() {
                            PageEntry((merged.0 & !PAGE_WRITABLE) | PAGE_COPY_ON_WRITE)
                        } else {
                            merged
                        };
                        self.setPageEntry(addr, rewritten);
                    }
                },
            }
            proof {
                assert forall|a: LogicalAddress| #[trigger]
                    self.entry_at(a) == if page_base(start.0) <= page_start(a) < entries.position()
                        && page_start(a) < entries.limit() {
                        reflagged_entry(old(self).entry_at(a), flags)
                    } else {
                        old(self).entry_at(a)
                    } by {
                    lemma_same_entry(a, addr);
                    lemma_address_parts(a.0);
                    if at <= page_start(a) < entries.position() && page_start(a) != at {
                        assert(before.entry_at(a) is None);
                    }
                }
            }
        }
    }
}

/// A prefix of a sequence that loses its last element, or stays, is still a
/// prefix of the sequence.
pub proof fn lemma_prefix_shrinks(
    all: Seq<PhysicalAddress>,
    before: Seq<PhysicalAddress>,
    after: Seq<PhysicalAddress>,
)
    requires
        before.len() <= all.len(),
        before == all.take(before.len() as int),
        after == before || (before.len() > 0 && after == before.drop_last()),
    ensures
        after.len() <= all.len(),
        after == all.take(after.len() as int),
{
    if after != before {
        assert(before.drop_last() =~= all.take(before.len() - 1));
    }
}

/// Inside the stretch that a walk passes over in one step, only the first
/// page can have an entry: a longer step is taken only over the region of a
/// table that the directory does not hold.
pub proof fn lemma_skipped(dir: &PageDirectory, addr: LogicalAddress, at: int, next: int)
    requires
        dir.wf(),
        addr.0 == at,
        at % 4096 == 0,
        next == at + stride_from(dir, addr),
    ensures
        forall|a: LogicalAddress|
            at <= page_start(a) < next && page_start(a) != at
                ==> #[trigger] dir.entry_at(a) is None,
{
    lemma_address_parts(addr.0);
    assert forall|a: LogicalAddress|
        at <= page_start(a) < next && page_start(a) != at
            implies #[trigger] dir.entry_at(a) is None by {
        lemma_address_parts(a.0);
        assert(stride_from(dir, addr) == TABLE_SIZE);
        assert(directory_index(a.0) == directory_index(addr.0));
        assert(dir.slot_wf(directory_index(addr.0) as int));
        crate::vm::page_entry::lemma_no_page();
    }
}

/// Every page of the range `[start, end)` is mapped in `dir`.
pub open spec fn all_mapped(dir: &PageDirectory, start: LogicalAddress, end: LogicalAddress)
    -> bool {
    forall|a: LogicalAddress| in_span(start.0, end.0, a) ==> #[trigger] dir.page_at(a) is Some
}

/// What a page that needs no frame has for an entry once it has been got:
/// a present entry stays, and a reserved one is made present.
pub open spec fn settled_entry(entry: Option<PageEntry>) -> Option<PageEntry> {
    match entry {
        Some(e) => Some(
            if e.present() {
                e
            } else {
                e.with(PAGE_PRESENT)
            },
        ),
        None => None,
    }
}

/// The page of `a` has its frame in `post`, going by what `pre` had for it:
/// a page that needed a frame is mapped with `flags`, and any other page
/// has the entry it had, made present.
pub open spec fn page_settled(
    pre: &PageDirectory,
    post: &PageDirectory,
    a: LogicalAddress,
    flags: u32,
) -> bool {
    if needs_frame(pre, a) {
        mapped_with(post, a, flags)
    } else {
        post.entry_at(a) == settled_entry(pre.entry_at(a))
    }
}

/// What `post` holds once the pages of the range `[start, end)` below
/// `upto` have got their frames in `pre`: those pages have their frames,
/// and every other page has the entry it had; where a table had to be built
/// on the way, its other entries are empty.
pub open spec fn settled_upto(
    pre: &PageDirectory,
    post: &PageDirectory,
    start: LogicalAddress,
    end: LogicalAddress,
    flags: u32,
    upto: int,
) -> bool {
    forall|a: LogicalAddress|
        #![trigger post.entry_at(a)]
        if in_span(start.0, end.0, a) && page_start(a) < upto {
            page_settled(pre, post, a, flags)
        } else {
            post.entry_at(a) == pre.entry_at(a) || (pre.entry_at(a) is None && post.entry_at(a)
                == Some(PageEntry(0)))
        }
}

/// Why the page at `page` could not get its frame, and what the strategy
/// has done for it. Either no table could be had for the page: the
/// directory holds none and no spare block is left, and the strategy was
/// not asked. Or the strategy was asked for a frame and handed out none that
/// can serve as a page.
pub open spec fn page_refused<M: AddressMapping>(
    pre: M,
    page: int,
    post: &PageDirectory,
    post_mmu: &Mmu,
    post_m: M,
) -> bool {
    ||| {
        &&& post_m == pre
        &&& post.entry_at(LogicalAddress(page as u32)) is None
        &&& post_mmu.spare().len() == 0
    }
    ||| exists|frame: Option<PhysicalAddress>| #[trigger]
        M::allocated(pre, LogicalAddress(page as u32), post_m, frame) && usable(frame) is None
}

/// `getMemoryRange` has stopped at the page `k` of the range: that page
/// needed a frame and has none, the pages of the range before it have
/// theirs, the pages behind it are as they were, and the strategy has been
/// asked for the pages before `k` that needed a frame, and for `k` itself
/// where a table could be had for it.
pub open spec fn stopped_at<M: AddressMapping>(
    pre: &PageDirectory,
    pre_m: M,
    start: LogicalAddress,
    end: LogicalAddress,
    flags: u32,
    post: &PageDirectory,
    post_mmu: &Mmu,
    post_m: M,
    k: LogicalAddress,
) -> bool {
    &&& in_span(start.0, end.0, k)
    &&& k.0 % 4096 == 0
    &&& needs_frame(pre, k)
    &&& post.page_at(k) is None
    &&& settled_upto(pre, post, start, end, flags, k.0 as int)
    &&& exists|mid: M|
        got_upto(pre, pre_m, page_base(start.0) as int, k.0 as int, mid) && mid.inv()
            && #[trigger] page_refused(mid, k.0 as int, post, post_mmu, post_m)
}

/// What `getMemoryRange` has done when it returns. Success: every page of
/// the range has its frame, the result is the physical address behind
/// `start`, and the strategy has been asked for a frame for every page that
/// needed one. Failure: the range holds no page and `start` is not mapped,
/// or the walk has stopped at a page of the range.
pub open spec fn range_got<M: AddressMapping>(
    pre: &PageDirectory,
    pre_m: M,
    start: LogicalAddress,
    end: LogicalAddress,
    flags: u32,
    post: &PageDirectory,
    post_mmu: &Mmu,
    post_m: M,
    physical: Option<PhysicalAddress>,
) -> bool {
    match physical {
        Some(p) => {
            &&& settled_upto(pre, post, start, end, flags, range_limit(end.0))
            &&& all_mapped(post, start, end)
            &&& Some(p) == post.physical_at(start)
            &&& got_upto(pre, pre_m, page_base(start.0) as int, span_end(start.0, end.0), post_m)
        },
        None => if range_limit(end.0) <= page_base(start.0) {
            pre.page_at(start) is None && post_m == pre_m
        } else {
            exists|k: LogicalAddress| #[trigger]
                stopped_at(pre, pre_m, start, end, flags, post, post_mmu, post_m, k)
        },
    }
}

/// What `settled_upto` says about the frames of the pages: the pages of the
/// range below `upto` are mapped, every other page is mapped as it was, and
/// a page that was mapped is mapped to the same frame.
pub proof fn lemma_settled_pages(
    pre: &PageDirectory,
    post: &PageDirectory,
    start: LogicalAddress,
    end: LogicalAddress,
    flags: u32,
    upto: int,
)
    requires
        settled_upto(pre, post, start, end, flags, upto),
    ensures
        forall|a: LogicalAddress|
            in_span(start.0, end.0, a) && page_start(a) < upto ==> #[trigger] post.page_at(a)
                is Some,
        forall|a: LogicalAddress|
            !(in_span(start.0, end.0, a) && page_start(a) < upto) ==> #[trigger] post.page_at(a)
                == pre.page_at(a),
        forall|a: LogicalAddress|
            pre.page_at(a) is Some ==> #[trigger] post.page_at(a) == pre.page_at(a),
        forall|a: LogicalAddress|
            !in_span(start.0, end.0, a) && pre.entry_at(a) is Some ==> #[trigger] post.entry_at(a)
                == pre.entry_at(a),
{
    crate::vm::page_entry::lemma_no_page();
    assert forall|a: LogicalAddress|
        in_span(start.0, end.0, a) && page_start(a) < upto implies #[trigger] post.page_at(a)
        is Some by {
        lemma_settled_entry(pre.entry_at(a));
    }
    assert forall|a: LogicalAddress|
        !(in_span(start.0, end.0, a) && page_start(a) < upto) implies #[trigger] post.page_at(a)
        == pre.page_at(a) by {}
    assert forall|a: LogicalAddress| pre.page_at(a) is Some implies #[trigger] post.page_at(a)
        == pre.page_at(a) by {
        lemma_settled_entry(pre.entry_at(a));
    }
    assert forall|a: LogicalAddress|
        !in_span(start.0, end.0, a) && pre.entry_at(a) is Some implies #[trigger] post.entry_at(a)
        == pre.entry_at(a) by {}
}

/// An entry that has been made present is present and names the frame it
/// named; an entry that was present is left as it was.
pub proof fn lemma_settled_entry(entry: Option<PageEntry>)
    ensures
        entry matches Some(e) ==> settled_entry(entry) matches Some(s) && s.present() && s.address()
            == e.address(),
        entry matches Some(e) && e.present() ==> settled_entry(entry) == entry,
{
    match entry {
        Some(e) => {
            lemma_with(e.0, PAGE_PRESENT);
            lemma_flag_bits();
        },
        None => {},
    }
}

/// One step of `getMemoryRange`. Where the page of `addr` has got its frame,
/// the pages of the range up to and including it have theirs; where it has
/// not, it needed one and has none, and nothing else has changed but for a
/// table that was built for it.
proof fn lemma_settle_step(
    first: &PageDirectory,
    before: &PageDirectory,
    before_mmu: &Mmu,
    after: &PageDirectory,
    addr: LogicalAddress,
    start: LogicalAddress,
    end: LogicalAddress,
    flags: u32,
    got: Option<PhysicalAddress>,
)
    requires
        addr.0 % 4096 == 0,
        in_span(start.0, end.0, addr),
        settled_upto(first, before, start, end, flags, addr.0 as int),
        got == after.page_at(addr),
        got is None ==> needs_frame(before, addr),
        no_table_to_be_had(before, before_mmu, addr) ==> got is None && *after == *before,
        !no_table_to_be_had(before, before_mmu, addr) ==> forall|a: LogicalAddress|
            page_start(a) != page_start(addr) ==> #[trigger] after.entry_at(a) == entry_with_table(
                before,
                addr,
                a,
            ),
        before.page_at(addr) is Some ==> after.entry_at(addr) == before.entry_at(addr),
        is_reserved(before, addr) ==> after.entry_at(addr) == Some(
            before.entry_at(addr)->0.with(PAGE_PRESENT),
        ),
        needs_frame(before, addr) && !no_table_to_be_had(before, before_mmu, addr) ==> {
            &&& got matches Some(p) ==> p % 4096 == 0 && after.entry_at(addr) == Some(
                PageEntry::make(p, present_flags(flags)),
            )
            &&& got is None ==> after.entry_at(addr) == entry_with_table(before, addr, addr)
        },
    ensures
        needs_frame(first, addr) == needs_frame(before, addr),
        got is Some ==> settled_upto(first, after, start, end, flags, addr.0 + 4096),
        got is None ==> settled_upto(first, after, start, end, flags, addr.0 as int) && needs_frame(
            first,
            addr,
        ),
{
    crate::vm::page_entry::lemma_no_page();
    lemma_address_parts(addr.0);
    lemma_present_flags(flags);
    let upto = if got is Some {
        addr.0 + 4096
    } else {
        addr.0 as int
    };
    assert forall|a: LogicalAddress|
        #![trigger after.entry_at(a)]
        if in_span(start.0, end.0, a) && page_start(a) < upto {
            page_settled(first, after, a, flags)
        } else {
            after.entry_at(a) == first.entry_at(a) || (first.entry_at(a) is None
                && after.entry_at(a) == Some(PageEntry(0)))
        } by {
        lemma_address_parts(a.0);
        lemma_same_entry(a, addr);
        let was = before.entry_at(a);
        if page_start(a) == page_start(addr) {
            assert(after.entry_at(a) == after.entry_at(addr));
            assert(was == before.entry_at(addr));
            assert(first.entry_at(a) == first.entry_at(addr));
            match got {
                Some(p) => {
                    lemma_make(p, present_flags(flags));
                    lemma_settled_entry(before.entry_at(addr));
                },
                None => {},
            }
        }
    }
}

} // verus!
