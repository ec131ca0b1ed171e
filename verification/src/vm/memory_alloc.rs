//! Allocating and freeing mapped memory.

#![allow(non_snake_case)]

use crate::virtual_memory::{
    directory_index, foreach_page_in, in_span, lemma_address_parts, page_base, page_offset,
    range_limit,
    AddressMapping, LogicalAddress, PageDirectory, PageEntry, PhysicalAddress, ERROR_AT,
    NOT_A_FRAME, PAGE_ALIGN, PAGE_SIZE,
};
use crate::vm::alloc_mapping::AllocMapping;
use crate::vm::frame_alloc::{alloc_rel, fulfil_rel, reserve_rel, FrameAllocator};
use crate::vm::manager::foreach_entry_in;
use crate::vm::invalidate_page::invalidatePage;
use crate::vm::mapped_memory::{
    entry_with_table, lemma_inserted_page_found, lemma_present_flags, mapped_with, page_inserted,
    present_flags,
};
use crate::vm::mmu::Mmu;
use crate::vm::page_entry::{lemma_make, lemma_no_page};
use crate::vm::paging::{lemma_same_entry, page_start};
use vstd::prelude::*;

verus! {

/// What mapping a page does: the strategy is asked for a frame for the page
/// of `addr`, and where it hands out a page-aligned frame, the frame is
/// inserted at `addr`. The result is the frame where both succeed.
pub open spec fn page_mapped<M: AddressMapping>(
    pre: &PageDirectory,
    pre_mmu: &Mmu,
    pre_m: M,
    addr: LogicalAddress,
    flags: u32,
    post: &PageDirectory,
    post_mmu: &Mmu,
    post_m: M,
    page: Option<PhysicalAddress>,
) -> bool {
    exists|frame: Option<PhysicalAddress>| #[trigger]
        M::allocated(pre_m, LogicalAddress(page_base(addr.0)), post_m, frame) && match frame {
            Some(f) => if f % 4096 == 0 {
                &&& page_inserted(pre, pre_mmu, f, addr, flags, post, post_mmu, page is Some)
                &&& page is Some ==> page == Some(f)
            } else {
                page is None && *post == *pre && *post_mmu == *pre_mmu
            },
            None => page is None && *post == *pre && *post_mmu == *pre_mmu,
        }
}

/// What freeing a mapped page does. A present page gives its frame back to
/// the strategy, or its reservation where it is copy-on-write; its
/// translation is flushed where the directory is the loaded one; and its
/// entry is emptied. Where no page is present nothing changes.
pub open spec fn page_freed<M: AddressMapping>(
    pre: &PageDirectory,
    pre_mmu: &Mmu,
    pre_m: M,
    addr: LogicalAddress,
    post: &PageDirectory,
    post_mmu: &Mmu,
    post_m: M,
) -> bool {
    if pre.page_at(addr) is Some {
        let entry = pre.entry_at(addr)->0;
        &&& post.rewritten_at(pre, addr, PageEntry(0))
        &&& if entry.copy_on_write() {
            M::unreserved(pre_m, 1, post_m)
        } else {
            M::freed(pre_m, entry.address(), post_m)
        }
        &&& post_mmu.cr3() == pre_mmu.cr3()
        &&& post_mmu.kernel() == pre_mmu.kernel()
        &&& post_mmu.spare() == pre_mmu.spare()
        &&& post_mmu.zeroed() == pre_mmu.zeroed()
        &&& post_mmu.flushed() == if pre_mmu.live(pre.base()) {
            pre_mmu.flushed().push(addr)
        } else {
            pre_mmu.flushed()
        }
    } else {
        *post == *pre && *post_mmu == *pre_mmu && post_m == pre_m
    }
}

/// Allocates a frame for the page of `addr` and maps it with `flags`.
/// Returns the frame, or `None` when no frame or no table is to be had.
pub fn mapPage<M: AddressMapping>(
    dir: &mut PageDirectory,
    mmu: &mut Mmu,
    mapping: &mut M,
    addr: LogicalAddress,
    flags: u32,
) -> (page: Option<PhysicalAddress>)
    requires
        old(dir).wf(),
        old(mmu).wf(),
        old(mapping).inv(),
    ensures
        final(dir).wf(),
        final(mmu).wf(),
        final(mapping).inv(),
        page_mapped(
            old(dir),
            old(mmu),
            *old(mapping),
            addr,
            flags,
            final(dir),
            final(mmu),
            *final(mapping),
            page,
        ),
        page matches Some(p) ==> {
            &&& p % 4096 == 0
            &&& final(dir).page_at(addr) == Some(p)
            &&& final(dir).entry_at(addr) == Some(PageEntry::make(p, present_flags(flags)))
        },
        final(mmu).cr3() == old(mmu).cr3(),
        final(mmu).kernel() == old(mmu).kernel(),
        final(mmu).zeroed() == old(mmu).zeroed(),
        !old(mmu).live(old(dir).base()) ==> final(mmu).flushed() == old(mmu).flushed(),
        final(mmu).spare() == old(mmu).spare() || (old(mmu).spare().len() > 0 && final(mmu).spare()
            == old(mmu).spare().drop_last()),
        forall|a: LogicalAddress|
            page_start(a) != page_start(addr) ==> #[trigger] final(dir).entry_at(a)
                == entry_with_table(old(dir), addr, a) || final(dir).entry_at(a)
                    == old(dir).entry_at(a),
        page is None ==> final(dir).entry_at(addr) == old(dir).entry_at(addr),
{
    let pageAddr = LogicalAddress(PAGE_ALIGN(addr.0));
    let frame = match mapping.allocAddressMapping(pageAddr) {
        Some(frame) => frame,
        None => {
            return None;
        },
    };
    if frame % PAGE_SIZE != 0 {
        return None;
    }
    match dir.insertPage(mmu, frame, addr, flags) {
        Err(_) => None,
        Ok(_) => {
            proof {
                lemma_inserted_page_found(old(dir), old(mmu), frame, addr, flags, dir, mmu);
                crate::vm::page_entry::lemma_entry_fields(frame);
            }
            Some(frame)
        },
    }
}

/// Maps a page as `mapPage` does, in a task's directory while the kernel's
/// address space is loaded.
pub fn mapPageSafe<M: AddressMapping>(
    dir: &mut PageDirectory,
    mmu: &mut Mmu,
    mapping: &mut M,
    addr: LogicalAddress,
    flags: u32,
) -> (page: Option<PhysicalAddress>)
    requires
        old(dir).wf(),
        old(mmu).wf(),
        old(mapping).inv(),
        old(mmu).in_kernel_space(),
        old(dir).base() != old(mmu).kernel(),
    ensures
        final(dir).wf(),
        final(mmu).wf(),
        final(mapping).inv(),
        page_mapped(
            old(dir),
            old(mmu),
            *old(mapping),
            addr,
            flags,
            final(dir),
            final(mmu),
            *final(mapping),
            page,
        ),
        page matches Some(p) ==> p % 4096 == 0 && final(dir).page_at(addr) == Some(p),
{
    mapPage(dir, mmu, mapping, addr, flags)
}

/// Frees the page behind `addr`, if there is one.
pub fn freeMappedPage<M: AddressMapping>(
    dir: &mut PageDirectory,
    mmu: &mut Mmu,
    mapping: &mut M,
    addr: LogicalAddress,
)
    requires
        old(dir).wf(),
        old(mmu).wf(),
        old(mapping).inv(),
    ensures
        final(dir).wf(),
        final(mmu).wf(),
        final(mapping).inv(),
        page_freed(
            old(dir),
            old(mmu),
            *old(mapping),
            addr,
            final(dir),
            final(mmu),
            *final(mapping),
        ),
        final(dir).page_at(addr) is None,
        final(dir).entry_at(addr) matches Some(e) ==> !e.present(),
        final(dir).directory() == old(dir).directory(),
        final(dir).base() == old(dir).base(),
        forall|a: LogicalAddress| #[trigger]
            final(dir).entry_at(a) == if page_start(a) == page_start(addr) {
                emptied(old(dir).entry_at(a))
            } else {
                old(dir).entry_at(a)
            },
{
    let entry = match dir.tryGetPageEntry(addr) {
        Some(entry) => *entry,
        None => {
            proof {
                assert forall|a: LogicalAddress| page_start(a) == page_start(addr)
                    implies old(dir).entry_at(a) is None by {
                    lemma_same_entry(a, addr);
                }
            }
            return ;
        },
    };
    proof {
        lemma_no_page();
        assert forall|a: LogicalAddress| page_start(a) == page_start(addr)
            implies old(dir).entry_at(a) == Some(entry) by {
            lemma_same_entry(a, addr);
        }
    }
    if entry.page_is_present() {
        if entry.page_is_copy_on_write() {
            mapping.unreserveAddressMapping(1);
        } else {
            mapping.freeAddressMapping(entry.page_address());
        }
        if mmu.isLive(dir.frame()) {
            invalidatePage(mmu, addr);
        }
        dir.setPageEntry(addr, PageEntry::no_page());
    }
}

/// The round trip of a page. Once a page has been got for an address, the
/// address is mapped to that page, the physical address behind it is the
/// frame of the page plus the offset of the address in it, and after the
/// page has been freed again the entry for the address is not present.
pub proof fn lemma_page_round_trip<M: AddressMapping>(
    got: &PageDirectory,
    addr: LogicalAddress,
    page: PhysicalAddress,
    mmu: &Mmu,
    mapping: M,
    freed: &PageDirectory,
    freed_mmu: &Mmu,
    freed_mapping: M,
)
    requires
        got.wf(),
        got.page_at(addr) == Some(page),
        page_freed(got, mmu, mapping, addr, freed, freed_mmu, freed_mapping),
    ensures
        page % PAGE_SIZE == 0,
        got.physical_at(addr) == Some((page + addr.0 % PAGE_SIZE) as u32),
        freed.page_at(addr) is None,
        freed.entry_at(addr) matches Some(e) && !e.present(),
{
    lemma_address_parts(addr.0);
    lemma_no_page();
    crate::vm::page_entry::lemma_entry_fields(got.entry_at(addr)->0 .0);
}

/// What a lookup gives once the page has been freed: a present entry is
/// emptied, anything else is left as it was.
pub open spec fn emptied(entry: Option<PageEntry>) -> Option<PageEntry> {
    match entry {
        Some(e) => Some(
            if e.present() {
                PageEntry(0)
            } else {
                e
            },
        ),
        None => None,
    }
}

/// Frees a page as `freeMappedPage` does, in a task's directory while the
/// kernel's address space is loaded.
pub fn freeMappedPageSafe<M: AddressMapping>(
    dir: &mut PageDirectory,
    mmu: &mut Mmu,
    mapping: &mut M,
    addr: LogicalAddress,
)
    requires
        old(dir).wf(),
        old(mmu).wf(),
        old(mapping).inv(),
        old(mmu).in_kernel_space(),
        old(dir).base() != old(mmu).kernel(),
    ensures
        final(dir).wf(),
        final(mmu).wf(),
        final(mapping).inv(),
        page_freed(
            old(dir),
            old(mmu),
            *old(mapping),
            addr,
            final(dir),
            final(mmu),
            *final(mapping),
        ),
        final(dir).page_at(addr) is None,
        final(dir).entry_at(addr) matches Some(e) ==> !e.present(),
{
    freeMappedPage(dir, mmu, mapping, addr);
}

/// The address right behind the last page of the range `[start, end)`; the
/// start of its first page where the range holds no page.
pub open spec fn span_end(start: u32, end: u32) -> int {
    if range_limit(end) <= page_base(start) {
        page_base(start) as int
    } else {
        ((range_limit(end) + 4095) / 4096) * 4096
    }
}

/// What freeing the page at `page` asks of the strategy, going by the entry
/// that `dir` has for it: nothing for a page that is not present, the
/// reservation back for a copy-on-write page, and the frame back otherwise.
pub open spec fn page_released<M: AddressMapping>(dir: &PageDirectory, pre: M, page: int,
    post: M) -> bool {
    let at = LogicalAddress(page as u32);
    if dir.page_at(at) is Some {
        if dir.entry_at(at)->0.copy_on_write() {
            M::unreserved(pre, 1, post)
        } else {
            M::freed(pre, dir.entry_at(at)->0.address(), post)
        }
    } else {
        post == pre
    }
}

/// What the strategy has done once every page from `first` up to, and not
/// including, `upto` has been freed, in rising order, going by the entries
/// of `dir`.
pub open spec fn released_upto<M: AddressMapping>(
    dir: &PageDirectory,
    pre: M,
    first: int,
    upto: int,
    post: M,
) -> bool
    decreases (if upto > first { upto - first } else { 0 }),
{
    if upto <= first {
        post == pre
    } else {
        exists|mid: M|
            released_upto(dir, pre, first, upto - 4096, mid) && mid.inv()
                && #[trigger] page_released(
                dir,
                mid,
                upto - 4096,
                post,
            )
    }
}

/// The translations that are flushed while every page from `first` up to,
/// and not including, `upto` is freed in the loaded directory, in rising
/// order, going by the entries of `dir`: one for every page that is mapped.
pub open spec fn flushed_upto(dir: &PageDirectory, first: int, upto: int) -> Seq<LogicalAddress>
    decreases (if upto > first { upto - first } else { 0 }),
{
    if upto <= first {
        Seq::empty()
    } else {
        let before = flushed_upto(dir, first, upto - 4096);
        let at = LogicalAddress((upto - 4096) as u32);
        if dir.page_at(at) is Some {
            before.push(at)
        } else {
            before
        }
    }
}

/// Pages that are not mapped add no flush.
pub proof fn lemma_flushed_over_unmapped(dir: &PageDirectory, first: int, from: int, upto: int)
    requires
        first <= from <= upto <= 0x1_0000_0000,
        0 <= first,
        first % 4096 == 0,
        from % 4096 == 0,
        upto % 4096 == 0,
        unmapped_between(dir, from, upto),
    ensures
        flushed_upto(dir, first, upto) == flushed_upto(dir, first, from),
    decreases upto - from,
{
    if from < upto {
        lemma_flushed_over_unmapped(dir, first, from, upto - 4096);
        let at = LogicalAddress((upto - 4096) as u32);
        lemma_address_parts(at.0);
        assert(dir.page_at(at) is None);
    }
}

/// `dir` maps no page from `from` up to, and not including, `upto`.
pub open spec fn unmapped_between(dir: &PageDirectory, from: int, upto: int) -> bool {
    forall|a: LogicalAddress| from <= page_start(a) < upto ==> #[trigger] dir.page_at(a) is None
}

/// Freeing one more page extends what `released_upto` says by that page.
pub proof fn lemma_released_one_more<M: AddressMapping>(
    dir: &PageDirectory,
    pre: M,
    first: int,
    upto: int,
    mid: M,
    post: M,
)
    requires
        first < upto,
        released_upto(dir, pre, first, upto - 4096, mid),
        mid.inv(),
        page_released(dir, mid, upto - 4096, post),
    ensures
        released_upto(dir, pre, first, upto, post),
{
}

/// Pages that are not mapped ask nothing of the strategy: what
/// `released_upto` says up to `from` it says up to `upto` as well, where no
/// page in between is mapped.
pub proof fn lemma_released_over_unmapped<M: AddressMapping>(
    dir: &PageDirectory,
    pre: M,
    first: int,
    from: int,
    upto: int,
    post: M,
)
    requires
        first <= from <= upto <= 0x1_0000_0000,
        0 <= first,
        first % 4096 == 0,
        from % 4096 == 0,
        upto % 4096 == 0,
        post.inv(),
        released_upto(dir, pre, first, from, post),
        unmapped_between(dir, from, upto),
    ensures
        released_upto(dir, pre, first, upto, post),
    decreases upto - from,
{
    if from < upto {
        lemma_released_over_unmapped(dir, pre, first, from, upto - 4096, post);
        let page = upto - 4096;
        let at = LogicalAddress(page as u32);
        lemma_address_parts(at.0);
        assert(dir.page_at(at) is None);
        assert(page_released(dir, post, page, post));
        lemma_released_one_more(dir, pre, first, upto, post, post);
    }
}

/// Pages that are not mapped ask nothing of the strategy: what
/// `released_upto` says up to `upto` it says up to `from` as well, where no
/// page in between is mapped.
pub proof fn lemma_released_without_unmapped<M: AddressMapping>(
    dir: &PageDirectory,
    pre: M,
    first: int,
    from: int,
    upto: int,
    post: M,
)
    requires
        first <= from <= upto <= 0x1_0000_0000,
        0 <= first,
        first % 4096 == 0,
        from % 4096 == 0,
        upto % 4096 == 0,
        released_upto(dir, pre, first, upto, post),
        unmapped_between(dir, from, upto),
    ensures
        released_upto(dir, pre, first, from, post),
    decreases upto - from,
{
    if from < upto {
        let mid = choose|mid: M|
            released_upto(dir, pre, first, upto - 4096, mid) && mid.inv()
                && #[trigger] page_released(
                dir,
                mid,
                upto - 4096,
                post,
            );
        let at = LogicalAddress((upto - 4096) as u32);
        lemma_address_parts(at.0);
        assert(dir.page_at(at) is None);
        assert(mid == post);
        lemma_released_without_unmapped(dir, pre, first, from, upto - 4096, post);
    }
}

/// The page whose failure an error value of `mapMemoryRange` reports: the
/// address right behind the last byte that could be mapped.
pub open spec fn failed_page(error: PhysicalAddress) -> int {
    if error == NOT_A_FRAME {
        0
    } else {
        error + 1
    }
}

/// What has happened once every page from `first` up to, and not
/// including, `upto` has been mapped with `flags`, in rising order, each as
/// `mapPage` maps one page, and each with success.
pub open spec fn mapped_upto<M: AddressMapping>(
    pre: &PageDirectory,
    pre_mmu: &Mmu,
    pre_m: M,
    first: int,
    upto: int,
    flags: u32,
    post: &PageDirectory,
    post_mmu: &Mmu,
    post_m: M,
) -> bool
    decreases (if upto > first { upto - first } else { 0 }),
{
    if upto <= first {
        *post == *pre && *post_mmu == *pre_mmu && post_m == pre_m
    } else {
        exists|mid: PageDirectory, mid_mmu: Mmu, mid_m: M, page: PhysicalAddress|
            mapped_upto(pre, pre_mmu, pre_m, first, upto - 4096, flags, &mid, &mid_mmu, mid_m)
                && mid.wf() && mid_mmu.wf() && mid_m.inv() && #[trigger] page_mapped(
                &mid,
                &mid_mmu,
                mid_m,
                LogicalAddress((upto - 4096) as u32),
                flags,
                post,
                post_mmu,
                post_m,
                Some(page),
            )
    }
}

/// Mapping one more page with success extends what `mapped_upto` says by
/// that page.
pub proof fn lemma_mapped_one_more<M: AddressMapping>(
    pre: &PageDirectory,
    pre_mmu: &Mmu,
    pre_m: M,
    first: int,
    upto: int,
    flags: u32,
    mid: &PageDirectory,
    mid_mmu: &Mmu,
    mid_m: M,
    page: PhysicalAddress,
    post: &PageDirectory,
    post_mmu: &Mmu,
    post_m: M,
)
    requires
        first < upto,
        mapped_upto(pre, pre_mmu, pre_m, first, upto - 4096, flags, mid, mid_mmu, mid_m),
        mid.wf(),
        mid_mmu.wf(),
        mid_m.inv(),
        page_mapped(
            mid,
            mid_mmu,
            mid_m,
            LogicalAddress((upto - 4096) as u32),
            flags,
            post,
            post_mmu,
            post_m,
            Some(page),
        ),
    ensures
        mapped_upto(pre, pre_mmu, pre_m, first, upto, flags, post, post_mmu, post_m),
{
}

/// What has happened once every page from `first` up to, and not
/// including, `at` has been mapped with `flags`, in rising order and each
/// with success, and mapping the page at `at` has then failed.
pub open spec fn walk_stopped<M: AddressMapping>(
    pre: &PageDirectory,
    pre_mmu: &Mmu,
    pre_m: M,
    first: int,
    at: int,
    flags: u32,
    post: &PageDirectory,
    post_mmu: &Mmu,
    post_m: M,
) -> bool {
    exists|mid: PageDirectory, mid_mmu: Mmu, mid_m: M|
        mapped_upto(pre, pre_mmu, pre_m, first, at, flags, &mid, &mid_mmu, mid_m) && mid.wf()
            && mid_mmu.wf() && mid_m.inv() && #[trigger] page_mapped(
            &mid,
            &mid_mmu,
            mid_m,
            LogicalAddress(at as u32),
            flags,
            post,
            post_mmu,
            post_m,
            None,
        )
}

/// How `mapMemoryRange` gets from the state before the call to the state
/// after it. Success: every page of the range was mapped in turn, each with
/// success. Failure on a range that holds a page: the pages before the one
/// that the error names were mapped in turn, each with success, and then
/// mapping the named page failed. Failure on a range that holds no page:
/// nothing has changed.
pub open spec fn range_walked<M: AddressMapping>(
    pre: &PageDirectory,
    pre_mmu: &Mmu,
    pre_m: M,
    start: LogicalAddress,
    end: LogicalAddress,
    flags: u32,
    post: &PageDirectory,
    post_mmu: &Mmu,
    post_m: M,
    result: Result<PhysicalAddress, PhysicalAddress>,
) -> bool {
    let first = page_base(start.0) as int;
    match result {
        Ok(_) => mapped_upto(
            pre,
            pre_mmu,
            pre_m,
            first,
            span_end(start.0, end.0),
            flags,
            post,
            post_mmu,
            post_m,
        ),
        Err(e) => if range_limit(end.0) <= page_base(start.0) {
            *post == *pre && *post_mmu == *pre_mmu && post_m == pre_m
        } else {
            walk_stopped(
                pre,
                pre_mmu,
                pre_m,
                first,
                failed_page(e),
                flags,
                post,
                post_mmu,
                post_m,
            )
        },
    }
}

/// Where a run of pages has been mapped, its first page has been: mapping
/// it from the state before the run can succeed.
pub proof fn lemma_mapped_first_page<M: AddressMapping>(
    pre: &PageDirectory,
    pre_mmu: &Mmu,
    pre_m: M,
    first: int,
    upto: int,
    flags: u32,
    post: &PageDirectory,
    post_mmu: &Mmu,
    post_m: M,
)
    requires
        first < upto,
        (upto - first) % 4096 == 0,
        mapped_upto(pre, pre_mmu, pre_m, first, upto, flags, post, post_mmu, post_m),
    ensures
        exists|next: PageDirectory, next_mmu: Mmu, next_m: M, page: PhysicalAddress|
            #[trigger] page_mapped(
                pre,
                pre_mmu,
                pre_m,
                LogicalAddress(first as u32),
                flags,
                &next,
                &next_mmu,
                next_m,
                Some(page),
            ),
    decreases upto - first,
{
    let (mid, mid_mmu, mid_m, page) = choose|
        mid: PageDirectory,
        mid_mmu: Mmu,
        mid_m: M,
        page: PhysicalAddress,
    |
        mapped_upto(pre, pre_mmu, pre_m, first, upto - 4096, flags, &mid, &mid_mmu, mid_m)
            && mid.wf() && mid_mmu.wf() && mid_m.inv() && #[trigger] page_mapped(
            &mid,
            &mid_mmu,
            mid_m,
            LogicalAddress((upto - 4096) as u32),
            flags,
            post,
            post_mmu,
            post_m,
            Some(page),
        );
    if upto - 4096 > first {
        lemma_mapped_first_page(
            pre,
            pre_mmu,
            pre_m,
            first,
            upto - 4096,
            flags,
            &mid,
            &mid_mmu,
            mid_m,
        );
    } else {
        assert(upto - 4096 == first);
        assert(mid == *pre && mid_mmu == *pre_mmu && mid_m == pre_m);
    }
}

/// A range whose first page cannot be mapped fails at that page: the error
/// names it, and nothing has been mapped before it.
pub proof fn lemma_first_page_fails<M: AddressMapping>(
    pre: &PageDirectory,
    pre_mmu: &Mmu,
    pre_m: M,
    start: LogicalAddress,
    end: LogicalAddress,
    flags: u32,
    post: &PageDirectory,
    post_mmu: &Mmu,
    post_m: M,
    result: Result<PhysicalAddress, PhysicalAddress>,
)
    requires
        range_limit(end.0) > page_base(start.0),
        forall|next: PageDirectory, next_mmu: Mmu, next_m: M, page: PhysicalAddress|
            !#[trigger] page_mapped(
                pre,
                pre_mmu,
                pre_m,
                LogicalAddress(page_base(start.0)),
                flags,
                &next,
                &next_mmu,
                next_m,
                Some(page),
            ),
        range_mapped(post, start, end, flags, result),
        range_walked(pre, pre_mmu, pre_m, start, end, flags, post, post_mmu, post_m, result),
    ensures
        result is Err,
        failed_page(result->Err_0) == page_base(start.0),
        page_mapped(
            pre,
            pre_mmu,
            pre_m,
            LogicalAddress(page_base(start.0)),
            flags,
            post,
            post_mmu,
            post_m,
            None,
        ),
{
    let first = page_base(start.0) as int;
    lemma_address_parts(start.0);
    match result {
        Ok(_) => {
            let limit = span_end(start.0, end.0);
            assert(first % 4096 == 0);
            assert(limit % 4096 == 0);
            assert(limit > first);
            lemma_mapped_first_page(
                pre,
                pre_mmu,
                pre_m,
                first,
                limit,
                flags,
                post,
                post_mmu,
                post_m,
            );
            assert(false);
        },
        Err(e) => {
            let at = failed_page(e);
            let (mid, mid_mmu, mid_m) = choose|mid: PageDirectory, mid_mmu: Mmu, mid_m: M|
                mapped_upto(pre, pre_mmu, pre_m, first, at, flags, &mid, &mid_mmu, mid_m)
                    && mid.wf() && mid_mmu.wf() && mid_m.inv() && #[trigger] page_mapped(
                    &mid,
                    &mid_mmu,
                    mid_m,
                    LogicalAddress(at as u32),
                    flags,
                    post,
                    post_mmu,
                    post_m,
                    None,
                );
            if !(e % 4096 == 4095 && in_span(start.0, end.0, LogicalAddress(at as u32))) {
                assert(in_span(start.0, end.0, start));
                assert(mapped_with(post, start, flags));
                assert(false);
            }
            lemma_address_parts(at as u32);
            assert(e % 4096 == 4095);
            assert(first % 4096 == 0);
            assert(at % 4096 == 0);
            assert(page_base(at as u32) == at);
            assert(at >= first);
            if at > first {
                lemma_mapped_first_page(
                    pre,
                    pre_mmu,
                    pre_m,
                    first,
                    at,
                    flags,
                    &mid,
                    &mid_mmu,
                    mid_m,
                );
                assert(false);
            }
            assert(mid == *pre && mid_mmu == *pre_mmu && mid_m == pre_m);
        },
    }
}

/// Every page that is mapped with a frame of the allocator takes one page
/// off the bytes that the allocator counts as free.
pub proof fn lemma_mapped_takes_bytes(
    pre: &PageDirectory,
    pre_mmu: &Mmu,
    pre_m: AllocMapping,
    first: int,
    upto: int,
    flags: u32,
    post: &PageDirectory,
    post_mmu: &Mmu,
    post_m: AllocMapping,
)
    requires
        first <= upto,
        (upto - first) % 4096 == 0,
        mapped_upto(pre, pre_mmu, pre_m, first, upto, flags, post, post_mmu, post_m),
    ensures
        post_m.frames.bytes_free() == pre_m.frames.bytes_free() - (upto - first),
        post_m.frames.frames_free() == pre_m.frames.frames_free() - (upto - first) / 4096,
        post_m.frames.region_start() == pre_m.frames.region_start(),
        post_m.frames.region_end() == pre_m.frames.region_end(),
    decreases upto - first,
{
    if upto > first {
        let (mid, mid_mmu, mid_m, page) = choose|
            mid: PageDirectory,
            mid_mmu: Mmu,
            mid_m: AllocMapping,
            page: PhysicalAddress,
        |
            mapped_upto(pre, pre_mmu, pre_m, first, upto - 4096, flags, &mid, &mid_mmu, mid_m)
                && mid.wf() && mid_mmu.wf() && mid_m.inv() && #[trigger] page_mapped(
                &mid,
                &mid_mmu,
                mid_m,
                LogicalAddress((upto - 4096) as u32),
                flags,
                post,
                post_mmu,
                post_m,
                Some(page),
            );
        lemma_mapped_takes_bytes(
            pre,
            pre_mmu,
            pre_m,
            first,
            upto - 4096,
            flags,
            &mid,
            &mid_mmu,
            mid_m,
        );
        let at = LogicalAddress((upto - 4096) as u32);
        let frame = choose|frame: Option<PhysicalAddress>| #[trigger]
            AllocMapping::allocated(mid_m, LogicalAddress(page_base(at.0)), post_m, frame)
                && match frame {
                Some(f) => if f % 4096 == 0 {
                    &&& page_inserted(&mid, &mid_mmu, f, at, flags, post, post_mmu, true)
                    &&& Some(page) == Some(f)
                } else {
                    false
                },
                None => false,
            };
        assert(alloc_rel(&mid_m.frames, &post_m.frames, frame));
    }
}

/// A range that has been mapped with frames of the allocator has taken one
/// page for each of its pages off the bytes that the allocator counts as
/// free.
pub proof fn lemma_range_takes_bytes(
    pre: &PageDirectory,
    pre_mmu: &Mmu,
    pre_m: AllocMapping,
    start: LogicalAddress,
    end: LogicalAddress,
    flags: u32,
    post: &PageDirectory,
    post_mmu: &Mmu,
    post_m: AllocMapping,
    result: Result<PhysicalAddress, PhysicalAddress>,
)
    requires
        result is Ok,
        range_walked(pre, pre_mmu, pre_m, start, end, flags, post, post_mmu, post_m, result),
    ensures
        post_m.frames.bytes_free() == pre_m.frames.bytes_free() - (span_end(start.0, end.0)
            - page_base(start.0)),
{
    lemma_address_parts(start.0);
    lemma_mapped_takes_bytes(
        pre,
        pre_mmu,
        pre_m,
        page_base(start.0) as int,
        span_end(start.0, end.0),
        flags,
        post,
        post_mmu,
        post_m,
    );
}

/// Mapping pages takes no table away: an address that has a page entry
/// before a run of pages is mapped has one afterwards.
pub proof fn lemma_mapped_keeps_tables<M: AddressMapping>(
    pre: &PageDirectory,
    pre_mmu: &Mmu,
    pre_m: M,
    first: int,
    upto: int,
    flags: u32,
    post: &PageDirectory,
    post_mmu: &Mmu,
    post_m: M,
    a: LogicalAddress,
)
    requires
        mapped_upto(pre, pre_mmu, pre_m, first, upto, flags, post, post_mmu, post_m),
        pre.entry_at(a) is Some,
    ensures
        post.entry_at(a) is Some,
    decreases (if upto > first { upto - first } else { 0 }),
{
    if upto > first {
        let (mid, mid_mmu, mid_m, page) = choose|
            mid: PageDirectory,
            mid_mmu: Mmu,
            mid_m: M,
            page: PhysicalAddress,
        |
            mapped_upto(pre, pre_mmu, pre_m, first, upto - 4096, flags, &mid, &mid_mmu, mid_m)
                && mid.wf() && mid_mmu.wf() && mid_m.inv() && #[trigger] page_mapped(
                &mid,
                &mid_mmu,
                mid_m,
                LogicalAddress((upto - 4096) as u32),
                flags,
                post,
                post_mmu,
                post_m,
                Some(page),
            );
        lemma_mapped_keeps_tables(
            pre,
            pre_mmu,
            pre_m,
            first,
            upto - 4096,
            flags,
            &mid,
            &mid_mmu,
            mid_m,
            a,
        );
        let at = LogicalAddress((upto - 4096) as u32);
        assert(post.entry_at(a) == Some(PageEntry::make(page, present_flags(flags)))
            || post.entry_at(a) == entry_with_table(&mid, at, a));
    }
}

/// A range whose tables are there or can be built is mapped as far as the
/// frames of the allocator go. The table of a page is there already, or the
/// page lies in the table of the first page and a spare block is left to
/// build it in; the promises of the allocator can be kept. Then success is
/// owed exactly when the allocator counts a page as free for every page of
/// the range, and it takes those pages off the count. Otherwise the range
/// fails at the first page for which no page is counted as free any more,
/// and the error names that page.
pub proof fn lemma_range_goes_as_far_as_frames(
    pre: &PageDirectory,
    pre_mmu: &Mmu,
    pre_m: AllocMapping,
    start: LogicalAddress,
    end: LogicalAddress,
    flags: u32,
    post: &PageDirectory,
    post_mmu: &Mmu,
    post_m: AllocMapping,
    result: Result<PhysicalAddress, PhysicalAddress>,
)
    requires
        pre_m.inv(),
        pre_m.frames.honoured(),
        range_limit(end.0) > page_base(start.0),
        forall|a: LogicalAddress|
            in_span(start.0, end.0, a) ==> #[trigger] pre.entry_at(a) is Some || (
            pre_mmu.spare().len() > 0 && directory_index(a.0) == directory_index(start.0)),
        range_mapped(post, start, end, flags, result),
        range_walked(pre, pre_mmu, pre_m, start, end, flags, post, post_mmu, post_m, result),
    ensures
        result is Ok <==> pre_m.frames.bytes_free() >= span_end(start.0, end.0) - page_base(
            start.0,
        ),
        result is Ok ==> post_m.frames.bytes_free() == pre_m.frames.bytes_free() - (span_end(
            start.0,
            end.0,
        ) - page_base(start.0)),
        result matches Err(e) ==> e % 4096 == 4095 && failed_page(e) == page_base(start.0) + (
        pre_m.frames.bytes_free() / 4096) * 4096,
{
    let first = page_base(start.0) as int;
    let limit = span_end(start.0, end.0);
    lemma_address_parts(start.0);
    match result {
        Ok(_) => {
            lemma_range_takes_bytes(
                pre,
                pre_mmu,
                pre_m,
                start,
                end,
                flags,
                post,
                post_mmu,
                post_m,
                result,
            );
        },
        Err(e) => {
            let at = failed_page(e);
            let here = LogicalAddress(at as u32);
            if !(e % 4096 == 4095 && in_span(start.0, end.0, here)) {
                assert(in_span(start.0, end.0, start));
                assert(mapped_with(post, start, flags));
                assert(false);
            }
            lemma_address_parts(at as u32);
            assert(page_base(at as u32) == at);
            let (mid, mid_mmu, mid_m) = choose|
                mid: PageDirectory,
                mid_mmu: Mmu,
                mid_m: AllocMapping,
            |
                mapped_upto(pre, pre_mmu, pre_m, first, at, flags, &mid, &mid_mmu, mid_m)
                    && mid.wf() && mid_mmu.wf() && mid_m.inv() && #[trigger] page_mapped(
                    &mid,
                    &mid_mmu,
                    mid_m,
                    here,
                    flags,
                    post,
                    post_mmu,
                    post_m,
                    None,
                );
            lemma_mapped_takes_bytes(pre, pre_mmu, pre_m, first, at, flags, &mid, &mid_mmu, mid_m);
            let before = LogicalAddress(first as u32);
            lemma_address_parts(before.0);
            if pre.entry_at(here) is Some {
                lemma_mapped_keeps_tables(
                    pre,
                    pre_mmu,
                    pre_m,
                    first,
                    at,
                    flags,
                    &mid,
                    &mid_mmu,
                    mid_m,
                    here,
                );
            } else if at > first {
                lemma_mapped_frames_managed(
                    pre,
                    pre_mmu,
                    pre_m,
                    first,
                    at,
                    flags,
                    &mid,
                    &mid_mmu,
                    mid_m,
                    before,
                );
                assert(mid.entry_at(before) is Some);
                assert(directory_index(here.0) == directory_index(before.0));
                assert(mid.entry_at(here) is Some);
            } else {
                assert(mid == *pre && mid_mmu == *pre_mmu);
            }
            assert(!(mid.table(directory_index(here.0) as int) is None && mid_mmu.spare().len()
                == 0));
            assert(limit - at >= 4096);
            assert((at - first) % 4096 == 0);
            if mid_m.frames.bytes_free() < 4096 {
                return ;
            }
            assert(mid_m.frames.frames_free() >= 1) by {
                assert(mid_m.frames.bytes_free() <= mid_m.frames.frames_free() * 4096);
            }
            let frame = choose|frame: Option<PhysicalAddress>| #[trigger]
                AllocMapping::allocated(mid_m, LogicalAddress(page_base(here.0)), post_m, frame)
                    && match frame {
                    Some(f) => if f % 4096 == 0 {
                        page_inserted(&mid, &mid_mmu, f, here, flags, post, post_mmu, false)
                    } else {
                        *post == mid && *post_mmu == mid_mmu
                    },
                    None => *post == mid && *post_mmu == mid_mmu,
                };
            assert(alloc_rel(&mid_m.frames, &post_m.frames, frame));
            let held = choose|held: crate::vm::frame_alloc::FrameAllocator| #[trigger]
                reserve_rel(&mid_m.frames, 1, &held, true) && held.wf() && fulfil_rel(
                    &held,
                    &post_m.frames,
                    frame,
                );
            assert(held.frames_free() == mid_m.frames.frames_free());
            assert(frame is Some);
            assert(false);
        },
    }
}

/// `dir` maps `a` to a frame of the allocator's region.
pub open spec fn backed(dir: &PageDirectory, frames: &FrameAllocator, a: LogicalAddress) -> bool {
    dir.page_at(a) matches Some(f) && frames.manages(f as int)
}

/// Every page of a run that has been mapped with frames of the allocator
/// is mapped to a frame of the allocator's region.
pub proof fn lemma_mapped_frames_managed(
    pre: &PageDirectory,
    pre_mmu: &Mmu,
    pre_m: AllocMapping,
    first: int,
    upto: int,
    flags: u32,
    post: &PageDirectory,
    post_mmu: &Mmu,
    post_m: AllocMapping,
    a: LogicalAddress,
)
    requires
        0 <= first <= upto <= 0x1_0000_0000,
        first % 4096 == 0,
        (upto - first) % 4096 == 0,
        mapped_upto(pre, pre_mmu, pre_m, first, upto, flags, post, post_mmu, post_m),
        first <= page_start(a) < upto,
    ensures
        backed(post, &post_m.frames, a),
    decreases upto - first,
{
    let (mid, mid_mmu, mid_m, page) = choose|
        mid: PageDirectory,
        mid_mmu: Mmu,
        mid_m: AllocMapping,
        page: PhysicalAddress,
    |
        mapped_upto(pre, pre_mmu, pre_m, first, upto - 4096, flags, &mid, &mid_mmu, mid_m)
            && mid.wf() && mid_mmu.wf() && mid_m.inv() && #[trigger] page_mapped(
            &mid,
            &mid_mmu,
            mid_m,
            LogicalAddress((upto - 4096) as u32),
            flags,
            post,
            post_mmu,
            post_m,
            Some(page),
        );
    let at = LogicalAddress((upto - 4096) as u32);
    lemma_address_parts(at.0);
    lemma_address_parts(a.0);
    assert(page_start(at) == upto - 4096);
    let frame = choose|frame: Option<PhysicalAddress>| #[trigger]
        AllocMapping::allocated(mid_m, LogicalAddress(page_base(at.0)), post_m, frame)
            && match frame {
            Some(f) => if f % 4096 == 0 {
                &&& page_inserted(&mid, &mid_mmu, f, at, flags, post, post_mmu, true)
                &&& Some(page) == Some(f)
            } else {
                false
            },
            None => false,
        };
    assert(alloc_rel(&mid_m.frames, &post_m.frames, frame));
    let held = choose|held: FrameAllocator| #[trigger]
        reserve_rel(&mid_m.frames, 1, &held, true) && held.wf() && fulfil_rel(
            &held,
            &post_m.frames,
            frame,
        );
    assert(post_m.frames.region_start() == mid_m.frames.region_start());
    assert(post_m.frames.region_end() == mid_m.frames.region_end());
    if page_start(a) == upto - 4096 {
        lemma_present_flags(flags);
        lemma_make(page, present_flags(flags));
        assert(page & 0xffff_f000 == page) by (bit_vector)
            requires
                page % 4096 == 0,
        ;
        assert(post.entry_at(a) == Some(PageEntry::make(page, present_flags(flags))));
        assert(post_m.frames.manages(page as int));
    } else {
        lemma_mapped_frames_managed(
            pre,
            pre_mmu,
            pre_m,
            first,
            upto - 4096,
            flags,
            &mid,
            &mid_mmu,
            mid_m,
            a,
        );
        assert(post.entry_at(a) == entry_with_table(&mid, at, a));
        assert(post.entry_at(a) == mid.entry_at(a));
    }
}

/// Freeing a run of pages that are all mapped to frames of the allocator's
/// region gives one page for each of them back to the bytes that the
/// allocator counts as free.
pub proof fn lemma_released_gives_bytes(
    dir: &PageDirectory,
    pre: AllocMapping,
    first: int,
    upto: int,
    post: AllocMapping,
)
    requires
        0 <= first <= upto <= 0x1_0000_0000,
        first % 4096 == 0,
        (upto - first) % 4096 == 0,
        released_upto(dir, pre, first, upto, post),
        forall|a: LogicalAddress|
            first <= page_start(a) < upto ==> #[trigger] backed(dir, &pre.frames, a),
        pre.frames.bytes_free() + (upto - first) <= u32::MAX,
    ensures
        post.frames.bytes_free() == pre.frames.bytes_free() + (upto - first),
        post.frames.region_start() == pre.frames.region_start(),
        post.frames.region_end() == pre.frames.region_end(),
    decreases upto - first,
{
    if upto > first {
        let mid = choose|mid: AllocMapping|
            released_upto(dir, pre, first, upto - 4096, mid) && mid.inv()
                && #[trigger] page_released(dir, mid, upto - 4096, post);
        lemma_released_gives_bytes(dir, pre, first, upto - 4096, mid);
        let at = LogicalAddress((upto - 4096) as u32);
        lemma_address_parts(at.0);
        assert(page_start(at) == upto - 4096);
        assert(backed(dir, &pre.frames, at));
    }
}

/// Mapping a range with frames of the allocator and freeing it again
/// leaves as many bytes free and unpromised as before.
pub proof fn lemma_map_then_free_restores_bytes(
    pre: &PageDirectory,
    pre_mmu: &Mmu,
    pre_m: AllocMapping,
    start: LogicalAddress,
    end: LogicalAddress,
    flags: u32,
    mapped: &PageDirectory,
    mapped_mmu: &Mmu,
    mapped_m: AllocMapping,
    result: Result<PhysicalAddress, PhysicalAddress>,
    back_m: AllocMapping,
)
    requires
        result is Ok,
        range_walked(pre, pre_mmu, pre_m, start, end, flags, mapped, mapped_mmu, mapped_m, result),
        released_upto(
            mapped,
            mapped_m,
            page_base(start.0) as int,
            span_end(start.0, end.0),
            back_m,
        ),
    ensures
        back_m.frames.bytes_free() == pre_m.frames.bytes_free(),
{
    let first = page_base(start.0) as int;
    let limit = span_end(start.0, end.0);
    lemma_address_parts(start.0);
    lemma_mapped_takes_bytes(
        pre,
        pre_mmu,
        pre_m,
        first,
        limit,
        flags,
        mapped,
        mapped_mmu,
        mapped_m,
    );
    assert forall|a: LogicalAddress| first <= page_start(a) < limit implies #[trigger] backed(
        mapped,
        &mapped_m.frames,
        a,
    ) by {
        lemma_mapped_frames_managed(
            pre,
            pre_mmu,
            pre_m,
            first,
            limit,
            flags,
            mapped,
            mapped_mmu,
            mapped_m,
            a,
        );
    }
    lemma_released_gives_bytes(mapped, mapped_m, first, limit, back_m);
}

/// What `mapMemoryRange` has done when it returns. Success: every page of
/// the range is mapped with `flags`, and the result is the physical address
/// behind `start`. Failure at a page: the error is the last byte before that
/// page, and the pages of the range before it are mapped. Failure after the
/// last page: every page is mapped, nothing is mapped behind `start`, which
/// happens for an empty range only, and the error is `NOT_A_FRAME`.
pub open spec fn range_mapped(
    post: &PageDirectory,
    start: LogicalAddress,
    end: LogicalAddress,
    flags: u32,
    result: Result<PhysicalAddress, PhysicalAddress>,
) -> bool {
    match result {
        Ok(p) => {
            &&& forall|a: LogicalAddress|
                in_span(start.0, end.0, a) ==> #[trigger] mapped_with(post, a, flags)
            &&& post.page_at(start) matches Some(frame) && p == frame + page_offset(start.0)
        },
        Err(e) => {
            ||| {
                &&& e == NOT_A_FRAME
                &&& post.page_at(start) is None
                &&& forall|a: LogicalAddress|
                    in_span(start.0, end.0, a) ==> #[trigger] mapped_with(post, a, flags)
            }
            ||| {
                &&& e % 4096 == 4095
                &&& in_span(start.0, end.0, LogicalAddress(failed_page(e) as u32))
                &&& forall|a: LogicalAddress|
                    in_span(start.0, end.0, a) && page_start(a) < failed_page(e)
                        ==> #[trigger] mapped_with(post, a, flags)
            }
        },
    }
}

/// Allocates and maps every page of the range `[start, end)`, one frame
/// from the strategy for each. Returns the physical address behind `start`.
/// On failure the error is the last byte before the page that could not be
/// mapped, which is never page aligned; the pages before it stay mapped.
pub fn mapMemoryRange<M: AddressMapping>(
    dir: &mut PageDirectory,
    mmu: &mut Mmu,
    mapping: &mut M,
    start: LogicalAddress,
    end: LogicalAddress,
    flags: u32,
) -> (result: Result<PhysicalAddress, PhysicalAddress>)
    requires
        old(dir).wf(),
        old(mmu).wf(),
        old(mapping).inv(),
    ensures
        final(dir).wf(),
        final(mmu).wf(),
        final(mapping).inv(),
        final(dir).base() == old(dir).base(),
        final(mmu).cr3() == old(mmu).cr3(),
        final(mmu).kernel() == old(mmu).kernel(),
        final(mmu).zeroed() == old(mmu).zeroed(),
        !old(mmu).live(old(dir).base()) ==> final(mmu).flushed() == old(mmu).flushed(),
        final(mmu).spare() == old(mmu).spare().take(final(mmu).spare().len() as int),
        range_mapped(final(dir), start, end, flags, result),
        range_walked(
            old(dir),
            old(mmu),
            *old(mapping),
            start,
            end,
            flags,
            final(dir),
            final(mmu),
            *final(mapping),
            result,
        ),
        forall|a: LogicalAddress|
            !in_span(start.0, end.0, a) && old(dir).entry_at(a) is Some
                ==> #[trigger] final(dir).entry_at(a) == old(dir).entry_at(a),
        forall|a: LogicalAddress|
            !in_span(start.0, end.0, a) && old(dir).entry_at(a) is None
                ==> #[trigger] final(dir).page_at(a) is None,
{
    let mut pages = foreach_page_in(start.0, end.0);
    loop
        invariant
            dir.wf(),
            mmu.wf(),
            mapping.inv(),
            pages.wf(),
            dir.base() == old(dir).base(),
            mmu.cr3() == old(mmu).cr3(),
            mmu.kernel() == old(mmu).kernel(),
            mmu.zeroed() == old(mmu).zeroed(),
            !old(mmu).live(old(dir).base()) ==> mmu.flushed() == old(mmu).flushed(),
            mmu.spare().len() <= old(mmu).spare().len(),
            mmu.spare() == old(mmu).spare().take(mmu.spare().len() as int),
            pages.limit() == range_limit(end.0),
            page_base(start.0) <= pages.position(),
            pages.position() % 4096 == 0,
            pages.position() == page_base(start.0) || pages.position() - 4096 < pages.limit(),
            mapped_upto(
                old(dir),
                old(mmu),
                *old(mapping),
                page_base(start.0) as int,
                pages.position(),
                flags,
                dir,
                mmu,
                *mapping,
            ),
            forall|a: LogicalAddress|
                page_base(start.0) <= page_start(a) < pages.position() ==> #[trigger] mapped_with(
                    dir,
                    a,
                    flags,
                ),
            forall|a: LogicalAddress|
                !in_span(start.0, end.0, a) && old(dir).entry_at(a) is Some
                    ==> #[trigger] dir.entry_at(a) == old(dir).entry_at(a),
            forall|a: LogicalAddress|
                !in_span(start.0, end.0, a) && old(dir).entry_at(a) is None
                    ==> #[trigger] dir.page_at(a) is None,
        ensures
            pages.position() >= pages.limit(),
        decreases
                (if pages.limit() > pages.position() {
                    pages.limit() - pages.position()
                } else {
                    0
                }),
    {
        let addr = match pages.next() {
            Some(addr) => addr,
            None => {
                break ;
            },
        };
        let ghost before = *dir;
        let ghost before_mmu = *mmu;
        let ghost before_mapping = *mapping;
        proof {
            lemma_address_parts(addr.0);
            lemma_no_page();
        }
        let mapped = mapPage(dir, mmu, mapping, addr, flags);
        proof {
            crate::vm::mapped_memory::lemma_prefix_shrinks(
                old(mmu).spare(),
                before_mmu.spare(),
                mmu.spare(),
            );
            assert forall|a: LogicalAddress|
                page_start(a) != page_start(addr) && before.entry_at(a) is Some
                    implies dir.entry_at(a) == before.entry_at(a) by {
                assert(dir.entry_at(a) == entry_with_table(&before, addr, a) || dir.entry_at(a)
                    == before.entry_at(a));
            }
            assert forall|a: LogicalAddress|
                page_start(a) != page_start(addr) && before.page_at(a) is None implies dir.page_at(
                a,
            ) is None by {
                assert(dir.entry_at(a) == entry_with_table(&before, addr, a) || dir.entry_at(a)
                    == before.entry_at(a));
            }
            assert forall|a: LogicalAddress|
                !in_span(start.0, end.0, a) && old(dir).entry_at(a) is None
                    implies #[trigger] dir.page_at(a) is None by {
                assert(before.page_at(a) is None);
            }
            assert forall|a: LogicalAddress|
                page_base(start.0) <= page_start(a) < pages.position() - 4096
                    implies #[trigger] mapped_with(
                dir,
                a,
                flags,
            ) by {
                assert(mapped_with(&before, a, flags));
            }
        }
        match mapped {
            None => {
                let error = ERROR_AT(addr.0);
                proof {
                    assert(failed_page(error) == addr.0);
                    assert(range_limit(end.0) > page_base(start.0));
                    assert(mapped_upto(
                        old(dir),
                        old(mmu),
                        *old(mapping),
                        page_base(start.0) as int,
                        failed_page(error),
                        flags,
                        &before,
                        &before_mmu,
                        before_mapping,
                    ));
                    assert(page_mapped(
                        &before,
                        &before_mmu,
                        before_mapping,
                        LogicalAddress(failed_page(error) as u32),
                        flags,
                        dir,
                        mmu,
                        *mapping,
                        None,
                    ));
                    assert(walk_stopped(
                        old(dir),
                        old(mmu),
                        *old(mapping),
                        page_base(start.0) as int,
                        addr.0 as int,
                        flags,
                        dir,
                        mmu,
                        *mapping,
                    ));
                }
                return Err(error);
            },
            Some(page) => {
                proof {
                    lemma_mapped_one_more(
                        old(dir),
                        old(mmu),
                        *old(mapping),
                        page_base(start.0) as int,
                        pages.position(),
                        flags,
                        &before,
                        &before_mmu,
                        before_mapping,
                        page,
                        dir,
                        mmu,
                        *mapping,
                    );
                    lemma_present_flags(flags);
                    lemma_make(page, present_flags(flags));
                    assert forall|a: LogicalAddress|
                        page_base(start.0) <= page_start(a) < pages.position()
                            implies #[trigger] mapped_with(
                        dir,
                        a,
                        flags,
                    ) by {
                        lemma_address_parts(a.0);
                        if page_start(a) == page_start(addr) {
                            lemma_same_entry(a, addr);
                        }
                    }
                }
            },
        }
    }
    proof {
        lemma_address_parts(start.0);
        if range_limit(end.0) > page_base(start.0) {
            assert(in_span(start.0, end.0, start));
            assert(mapped_with(dir, start, flags));
        }
    }
    match dir.tryGetPage(start) {
        None => Err(NOT_A_FRAME),
        Some(startPage) => {
            proof {
                crate::vm::page_entry::lemma_entry_fields(dir.entry_at(start)->0 .0);
            }
            Ok(startPage + start.get_page_offset() as u32)
        },
    }
}

/// Maps a range as `mapMemoryRange` does, in a task's directory while the
/// kernel's address space is loaded.
pub fn mapMemoryRangeSafe<M: AddressMapping>(
    dir: &mut PageDirectory,
    mmu: &mut Mmu,
    mapping: &mut M,
    start: LogicalAddress,
    end: LogicalAddress,
    flags: u32,
) -> (result: Result<PhysicalAddress, PhysicalAddress>)
    requires
        old(dir).wf(),
        old(mmu).wf(),
        old(mapping).inv(),
        old(mmu).in_kernel_space(),
        old(dir).base() != old(mmu).kernel(),
    ensures
        final(dir).wf(),
        final(mmu).wf(),
        final(mapping).inv(),
        final(dir).base() == old(dir).base(),
        final(mmu).cr3() == old(mmu).cr3(),
        final(mmu).kernel() == old(mmu).kernel(),
        final(mmu).zeroed() == old(mmu).zeroed(),
        final(mmu).flushed() == old(mmu).flushed(),
        final(mmu).spare() == old(mmu).spare().take(final(mmu).spare().len() as int),
        range_mapped(final(dir), start, end, flags, result),
        range_walked(
            old(dir),
            old(mmu),
            *old(mapping),
            start,
            end,
            flags,
            final(dir),
            final(mmu),
            *final(mapping),
            result,
        ),
        forall|a: LogicalAddress|
            !in_span(start.0, end.0, a) && old(dir).entry_at(a) is Some
                ==> #[trigger] final(dir).entry_at(a) == old(dir).entry_at(a),
{
    mapMemoryRange(dir, mmu, mapping, start, end, flags)
}

/// Frees every page of the range `[start, end)` as `freeMappedPage` does.
/// Afterwards no page of the range is present; entries outside the range,
/// and the tables themselves, stay as they are.
pub fn freeMemoryRange<M: AddressMapping>(
    dir: &mut PageDirectory,
    mmu: &mut Mmu,
    mapping: &mut M,
    start: LogicalAddress,
    end: LogicalAddress,
)
    requires
        old(dir).wf(),
        old(mmu).wf(),
        old(mapping).inv(),
    ensures
        final(dir).wf(),
        final(mmu).wf(),
        final(mapping).inv(),
        final(dir).base() == old(dir).base(),
        final(dir).directory() == old(dir).directory(),
        final(mmu).cr3() == old(mmu).cr3(),
        final(mmu).kernel() == old(mmu).kernel(),
        final(mmu).spare() == old(mmu).spare(),
        final(mmu).zeroed() == old(mmu).zeroed(),
        final(mmu).flushed() == if old(mmu).live(old(dir).base()) {
            old(mmu).flushed() + flushed_upto(
                old(dir),
                page_base(start.0) as int,
                span_end(start.0, end.0),
            )
        } else {
            old(mmu).flushed()
        },
        released_upto(
            old(dir),
            *old(mapping),
            page_base(start.0) as int,
            span_end(start.0, end.0),
            *final(mapping),
        ),
        forall|a: LogicalAddress| #[trigger]
            final(dir).entry_at(a) == if in_span(start.0, end.0, a) {
                emptied(old(dir).entry_at(a))
            } else {
                old(dir).entry_at(a)
            },
        forall|a: LogicalAddress| in_span(start.0, end.0, a)
            ==> #[trigger] final(dir).page_at(a) is None,
{
    let mut entries = foreach_entry_in(start.0, end.0);
    loop
        invariant
            dir.wf(),
            old(dir).wf(),
            mmu.wf(),
            mapping.inv(),
            entries.wf(),
            dir.base() == old(dir).base(),
            dir.directory() == old(dir).directory(),
            mmu.cr3() == old(mmu).cr3(),
            mmu.kernel() == old(mmu).kernel(),
            mmu.spare() == old(mmu).spare(),
            mmu.zeroed() == old(mmu).zeroed(),
            mmu.flushed() == if old(mmu).live(old(dir).base()) {
                old(mmu).flushed() + flushed_upto(
                    old(dir),
                    page_base(start.0) as int,
                    entries.position(),
                )
            } else {
                old(mmu).flushed()
            },
            entries.limit() == range_limit(end.0),
            page_base(start.0) <= entries.position() <= 0x1_0000_0000,
            entries.position() % 4096 == 0,
            released_upto(
                old(dir),
                *old(mapping),
                page_base(start.0) as int,
                entries.position(),
                *mapping,
            ),
            unmapped_between(old(dir), span_end(start.0, end.0), entries.position()),
            forall|a: LogicalAddress| #[trigger]
                dir.entry_at(a) == if page_base(start.0) <= page_start(a) < entries.position()
                    && page_start(a) < entries.limit() {
                    emptied(old(dir).entry_at(a))
                } else {
                    old(dir).entry_at(a)
                },
        ensures
            entries.position() >= entries.limit(),
        decreases
                (if entries.limit() > entries.position() {
                    entries.limit() - entries.position()
                } else {
                    0
                }),
    {
        let ghost at = entries.position();
        let addr = match entries.next(dir) {
            Some(addr) => addr,
            None => {
                break ;
            },
        };
        let ghost before = *dir;
        let ghost before_mapping = *mapping;
        let ghost before_mmu = *mmu;
        proof {
            lemma_address_parts(addr.0);
            crate::vm::mapped_memory::lemma_skipped(&before, addr, at, entries.position());
        }
        freeMappedPage(dir, mmu, mapping, addr);
        proof {
            let first = page_base(start.0) as int;
            lemma_address_parts(start.0);
            assert(before.entry_at(addr) == old(dir).entry_at(addr));
            assert(addr == LogicalAddress(at as u32));
            let so_far = flushed_upto(old(dir), first, at);
            assert(flushed_upto(old(dir), first, at + 4096) == if old(dir).page_at(addr) is Some {
                so_far.push(addr)
            } else {
                so_far
            });
            if old(mmu).live(old(dir).base()) {
                assert((old(mmu).flushed() + so_far).push(addr) =~= old(mmu).flushed()
                    + so_far.push(addr));
                assert(mmu.flushed() == old(mmu).flushed() + flushed_upto(
                    old(dir),
                    first,
                    at + 4096,
                ));
            }
            assert(page_released(old(dir), before_mapping, at, *mapping));
            lemma_released_one_more(
                old(dir),
                *old(mapping),
                first,
                at + 4096,
                before_mapping,
                *mapping,
            );
            assert forall|a: LogicalAddress|
                at + 4096 <= page_start(a) < entries.position() implies #[trigger] old(dir).page_at(a) is None by {
                assert(before.entry_at(a) is None);
                assert(before.entry_at(a) == old(dir).entry_at(a));
            }
            lemma_released_over_unmapped(
                old(dir),
                *old(mapping),
                first,
                at + 4096,
                entries.position(),
                *mapping,
            );
            lemma_flushed_over_unmapped(old(dir), first, at + 4096, entries.position());
            assert forall|a: LogicalAddress|
                span_end(start.0, end.0) <= page_start(a) < entries.position()
                    implies #[trigger] old(dir).page_at(a) is None by {
                lemma_address_parts(a.0);
                if page_start(a) >= at + 4096 {
                    assert(before.entry_at(a) is None);
                    assert(before.entry_at(a) == old(dir).entry_at(a));
                }
            }
            assert forall|a: LogicalAddress| #[trigger]
                dir.entry_at(a) == if page_base(start.0) <= page_start(a) < entries.position()
                    && page_start(a) < entries.limit() {
                    emptied(old(dir).entry_at(a))
                } else {
                    old(dir).entry_at(a)
                } by {
                lemma_same_entry(a, addr);
                lemma_address_parts(a.0);
                if at <= page_start(a) < entries.position() && page_start(a) != at {
                    assert(before.entry_at(a) is None);
                }
            }
        }
    }
    proof {
        lemma_no_page();
        lemma_address_parts(start.0);
        let first = page_base(start.0) as int;
        if span_end(start.0, end.0) <= entries.position() {
            lemma_flushed_over_unmapped(
                old(dir),
                first,
                span_end(start.0, end.0),
                entries.position(),
            );
            lemma_released_without_unmapped(
                old(dir),
                *old(mapping),
                first,
                span_end(start.0, end.0),
                entries.position(),
                *mapping,
            );
        }
    }
}

/// Frees a range as `freeMemoryRange` does, in a task's directory while the
/// kernel's address space is loaded.
pub fn freeMemoryRangeSafe<M: AddressMapping>(
    dir: &mut PageDirectory,
    mmu: &mut Mmu,
    mapping: &mut M,
    start: LogicalAddress,
    end: LogicalAddress,
)
    requires
        old(dir).wf(),
        old(mmu).wf(),
        old(mapping).inv(),
        old(mmu).in_kernel_space(),
        old(dir).base() != old(mmu).kernel(),
    ensures
        final(dir).wf(),
        final(mmu).wf(),
        final(mapping).inv(),
        final(dir).base() == old(dir).base(),
        final(dir).directory() == old(dir).directory(),
        final(mmu).cr3() == old(mmu).cr3(),
        final(mmu).kernel() == old(mmu).kernel(),
        final(mmu).spare() == old(mmu).spare(),
        final(mmu).zeroed() == old(mmu).zeroed(),
        final(mmu).flushed() == old(mmu).flushed(),
        released_upto(
            old(dir),
            *old(mapping),
            page_base(start.0) as int,
            span_end(start.0, end.0),
            *final(mapping),
        ),
        forall|a: LogicalAddress| #[trigger]
            final(dir).entry_at(a) == if in_span(start.0, end.0, a) {
                emptied(old(dir).entry_at(a))
            } else {
                old(dir).entry_at(a)
            },
        forall|a: LogicalAddress| in_span(start.0, end.0, a)
            ==> #[trigger] final(dir).page_at(a) is None,
{
    freeMemoryRange(dir, mmu, mapping, start, end);
}

} // verus!
