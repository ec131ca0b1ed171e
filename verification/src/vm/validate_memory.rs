//! Checks on ranges of addresses before the kernel touches user memory.
//!
//! Every check looks at the directory that is handed in, which is meant to
//! be the loaded one. A range is given by its first address and its length
//! in bytes; the pages it concerns are those that hold one of its bytes. A
//! range that runs past the top of the address space passes no check, and a
//! range of no bytes passes every check.

#![allow(non_snake_case)]

use crate::virtual_memory::{
    foreach_page_in, lemma_address_parts, page_base, LogicalAddress, PageDirectory, PageEntry,
    PAGE_SIZE,
};
use crate::vm::paging::{lemma_same_entry, page_start};
use vstd::prelude::*;

verus! {

/// `addr` is a multiple of the page size.
pub open spec fn page_aligned(addr: u32) -> bool {
    addr % PAGE_SIZE == 0
}

/// Every multiple of the page size is page aligned.
pub proof fn lemma_multiples_are_aligned(n: u32)
    requires
        n * PAGE_SIZE <= u32::MAX,
    ensures
        page_aligned((n * PAGE_SIZE) as u32),
{
    assert((n * 4096) % 4096 == 0) by (nonlinear_arith);
}

/// Checks whether an address is page aligned.
pub fn isPageAligned(addr: u32) -> (aligned: bool)
    ensures
        aligned == page_aligned(addr),
{
    addr % PAGE_SIZE == 0
}

/// What a check asks of the pages of a range.
#[derive(Clone, Copy, Debug, PartialEq, Eq, Structural)]
pub enum PageCheck {
    /// No page has been touched: each is without an entry or not accessed.
    Unmapped,
    /// User mode may read every page.
    UserReadable,
    /// User mode may write every page.
    UserWritable,
}

/// Whether a page with the entry `entry` (or with none) meets `check`.
pub open spec fn meets(check: PageCheck, entry: Option<PageEntry>) -> bool {
    match check {
        PageCheck::Unmapped => match entry {
            Some(e) => !e.accessed(),
            None => true,
        },
        PageCheck::UserReadable => entry matches Some(e) && e.present() && e.user(),
        PageCheck::UserWritable => entry matches Some(e) && e.present() && e.user() && e.writable(),
    }
}

/// The range of `len` bytes from `addr` lies inside the address space.
pub open spec fn span_fits(addr: LogicalAddress, len: u32) -> bool {
    addr.0 + len <= 0x1_0000_0000
}

/// The address `a` lies in a page that holds a byte of the `len` bytes from
/// `addr`.
pub open spec fn in_bytes(addr: LogicalAddress, len: u32, a: LogicalAddress) -> bool {
    len > 0 && page_base(addr.0) <= page_base(a.0) < addr.0 + len
}

/// Every page of the range meets `check`, and the range lies inside the
/// address space.
pub open spec fn span_meets(dir: &PageDirectory, addr: LogicalAddress, len: u32,
    check: PageCheck) -> bool {
    &&& span_fits(addr, len)
    &&& forall|a: LogicalAddress| in_bytes(addr, len, a)
        ==> meets(check, #[trigger] dir.entry_at(a))
}

/// The page entry for `addr` in `dir`, where it has one.
pub fn getPageFlags(dir: &PageDirectory, addr: LogicalAddress) -> (entry: Option<PageEntry>)
    requires
        dir.wf(),
    ensures
        entry == dir.entry_at(addr),
{
    match dir.tryGetPageEntry(addr) {
        Some(entry) => Some(*entry),
        None => None,
    }
}

/// Whether the page with `entry` meets `check`.
fn entryMeets(check: PageCheck, entry: Option<PageEntry>) -> (met: bool)
    ensures
        met == meets(check, entry),
{
    match entry {
        None => match check {
            PageCheck::Unmapped => true,
            _ => false,
        },
        Some(e) => match check {
            PageCheck::Unmapped => !e.page_accessed(),
            PageCheck::UserReadable => e.page_is_present() && e.page_is_user(),
            PageCheck::UserWritable => e.page_is_present() && e.page_is_user()
                && e.page_is_writable(),
        },
    }
}

/// Checks every page of the `len` bytes from `addr` against `check`.
pub fn spanMeets(dir: &PageDirectory, addr: LogicalAddress, len: u32, check: PageCheck)
    -> (met: bool)
    requires
        dir.wf(),
    ensures
        met == span_meets(dir, addr, len, check),
{
    if len == 0 {
        return true;
    }
    if addr.0 as u64 + len as u64 > 0x1_0000_0000 {
        return false;
    }
    let end = addr.offset(len);
    let mut pages = foreach_page_in(addr.0, end.0);
    loop
        invariant
            dir.wf(),
            pages.wf(),
            len > 0,
            span_fits(addr, len),
            pages.limit() == addr.0 + len,
            page_base(addr.0) <= pages.position(),
            pages.position() % 4096 == 0,
            forall|a: LogicalAddress|
                page_base(addr.0) <= page_start(a) < pages.position() ==> meets(
                    check,
                    #[trigger] dir.entry_at(a),
                ),
        ensures
            pages.position() >= pages.limit(),
        decreases
                (if pages.limit() > pages.position() {
                    pages.limit() - pages.position()
                } else {
                    0
                }),
    {
        let curr = match pages.next() {
            Some(curr) => curr,
            None => {
                break ;
            },
        };
        proof {
            lemma_address_parts(curr.0);
        }
        if !entryMeets(check, getPageFlags(dir, curr)) {
            assert(in_bytes(addr, len, curr));
            return false;
        }
        proof {
            assert forall|a: LogicalAddress|
                page_base(addr.0) <= page_start(a) < pages.position() implies meets(
                check,
                #[trigger] dir.entry_at(a),
            ) by {
                lemma_address_parts(a.0);
                lemma_same_entry(a, curr);
            }
        }
    }
    true
}

/// Checks whether no page of the range has been touched: each is without an
/// entry or has not been accessed.
pub fn isUnmappedAddr(dir: &PageDirectory, addr: LogicalAddress, len: u32) -> (unmapped: bool)
    requires
        dir.wf(),
    ensures
        unmapped == span_meets(dir, addr, len, PageCheck::Unmapped),
{
    spanMeets(dir, addr, len, PageCheck::Unmapped)
}

/// Checks whether user mode may read every byte of the range: every page of
/// it is present and open to user mode.
pub fn isUserReadableAddr(dir: &PageDirectory, addr: LogicalAddress, len: u32) -> (readable: bool)
    requires
        dir.wf(),
    ensures
        readable == span_meets(dir, addr, len, PageCheck::UserReadable),
{
    spanMeets(dir, addr, len, PageCheck::UserReadable)
}

/// Checks whether user mode may write every byte of the range: every page
/// of it is present, open to user mode and writable.
pub fn isUserWritableAddr(dir: &PageDirectory, addr: LogicalAddress, len: u32) -> (writable: bool)
    requires
        dir.wf(),
    ensures
        writable == span_meets(dir, addr, len, PageCheck::UserWritable),
{
    spanMeets(dir, addr, len, PageCheck::UserWritable)
}

/// The string in `memory` ends at index `n`: there is the first zero byte.
pub open spec fn terminated_at(memory: Seq<u8>, n: int) -> bool {
    &&& 0 <= n < memory.len()
    &&& memory[n] == 0
    &&& forall|i: int| 0 <= i < n ==> memory[i] != 0
}

/// User mode may read the byte `i` bytes behind `str`.
pub open spec fn byte_readable(dir: &PageDirectory, str: LogicalAddress, i: int) -> bool {
    &&& str.0 + i < 0x1_0000_0000
    &&& meets(PageCheck::UserReadable, dir.entry_at(LogicalAddress((str.0 + i) as u32)))
}

/// User mode may read the bytes from `str` up to and including the one `n`
/// bytes behind it.
pub open spec fn readable_through(dir: &PageDirectory, str: LogicalAddress, n: int) -> bool {
    forall|i: int| 0 <= i <= n ==> #[trigger] byte_readable(dir, str, i)
}

/// The length of the zero-terminated string at `str`, where user mode may
/// read all of it. `memory` holds the bytes that lie at `str` and behind it,
/// as far as they can be fetched. The length is returned when the string
/// ends inside `memory` and every byte of it, the zero included, is readable
/// by user mode; the walk gives up at the first byte that is not.
pub fn readableStringLen(dir: &PageDirectory, str: LogicalAddress, memory: &Vec<u8>) -> (length:
    Option<usize>)
    requires
        dir.wf(),
    ensures
        match length {
            Some(n) => terminated_at(memory@, n as int) && readable_through(dir, str, n as int),
            None => forall|n: int| #[trigger]
                terminated_at(memory@, n) ==> !readable_through(dir, str, n),
        },
{
    let mut len: usize = 0;
    while len < memory.len()
        invariant
            dir.wf(),
            len <= memory.len(),
            forall|i: int| 0 <= i < len ==> memory[i] != 0,
            forall|i: int| 0 <= i < len ==> #[trigger] byte_readable(dir, str, i),
        decreases memory.len() - len,
    {
        if len > (0xffff_ffffu32 - str.0) as usize {
            assert(!byte_readable(dir, str, len as int));
            return None;
        }
        let here = LogicalAddress(str.0 + len as u32);
        if !isUserReadableAddr(dir, here, 1) {
            proof {
                if byte_readable(dir, str, len as int) {
                    assert forall|a: LogicalAddress| in_bytes(here, 1, a) implies meets(
                        PageCheck::UserReadable,
                        #[trigger] dir.entry_at(a),
                    ) by {
                        lemma_address_parts(a.0);
                        lemma_address_parts(here.0);
                        lemma_same_entry(a, here);
                    }
                }
            }
            return None;
        }
        proof {
            lemma_address_parts(here.0);
            assert(in_bytes(here, 1, here));
        }
        if memory[len] == 0 {
            return Some(len);
        }
        len += 1;
    }
    None
}

} // verus!
