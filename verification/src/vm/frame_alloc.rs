//! The allocator of physical frames.
//!
//! The allocator hands out the page-sized frames of one region of physical
//! memory. Whether a frame is free is recorded in the kernel's directory,
//! which maps every frame of the region at its own address: the free mark of
//! the page entry for address `f` says that frame `f` is free. Beside the
//! marks the allocator counts the bytes that are free and not yet promised
//! to anyone. A reservation takes bytes off that count without choosing a
//! frame; fulfilling it chooses the frame.

#![allow(non_snake_case)]

use crate::virtual_memory::{
    lemma_address_parts, LogicalAddress, PageDirectory, PageEntry, PhysicalAddress, PAGE_FREE,
    PAGE_SIZE,
};
use crate::vm::page_entry::{lemma_cleared, lemma_flag_bits, lemma_with};
use crate::vm::paging::{lemma_other_entry, lemma_same_entry, page_start};
use vstd::prelude::*;

verus! {

/// The state of the frame allocator.
pub struct FrameAllocator {
    kernelDirectory: PageDirectory,
    regionStart: PhysicalAddress,
    regionEnd: PhysicalAddress,
    currFrame: PhysicalAddress,
    bytesFree: u32,
}

/// `f` is the address of a frame of the region `[start, end)`.
pub open spec fn frame_of_region(start: int, end: int, f: int) -> bool {
    start <= f < end && f % 4096 == 0
}

/// Frame `f` carries the free mark in `dir`.
pub open spec fn marked_free(dir: &PageDirectory, f: int) -> bool {
    dir.entry_at(LogicalAddress(f as u32)) matches Some(e) && e.free()
}

/// `dir` has a page entry for the address `f`.
pub open spec fn has_entry(dir: &PageDirectory, f: int) -> bool {
    dir.entry_at(LogicalAddress(f as u32)) is Some
}

/// Number of frames in `[lo, hi)` that carry the free mark in `dir`.
pub open spec fn free_count(dir: &PageDirectory, lo: int, hi: int) -> nat
    decreases (if hi > lo { hi - lo } else { 0 }),
{
    if hi <= lo {
        0
    } else {
        free_count(dir, lo, hi - 4096) + if marked_free(dir, hi - 4096) {
            1nat
        } else {
            0nat
        }
    }
}

/// Two directories that mark the same frames of `[lo, hi)` mark as many.
pub proof fn lemma_count_same(one: &PageDirectory, other: &PageDirectory, lo: int, hi: int)
    requires
        lo % 4096 == 0,
        hi % 4096 == 0,
        forall|f: int| frame_of_region(lo, hi, f) ==> marked_free(one, f) == marked_free(other, f),
    ensures
        free_count(one, lo, hi) == free_count(other, lo, hi),
    decreases (if hi > lo { hi - lo } else { 0 }),
{
    if hi > lo {
        assert(frame_of_region(lo, hi, hi - 4096));
        assert forall|f: int| frame_of_region(lo, hi - 4096, f) implies marked_free(one, f)
            == marked_free(other, f) by {
            assert(frame_of_region(lo, hi, f));
        }
        lemma_count_same(one, other, lo, hi - 4096);
    }
}

/// Marking one frame of `[lo, hi)` that was not marked raises the count by
/// one. Read the other way round, clearing one mark lowers it by one.
pub proof fn lemma_count_one_more(
    fewer: &PageDirectory,
    more: &PageDirectory,
    lo: int,
    hi: int,
    frame: int,
)
    requires
        lo % 4096 == 0,
        hi % 4096 == 0,
        frame_of_region(lo, hi, frame),
        !marked_free(fewer, frame),
        marked_free(more, frame),
        forall|f: int|
            frame_of_region(lo, hi, f) && f != frame ==> marked_free(fewer, f) == marked_free(
                more,
                f,
            ),
    ensures
        free_count(more, lo, hi) == free_count(fewer, lo, hi) + 1,
    decreases (if hi > lo { hi - lo } else { 0 }),
{
    let last = hi - 4096;
    assert(frame_of_region(lo, hi, last));
    if frame == last {
        assert forall|f: int| frame_of_region(lo, last, f) implies marked_free(fewer, f)
            == marked_free(more, f) by {
            assert(frame_of_region(lo, hi, f));
        }
        lemma_count_same(fewer, more, lo, last);
    } else {
        assert forall|f: int| frame_of_region(lo, last, f) && f != frame implies marked_free(
            fewer,
            f,
        ) == marked_free(more, f) by {
            assert(frame_of_region(lo, hi, f));
        }
        lemma_count_one_more(fewer, more, lo, last, frame);
    }
}

/// Where every frame of `[lo, hi)` is marked, the count is the number of
/// frames.
pub proof fn lemma_count_all(dir: &PageDirectory, lo: int, hi: int)
    requires
        lo % 4096 == 0,
        hi % 4096 == 0,
        lo <= hi,
        forall|f: int| frame_of_region(lo, hi, f) ==> marked_free(dir, f),
    ensures
        free_count(dir, lo, hi) * 4096 == hi - lo,
    decreases (if hi > lo { hi - lo } else { 0 }),
{
    if hi > lo {
        assert(frame_of_region(lo, hi, hi - 4096));
        assert forall|f: int| frame_of_region(lo, hi - 4096, f) implies marked_free(dir, f) by {
            assert(frame_of_region(lo, hi, f));
        }
        lemma_count_all(dir, lo, hi - 4096);
    }
}

/// Where the count is not zero, some frame of `[lo, hi)` is marked.
pub proof fn lemma_count_witness(dir: &PageDirectory, lo: int, hi: int)
    requires
        lo % 4096 == 0,
        hi % 4096 == 0,
        free_count(dir, lo, hi) > 0,
    ensures
        exists|f: int| frame_of_region(lo, hi, f) && marked_free(dir, f),
    decreases (if hi > lo { hi - lo } else { 0 }),
{
    let last = hi - 4096;
    if marked_free(dir, last) {
        assert(frame_of_region(lo, hi, last));
    } else {
        lemma_count_witness(dir, lo, last);
        let f = choose|f: int| frame_of_region(lo, last, f) && marked_free(dir, f);
        assert(frame_of_region(lo, hi, f));
    }
}

impl FrameAllocator {
    /// The kernel's directory, which holds the free marks.
    pub closed spec fn directory(&self) -> &PageDirectory {
        &self.kernelDirectory
    }

    /// First address of the region.
    pub closed spec fn region_start(&self) -> PhysicalAddress {
        self.regionStart
    }

    /// First address behind the region.
    pub closed spec fn region_end(&self) -> PhysicalAddress {
        self.regionEnd
    }

    /// The frame at which the next search starts.
    pub closed spec fn current_frame(&self) -> PhysicalAddress {
        self.currFrame
    }

    /// Bytes that are free and not promised to anyone.
    pub closed spec fn bytes_free(&self) -> u32 {
        self.bytesFree
    }

    /// `f` is the address of a frame of the region.
    pub open spec fn manages(&self, f: int) -> bool {
        frame_of_region(self.region_start() as int, self.region_end() as int, f)
    }

    /// Frame `f` carries the free mark.
    pub open spec fn is_free(&self, f: int) -> bool {
        marked_free(self.directory(), f)
    }

    /// Number of frames of the region that carry the free mark.
    pub open spec fn frames_free(&self) -> nat {
        free_count(self.directory(), self.region_start() as int, self.region_end() as int)
    }

    /// The region is made of whole frames, the kernel's directory has a page
    /// entry for each of them, and the search position is a frame of the
    /// region (or its start, where the region is empty).
    pub open spec fn wf(&self) -> bool {
        &&& self.directory().wf()
        &&& self.region_start() % 4096 == 0
        &&& self.region_end() % 4096 == 0
        &&& self.region_start() <= self.region_end()
        &&& self.current_frame() % 4096 == 0
        &&& self.region_start() <= self.current_frame()
        &&& self.current_frame() < self.region_end() || self.current_frame() == self.region_end()
            && self.region_start() == self.region_end()
        &&& forall|f: int| #[trigger]
            self.manages(f) ==> self.directory().entry_at(LogicalAddress(f as u32)) is Some
    }

    /// Every promise can be kept: the bytes counted as free and unpromised
    /// are backed by marked frames.
    pub open spec fn honoured(&self) -> bool {
        self.bytes_free() <= self.frames_free() * 4096
    }

    /// Bytes that are promised and not yet chosen: what the marked frames
    /// hold beyond the bytes counted as free.
    pub open spec fn bytes_reserved(&self) -> int {
        self.frames_free() * 4096 - self.bytes_free()
    }

    /// Everything but the count of free bytes is as in `other`.
    pub open spec fn same_frames(&self, other: &FrameAllocator) -> bool {
        &&& self.directory() == other.directory()
        &&& self.region_start() == other.region_start()
        &&& self.region_end() == other.region_end()
        &&& self.current_frame() == other.current_frame()
    }

    /// Position of frame `f` in the search that starts at the current frame
    /// and wraps from the end of the region to its start.
    pub open spec fn rank(&self, f: int) -> int {
        if f >= self.current_frame() {
            f - self.current_frame()
        } else {
            f - self.region_start() + (self.region_end() - self.current_frame())
        }
    }

    /// The frame at position `rank` of the search.
    pub open spec fn at_rank(&self, rank: int) -> int {
        if self.current_frame() + rank < self.region_end() {
            self.current_frame() + rank
        } else {
            self.current_frame() + rank - (self.region_end() - self.region_start())
        }
    }

    /// The kernel's directory.
    pub fn kernelDirectory(&self) -> (dir: &PageDirectory)
        ensures
            dir == self.directory(),
    {
        &self.kernelDirectory
    }

    /// Bytes that are free and not promised to anyone.
    pub fn bytesFree(&self) -> (bytes: u32)
        ensures
            bytes == self.bytes_free(),
    {
        self.bytesFree
    }

    /// The bounds of the region: its first address and the first address
    /// behind it.
    pub fn region(&self) -> (bounds: (PhysicalAddress, PhysicalAddress))
        ensures
            bounds.0 == self.region_start(),
            bounds.1 == self.region_end(),
    {
        (self.regionStart, self.regionEnd)
    }
}

/// Whether the kernel directory has a page entry for every frame of
/// `[start, end)`.
pub fn coversRegion(dir: &PageDirectory, start: PhysicalAddress, end: PhysicalAddress) -> (covered:
    bool)
    requires
        dir.wf(),
        start % 4096 == 0,
        end % 4096 == 0,
    ensures
        covered == forall|f: int| #[trigger]
            frame_of_region(start as int, end as int, f) ==> dir.entry_at(LogicalAddress(f as u32))
                is Some,
{
    let mut addr = start;
    while addr < end
        invariant
            dir.wf(),
            start % 4096 == 0,
            end % 4096 == 0,
            addr % 4096 == 0,
            start <= addr,
            forall|f: int| #[trigger]
                frame_of_region(start as int, addr as int, f) ==> dir.entry_at(
                    LogicalAddress(f as u32),
                ) is Some,
        decreases end - addr,
    {
        if dir.tryGetPageEntry(LogicalAddress(addr)).is_none() {
            assert(frame_of_region(start as int, end as int, addr as int));
            return false;
        }
        assert forall|f: int| #[trigger]
            frame_of_region(start as int, addr + 4096, f) implies dir.entry_at(
            LogicalAddress(f as u32),
        ) is Some by {
            if f != addr {
                assert(frame_of_region(start as int, addr as int, f));
            }
        }
        addr = addr + PAGE_SIZE;
    }
    assert forall|f: int| #[trigger]
        frame_of_region(start as int, end as int, f) implies dir.entry_at(LogicalAddress(f as u32))
        is Some by {
        assert(frame_of_region(start as int, addr as int, f));
    }
    true
}

/// Sets up frame allocation from the region `[start, end)`: every frame of
/// the region is marked free in `kernelDirectory`, which the allocator takes
/// over, and all its bytes count as free.
pub fn initFrameAllocator(
    kernelDirectory: PageDirectory,
    start: PhysicalAddress,
    end: PhysicalAddress,
) -> (allocator: FrameAllocator)
    requires
        kernelDirectory.wf(),
        start % 4096 == 0,
        end % 4096 == 0,
        start <= end,
        forall|f: int| #[trigger]
            frame_of_region(start as int, end as int, f) ==> kernelDirectory.entry_at(
                LogicalAddress(f as u32),
            ) is Some,
    ensures
        allocator.wf(),
        allocator.region_start() == start,
        allocator.region_end() == end,
        allocator.current_frame() == start,
        allocator.bytes_free() == end - start,
        allocator.frames_free() * 4096 == end - start,
        allocator.honoured(),
        allocator.directory().base() == kernelDirectory.base(),
        allocator.directory().directory() == kernelDirectory.directory(),
        forall|a: LogicalAddress|
            kernelDirectory.entry_at(a) is Some ==> #[trigger] allocator.directory().entry_at(a)
                == Some(
                if frame_of_region(start as int, end as int, page_start(a)) {
                    kernelDirectory.entry_at(a)->0.with(PAGE_FREE)
                } else {
                    kernelDirectory.entry_at(a)->0
                },
            ),
        forall|a: LogicalAddress|
            kernelDirectory.entry_at(a) is None ==> #[trigger] allocator.directory().entry_at(a)
                is None,
{
    let ghost given = kernelDirectory;
    let mut dir = kernelDirectory;
    let mut addr = start;
    while addr < end
        invariant
            dir.wf(),
            given.wf(),
            start % 4096 == 0,
            end % 4096 == 0,
            addr % 4096 == 0,
            start <= addr <= end,
            dir.base() == given.base(),
            dir.directory() == given.directory(),
            forall|a: LogicalAddress|
                given.entry_at(a) is Some ==> #[trigger] dir.entry_at(a) == Some(
                    if frame_of_region(start as int, addr as int, page_start(a)) {
                        given.entry_at(a)->0.with(PAGE_FREE)
                    } else {
                        given.entry_at(a)->0
                    },
                ),
            forall|a: LogicalAddress| given.entry_at(a) is None
                ==> #[trigger] dir.entry_at(a) is None,
            forall|f: int| #[trigger]
                frame_of_region(start as int, end as int, f) ==> given.entry_at(
                    LogicalAddress(f as u32),
                ) is Some,
        decreases end - addr,
    {
        let here = LogicalAddress(addr);
        let ghost before = dir;
        assert(frame_of_region(start as int, end as int, addr as int));
        proof {
            lemma_address_parts(addr);
        }
        let entry = *dir.tryGetPageEntry(here).unwrap();
        dir.setPageEntry(here, PageEntry(entry.0 | PAGE_FREE));
        proof {
            assert forall|a: LogicalAddress| given.entry_at(a) is Some
                implies #[trigger] dir.entry_at(a) == Some(
                if frame_of_region(start as int, addr + 4096, page_start(a)) {
                    given.entry_at(a)->0.with(PAGE_FREE)
                } else {
                    given.entry_at(a)->0
                },
            ) by {
                lemma_same_entry(a, here);
                assert(before.entry_at(a) is Some);
                if page_start(a) == addr {
                } else {
                    lemma_other_entry(&before, &dir, here, a);
                }
            }
            assert forall|a: LogicalAddress| given.entry_at(a) is None
                implies #[trigger] dir.entry_at(a) is None by {
                assert(before.entry_at(a) is None);
                lemma_same_entry(a, here);
                lemma_other_entry(&before, &dir, here, a);
            }
        }
        addr = addr + PAGE_SIZE;
    }
    let allocator = FrameAllocator {
        kernelDirectory: dir,
        regionStart: start,
        regionEnd: end,
        currFrame: start,
        bytesFree: end - start,
    };
    proof {
        assert forall|f: int| frame_of_region(start as int, end as int, f) implies marked_free(
            allocator.directory(),
            f,
        ) by {
            let a = LogicalAddress(f as u32);
            lemma_address_parts(f as u32);
            assert(page_start(a) == f);
            assert(given.entry_at(a) is Some);
            lemma_with(given.entry_at(a).unwrap().0, PAGE_FREE);
            lemma_flag_bits();
        }
        lemma_count_all(allocator.directory(), start as int, end as int);
    }
    allocator
}

/// `count` frames in bytes.
pub open spec fn bytes_of(count: u32) -> int {
    count * 4096
}

/// The sum of two byte counts, held at the largest count that fits.
pub open spec fn capped_sum(bytes: int, more: int) -> u32 {
    if bytes + more > u32::MAX {
        u32::MAX
    } else {
        (bytes + more) as u32
    }
}

/// What reserving `count` frames does: it is granted exactly when that many
/// bytes are free and unpromised, and then takes them off the count.
pub open spec fn reserve_rel(pre: &FrameAllocator, count: u32, post: &FrameAllocator,
    granted: bool) -> bool {
    &&& post.same_frames(pre)
    &&& granted == (pre.bytes_free() >= bytes_of(count))
    &&& post.bytes_free() == if granted {
        (pre.bytes_free() - bytes_of(count)) as u32
    } else {
        pre.bytes_free()
    }
}

/// What giving `count` reserved frames back does: their bytes count as free
/// again.
pub open spec fn unreserve_rel(pre: &FrameAllocator, count: u32, post: &FrameAllocator) -> bool {
    &&& post.same_frames(pre)
    &&& post.bytes_free() == capped_sum(pre.bytes_free() as int, bytes_of(count))
}

/// What choosing a frame does. Where a frame of the region is marked free,
/// the first such frame of the search is chosen: its mark is cleared and the
/// search position moves to it. Where none is marked, nothing is chosen and
/// nothing changes.
pub open spec fn fulfil_rel(pre: &FrameAllocator, post: &FrameAllocator,
    frame: Option<PhysicalAddress>) -> bool {
    match frame {
        Some(f) => {
            &&& pre.manages(f as int)
            &&& pre.is_free(f as int)
            &&& forall|g: int| #[trigger]
                pre.manages(g) && pre.is_free(g) ==> pre.rank(f as int) <= pre.rank(g)
            &&& post.directory().rewritten_at(
                pre.directory(),
                LogicalAddress(f),
                pre.directory().entry_at(LogicalAddress(f))->0.cleared(PAGE_FREE),
            )
            &&& post.current_frame() == f
            &&& post.bytes_free() == pre.bytes_free()
            &&& post.region_start() == pre.region_start()
            &&& post.region_end() == pre.region_end()
            &&& post.frames_free() == pre.frames_free() - 1
        },
        None => {
            &&& forall|g: int| #[trigger] pre.manages(g) ==> !pre.is_free(g)
            &&& pre.frames_free() == 0
            &&& *post == *pre
        },
    }
}

/// What allocating a frame does: one frame is reserved and, where that is
/// granted, chosen.
pub open spec fn alloc_rel(pre: &FrameAllocator, post: &FrameAllocator,
    frame: Option<PhysicalAddress>) -> bool {
    if pre.bytes_free() < 4096 {
        frame is None && *post == *pre
    } else {
        exists|mid: FrameAllocator| #[trigger]
            reserve_rel(pre, 1, &mid, true) && mid.wf() && fulfil_rel(&mid, post, frame)
    }
}

/// What freeing the page-aligned frame `frame` does. A frame of the region
/// is marked free and its bytes count as free again. Any other address is
/// refused and nothing changes.
pub open spec fn free_rel(pre: &FrameAllocator, frame: PhysicalAddress, post: &FrameAllocator)
    -> bool {
    if pre.manages(frame as int) {
        &&& post.directory().rewritten_at(
            pre.directory(),
            LogicalAddress(frame),
            pre.directory().entry_at(LogicalAddress(frame))->0.with(PAGE_FREE),
        )
        &&& post.is_free(frame as int)
        &&& post.bytes_free() == capped_sum(pre.bytes_free() as int, 4096)
        &&& post.region_start() == pre.region_start()
        &&& post.region_end() == pre.region_end()
        &&& post.current_frame() == pre.current_frame()
        &&& post.frames_free() == pre.frames_free() + if pre.is_free(frame as int) {
            0int
        } else {
            1int
        }
    } else {
        *post == *pre
    }
}

/// A directory in which one page entry was rewritten still has a page entry
/// wherever it had one, and marks the same frames free but for the frame of
/// the rewritten page.
pub proof fn lemma_rewritten_marks(
    before: &PageDirectory,
    after: &PageDirectory,
    at: LogicalAddress,
    entry: PageEntry,
)
    requires
        after.rewritten_at(before, at, entry),
        at.0 % 4096 == 0,
    ensures
        forall|f: int|
            0 <= f <= u32::MAX && f % 4096 == 0 && f != at.0 ==> marked_free(after, f)
                == marked_free(before, f),
        forall|f: int|
            0 <= f <= u32::MAX && f % 4096 == 0 && #[trigger] has_entry(before, f) ==> has_entry(
                after,
                f,
            ),
        marked_free(after, at.0 as int) == entry.free(),
{
    lemma_address_parts(at.0);
    assert(page_start(at) == at.0);
    assert forall|f: int|
        0 <= f <= u32::MAX && f % 4096 == 0 && f != at.0 implies marked_free(after, f)
        == marked_free(before, f) by {
        let a = LogicalAddress(f as u32);
        lemma_address_parts(f as u32);
        assert(page_start(a) == f);
        assert(after.entry_at(a) == before.entry_at(a));
    }
    assert forall|f: int|
        0 <= f <= u32::MAX && f % 4096 == 0 && #[trigger] has_entry(before, f) implies has_entry(
        after,
        f,
    ) by {
        let a = LogicalAddress(f as u32);
        lemma_address_parts(f as u32);
        assert(page_start(a) == f);
        assert(after.entry_at(a) == if f == at.0 {
            Some(entry)
        } else {
            before.entry_at(a)
        });
    }
    assert(after.entry_at(at) == Some(entry));
}

/// Reserves `count` frames without choosing them. Granted exactly when that
/// many bytes are free and unpromised.
pub fn reserveFrames(allocator: &mut FrameAllocator, count: u32) -> (outcome: Result<(), ()>)
    ensures
        reserve_rel(old(allocator), count, final(allocator), outcome is Ok),
        old(allocator).wf() ==> final(allocator).wf(),
{
    let wanted: u64 = (count as u64) * 4096;
    if allocator.bytesFree as u64 >= wanted {
        allocator.bytesFree = (allocator.bytesFree as u64 - wanted) as u32;
        proof {
            lemma_same_frames_wf(old(allocator), allocator);
        }
        Ok(())
    } else {
        Err(())
    }
}

/// Whether an allocator is well formed does not depend on its count of free
/// bytes.
pub proof fn lemma_same_frames_wf(one: &FrameAllocator, other: &FrameAllocator)
    requires
        other.same_frames(one),
    ensures
        one.wf() ==> other.wf(),
{
    if one.wf() {
        assert forall|f: int| #[trigger] other.manages(f) implies other.directory().entry_at(
            LogicalAddress(f as u32),
        ) is Some by {
            assert(one.manages(f));
        }
    }
}

/// Gives `count` reserved frames back. The count of free bytes stops at the
/// largest value it can hold, which no count that stems from reservations
/// reaches.
pub fn unreserveFrames(allocator: &mut FrameAllocator, count: u32)
    ensures
        unreserve_rel(old(allocator), count, final(allocator)),
        old(allocator).wf() ==> final(allocator).wf(),
{
    let back: u64 = (count as u64) * 4096;
    assert(back == count * 4096);
    let sum: u64 = allocator.bytesFree as u64 + back;
    allocator.bytesFree = if sum > u32::MAX as u64 {
        u32::MAX
    } else {
        sum as u32
    };
    proof {
        lemma_same_frames_wf(old(allocator), allocator);
    }
}

/// The frame found first in the search is the one of least rank among the
/// marked frames, and clearing its mark lowers the count of marked frames by
/// one.
proof fn lemma_found(before: &FrameAllocator, after: &FrameAllocator, curr: PhysicalAddress,
    done: int)
    requires
        before.wf(),
        before.manages(curr as int),
        before.is_free(curr as int),
        before.rank(curr as int) == done,
        forall|g: int| #[trigger] before.manages(g) && before.rank(g) < done ==> !before.is_free(g),
        after.directory().wf(),
        after.directory().rewritten_at(
            before.directory(),
            LogicalAddress(curr),
            before.directory().entry_at(LogicalAddress(curr))->0.cleared(PAGE_FREE),
        ),
        after.current_frame() == curr,
        after.bytes_free() == before.bytes_free(),
        after.region_start() == before.region_start(),
        after.region_end() == before.region_end(),
    ensures
        after.wf(),
        fulfil_rel(before, after, Some(curr)),
{
    let here = LogicalAddress(curr);
    let entry = before.directory().entry_at(here)->0;
    lemma_cleared(entry.0, PAGE_FREE);
    lemma_flag_bits();
    lemma_rewritten_marks(before.directory(), after.directory(), here, entry.cleared(PAGE_FREE));
    lemma_count_one_more(
        after.directory(),
        before.directory(),
        before.region_start() as int,
        before.region_end() as int,
        curr as int,
    );
    assert forall|f: int| #[trigger] after.manages(f) implies after.directory().entry_at(
        LogicalAddress(f as u32),
    ) is Some by {
        assert(before.manages(f));
        assert(has_entry(before.directory(), f));
    }
    assert forall|g: int| #[trigger] before.manages(g) && before.is_free(g) implies before.rank(
        curr as int,
    ) <= before.rank(g) by {
        if before.rank(g) < done {
            assert(!before.is_free(g));
        }
    }
}

/// Chooses a frame for a reservation made before: the first frame marked
/// free, searching from the current frame and wrapping at the end of the
/// region. `None` when no frame of the region is marked free, which cannot
/// happen while reservations are honoured.
pub fn fulfillReservedFrame(allocator: &mut FrameAllocator) -> (frame: Option<PhysicalAddress>)
    requires
        old(allocator).wf(),
    ensures
        final(allocator).wf(),
        fulfil_rel(old(allocator), final(allocator), frame),
{
    let start = allocator.regionStart;
    let end = allocator.regionEnd;
    let length: u32 = end - start;
    let mut curr = allocator.currFrame;
    let mut done: u32 = 0;
    while done < length
        invariant
            *allocator == *old(allocator),
            allocator.wf(),
            start == allocator.region_start(),
            end == allocator.region_end(),
            length == end - start,
            done % 4096 == 0,
            done <= length,
            done < length ==> curr == allocator.at_rank(done as int) && start <= curr < end && curr
                % 4096 == 0,
            forall|g: int| #[trigger]
                allocator.manages(g) && allocator.rank(g) < done ==> !allocator.is_free(g),
        decreases length - done,
    {
        let here = LogicalAddress(curr);
        assert(allocator.manages(curr as int));
        let entry = *allocator.kernelDirectory.tryGetPageEntry(here).unwrap();
        if entry.page_is_free() {
            let ghost before = *allocator;
            allocator.kernelDirectory.setPageEntry(here, PageEntry(entry.0 & !PAGE_FREE));
            allocator.currFrame = curr;
            proof {
                lemma_found(&before, allocator, curr, done as int);
            }
            return Some(curr);
        }
        proof {
            assert forall|g: int| #[trigger]
                allocator.manages(g) && allocator.rank(g) < done + 4096 implies !allocator.is_free(
                g,
            ) by {
                if allocator.rank(g) >= done {
                    assert(g % 4096 == 0);
                    assert(allocator.rank(g) % 4096 == 0);
                    assert(allocator.rank(g) == done);
                    assert(g == curr);
                }
            }
        }
        curr = curr + PAGE_SIZE;
        if curr >= end {
            curr = start;
        }
        done = done + PAGE_SIZE;
    }
    proof {
        assert forall|g: int| #[trigger] allocator.manages(g) implies !allocator.is_free(g) by {
            assert(allocator.rank(g) < done);
        }
        assert forall|f: int| frame_of_region(start as int, end as int, f) implies !marked_free(
            allocator.directory(),
            f,
        ) by {
            assert(allocator.manages(f));
        }
        lemma_count_none(allocator.directory(), start as int, end as int);
    }
    None
}

/// Where no frame of `[lo, hi)` is marked, the count is zero.
pub proof fn lemma_count_none(dir: &PageDirectory, lo: int, hi: int)
    requires
        lo % 4096 == 0,
        hi % 4096 == 0,
        forall|f: int| frame_of_region(lo, hi, f) ==> !marked_free(dir, f),
    ensures
        free_count(dir, lo, hi) == 0,
    decreases (if hi > lo { hi - lo } else { 0 }),
{
    if hi > lo {
        assert(frame_of_region(lo, hi, hi - 4096));
        assert forall|f: int| frame_of_region(lo, hi - 4096, f) implies !marked_free(dir, f) by {
            assert(frame_of_region(lo, hi, f));
        }
        lemma_count_none(dir, lo, hi - 4096);
    }
}

/// Allocates a frame: reserves one and chooses it.
pub fn allocFrame(allocator: &mut FrameAllocator) -> (frame: Option<PhysicalAddress>)
    requires
        old(allocator).wf(),
    ensures
        final(allocator).wf(),
        alloc_rel(old(allocator), final(allocator), frame),
        frame matches Some(f) ==> f % 4096 == 0 && old(allocator).manages(f as int)
            && old(allocator).is_free(f as int) && final(allocator).bytes_free()
                == old(allocator).bytes_free() - 4096,
        old(allocator).honoured() ==> final(allocator).honoured(),
        old(allocator).honoured() ==> (frame is Some <==> old(allocator).bytes_free() >= 4096),
{
    match reserveFrames(allocator, 1) {
        Err(_) => None,
        Ok(_) => {
            let ghost mid = *allocator;
            proof {
                if old(allocator).honoured() {
                    lemma_count_witness(
                        mid.directory(),
                        mid.region_start() as int,
                        mid.region_end() as int,
                    );
                }
            }
            let frame = fulfillReservedFrame(allocator);
            assert(reserve_rel(old(allocator), 1, &mid, true) && mid.wf() && fulfil_rel(
                &mid,
                allocator,
                frame,
            ));
            frame
        },
    }
}

/// Frees the page-aligned frame at `frame`. An address outside the region is
/// refused without effect. Returns whether the request was in order: the
/// frame lies in the region.
pub fn freeFrame(allocator: &mut FrameAllocator, frame: PhysicalAddress) -> (legal: bool)
    requires
        old(allocator).wf(),
        frame % 4096 == 0,
    ensures
        final(allocator).wf(),
        free_rel(old(allocator), frame, final(allocator)),
        legal == old(allocator).manages(frame as int),
{
    if allocator.regionStart <= frame && frame < allocator.regionEnd {
        let here = LogicalAddress(frame);
        assert(allocator.manages(frame as int));
        let ghost before = *allocator;
        let entry = *allocator.kernelDirectory.tryGetPageEntry(here).unwrap();
        allocator.kernelDirectory.setPageEntry(here, PageEntry(entry.0 | PAGE_FREE));
        let sum: u64 = allocator.bytesFree as u64 + PAGE_SIZE as u64;
        allocator.bytesFree = if sum > u32::MAX as u64 {
            u32::MAX
        } else {
            sum as u32
        };
        proof {
            let marked = entry.with(PAGE_FREE);
            lemma_with(entry.0, PAGE_FREE);
            lemma_flag_bits();
            lemma_rewritten_marks(before.directory(), allocator.directory(), here, marked);
            if before.is_free(frame as int) {
                lemma_count_same(
                    before.directory(),
                    allocator.directory(),
                    before.region_start() as int,
                    before.region_end() as int,
                );
            } else {
                lemma_count_one_more(
                    before.directory(),
                    allocator.directory(),
                    before.region_start() as int,
                    before.region_end() as int,
                    frame as int,
                );
            }
            assert forall|f: int| #[trigger] allocator.manages(f)
                implies allocator.directory().entry_at(LogicalAddress(f as u32)) is Some by {
                assert(before.manages(f));
                assert(has_entry(before.directory(), f));
            }
        }
        true
    } else {
        false
    }
}

/// Allocating a frame and freeing it again leaves as many bytes free and
/// unpromised as before.
pub proof fn lemma_alloc_then_free_restores_bytes(
    before: &FrameAllocator,
    taken: &FrameAllocator,
    frame: PhysicalAddress,
    back: &FrameAllocator,
)
    requires
        before.wf(),
        alloc_rel(before, taken, Some(frame)),
        free_rel(taken, frame, back),
    ensures
        back.bytes_free() == before.bytes_free(),
        back.frames_free() == before.frames_free(),
{
    let mid = choose|mid: FrameAllocator| #[trigger]
        reserve_rel(before, 1, &mid, true) && mid.wf() && fulfil_rel(&mid, taken, Some(frame));
    assert(taken.manages(frame as int));
    lemma_address_parts(frame);
    assert(taken.directory().entry_at(LogicalAddress(frame)) == Some(
        mid.directory().entry_at(LogicalAddress(frame))->0.cleared(PAGE_FREE),
    ));
    lemma_cleared(mid.directory().entry_at(LogicalAddress(frame))->0 .0, PAGE_FREE);
    lemma_flag_bits();
}

/// Giving back what was reserved undoes the reservation.
pub proof fn lemma_unreserve_undoes_reserve(
    before: &FrameAllocator,
    held: &FrameAllocator,
    count: u32,
    back: &FrameAllocator,
)
    requires
        reserve_rel(before, count, held, true),
        unreserve_rel(held, count, back),
    ensures
        back.bytes_free() == before.bytes_free(),
        back.same_frames(before),
{
}

} // verus!
