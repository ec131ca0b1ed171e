use kernel_core::virtual_memory::{
    AddressMapping, AllocMapping, DirectMapping, LogicalAddress, PageDirectory, PageEntry,
    PageTable, ERROR_AT, NOT_A_FRAME, PAGE_COPY_ON_WRITE, PAGE_FREE, PAGE_GLOBAL, PAGE_PRESENT,
    PAGE_SIZE, PAGE_USER_ACCESS, PAGE_WRITABLE, TABLE_SIZE, USER_MEM_START,
};
use kernel_core::vm::frame_alloc::{
    allocFrame, coversRegion, freeFrame, fulfillReservedFrame, initFrameAllocator, reserveFrames,
    unreserveFrames, FrameAllocator,
};
use kernel_core::vm::invalidate_page::invalidatePage;
use kernel_core::vm::manager::{
    foreach_entry_in, initVirtualMemory, kernelDirectory, nextAddress, zeroedPage,
};
use kernel_core::vm::memory_alloc::{
    freeMappedPage, freeMappedPageSafe, freeMemoryRange, freeMemoryRangeSafe, mapMemoryRange,
    mapMemoryRangeSafe, mapPage, mapPageSafe,
};
use kernel_core::vm::mmu::Mmu;
use kernel_core::vm::page::Page;
use kernel_core::vm::validate_memory::{
    getPageFlags, isUnmappedAddr, isUserReadableAddr, isUserWritableAddr, readableStringLen,
};

const HEAP: u32 = 0x0010_0000;
const KERNEL_BASE: u32 = 0x000f_f000;

fn mmu_with_blocks(blocks: u32) -> Mmu {
    let mut mmu = Mmu::new(KERNEL_BASE, KERNEL_BASE);
    for i in (0..blocks).rev() {
        assert!(mmu.provide(HEAP + i * PAGE_SIZE));
    }
    mmu
}

fn allocator_over(frames: u32) -> (FrameAllocator, Mmu) {
    let mut mmu = mmu_with_blocks(4);
    let mut dir = PageDirectory::new(&mut mmu).unwrap();
    let start = USER_MEM_START;
    let end = USER_MEM_START + frames * PAGE_SIZE;
    let mut direct = DirectMapping;
    if frames > 0 {
        mapMemoryRange(
            &mut dir,
            &mut mmu,
            &mut direct,
            LogicalAddress(start),
            LogicalAddress(end),
            PAGE_WRITABLE,
        )
        .unwrap();
    }
    assert!(coversRegion(&dir, start, end));
    (initFrameAllocator(dir, start, end), mmu)
}

#[test]
fn mmu_hands_out_the_block_provided_last() {
    let mut mmu = Mmu::new(0x1000, 0x2000);
    assert_eq!(mmu.get_cr3(), 0x1000);
    assert_eq!(mmu.kernelBase(), 0x2000);
    assert_eq!(mmu.takeBlock(), None);
    assert!(mmu.provide(0x5000));
    assert!(mmu.provide(0x7000));
    assert!(!mmu.provide(0x7004));
    assert_eq!(mmu.spareCount(), 2);
    assert_eq!(mmu.takeBlock(), Some(0x7000));
    assert_eq!(mmu.takeBlock(), Some(0x5000));
    assert_eq!(mmu.takeBlock(), None);
    mmu.set_cr3(0x9000);
    assert!(mmu.isLive(0x9000));
    assert!(!mmu.isLive(0x1000));
    mmu.publishKernel(0x9000);
    assert_eq!(mmu.kernelBase(), 0x9000);
}

#[test]
fn mmu_keeps_requests_in_order() {
    let mut mmu = Mmu::new(0, 0);
    invalidatePage(&mut mmu, LogicalAddress(0x3000));
    invalidatePage(&mut mmu, LogicalAddress(0x1000));
    mmu.zeroFrame(0x8000);
    assert_eq!(mmu.takeFlushed(), vec![LogicalAddress(0x3000), LogicalAddress(0x1000)]);
    assert_eq!(mmu.takeFlushed(), Vec::<LogicalAddress>::new());
    assert_eq!(mmu.takeZeroed(), vec![0x8000]);
    assert_eq!(mmu.takeZeroed(), Vec::<u32>::new());
}

#[test]
fn new_directory_is_empty_and_takes_a_block() {
    let mut mmu = mmu_with_blocks(1);
    let dir = PageDirectory::new(&mut mmu).unwrap();
    assert_eq!(dir.frame(), HEAP);
    assert_eq!(mmu.spareCount(), 0);
    assert!(dir.tryGetPageTable(LogicalAddress(0x1234_5678)).is_none());
    assert_eq!(dir.tryGetPageEntry(LogicalAddress(0)), None);
    assert_eq!(dir.tryGetPage(LogicalAddress(0)), None);
    assert_eq!(*dir.getPageTableEntry(LogicalAddress(0x1234_5678)), PageEntry(0));
    assert!(PageDirectory::new(&mut mmu).is_none());
}

#[test]
fn page_table_entries_are_found_by_table_index() {
    let mut table = PageTable::new(0x7000);
    assert_eq!(table.frame(), 0x7000);
    let addr = LogicalAddress::new(3, 17, 0x20);
    assert_eq!(*table.getPageEntry(addr), PageEntry(0));
    *table.getPageEntryMut(addr) = PageEntry(0x9003);
    assert_eq!(*table.getPageEntry(LogicalAddress::new(900, 17, 0)), PageEntry(0x9003));
    assert_eq!(*table.getPageEntry(LogicalAddress::new(3, 18, 0)), PageEntry(0));
}

#[test]
fn get_page_table_builds_a_missing_table() {
    let mut mmu = mmu_with_blocks(2);
    let mut dir = PageDirectory::new(&mut mmu).unwrap();
    let addr = LogicalAddress(0x1234_5678);
    let table = dir.getPageTable(&mut mmu, addr, PAGE_USER_ACCESS);
    assert_eq!(table, Some(HEAP + PAGE_SIZE));
    assert_eq!(
        *dir.getPageTableEntry(addr),
        PageEntry((HEAP + PAGE_SIZE) | PAGE_PRESENT | PAGE_USER_ACCESS)
    );
    assert_eq!(dir.tryGetPageEntry(addr), Some(&PageEntry(0)));
    assert_eq!(dir.tryGetPageEntry(LogicalAddress(0x1200_0000)), Some(&PageEntry(0)));
    assert_eq!(dir.tryGetPageEntry(LogicalAddress(0x1240_0000)), None);
    assert_eq!(dir.tryGetPage(addr), None);
    assert_eq!(mmu.spareCount(), 0);
    assert_eq!(mmu.takeFlushed(), Vec::<LogicalAddress>::new());
}

#[test]
fn get_page_table_upgrades_an_existing_table() {
    let mut mmu = mmu_with_blocks(2);
    let mut dir = PageDirectory::new(&mut mmu).unwrap();
    let addr = LogicalAddress(0x0040_1000);
    dir.getPageTable(&mut mmu, addr, PAGE_USER_ACCESS).unwrap();
    let again = dir.getPageTable(&mut mmu, addr, PAGE_WRITABLE);
    assert_eq!(again, Some(HEAP + PAGE_SIZE));
    assert_eq!(
        *dir.getPageTableEntry(addr),
        PageEntry((HEAP + PAGE_SIZE) | PAGE_PRESENT | PAGE_USER_ACCESS | PAGE_WRITABLE)
    );
    dir.getPageTable(&mut mmu, addr, 0).unwrap();
    assert!(dir.getPageTableEntry(addr).page_is_writable());
    assert_eq!(mmu.takeFlushed(), Vec::<LogicalAddress>::new());
}

#[test]
fn get_page_table_flushes_in_the_live_directory() {
    let mut mmu = mmu_with_blocks(2);
    let mut dir = PageDirectory::new(&mut mmu).unwrap();
    mmu.set_cr3(dir.frame());
    let addr = LogicalAddress(0x0040_1000);
    dir.getPageTable(&mut mmu, addr, 0).unwrap();
    assert_eq!(mmu.takeFlushed(), Vec::<LogicalAddress>::new());
    dir.getPageTable(&mut mmu, addr, 0).unwrap();
    assert_eq!(mmu.takeFlushed(), vec![addr]);
}

#[test]
fn get_page_table_fails_without_a_spare_block() {
    let mut mmu = mmu_with_blocks(1);
    let mut dir = PageDirectory::new(&mut mmu).unwrap();
    assert_eq!(dir.getPageTable(&mut mmu, LogicalAddress(0), PAGE_WRITABLE), None);
    assert_eq!(*dir.getPageTableEntry(LogicalAddress(0)), PageEntry(0));
    assert!(dir.insertPage(&mut mmu, 0x5000, LogicalAddress(0), PAGE_WRITABLE).is_err());
    assert_eq!(dir.tryGetPageEntry(LogicalAddress(0)), None);
}

#[test]
fn insert_page_places_a_frame_behind_an_address() {
    let mut mmu = mmu_with_blocks(2);
    let mut dir = PageDirectory::new(&mut mmu).unwrap();
    let addr = LogicalAddress(0x0800_3abc);
    assert!(dir.insertPage(&mut mmu, 0x0030_0000, addr, PAGE_WRITABLE | PAGE_USER_ACCESS).is_ok());
    assert_eq!(dir.tryGetPageEntry(addr), Some(&PageEntry(0x0030_0007)));
    assert_eq!(dir.tryGetPage(addr), Some(0x0030_0000));
    assert_eq!(dir.tryGetPage(LogicalAddress(0x0800_3000)), Some(0x0030_0000));
    assert_eq!(dir.tryGetPage(LogicalAddress(0x0800_4000)), None);
    assert!(dir.insertPage(&mut mmu, 0x0040_0123, addr, 0).is_ok());
    assert_eq!(dir.tryGetPageEntry(addr), Some(&PageEntry(0x0040_0001)));
}

#[test]
fn insert_page_table_installs_a_prepared_table() {
    let mut mmu = mmu_with_blocks(1);
    let mut dir = PageDirectory::new(&mut mmu).unwrap();
    let table = PageTable::new(0x0020_0000);
    dir.insertPageTable(table, 5, PAGE_WRITABLE);
    let inside = LogicalAddress(5 * TABLE_SIZE + 0x3000);
    assert_eq!(*dir.getPageTableEntry(inside), PageEntry(0x0020_0003));
    assert_eq!(dir.tryGetPageTable(inside).unwrap().frame(), 0x0020_0000);
    assert_eq!(dir.tryGetPageEntry(inside), Some(&PageEntry(0)));
    dir.setPageEntry(inside, PageEntry(0x7001));
    assert_eq!(dir.tryGetPage(inside), Some(0x7000));
    let taken = dir.removeTable(5).unwrap();
    assert_eq!(taken.frame(), 0x0020_0000);
    assert_eq!(*taken.getPageEntry(inside), PageEntry(0x7001));
    assert_eq!(*dir.getPageTableEntry(inside), PageEntry(0));
    assert!(dir.removeTable(5).is_none());
}

#[test]
fn direct_mapping_maps_an_address_onto_itself() {
    let mut direct = DirectMapping;
    assert_eq!(direct.allocAddressMapping(LogicalAddress(0x4000)), Some(0x4000));
    assert_eq!(direct.fulfillAddressMapping(LogicalAddress(0x9000)), Some(0x9000));
    assert_eq!(direct.reserveAddressMapping(1_000_000), Ok(()));
    direct.unreserveAddressMapping(3);
    direct.freeAddressMapping(0x4000);
    let mut mmu = mmu_with_blocks(2);
    let mut dir = PageDirectory::new(&mut mmu).unwrap();
    let page = mapPage(&mut dir, &mut mmu, &mut direct, LogicalAddress(0x0000_5123), PAGE_WRITABLE);
    assert_eq!(page, Some(0x5000));
    assert_eq!(dir.tryGetPageEntry(LogicalAddress(0x5000)), Some(&PageEntry(0x5003)));
}

#[test]
fn vm_round_trip_with_direct_mapping() {
    let mut mmu = mmu_with_blocks(3);
    let mut dir = PageDirectory::new(&mut mmu).unwrap();
    let mut direct = DirectMapping;
    for addr in [0x0000_0000u32, 0x0000_0abc, 0x0123_4567, 0xffff_ffff] {
        let at = LogicalAddress(addr);
        let page = dir.getPage(&mut mmu, &mut direct, at, PAGE_WRITABLE);
        if addr == 0xffff_ffff {
            assert_eq!(page, None);
            continue;
        }
        assert_eq!(page, Some(addr & !0xfff));
        assert_eq!(dir.tryGetPage(at), page);
        assert_eq!(dir.getPhysicalAddress(&mut mmu, &mut direct, at, PAGE_WRITABLE), Some(addr));
        freeMappedPage(&mut dir, &mut mmu, &mut direct, at);
        assert!(!dir.tryGetPageEntry(at).unwrap().page_is_present());
        assert_eq!(dir.tryGetPage(at), None);
    }
}

#[test]
fn vm_round_trip_with_alloc_mapping() {
    let (frames, mut mmu) = allocator_over(4);
    let mut mapping = AllocMapping { frames };
    let mut dir = PageDirectory::new(&mut mmu).unwrap();
    let at = LogicalAddress(0x2000_0456);
    let page = dir.getPage(&mut mmu, &mut mapping, at, PAGE_WRITABLE | PAGE_USER_ACCESS).unwrap();
    assert_eq!(page, USER_MEM_START);
    assert_eq!(dir.tryGetPage(at), Some(page));
    assert_eq!(
        dir.getPhysicalAddress(&mut mmu, &mut mapping, at, PAGE_WRITABLE),
        Some(page + 0x456)
    );
    assert_eq!(mapping.frames.bytesFree(), 3 * PAGE_SIZE);
    freeMappedPage(&mut dir, &mut mmu, &mut mapping, at);
    assert_eq!(dir.tryGetPageEntry(at), Some(&PageEntry(0)));
    assert_eq!(mapping.frames.bytesFree(), 4 * PAGE_SIZE);
}

#[test]
fn get_page_keeps_a_present_page() {
    let mut mmu = mmu_with_blocks(2);
    let mut dir = PageDirectory::new(&mut mmu).unwrap();
    let mut direct = DirectMapping;
    let at = LogicalAddress(0x0030_0000);
    dir.insertPage(&mut mmu, 0x0077_7000, at, PAGE_USER_ACCESS).unwrap();
    assert_eq!(dir.getPage(&mut mmu, &mut direct, at, PAGE_WRITABLE), Some(0x0077_7000));
    assert_eq!(dir.tryGetPageEntry(at), Some(&PageEntry(0x0077_7005)));
}

#[test]
fn get_page_makes_a_reserved_page_present() {
    let mut mmu = mmu_with_blocks(2);
    let mut dir = PageDirectory::new(&mut mmu).unwrap();
    let mut direct = DirectMapping;
    let at = LogicalAddress(0x0030_0000);
    dir.getPageTable(&mut mmu, at, PAGE_WRITABLE).unwrap();
    dir.setPageEntry(at, PageEntry(0x0055_5000 | PAGE_FREE | PAGE_WRITABLE));
    assert_eq!(dir.tryGetPage(at), None);
    assert_eq!(dir.getPage(&mut mmu, &mut direct, at, 0), Some(0x0055_5000));
    assert_eq!(
        dir.tryGetPageEntry(at),
        Some(&PageEntry(0x0055_5000 | PAGE_FREE | PAGE_WRITABLE | PAGE_PRESENT))
    );
}

#[test]
fn get_page_zeroes_a_new_page_in_the_live_directory_only() {
    let mut mmu = mmu_with_blocks(4);
    let mut live = PageDirectory::new(&mut mmu).unwrap();
    let mut other = PageDirectory::new(&mut mmu).unwrap();
    mmu.set_cr3(live.frame());
    let mut direct = DirectMapping;
    other.getPage(&mut mmu, &mut direct, LogicalAddress(0x3000), PAGE_WRITABLE).unwrap();
    assert_eq!(mmu.takeZeroed(), Vec::<u32>::new());
    live.getPage(&mut mmu, &mut direct, LogicalAddress(0x3000), PAGE_WRITABLE).unwrap();
    assert_eq!(mmu.takeZeroed(), vec![0x3000]);
}

#[test]
fn map_memory_range_maps_every_page() {
    let mut mmu = mmu_with_blocks(3);
    let mut dir = PageDirectory::new(&mut mmu).unwrap();
    let mut direct = DirectMapping;
    let result = mapMemoryRange(
        &mut dir,
        &mut mmu,
        &mut direct,
        LogicalAddress(0x003f_e010),
        LogicalAddress(0x0040_1001),
        PAGE_WRITABLE | PAGE_USER_ACCESS,
    );
    assert_eq!(result, Ok(0x003f_e010));
    for page in [0x003f_e000u32, 0x003f_f000, 0x0040_0000, 0x0040_1000] {
        assert_eq!(dir.tryGetPageEntry(LogicalAddress(page)), Some(&PageEntry(page | 0x007)));
    }
    assert_eq!(dir.tryGetPage(LogicalAddress(0x003f_d000)), None);
    assert_eq!(dir.tryGetPage(LogicalAddress(0x0040_2000)), None);
}

#[test]
fn map_memory_range_reports_how_far_it_came() {
    let mut mmu = mmu_with_blocks(2);
    let mut dir = PageDirectory::new(&mut mmu).unwrap();
    let mut direct = DirectMapping;
    let result = mapMemoryRange(
        &mut dir,
        &mut mmu,
        &mut direct,
        LogicalAddress(0x003f_e000),
        LogicalAddress(0x0040_2000),
        PAGE_WRITABLE,
    );
    assert_eq!(result, Err(ERROR_AT(0x0040_0000)));
    assert_eq!(result, Err(0x003f_ffff));
    assert_eq!(dir.tryGetPage(LogicalAddress(0x003f_e000)), Some(0x003f_e000));
    assert_eq!(dir.tryGetPage(LogicalAddress(0x003f_f000)), Some(0x003f_f000));
    assert_eq!(dir.tryGetPage(LogicalAddress(0x0040_0000)), None);
}

#[test]
fn map_memory_range_stops_at_the_page_that_gets_no_frame() {
    let (frames, mut mmu) = allocator_over(2);
    let mut mapping = AllocMapping { frames };
    let mut dir = PageDirectory::new(&mut mmu).unwrap();
    let start = LogicalAddress(0x1000_0000);
    let result = mapMemoryRange(
        &mut dir,
        &mut mmu,
        &mut mapping,
        start,
        LogicalAddress(0x1000_3000),
        PAGE_WRITABLE,
    );
    assert_eq!(result, Err(0x1000_0000 + 2 * PAGE_SIZE - 1));
    assert_eq!(mapping.frames.bytesFree(), 0);
    assert_eq!(dir.tryGetPage(start), Some(USER_MEM_START));
    assert_eq!(dir.tryGetPage(LogicalAddress(0x1000_1000)), Some(USER_MEM_START + PAGE_SIZE));
    assert_eq!(dir.tryGetPage(LogicalAddress(0x1000_2000)), None);
    freeMemoryRange(&mut dir, &mut mmu, &mut mapping, start, LogicalAddress(0x1000_3000));
    assert_eq!(mapping.frames.bytesFree(), 2 * PAGE_SIZE);
}

#[test]
fn map_memory_range_takes_a_frame_for_every_page() {
    let (frames, mut mmu) = allocator_over(2);
    let mut mapping = AllocMapping { frames };
    let mut dir = PageDirectory::new(&mut mmu).unwrap();
    let start = LogicalAddress(0x1000_0000);
    let end = LogicalAddress(0x1000_2000);
    let result = mapMemoryRange(&mut dir, &mut mmu, &mut mapping, start, end, PAGE_WRITABLE);
    assert_eq!(result, Ok(USER_MEM_START));
    assert_eq!(mapping.frames.bytesFree(), 0);
    freeMemoryRange(&mut dir, &mut mmu, &mut mapping, start, end);
    assert_eq!(mapping.frames.bytesFree(), 2 * PAGE_SIZE);
}

#[test]
fn map_memory_range_fails_at_once_without_blocks() {
    let mut mmu = mmu_with_blocks(1);
    let mut dir = PageDirectory::new(&mut mmu).unwrap();
    let mut direct = DirectMapping;
    let at_zero = mapMemoryRange(
        &mut dir,
        &mut mmu,
        &mut direct,
        LogicalAddress(0),
        LogicalAddress(0x2000),
        0,
    );
    assert_eq!(at_zero, Err(NOT_A_FRAME));
    let empty = mapMemoryRange(
        &mut dir,
        &mut mmu,
        &mut direct,
        LogicalAddress(0x5000),
        LogicalAddress(0x5000),
        0,
    );
    assert_eq!(empty, Err(NOT_A_FRAME));
}

#[test]
fn get_memory_range_maps_what_is_missing() {
    let mut mmu = mmu_with_blocks(2);
    let mut dir = PageDirectory::new(&mut mmu).unwrap();
    let mut direct = DirectMapping;
    dir.insertPage(&mut mmu, 0x0099_9000, LogicalAddress(0x2000), PAGE_WRITABLE).unwrap();
    let physical = dir.getMemoryRange(
        &mut mmu,
        &mut direct,
        LogicalAddress(0x2010),
        LogicalAddress(0x4000),
        PAGE_WRITABLE,
    );
    assert_eq!(physical, Some(0x0099_9010));
    assert_eq!(dir.tryGetPage(LogicalAddress(0x2000)), Some(0x0099_9000));
    assert_eq!(dir.tryGetPage(LogicalAddress(0x3000)), Some(0x3000));
    assert_eq!(dir.tryGetPage(LogicalAddress(0x4000)), None);
}

#[test]
fn get_memory_range_stops_at_the_page_that_gets_no_frame() {
    let mut mmu = mmu_with_blocks(2);
    let mut dir = PageDirectory::new(&mut mmu).unwrap();
    let mut direct = DirectMapping;
    dir.insertPage(&mut mmu, 0x0099_9000, LogicalAddress(0x003f_f000), PAGE_WRITABLE).unwrap();
    assert_eq!(mmu.spareCount(), 0);
    let physical = dir.getMemoryRange(
        &mut mmu,
        &mut direct,
        LogicalAddress(0x003f_e000),
        LogicalAddress(0x0040_2000),
        PAGE_WRITABLE,
    );
    assert_eq!(physical, None);
    assert_eq!(dir.tryGetPage(LogicalAddress(0x003f_e000)), Some(0x003f_e000));
    assert_eq!(dir.tryGetPage(LogicalAddress(0x003f_f000)), Some(0x0099_9000));
    assert_eq!(dir.tryGetPageEntry(LogicalAddress(0x0040_0000)), None);
    assert_eq!(dir.tryGetPageEntry(LogicalAddress(0x0040_1000)), None);
}

#[test]
fn get_memory_range_of_mapped_pages_needs_nothing() {
    let mut mmu = mmu_with_blocks(2);
    let mut dir = PageDirectory::new(&mut mmu).unwrap();
    let (frames, _other) = allocator_over(0);
    let mut mapping = AllocMapping { frames };
    dir.insertPage(&mut mmu, 0x0011_1000, LogicalAddress(0x5000), 0).unwrap();
    dir.setPageEntry(LogicalAddress(0x6000), PageEntry(0x0022_2000 | PAGE_FREE));
    assert_eq!(mmu.spareCount(), 0);
    let physical = dir.getMemoryRange(
        &mut mmu,
        &mut mapping,
        LogicalAddress(0x5abc),
        LogicalAddress(0x7000),
        PAGE_WRITABLE,
    );
    assert_eq!(physical, Some(0x0011_1abc));
    assert_eq!(dir.tryGetPageEntry(LogicalAddress(0x5000)), Some(&PageEntry(0x0011_1001)));
    assert_eq!(
        dir.tryGetPageEntry(LogicalAddress(0x6000)),
        Some(&PageEntry(0x0022_2000 | PAGE_FREE | PAGE_PRESENT))
    );
    assert_eq!(mapping.frames.bytesFree(), 0);
    let empty = dir.getMemoryRange(
        &mut mmu,
        &mut mapping,
        LogicalAddress(0x9000),
        LogicalAddress(0x9000),
        0,
    );
    assert_eq!(empty, None);
    let empty_mapped = dir.getMemoryRange(
        &mut mmu,
        &mut mapping,
        LogicalAddress(0x5010),
        LogicalAddress(0x5000),
        0,
    );
    assert_eq!(empty_mapped, Some(0x0011_1010));
}

#[test]
fn free_memory_range_empties_the_range_only() {
    let mut mmu = mmu_with_blocks(3);
    let mut dir = PageDirectory::new(&mut mmu).unwrap();
    let mut direct = DirectMapping;
    mapMemoryRange(
        &mut dir,
        &mut mmu,
        &mut direct,
        LogicalAddress(0x003f_d000),
        LogicalAddress(0x0040_3000),
        PAGE_WRITABLE,
    )
    .unwrap();
    freeMemoryRange(
        &mut dir,
        &mut mmu,
        &mut direct,
        LogicalAddress(0x003f_e800),
        LogicalAddress(0x0040_1001),
    );
    assert_eq!(dir.tryGetPage(LogicalAddress(0x003f_d000)), Some(0x003f_d000));
    for page in [0x003f_e000u32, 0x003f_f000, 0x0040_0000, 0x0040_1000] {
        assert_eq!(dir.tryGetPageEntry(LogicalAddress(page)), Some(&PageEntry(0)));
    }
    assert_eq!(dir.tryGetPage(LogicalAddress(0x0040_2000)), Some(0x0040_2000));
    assert!(dir.getPageTableEntry(LogicalAddress(0x0040_0000)).page_is_present());
}

#[test]
fn free_memory_range_passes_over_missing_tables() {
    let mut mmu = mmu_with_blocks(3);
    let mut dir = PageDirectory::new(&mut mmu).unwrap();
    let mut direct = DirectMapping;
    dir.insertPage(&mut mmu, 0x1000, LogicalAddress(0x0000_1000), 0).unwrap();
    dir.insertPage(&mut mmu, 0x2000, LogicalAddress(0xffc0_2000), 0).unwrap();
    freeMemoryRange(&mut dir, &mut mmu, &mut direct, LogicalAddress(0), LogicalAddress(0));
    assert_eq!(dir.tryGetPageEntry(LogicalAddress(0x0000_1000)), Some(&PageEntry(0)));
    assert_eq!(dir.tryGetPageEntry(LogicalAddress(0xffc0_2000)), Some(&PageEntry(0)));
    assert_eq!(dir.tryGetPageEntry(LogicalAddress(0x8000_0000)), None);
}

#[test]
fn entry_walk_skips_the_regions_of_missing_tables() {
    let mut mmu = mmu_with_blocks(2);
    let mut dir = PageDirectory::new(&mut mmu).unwrap();
    dir.insertPage(&mut mmu, 0x1000, LogicalAddress(0x0080_1000), 0).unwrap();
    assert_eq!(nextAddress(&dir, LogicalAddress(0)).0, TABLE_SIZE);
    assert_eq!(nextAddress(&dir, LogicalAddress(0x1000)).0, 0x2000);
    assert_eq!(nextAddress(&dir, LogicalAddress(0x0080_0000)).0, 0x0080_1000);
    assert_eq!(nextAddress(&dir, LogicalAddress(0xffc0_0000)).0, 0);
    let mut walk = foreach_entry_in(0x003f_f000, 0x0080_2000);
    let mut seen = Vec::new();
    while let Some(addr) = walk.next(&dir) {
        seen.push(addr.0);
    }
    assert_eq!(seen, vec![0x003f_f000, 0x0040_0000, 0x0080_0000, 0x0080_1000]);
}

#[test]
fn free_mapped_page_gives_a_copy_on_write_page_its_reservation_back() {
    let (frames, mut mmu) = allocator_over(4);
    let mut mapping = AllocMapping { frames };
    let mut dir = PageDirectory::new(&mut mmu).unwrap();
    let at = LogicalAddress(0x3000_0000);
    assert_eq!(mapping.reserveAddressMapping(1), Ok(()));
    assert_eq!(mapping.frames.bytesFree(), 3 * PAGE_SIZE);
    dir.insertPage(&mut mmu, 0x0070_0000, at, PAGE_COPY_ON_WRITE | PAGE_USER_ACCESS).unwrap();
    freeMappedPage(&mut dir, &mut mmu, &mut mapping, at);
    assert_eq!(mapping.frames.bytesFree(), 4 * PAGE_SIZE);
    assert_eq!(dir.tryGetPageEntry(at), Some(&PageEntry(0)));
    freeMappedPage(&mut dir, &mut mmu, &mut mapping, at);
    assert_eq!(mapping.frames.bytesFree(), 4 * PAGE_SIZE);
}

#[test]
fn free_mapped_page_flushes_in_the_live_directory() {
    let mut mmu = mmu_with_blocks(2);
    let mut dir = PageDirectory::new(&mut mmu).unwrap();
    let mut direct = DirectMapping;
    let at = LogicalAddress(0x6000);
    dir.insertPage(&mut mmu, 0x6000, at, 0).unwrap();
    mmu.set_cr3(dir.frame());
    freeMappedPage(&mut dir, &mut mmu, &mut direct, at);
    assert_eq!(mmu.takeFlushed(), vec![at]);
    freeMappedPage(&mut dir, &mut mmu, &mut direct, at);
    assert_eq!(mmu.takeFlushed(), Vec::<LogicalAddress>::new());
}

#[test]
fn free_memory_range_flushes_the_mapped_pages_in_order() {
    let mut mmu = mmu_with_blocks(3);
    let mut dir = PageDirectory::new(&mut mmu).unwrap();
    let mut direct = DirectMapping;
    dir.insertPage(&mut mmu, 0x6000, LogicalAddress(0x6000), 0).unwrap();
    dir.insertPage(&mut mmu, 0x8000, LogicalAddress(0x8000), 0).unwrap();
    dir.insertPage(&mut mmu, 0x0040_1000, LogicalAddress(0x0040_1000), 0).unwrap();
    mmu.set_cr3(dir.frame());
    freeMemoryRange(
        &mut dir,
        &mut mmu,
        &mut direct,
        LogicalAddress(0x5000),
        LogicalAddress(0x0040_2000),
    );
    assert_eq!(
        mmu.takeFlushed(),
        vec![LogicalAddress(0x6000), LogicalAddress(0x8000), LogicalAddress(0x0040_1000)]
    );
    freeMemoryRange(
        &mut dir,
        &mut mmu,
        &mut direct,
        LogicalAddress(0x5000),
        LogicalAddress(0x0040_2000),
    );
    assert_eq!(mmu.takeFlushed(), Vec::<LogicalAddress>::new());
}

#[test]
fn init_virtual_memory_flushes_every_page_when_built_in_the_loaded_block() {
    let mut mmu = mmu_with_blocks(9);
    mmu.set_cr3(HEAP);
    initVirtualMemory(&mut mmu, 0x2000).unwrap();
    let flushed = mmu.takeFlushed();
    assert_eq!(flushed.len(), 0x2000);
    assert_eq!(flushed[0], LogicalAddress(0));
    assert_eq!(flushed[1], LogicalAddress(PAGE_SIZE));
    assert_eq!(flushed[0x1fff], LogicalAddress(0x1fff * PAGE_SIZE));
}

#[test]
fn set_range_flags_rewrites_present_pages() {
    let mut mmu = mmu_with_blocks(2);
    let mut dir = PageDirectory::new(&mut mmu).unwrap();
    dir.insertPage(&mut mmu, 0x0011_1000, LogicalAddress(0x1000), PAGE_WRITABLE).unwrap();
    dir.insertPage(
        &mut mmu,
        0x0022_2000,
        LogicalAddress(0x2000),
        PAGE_WRITABLE | PAGE_COPY_ON_WRITE,
    )
    .unwrap();
    dir.insertPage(&mut mmu, 0x0044_4000, LogicalAddress(0x4000), PAGE_WRITABLE).unwrap();
    dir.setRangeFlags(
        LogicalAddress(0x1000),
        LogicalAddress(0x4000),
        PAGE_USER_ACCESS | PAGE_WRITABLE,
    );
    assert_eq!(dir.tryGetPageEntry(LogicalAddress(0x1000)), Some(&PageEntry(0x0011_1007)));
    assert_eq!(
        dir.tryGetPageEntry(LogicalAddress(0x2000)),
        Some(&PageEntry(0x0022_2000 | PAGE_PRESENT | PAGE_USER_ACCESS | PAGE_COPY_ON_WRITE))
    );
    assert_eq!(dir.tryGetPageEntry(LogicalAddress(0x3000)), Some(&PageEntry(0)));
    assert_eq!(dir.tryGetPageEntry(LogicalAddress(0x4000)), Some(&PageEntry(0x0044_4003)));
    dir.setRangeFlags(LogicalAddress(0x1000), LogicalAddress(0x2000), 0);
    assert_eq!(dir.tryGetPageEntry(LogicalAddress(0x1000)), Some(&PageEntry(0x0011_1007)));
}

#[test]
fn set_range_flags_keeps_the_flags_that_were_set() {
    let mut mmu = mmu_with_blocks(2);
    let mut dir = PageDirectory::new(&mut mmu).unwrap();
    dir.insertPage(&mut mmu, 0x0011_1000, LogicalAddress(0x1000), PAGE_WRITABLE).unwrap();
    dir.setRangeFlags(LogicalAddress(0x1000), LogicalAddress(0x2000), PAGE_USER_ACCESS);
    assert_eq!(dir.tryGetPageEntry(LogicalAddress(0x1000)), Some(&PageEntry(0x0011_1007)));
    dir.setRangeFlags(LogicalAddress(0x1000), LogicalAddress(0x2000), 0xffff_f000 | PAGE_GLOBAL);
    assert_eq!(dir.tryGetPageEntry(LogicalAddress(0x1000)), Some(&PageEntry(0x0011_1107)));
    dir.setRangeFlags(LogicalAddress(0x1000), LogicalAddress(0x2000), PAGE_COPY_ON_WRITE);
    assert_eq!(dir.tryGetPageEntry(LogicalAddress(0x1000)), Some(&PageEntry(0x0011_1307)));
    dir.setRangeFlags(LogicalAddress(0x1000), LogicalAddress(0x2000), PAGE_WRITABLE);
    assert_eq!(dir.tryGetPageEntry(LogicalAddress(0x1000)), Some(&PageEntry(0x0011_1305)));
}

#[test]
fn destroy_gives_the_blocks_back() {
    let mut mmu = mmu_with_blocks(3);
    let mut dir = PageDirectory::new(&mut mmu).unwrap();
    dir.insertPage(&mut mmu, 0x1000, LogicalAddress(0x0080_0000), 0).unwrap();
    dir.insertPage(&mut mmu, 0x2000, LogicalAddress(0x0000_2000), 0).unwrap();
    assert_eq!(mmu.spareCount(), 0);
    dir.destroy(&mut mmu);
    assert_eq!(mmu.takeBlock(), Some(HEAP));
    assert_eq!(mmu.takeBlock(), Some(HEAP + PAGE_SIZE));
    assert_eq!(mmu.takeBlock(), Some(HEAP + 2 * PAGE_SIZE));
    assert_eq!(mmu.takeBlock(), None);
}

#[test]
fn safe_variants_work_in_a_task_directory() {
    let mut mmu = mmu_with_blocks(3);
    let mut dir = PageDirectory::new(&mut mmu).unwrap();
    assert!(dir.frame() != mmu.kernelBase());
    assert_eq!(mmu.get_cr3(), mmu.kernelBase());
    let mut direct = DirectMapping;
    assert_eq!(
        mapPageSafe(&mut dir, &mut mmu, &mut direct, LogicalAddress(0x9000), PAGE_WRITABLE),
        Some(0x9000)
    );
    assert_eq!(
        mapMemoryRangeSafe(
            &mut dir,
            &mut mmu,
            &mut direct,
            LogicalAddress(0xa000),
            LogicalAddress(0xc000),
            PAGE_WRITABLE
        ),
        Ok(0xa000)
    );
    freeMappedPageSafe(&mut dir, &mut mmu, &mut direct, LogicalAddress(0x9000));
    assert_eq!(dir.tryGetPage(LogicalAddress(0x9000)), None);
    freeMemoryRangeSafe(
        &mut dir,
        &mut mmu,
        &mut direct,
        LogicalAddress(0xa000),
        LogicalAddress(0xc000),
    );
    assert_eq!(dir.tryGetPage(LogicalAddress(0xa000)), None);
    assert_eq!(dir.tryGetPage(LogicalAddress(0xb000)), None);
}

#[test]
fn init_frame_allocator_marks_the_region_free() {
    let (frames, _mmu) = allocator_over(3);
    assert_eq!(frames.region(), (USER_MEM_START, USER_MEM_START + 3 * PAGE_SIZE));
    assert_eq!(frames.bytesFree(), 3 * PAGE_SIZE);
    let dir = frames.kernelDirectory();
    for i in 0..3 {
        let entry = dir.tryGetPageEntry(LogicalAddress(USER_MEM_START + i * PAGE_SIZE)).unwrap();
        assert!(entry.page_is_free());
        assert!(entry.page_is_present());
    }
}

#[test]
fn reservation_pool() {
    let (mut frames, _mmu) = allocator_over(10);
    assert_eq!(reserveFrames(&mut frames, 10), Ok(()));
    assert_eq!(frames.bytesFree(), 0);
    assert_eq!(reserveFrames(&mut frames, 1), Err(()));
    assert_eq!(frames.bytesFree(), 0);
    unreserveFrames(&mut frames, 1);
    assert_eq!(frames.bytesFree(), PAGE_SIZE);
    assert_eq!(reserveFrames(&mut frames, 1), Ok(()));
    assert_eq!(frames.bytesFree(), 0);
}

#[test]
fn reserve_succeeds_exactly_when_enough_bytes_are_free() {
    let (mut frames, _mmu) = allocator_over(4);
    assert_eq!(reserveFrames(&mut frames, 5), Err(()));
    assert_eq!(reserveFrames(&mut frames, 0x10_0001), Err(()));
    assert_eq!(frames.bytesFree(), 4 * PAGE_SIZE);
    assert_eq!(reserveFrames(&mut frames, 0), Ok(()));
    assert_eq!(reserveFrames(&mut frames, 3), Ok(()));
    assert_eq!(frames.bytesFree(), PAGE_SIZE);
    unreserveFrames(&mut frames, 3);
    assert_eq!(frames.bytesFree(), 4 * PAGE_SIZE);
    unreserveFrames(&mut frames, u32::MAX);
    assert_eq!(frames.bytesFree(), u32::MAX);
}

#[test]
fn fulfill_searches_from_the_current_frame_and_wraps() {
    let (mut frames, _mmu) = allocator_over(3);
    let base = USER_MEM_START;
    assert_eq!(fulfillReservedFrame(&mut frames), Some(base));
    assert_eq!(fulfillReservedFrame(&mut frames), Some(base + PAGE_SIZE));
    assert_eq!(fulfillReservedFrame(&mut frames), Some(base + 2 * PAGE_SIZE));
    assert_eq!(fulfillReservedFrame(&mut frames), None);
    freeFrame(&mut frames, base + PAGE_SIZE);
    freeFrame(&mut frames, base);
    assert_eq!(fulfillReservedFrame(&mut frames), Some(base));
    assert_eq!(fulfillReservedFrame(&mut frames), Some(base + PAGE_SIZE));
    assert_eq!(fulfillReservedFrame(&mut frames), None);
    assert!(!frames
        .kernelDirectory()
        .tryGetPageEntry(LogicalAddress(base))
        .unwrap()
        .page_is_free());
}

#[test]
fn alloc_frame_then_free_frame_restores_the_free_bytes() {
    let (mut frames, _mmu) = allocator_over(2);
    let before = frames.bytesFree();
    let frame = allocFrame(&mut frames).unwrap();
    assert_eq!(frame, USER_MEM_START);
    assert_eq!(frames.bytesFree(), before - PAGE_SIZE);
    freeFrame(&mut frames, frame);
    assert_eq!(frames.bytesFree(), before);
    assert!(allocFrame(&mut frames).is_some());
    assert!(allocFrame(&mut frames).is_some());
    assert_eq!(allocFrame(&mut frames), None);
    assert_eq!(frames.bytesFree(), 0);
}

#[test]
fn free_frame_refuses_frames_outside_the_region() {
    let (mut frames, _mmu) = allocator_over(2);
    allocFrame(&mut frames).unwrap();
    let before = frames.bytesFree();
    assert!(!freeFrame(&mut frames, USER_MEM_START - PAGE_SIZE));
    assert!(!freeFrame(&mut frames, USER_MEM_START + 2 * PAGE_SIZE));
    assert!(!freeFrame(&mut frames, 0));
    assert_eq!(frames.bytesFree(), before);
    assert!(freeFrame(&mut frames, USER_MEM_START));
    assert_eq!(frames.bytesFree(), before + PAGE_SIZE);
}

#[test]
fn empty_region_has_no_frames() {
    let (mut frames, _mmu) = allocator_over(0);
    assert_eq!(frames.bytesFree(), 0);
    assert_eq!(allocFrame(&mut frames), None);
    assert_eq!(fulfillReservedFrame(&mut frames), None);
}

#[test]
fn covers_region_reports_missing_entries() {
    let mut mmu = mmu_with_blocks(2);
    let mut dir = PageDirectory::new(&mut mmu).unwrap();
    assert!(coversRegion(&dir, 0x1000, 0x1000));
    assert!(!coversRegion(&dir, 0x1000, 0x2000));
    dir.getPageTable(&mut mmu, LogicalAddress(0), 0).unwrap();
    assert!(coversRegion(&dir, 0, TABLE_SIZE));
    assert!(!coversRegion(&dir, 0, TABLE_SIZE + PAGE_SIZE));
}

#[test]
fn init_virtual_memory_maps_the_machine_onto_itself() {
    let mut mmu = mmu_with_blocks(9);
    let memory = initVirtualMemory(&mut mmu, 0x2000).unwrap();
    let size = 0x2000 * PAGE_SIZE;
    let dir = kernelDirectory(&memory);
    assert_eq!(dir.frame(), HEAP);
    assert_eq!(mmu.kernelBase(), HEAP);
    assert_eq!(mmu.spareCount(), 0);
    assert_eq!(
        dir.tryGetPageEntry(LogicalAddress(0x0000_0123)),
        Some(&PageEntry(PAGE_PRESENT | PAGE_WRITABLE | PAGE_GLOBAL))
    );
    assert_eq!(
        dir.tryGetPageEntry(LogicalAddress(USER_MEM_START - 1)),
        Some(&PageEntry((USER_MEM_START - PAGE_SIZE) | PAGE_PRESENT | PAGE_WRITABLE | PAGE_GLOBAL))
    );
    assert_eq!(
        dir.tryGetPageEntry(LogicalAddress(USER_MEM_START)),
        Some(&PageEntry(USER_MEM_START | PAGE_PRESENT | PAGE_WRITABLE))
    );
    assert_eq!(
        dir.tryGetPageEntry(LogicalAddress(size - 1)),
        Some(&PageEntry((size - PAGE_SIZE) | PAGE_PRESENT | PAGE_WRITABLE | PAGE_FREE))
    );
    assert_eq!(dir.tryGetPageEntry(LogicalAddress(size)), None);
    assert_eq!(
        *dir.getPageTableEntry(LogicalAddress(0)),
        PageEntry((HEAP + PAGE_SIZE) | PAGE_PRESENT | PAGE_WRITABLE)
    );
    assert_eq!(zeroedPage(&memory), USER_MEM_START);
    assert_eq!(mmu.takeZeroed(), vec![USER_MEM_START]);
    assert_eq!(memory.frames.frames.bytesFree(), size - USER_MEM_START - PAGE_SIZE);
    assert_eq!(memory.frames.frames.region(), (USER_MEM_START, size));
}

#[test]
fn init_virtual_memory_needs_blocks_and_user_memory() {
    let mut mmu = mmu_with_blocks(8);
    assert!(initVirtualMemory(&mut mmu, 0x2000).is_none());
    assert_eq!(mmu.spareCount(), 8);
    let mut mmu = mmu_with_blocks(9);
    assert!(initVirtualMemory(&mut mmu, 0x1000).is_none());
    assert!(initVirtualMemory(&mut mmu, 0).is_none());
    assert_eq!(mmu.spareCount(), 9);
    assert!(initVirtualMemory(&mut mmu, 0x1001).is_some());
    assert_eq!(mmu.spareCount(), 3);
}

#[test]
fn vm_map_unmap() {
    let mut mmu = mmu_with_blocks(11);
    let mut memory = initVirtualMemory(&mut mmu, 0x2000).unwrap();
    mmu.set_cr3(mmu.kernelBase());
    let mut dir = PageDirectory::new(&mut mmu).unwrap();
    let start = LogicalAddress(0x1000_0000);
    let end = LogicalAddress(0x1000_2000);
    let free_before = memory.frames.frames.bytesFree();

    let mapped = mapMemoryRange(&mut dir, &mut mmu, &mut memory.frames, start, end, PAGE_WRITABLE);
    assert_eq!(mapped, Ok(USER_MEM_START + PAGE_SIZE));
    assert_eq!(dir.tryGetPage(LogicalAddress(0x1000_1000)), Some(USER_MEM_START + 2 * PAGE_SIZE));
    assert_eq!(memory.frames.frames.bytesFree(), free_before - 2 * PAGE_SIZE);
    assert!(!isUserWritableAddr(&dir, start, 0x2000));
    assert!(!isUserReadableAddr(&dir, start, 0x2000));

    freeMemoryRange(&mut dir, &mut mmu, &mut memory.frames, start, end);
    assert_eq!(dir.tryGetPageEntry(start), Some(&PageEntry(0)));
    assert_eq!(dir.tryGetPageEntry(LogicalAddress(0x1000_1000)), Some(&PageEntry(0)));
    assert_eq!(memory.frames.frames.bytesFree(), free_before);

    let mapped = mapMemoryRange(
        &mut dir,
        &mut mmu,
        &mut memory.frames,
        start,
        end,
        PAGE_WRITABLE | PAGE_USER_ACCESS,
    );
    assert!(mapped.is_ok());
    assert!(isUserWritableAddr(&dir, start, 0x2000));
    assert!(isUserReadableAddr(&dir, start, 0x2000));
    assert!(!isUserWritableAddr(&dir, start, 0x2001));

    freeMemoryRange(&mut dir, &mut mmu, &mut memory.frames, start, end);
    for page in [0x1000_0000u32, 0x1000_1000] {
        assert_eq!(dir.tryGetPageEntry(LogicalAddress(page)), Some(&PageEntry(0)));
        assert_eq!(dir.tryGetPage(LogicalAddress(page)), None);
    }
    assert!(!isUserReadableAddr(&dir, start, 0x2000));
    assert_eq!(memory.frames.frames.bytesFree(), free_before);
}

#[test]
fn user_readable_needs_present_and_user_on_every_page() {
    let mut mmu = mmu_with_blocks(2);
    let mut dir = PageDirectory::new(&mut mmu).unwrap();
    dir.insertPage(&mut mmu, 0x1000, LogicalAddress(0x1000), PAGE_USER_ACCESS).unwrap();
    dir.insertPage(&mut mmu, 0x2000, LogicalAddress(0x2000), PAGE_USER_ACCESS | PAGE_WRITABLE)
        .unwrap();
    dir.insertPage(&mut mmu, 0x3000, LogicalAddress(0x3000), PAGE_WRITABLE).unwrap();
    dir.setPageEntry(LogicalAddress(0x5000), PageEntry(0x5000 | PAGE_USER_ACCESS));
    assert!(isUserReadableAddr(&dir, LogicalAddress(0x1000), 0x2000));
    assert!(isUserReadableAddr(&dir, LogicalAddress(0x1fff), 2));
    assert!(!isUserReadableAddr(&dir, LogicalAddress(0x1000), 0x2001));
    assert!(!isUserReadableAddr(&dir, LogicalAddress(0x0fff), 2));
    assert!(!isUserReadableAddr(&dir, LogicalAddress(0x5000), 1));
    assert!(!isUserReadableAddr(&dir, LogicalAddress(0x0040_0000), 1));
    assert!(isUserWritableAddr(&dir, LogicalAddress(0x2000), 0x1000));
    assert!(!isUserWritableAddr(&dir, LogicalAddress(0x1000), 0x2000));
    assert!(!isUserWritableAddr(&dir, LogicalAddress(0x3000), 1));
    assert_eq!(getPageFlags(&dir, LogicalAddress(0x2abc)), Some(PageEntry(0x2007)));
    assert_eq!(getPageFlags(&dir, LogicalAddress(0x0040_0000)), None);
}

#[test]
fn ranges_of_no_bytes_and_ranges_past_the_top() {
    let mut mmu = mmu_with_blocks(2);
    let mut dir = PageDirectory::new(&mut mmu).unwrap();
    dir.insertPage(&mut mmu, 0x7000, LogicalAddress(0xffff_f000), PAGE_USER_ACCESS).unwrap();
    assert!(isUserReadableAddr(&dir, LogicalAddress(0x0123_4567), 0));
    assert!(isUserWritableAddr(&dir, LogicalAddress(0), 0));
    assert!(isUserReadableAddr(&dir, LogicalAddress(0xffff_f000), 0x1000));
    assert!(isUserReadableAddr(&dir, LogicalAddress(0xffff_ffff), 1));
    assert!(!isUserReadableAddr(&dir, LogicalAddress(0xffff_f000), 0x1001));
    assert!(!isUnmappedAddr(&dir, LogicalAddress(0xffff_ffff), 2));
}

#[test]
fn unmapped_means_no_entry_or_not_accessed() {
    let mut mmu = mmu_with_blocks(2);
    let mut dir = PageDirectory::new(&mut mmu).unwrap();
    dir.insertPage(&mut mmu, 0x1000, LogicalAddress(0x1000), PAGE_WRITABLE).unwrap();
    dir.setPageEntry(LogicalAddress(0x2000), PageEntry(0x2000 | PAGE_PRESENT | (1 << 5)));
    assert!(isUnmappedAddr(&dir, LogicalAddress(0x0040_0000), 0x3000));
    assert!(isUnmappedAddr(&dir, LogicalAddress(0x0000), 0x2000));
    assert!(!isUnmappedAddr(&dir, LogicalAddress(0x1000), 0x1001));
    assert!(!isUnmappedAddr(&dir, LogicalAddress(0x2fff), 1));
    assert!(isUnmappedAddr(&dir, LogicalAddress(0x3000), 0x1000));
}

#[test]
fn readable_string_len_stops_at_the_first_zero() {
    let mut mmu = mmu_with_blocks(2);
    let mut dir = PageDirectory::new(&mut mmu).unwrap();
    dir.insertPage(&mut mmu, 0x1000, LogicalAddress(0x1000), PAGE_USER_ACCESS).unwrap();
    dir.insertPage(&mut mmu, 0x2000, LogicalAddress(0x2000), PAGE_USER_ACCESS).unwrap();
    let text = b"hello\0world\0".to_vec();
    assert_eq!(readableStringLen(&dir, LogicalAddress(0x1100), &text), Some(5));
    assert_eq!(readableStringLen(&dir, LogicalAddress(0x1ffe), &text), Some(5));
    assert_eq!(readableStringLen(&dir, LogicalAddress(0x2ffb), &text), None);
    assert_eq!(readableStringLen(&dir, LogicalAddress(0x2ffa), &text), Some(5));
    assert_eq!(readableStringLen(&dir, LogicalAddress(0x3000), &text), None);
    assert_eq!(readableStringLen(&dir, LogicalAddress(0x1000), &b"\0".to_vec()), Some(0));
    assert_eq!(readableStringLen(&dir, LogicalAddress(0x1000), &b"abc".to_vec()), None);
    assert_eq!(readableStringLen(&dir, LogicalAddress(0x1000), &Vec::new()), None);
}

#[test]
fn page_zero_and_copy() {
    assert!(Page::from_bytes(vec![0u8; 100]).is_none());
    let mut bytes = vec![0u8; PAGE_SIZE as usize];
    for (i, byte) in bytes.iter_mut().enumerate() {
        *byte = (i % 251) as u8;
    }
    let source = Page::from_bytes(bytes.clone()).unwrap();
    let mut target = Page::from_bytes(vec![0xffu8; PAGE_SIZE as usize]).unwrap();
    source.copyPage(&mut target);
    assert_eq!(target.bytes(), &bytes);
    target.zero();
    assert_eq!(target.bytes(), &vec![0u8; PAGE_SIZE as usize]);
    assert_eq!(source.bytes(), &bytes);
}

#[test]
fn page_new_takes_a_frame_and_asks_for_zeroes() {
    let (mut frames, mut mmu) = allocator_over(2);
    let before = frames.bytesFree();
    let page = Page::new(&mut mmu, &mut frames).unwrap();
    assert_eq!(page, USER_MEM_START);
    assert_eq!(mmu.takeZeroed(), vec![page]);
    assert_eq!(frames.bytesFree(), before - PAGE_SIZE);
    Page::freePage(page, &mmu, &mut frames);
    assert_eq!(frames.bytesFree(), before);
    assert!(Page::new(&mut mmu, &mut frames).is_some());
    assert!(Page::new(&mut mmu, &mut frames).is_some());
    assert_eq!(Page::new(&mut mmu, &mut frames), None);
}
