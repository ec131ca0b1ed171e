use kernel_core::virtual_memory::{
    foreach_page_in, foreach_table_in, LogicalAddress, PageEntry, ERROR_AT, NOT_A_FRAME,
    PAGE_ALIGN, PAGE_COPY_ON_WRITE, PAGE_FREE, PAGE_GLOBAL, PAGE_PRESENT, PAGE_SIZE,
    PAGE_USER_ACCESS, PAGE_WRITABLE, TABLE_ALIGN, TABLE_SIZE,
};
use kernel_core::vm::validate_memory::isPageAligned;

fn pages(start: u32, end: u32) -> Vec<u32> {
    let mut walk = foreach_page_in(start, end);
    let mut seen = Vec::new();
    while let Some(page) = walk.next() {
        seen.push(page.0);
    }
    seen
}

fn tables(start: u32, end: u32) -> Vec<u32> {
    let mut walk = foreach_table_in(start, end);
    let mut seen = Vec::new();
    while let Some(table) = walk.next() {
        seen.push(table.0);
    }
    seen
}

#[test]
fn page_align_rounds_down() {
    assert_eq!(PAGE_ALIGN(0), 0);
    assert_eq!(PAGE_ALIGN(0xfff), 0);
    assert_eq!(PAGE_ALIGN(0x1000), 0x1000);
    assert_eq!(PAGE_ALIGN(0x1234_5678), 0x1234_5000);
    assert_eq!(PAGE_ALIGN(0xffff_ffff), 0xffff_f000);
}

#[test]
fn table_align_rounds_down() {
    assert_eq!(TABLE_ALIGN(0x003f_ffff), 0);
    assert_eq!(TABLE_ALIGN(0x0040_0000), 0x0040_0000);
    assert_eq!(TABLE_ALIGN(0x1234_5678), 0x1200_0000);
    assert_eq!(TABLE_ALIGN(0xffff_ffff), 0xffc0_0000);
}

#[test]
fn error_at_is_the_byte_before() {
    assert_eq!(ERROR_AT(0x1000), 0x0fff);
    assert_eq!(ERROR_AT(0x1000_2000), 0x1000_1fff);
    assert_eq!(ERROR_AT(0), NOT_A_FRAME);
    assert!(!isPageAligned(ERROR_AT(0x5000)));
}

#[test]
fn page_alignment_check() {
    assert!(isPageAligned(0));
    assert!(isPageAligned(PAGE_SIZE));
    assert!(isPageAligned(7 * PAGE_SIZE));
    assert!(isPageAligned(0xffff_f000));
    assert!(!isPageAligned(1));
    assert!(!isPageAligned(PAGE_SIZE + 4));
    for n in 0..64u32 {
        assert!(isPageAligned(n * PAGE_SIZE));
    }
}

#[test]
fn logical_address_parts_round_trip() {
    let addr = LogicalAddress::new(0x48, 0x345, 0x678);
    assert_eq!(addr.0, 0x1234_5678);
    assert_eq!(addr.get_page_table(), 0x48);
    assert_eq!(addr.get_page(), 0x345);
    assert_eq!(addr.get_page_offset(), 0x678);
    let top = LogicalAddress::new(1023, 1023, 4095);
    assert_eq!(top.0, 0xffff_ffff);
    assert_eq!(LogicalAddress::new(0, 0, 0).0, 0);
}

#[test]
fn logical_address_parts_are_cut_to_their_fields() {
    assert_eq!(LogicalAddress::new(1024, 0, 0).0, 0);
    assert_eq!(LogicalAddress::new(0, 1025, 0).0, 0x1000);
    assert_eq!(LogicalAddress::new(0, 0, 4096 + 5).0, 5);
}

#[test]
fn logical_address_offset_wraps_at_the_top() {
    assert_eq!(LogicalAddress(0x1000).offset(0x234).0, 0x1234);
    assert_eq!(LogicalAddress(0xffff_f000).offset(0x1000).0, 0);
    assert_eq!(LogicalAddress(0xffff_ffff).offset(2).0, 1);
}

#[test]
fn page_entry_fields() {
    let entry = PageEntry::new(0x1234_5678, (PAGE_PRESENT | PAGE_USER_ACCESS) as u16);
    assert_eq!(entry.0, 0x1234_5005);
    assert_eq!(entry.page_address(), 0x1234_5000);
    assert_eq!(entry.page_flags(), 0x005);
    assert!(entry.page_is_present());
    assert!(entry.page_is_user());
    assert!(!entry.page_is_writable());
    assert!(!entry.page_is_free());
    assert!(!entry.page_is_copy_on_write());
    assert!(!entry.page_accessed());
    assert!(!entry.page_written());
}

#[test]
fn page_entry_flag_bits_follow_the_hardware_layout() {
    assert!(PageEntry(1 << 0).page_is_present());
    assert!(PageEntry(1 << 1).page_is_writable());
    assert!(PageEntry(1 << 2).page_is_user());
    assert!(PageEntry(1 << 5).page_accessed());
    assert!(PageEntry(1 << 6).page_written());
    assert!(PageEntry(1 << 9).page_is_copy_on_write());
    assert!(PageEntry(1 << 10).page_is_free());
    assert_eq!(PAGE_PRESENT, 1 << 0);
    assert_eq!(PAGE_WRITABLE, 1 << 1);
    assert_eq!(PAGE_USER_ACCESS, 1 << 2);
    assert_eq!(PAGE_GLOBAL, 1 << 8);
    assert_eq!(PAGE_COPY_ON_WRITE, 1 << 9);
    assert_eq!(PAGE_FREE, 1 << 10);
}

#[test]
fn no_page_is_empty() {
    let entry = PageEntry::no_page();
    assert_eq!(entry.0, 0);
    assert!(!entry.page_is_present());
    assert_eq!(entry.page_address(), 0);
    assert_eq!(entry.page_flags(), 0);
}

#[test]
fn upgrade_flags_only_adds_write_permission() {
    let mut entry = PageEntry::new(0x5000, PAGE_PRESENT as u16);
    entry.upgradeFlags(PAGE_USER_ACCESS);
    assert_eq!(entry.0, 0x5001);
    entry.upgradeFlags(PAGE_WRITABLE | PAGE_USER_ACCESS);
    assert_eq!(entry.0, 0x5003);
    entry.upgradeFlags(0);
    assert_eq!(entry.0, 0x5003);
}

#[test]
fn foreach_page_in_walks_the_pages_of_a_range() {
    assert_eq!(pages(0x1000, 0x4000), vec![0x1000, 0x2000, 0x3000]);
    assert_eq!(pages(0x1234, 0x3001), vec![0x1000, 0x2000, 0x3000]);
    assert_eq!(pages(0x1234, 0x1235), vec![0x1000]);
    assert_eq!(pages(0x2000, 0x2000), Vec::<u32>::new());
    assert_eq!(pages(0x3000, 0x2000), Vec::<u32>::new());
}

#[test]
fn foreach_page_in_treats_end_zero_as_the_top() {
    assert_eq!(pages(0xffff_d000, 0), vec![0xffff_d000, 0xffff_e000, 0xffff_f000]);
    assert_eq!(pages(0xffff_ffff, 0), vec![0xffff_f000]);
}

#[test]
fn foreach_table_in_walks_the_table_regions_of_a_range() {
    assert_eq!(tables(0, 2 * TABLE_SIZE), vec![0, TABLE_SIZE]);
    assert_eq!(tables(0x0050_0000, 0x00c0_0001), vec![0x0040_0000, 0x0080_0000, 0x00c0_0000]);
    assert_eq!(tables(0xff80_0000, 0), vec![0xff80_0000, 0xffc0_0000]);
    assert_eq!(tables(0x0040_0000, 0x0040_0000), Vec::<u32>::new());
}
