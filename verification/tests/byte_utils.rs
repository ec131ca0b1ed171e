use kernel_core::byte_utils::{
    BIT_SIZE_OF, CONST_BIT_RANGE, FILTER_BIT_RANGE, GET_BIT, GET_BIT_RANGE, LSB, MSB, TRIM_BITS,
    UPDATE_BIT, UPDATE_BIT_RANGE,
};
use kernel_core::idt_entry::GATE;

#[test]
fn const_bit_range_sets_exactly_the_range() {
    assert_eq!(CONST_BIT_RANGE(12, 32), 0xffff_f000);
    assert_eq!(CONST_BIT_RANGE(22, 32), 0xffc0_0000);
    assert_eq!(CONST_BIT_RANGE(0, 12), 0x0000_0fff);
    assert_eq!(CONST_BIT_RANGE(5, 5), 0);
    assert_eq!(CONST_BIT_RANGE(0, 1), 1);
}

#[test]
fn get_bit_reads_single_bits() {
    assert!(GET_BIT(0b100, 2));
    assert!(!GET_BIT(0b100, 1));
    assert!(GET_BIT(0x8000_0000, 31));
    assert!(!GET_BIT(0, 0));
}

#[test]
fn trim_and_filter_keep_the_named_bits() {
    assert_eq!(TRIM_BITS(0xdead_beef, 8), 0xef);
    assert_eq!(TRIM_BITS(0xdead_beef, 0), 0);
    assert_eq!(FILTER_BIT_RANGE(0xdead_beef, 12, 32), 0xdead_b000);
    assert_eq!(FILTER_BIT_RANGE(0xdead_beef, 4, 8), 0xe0);
}

#[test]
fn get_bit_range_shifts_the_field_down() {
    assert_eq!(GET_BIT_RANGE(0xdead_beef, 12, 22), 0x2db);
    assert_eq!(GET_BIT_RANGE(0xdead_beef, 22, 32), 0x37a);
    assert_eq!(GET_BIT_RANGE(0xdead_beef, 0, 12), 0xeef);
}

#[test]
fn update_bit_and_range_rewrite_in_place() {
    assert_eq!(UPDATE_BIT(0, 3, 1), 0b1000);
    assert_eq!(UPDATE_BIT(0xff, 0, 0), 0xfe);
    assert_eq!(UPDATE_BIT(0xff, 0, 2), 0xfe);
    assert_eq!(UPDATE_BIT_RANGE(0xffff_ffff, 4, 8, 0), 0xffff_ff0f);
    assert_eq!(UPDATE_BIT_RANGE(0, 4, 8, 0x1a5), 0x50);
}

#[test]
fn bytes_of_a_word() {
    assert_eq!(MSB(0xabcd), 0xab);
    assert_eq!(LSB(0xabcd), 0xcd);
    assert_eq!(BIT_SIZE_OF::<u32>(), 32);
    assert_eq!(BIT_SIZE_OF::<u8>(), 8);
}

#[test]
fn gate_packs_two_words() {
    assert_eq!(GATE(0x1122_3344, 0x5566_7788), 0x5566_7788_1122_3344);
    assert_eq!(GATE(0, 1), 1u64 << 32);
}
