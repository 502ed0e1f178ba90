use bitcram::{Buffer, Packer, Unpacker};

#[test]
fn packer_doc_example() {
    let mut packer = Packer::<u32>::new();
    packer.raw_pack(0b101, 3);
    packer.raw_pack(0b1, 1);
    assert_eq!(packer.into_inner(), 0b1011);
}

#[test]
fn unpacker_doc_example() {
    let mut unpacker = Unpacker::<u32>::new(0b1011);
    assert_eq!(unpacker.raw_unpack(1), 0b1);
    assert_eq!(unpacker.raw_unpack(3), 0b101);
    assert_eq!(unpacker.into_inner(), 0);
}

#[test]
fn new_packer_is_empty() {
    assert_eq!(Packer::<u64>::new().into_inner(), 0);
}

#[test]
fn raw_pack_keeps_the_largest_value_that_fits() {
    let mut packer = Packer::<u8>::new();
    packer.raw_pack(0x0f, 4);
    packer.raw_pack(0x07, 3);
    assert_eq!(packer.into_inner(), 0b1111_111);
}

#[test]
fn raw_pack_of_zero_bits_changes_nothing() {
    let mut packer = Packer::<u16>::new();
    packer.raw_pack(0b11, 2);
    packer.raw_pack(0xffff, 0);
    assert_eq!(packer.into_inner(), 0b11);
}

#[test]
fn first_field_lands_highest() {
    let mut packer = Packer::<u16>::new();
    packer.raw_pack(0xa, 4);
    packer.raw_pack(0xb, 4);
    packer.raw_pack(0xc, 4);
    packer.raw_pack(0xd, 4);
    assert_eq!(packer.into_inner(), 0xabcd);
}

#[test]
fn pack_fills_a_u8_exactly() {
    let mut packer = Packer::<u8>::new();
    for _ in 0..8 {
        packer.raw_pack(1, 1);
    }
    assert_eq!(packer.into_inner(), 0xff);
}

#[test]
fn pack_fills_a_u128_in_two_halves() {
    let mut packer = Packer::<u128>::new();
    packer.raw_pack(0x0123_4567_89ab_cdef, 64);
    packer.raw_pack(0xfedc_ba98_7654_3210, 64);
    assert_eq!(packer.into_inner(), 0x0123_4567_89ab_cdef_fedc_ba98_7654_3210);
}

#[test]
fn raw_unpack_reads_in_reverse_order() {
    let mut unpacker = Unpacker::<u16>::new(0xabcd);
    assert_eq!(unpacker.raw_unpack(4), 0xd);
    assert_eq!(unpacker.raw_unpack(4), 0xc);
    assert_eq!(unpacker.raw_unpack(8), 0xab);
    assert_eq!(unpacker.into_inner(), 0);
}

#[test]
fn raw_unpack_of_zero_bits_reads_zero() {
    let mut unpacker = Unpacker::<u64>::new(0x1234);
    assert_eq!(unpacker.raw_unpack(0), 0);
    assert_eq!(unpacker.into_inner(), 0x1234);
}

#[test]
fn raw_unpack_leaves_the_rest() {
    let mut unpacker = Unpacker::<u32>::new(0xdead_beef);
    assert_eq!(unpacker.raw_unpack(16), 0xbeef);
    assert_eq!(unpacker.into_inner(), 0xdead);
}

#[test]
fn round_trip_of_raw_fields() {
    let fields: [(u64, u32); 5] = [(3, 2), (0, 7), (100, 7), (1, 1), (0x1234_5678, 32)];
    let mut packer = Packer::<u64>::new();
    for (value, size) in fields {
        packer.raw_pack(value, size);
    }
    let packed = packer.into_inner();
    let mut unpacker = Unpacker::<u64>::new(packed);
    for (value, size) in fields.iter().rev() {
        assert_eq!(unpacker.raw_unpack(*size), *value);
    }
    assert_eq!(unpacker.into_inner(), 0);
}

#[test]
fn buffer_constants() {
    assert_eq!(<u8 as Buffer>::ZERO, 0);
    assert_eq!(<u16 as Buffer>::ONE, 1);
    assert_eq!(<u32 as Buffer>::MAX, u32::MAX);
    assert_eq!(<u64 as Buffer>::BITS, 64);
    assert_eq!(<u128 as Buffer>::BITS, 128);
}

#[test]
fn buffer_operations() {
    assert_eq!(Buffer::shift_left(0b11u8, 6), 0b1100_0000);
    assert_eq!(Buffer::shift_left(0b1011u8, 6), 0b1100_0000);
    assert_eq!(Buffer::shift_left(u64::MAX, 60), 0xf000_0000_0000_0000);
    assert_eq!(Buffer::shift_right(0xf0u16, 4), 0x0f);
    assert_eq!(Buffer::and_with(0b1100u32, 0b1010), 0b1000);
    assert_eq!(Buffer::or_with(0b1100u64, 0b1010), 0b1110);
    assert!(Buffer::equals(7u128, 7));
    assert!(!Buffer::equals(7u128, 8));
    assert_eq!(Buffer::shift_left(1u128, 127), 1u128 << 127);
    assert_eq!(Buffer::shift_right(u128::MAX, 120), 0xff);
}

#[test]
fn reading_past_the_width_leaves_nothing() {
    let mut unpacker = Unpacker::<u8>::new(0xff);
    assert_eq!(unpacker.raw_unpack(7), 0x7f);
    assert_eq!(unpacker.raw_unpack(7), 0x01);
    assert_eq!(unpacker.into_inner(), 0);
}

#[test]
fn remaining_is_the_start_shifted_by_the_bits_read() {
    let start: u64 = 0x0123_4567_89ab_cdef;
    let mut unpacker = Unpacker::<u64>::new(start);
    unpacker.raw_unpack(12);
    unpacker.raw_unpack(20);
    assert_eq!(unpacker.into_inner(), start >> 32);
}
