use draco_core::bit_utils::{
    clear_bit_32, convert_signed_int_to_symbol_i32, convert_signed_ints_to_symbols,
    convert_symbol_to_signed_int_i32, convert_symbols_to_signed_ints, copy_bits_32, copy_bits_64,
    count_ones_32, count_ones_64, extract_bits_32, extract_bits_64, is_bit_set_32, most_significant_bit,
    most_significant_bit_64, reverse_bits_32, reverse_bits_64, set_bit_32, toggle_bit_32,
};

#[test]
fn test_count_ones_32() {
    assert_eq!(count_ones_32(0b0), 0);
    assert_eq!(count_ones_32(0b1), 1);
    assert_eq!(count_ones_32(0b1011), 3);
    assert_eq!(count_ones_32(0xFFFFFFFF), 32);
    assert_eq!(count_ones_32(0xAAAAAAAA), 16);
    assert_eq!(count_ones_32(0x55555555), 16);
}

#[test]
fn test_count_ones_64() {
    assert_eq!(count_ones_64(0b0), 0);
    assert_eq!(count_ones_64(0b1), 1);
    assert_eq!(count_ones_64(0b1011), 3);
    assert_eq!(count_ones_64(0xFFFFFFFFFFFFFFFF), 64);
    assert_eq!(count_ones_64(0xAAAAAAAAAAAAAAAA), 32);
    assert_eq!(count_ones_64(0x5555555555555555), 32);
}

#[test]
fn test_reverse_bits_32() {
    assert_eq!(reverse_bits_32(0b0001), 0b10000000000000000000000000000000);
    assert_eq!(reverse_bits_32(0b1011), 0b11010000000000000000000000000000);
    assert_eq!(reverse_bits_32(0), 0);
    assert_eq!(reverse_bits_32(0xFFFFFFFF), 0xFFFFFFFF);
    assert_eq!(reverse_bits_32(0x80000001), 0x80000001);
}

#[test]
fn test_reverse_bits_64() {
    assert_eq!(reverse_bits_64(0b0001), 0b1000000000000000000000000000000000000000000000000000000000000000);
    assert_eq!(reverse_bits_64(0), 0);
    assert_eq!(reverse_bits_64(0xFFFFFFFFFFFFFFFF), 0xFFFFFFFFFFFFFFFF);
}

#[test]
fn test_copy_bits_32() {
    let mut dst = 0;
    copy_bits_32(&mut dst, 0, 0b1011, 0, 4);
    assert_eq!(dst, 0b1011);

    let mut dst = 0;
    copy_bits_32(&mut dst, 0, 0xFFFFFFFF, 0, 32);
    assert_eq!(dst, 0xFFFFFFFF);
}

#[test]
fn test_most_significant_bit() {
    assert_eq!(most_significant_bit(1), 0);
    assert_eq!(most_significant_bit(2), 1);
    assert_eq!(most_significant_bit(8), 3);
    assert_eq!(most_significant_bit(0xFF), 7);
    assert_eq!(most_significant_bit(0x8000), 15);
    assert_eq!(most_significant_bit(0), u32::MAX);
}

#[test]
fn test_zigzag_conversion() {
    assert_eq!(convert_signed_int_to_symbol_i32(0i32), 0u32);
    assert_eq!(convert_signed_int_to_symbol_i32(1i32), 2u32);
    assert_eq!(convert_signed_int_to_symbol_i32(-1i32), 1u32);
    assert_eq!(convert_signed_int_to_symbol_i32(2i32), 4u32);
    assert_eq!(convert_signed_int_to_symbol_i32(-2i32), 3u32);

    assert_eq!(convert_symbol_to_signed_int_i32(0u32), 0i32);
    assert_eq!(convert_symbol_to_signed_int_i32(2u32), 1i32);
    assert_eq!(convert_symbol_to_signed_int_i32(1u32), -1i32);
    assert_eq!(convert_symbol_to_signed_int_i32(4u32), 2i32);
    assert_eq!(convert_symbol_to_signed_int_i32(3u32), -2i32);

    for i in -1000..=1000 {
        let symbol = convert_signed_int_to_symbol_i32(i);
        let restored = convert_symbol_to_signed_int_i32(symbol);
        assert_eq!(i, restored);
    }
}

#[test]
fn test_array_conversions() {
    let input = vec![-3, -2, -1, 0, 1, 2, 3];
    let expected_symbols = vec![5, 3, 1, 0, 2, 4, 6];

    let mut output = vec![0u32; input.len()];
    convert_signed_ints_to_symbols(&input, &mut output);
    assert_eq!(output, expected_symbols);

    let mut restored = vec![0i32; input.len()];
    convert_symbols_to_signed_ints(&output, &mut restored);
    assert_eq!(restored, input);
}

#[test]
fn test_bit_operations() {
    assert_eq!(extract_bits_32(0b1011_1100u32, 2, 3), 0b111);
    assert_eq!(extract_bits_32(0b1011_1100u32, 0, 4), 0b1100);

    assert!(is_bit_set_32(0b1010, 1));
    assert!(!is_bit_set_32(0b1010, 0));

    assert_eq!(set_bit_32(0b0100, 1), 0b0110);
    assert_eq!(clear_bit_32(0b0110, 1), 0b0100);
    assert_eq!(toggle_bit_32(0b0100, 1), 0b0110);
    assert_eq!(toggle_bit_32(0b0110, 1), 0b0100);
}

#[test]
#[should_panic(expected = "Destination bit range exceeds 32 bits")]
fn test_copy_bits_32_overflow() {
    let mut dst = 0;
    copy_bits_32(&mut dst, 30, 0b11, 0, 5);
}

#[test]
fn test_copy_bits_32_edge_cases() {
    let mut dst = 0;
    copy_bits_32(&mut dst, 0, 0xFFFFFFFF, 0, 0);
    assert_eq!(dst, 0);

    copy_bits_32(&mut dst, 0, 0xFFFFFFFF, 0, 32);
    assert_eq!(dst, 0xFFFFFFFF);
}

#[test]
fn copy_bits_into_the_middle_keeps_other_bits() {
    let mut dst: u32 = 0xFFFF_0000;
    copy_bits_32(&mut dst, 4, 0b1010_1100, 2, 4);
    assert_eq!(dst, 0xFFFF_00B0);

    let mut dst64: u64 = 0x8000_0000_0000_0001;
    copy_bits_64(&mut dst64, 60, 0b0110, 0, 3);
    assert_eq!(dst64, 0xE000_0000_0000_0001);
}

#[test]
fn most_significant_bit_64_values() {
    assert_eq!(most_significant_bit_64(0), u32::MAX);
    assert_eq!(most_significant_bit_64(1), 0);
    assert_eq!(most_significant_bit_64(1u64 << 40), 40);
    assert_eq!(most_significant_bit_64(u64::MAX), 63);
}

#[test]
fn bit_reversal_is_its_own_inverse() {
    for v in [0u32, 1, 0x1234_5678, 0xDEAD_BEEF, u32::MAX] {
        assert_eq!(reverse_bits_32(reverse_bits_32(v)), v);
    }
    for v in [0u64, 3, 0x0123_4567_89AB_CDEF, u64::MAX] {
        assert_eq!(reverse_bits_64(reverse_bits_64(v)), v);
    }
}

#[test]
fn extract_bits_64_and_wide_counts() {
    assert_eq!(extract_bits_64(0xF0F0_0000_0000_0000, 60, 4), 0xF);
    assert_eq!(extract_bits_32(0xFFFF_FFFF, 4, 40), 0x0FFF_FFFF);
}

#[test]
fn zigzag_extremes_round_trip() {
    assert_eq!(convert_signed_int_to_symbol_i32(i32::MAX), u32::MAX - 1);
    assert_eq!(convert_signed_int_to_symbol_i32(i32::MIN), u32::MAX);
    assert_eq!(convert_symbol_to_signed_int_i32(u32::MAX), i32::MIN);
    assert_eq!(convert_symbol_to_signed_int_i32(u32::MAX - 1), i32::MAX);
}
