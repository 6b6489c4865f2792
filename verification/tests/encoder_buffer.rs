use draco_core::encoder_buffer::{BitEncoder, EncoderBuffer};

#[test]
fn test_encoder_buffer_creation() {
    let buf = EncoderBuffer::new();
    assert_eq!(buf.size(), 0);
    assert!(!buf.bit_encoder_active());
}

#[test]
fn test_encoder_buffer_with_capacity() {
    let buf = EncoderBuffer::with_capacity(1024);
    assert_eq!(buf.size(), 0);
    assert!(buf.capacity() >= 1024);
}

#[test]
fn test_raw_byte_encoding() {
    let mut buf = EncoderBuffer::new();
    let data = b"Hello, World!";
    buf.encode(data).unwrap();
    assert_eq!(buf.size(), 13);
    assert_eq!(buf.data(), data);
}

#[test]
fn test_bit_encoding() {
    let mut buf = EncoderBuffer::new();
    buf.start_bit_encoding(16, false).unwrap();
    buf.encode_least_significant_bits_32(4, 0b1010).unwrap();
    buf.encode_least_significant_bits_32(4, 0b1100).unwrap();
    buf.encode_least_significant_bits_32(8, 0xFF).unwrap();
    buf.end_bit_encoding();
    assert_eq!(buf.size(), 2);
    assert_eq!(buf.data()[0], 0b11001010);
    assert_eq!(buf.data()[1], 0b11111111);
}

#[test]
fn test_bit_encoding_with_size() {
    let mut buf = EncoderBuffer::new();
    buf.start_bit_encoding(8, true).unwrap();
    buf.encode_least_significant_bits_32(4, 0b1010).unwrap();
    buf.encode_least_significant_bits_32(4, 0b1100).unwrap();
    buf.end_bit_encoding();
    assert_eq!(buf.size(), 5);
    assert_eq!(&buf.data()[..4], &[8, 0, 0, 0]);
    assert_eq!(buf.data()[4], 0b11001010);
}

#[test]
fn test_simple_bit_encoding() {
    let mut buf = EncoderBuffer::new();
    buf.start_bit_encoding(8, false).unwrap();
    buf.encode_least_significant_bits_32(1, 1).unwrap();
    buf.encode_least_significant_bits_32(1, 0).unwrap();
    buf.encode_least_significant_bits_32(1, 1).unwrap();
    buf.encode_least_significant_bits_32(1, 1).unwrap();
    buf.end_bit_encoding();
    assert_eq!(buf.size(), 1);
    assert_eq!(buf.data()[0], 0b00001101);
}

#[test]
fn test_clear_and_resize() {
    let mut buf = EncoderBuffer::new();
    buf.encode(b"test").unwrap();
    assert_eq!(buf.size(), 4);
    buf.clear();
    assert_eq!(buf.size(), 0);
    buf.resize(100);
    assert_eq!(buf.size(), 100);
    assert_eq!(buf.data(), &[0; 100]);
}

#[test]
fn test_bits_required() {
    assert_eq!(BitEncoder::bits_required(0), 0);
    assert_eq!(BitEncoder::bits_required(1), 1);
    assert_eq!(BitEncoder::bits_required(2), 2);
    assert_eq!(BitEncoder::bits_required(3), 2);
    assert_eq!(BitEncoder::bits_required(4), 3);
    assert_eq!(BitEncoder::bits_required(7), 3);
    assert_eq!(BitEncoder::bits_required(8), 4);
    assert_eq!(BitEncoder::bits_required(255), 8);
    assert_eq!(BitEncoder::bits_required(256), 9);
}

#[test]
fn bit_encoding_errors_change_nothing() {
    let mut buf = EncoderBuffer::new();
    assert_eq!(buf.encode_least_significant_bits_32(8, 0xFF), Err("Bit encoder not active"));
    buf.start_bit_encoding(8, false).unwrap();
    assert_eq!(buf.start_bit_encoding(8, false), Err("Bit encoder already active"));
    assert_eq!(buf.encode(b"test"), Err("Cannot encode byte-aligned data during bit encoding"));
    assert_eq!(buf.encode_least_significant_bits_32(33, 0), Err("Cannot encode more than 32 bits"));
    assert_eq!(buf.encode_least_significant_bits_32(9, 0), Err("Bit sequence exceeds reserved space"));
    buf.encode_least_significant_bits_32(8, 0xA5).unwrap();
    buf.end_bit_encoding();
    assert_eq!(buf.data(), &[0xA5]);
    assert!(!buf.bit_encoder_active());
}

#[test]
fn end_bit_encoding_keeps_only_used_bytes() {
    let mut buf = EncoderBuffer::new();
    buf.encode(&[1, 2]).unwrap();
    buf.start_bit_encoding(64, true).unwrap();
    assert_eq!(buf.size(), 2 + 4 + 8);
    buf.encode_least_significant_bits_32(12, 0xABC).unwrap();
    buf.end_bit_encoding();
    assert_eq!(buf.data(), &[1, 2, 12, 0, 0, 0, 0xBC, 0x0A]);
    buf.buffer_mut().push(9);
    assert_eq!(buf.size(), 9);
}

#[test]
fn test_byte_aligned_encoding() {
    let mut buf = EncoderBuffer::new();

    // Encode a simple integer
    let value: u32 = 0x12345678;
    buf.encode_type(&value).unwrap();

    assert_eq!(buf.size(), 4);
    let encoded = buf.data();
    assert_eq!(encoded, &[0x78, 0x56, 0x34, 0x12]); // Little endian
}

#[test]
fn test_error_conditions() {
    let mut buf = EncoderBuffer::new();

    // Can't encode bits without starting bit encoding
    assert!(buf.encode_least_significant_bits_32(8, 0xFF).is_err());

    // Can't encode byte data during bit encoding
    buf.start_bit_encoding(8, false).unwrap();
    assert!(buf.encode(b"test").is_err());
    assert!(buf.encode_type(&42u32).is_err());
}

#[test]
fn plain_values_are_written_little_endian() {
    let mut buf = EncoderBuffer::new();
    buf.encode_type(&0xABu8).unwrap();
    buf.encode_type(&-2i32).unwrap();
    assert_eq!(buf.data(), &[0xAB, 0xFE, 0xFF, 0xFF, 0xFF]);
}
