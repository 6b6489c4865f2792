use draco_core::decoder_buffer::{DecoderBuffer, DEFAULT_MESH_VERSION_MAJOR, DEFAULT_MESH_VERSION_MINOR};
use draco_core::encoder_buffer::EncoderBuffer;

#[test]
fn decoder_reads_little_endian_values() {
    let data = [0x01u8, 0x34, 0x12, 0x78, 0x56, 0x34, 0x12, 1, 0, 0, 0, 0, 0, 0, 0x80];
    let mut d = DecoderBuffer::new(&data);
    assert_eq!(d.version_major(), DEFAULT_MESH_VERSION_MAJOR);
    assert_eq!(d.version_minor(), DEFAULT_MESH_VERSION_MINOR);
    assert_eq!(d.decode_u8(), Ok(1));
    assert_eq!(d.decode_u16(), Ok(0x1234));
    assert_eq!(d.decode_u32(), Ok(0x1234_5678));
    assert_eq!(d.decode_u64(), Ok(0x8000_0000_0000_0001));
    assert_eq!(d.position(), 15);
    assert_eq!(d.remaining_size(), 0);
    assert_eq!(d.decode_u8(), Err(()));
    assert_eq!(d.position(), 15);
}

#[test]
fn decoder_varints() {
    let data = [0x96u8, 0x01, 0x7F, 0x03, 0x80];
    let mut d = DecoderBuffer::new(&data);
    assert_eq!(d.decode_varint(), Ok(150));
    assert_eq!(d.decode_varint(), Ok(127));
    assert_eq!(d.decode_varint_signed_i32(), Ok(-2));
    assert_eq!(d.position(), 4);
    assert_eq!(d.decode_varint(), Err(()));
    assert_eq!(d.position(), 5);

    let long = [0xFFu8; 10];
    let mut d = DecoderBuffer::new(&long);
    assert_eq!(d.decode_varint(), Err(()));
    assert_eq!(d.position(), 10);

    let max = [0xFFu8, 0xFF, 0xFF, 0xFF, 0xFF, 0xFF, 0xFF, 0xFF, 0xFF, 0x01];
    let mut d = DecoderBuffer::new(&max);
    assert_eq!(d.decode_varint(), Ok(u64::MAX));
}

#[test]
fn decoder_strings_slices_and_positions() {
    let data = b"abc\0xyz";
    let mut d = DecoderBuffer::new(data);
    assert_eq!(d.peek_bytes(2), vec![b'a', b'b']);
    assert_eq!(d.decode_string(), Ok(String::from("abc")));
    assert_eq!(d.position(), 4);
    assert_eq!(d.remaining_data(), b"xyz");
    assert_eq!(d.decode_slice(2), Ok(&b"xy"[..]));
    assert_eq!(d.decode_slice(2), Err(()));
    assert_eq!(d.decode_string(), Err(()));
    assert_eq!(d.position(), 7);
    assert!(d.set_position(1).is_ok());
    let mut out = [0u8; 3];
    assert!(d.decode_bytes(&mut out).is_ok());
    assert_eq!(&out, b"bc\0");
    assert!(d.set_position(8).is_err());
    d.advance(10);
    assert_eq!(d.remaining_size(), 0);
    d.set_version(1, 3);
    assert_eq!((d.version_major(), d.version_minor()), (1, 3));

    let bad = [0xFFu8, 0xFE, 0];
    let mut d = DecoderBuffer::new(&bad);
    assert_eq!(d.decode_string(), Err(()));
    assert_eq!(d.position(), 3);
}

#[test]
fn bits_written_by_the_encoder_are_read_back() {
    let mut enc = EncoderBuffer::new();
    enc.start_bit_encoding(40, false).unwrap();
    enc.encode_least_significant_bits_32(5, 0b10110).unwrap();
    enc.encode_least_significant_bits_32(32, 0xDEAD_BEEF).unwrap();
    enc.encode_least_significant_bits_32(3, 0b111).unwrap();
    enc.end_bit_encoding();

    let mut d = DecoderBuffer::new(enc.data());
    assert_eq!(d.decode_least_significant_bits32(1), Err(()));
    assert_eq!(d.start_bit_decoding(false), Ok(0));
    assert_eq!(d.start_bit_decoding(false), Err(()));
    assert_eq!(d.decode_least_significant_bits32(5), Ok(0b10110));
    assert_eq!(d.decode_least_significant_bits32(32), Ok(0xDEAD_BEEF));
    assert_eq!(d.decode_least_significant_bits32(3), Ok(0b111));
    assert_eq!(d.decode_least_significant_bits32(1), Err(()));
    d.end_bit_decoding();
    assert_eq!(d.position(), 5);
}

#[test]
fn bit_sections_with_size() {
    // Version 2.2: size as a varint, then the section.
    let data = [2u8, 0b1010_0101, 0xFF, 9];
    let mut d = DecoderBuffer::new(&data);
    assert_eq!(d.start_bit_decoding(true), Ok(2));
    assert_eq!(d.decode_least_significant_bits32(4), Ok(0b0101));
    d.end_bit_decoding();
    assert_eq!(d.position(), 3);
    assert_eq!(d.decode_u8(), Ok(9));

    // Earlier versions: size as a 64-bit value.
    let data = [1u8, 0, 0, 0, 0, 0, 0, 0, 0x0F, 7];
    let mut d = DecoderBuffer::new(&data);
    d.set_version(2, 1);
    assert_eq!(d.start_bit_decoding(true), Ok(1));
    assert_eq!(d.decode_u8(), Err(()));
    assert_eq!(d.decode_least_significant_bits32(8), Ok(0x0F));
    assert_eq!(d.decode_least_significant_bits32(1), Err(()));
    assert!(d.set_position(0).is_err());
    d.end_bit_decoding();
    assert_eq!(d.decode_u8(), Ok(7));
}

#[test]
fn plain_values_are_read_little_endian() {
    let data = [0xAB, 0xFE, 0xFF, 0xFF, 0xFF, 0x78, 0x56, 0x34, 0x12, 0x01];
    let mut buf = DecoderBuffer::new(&data);
    assert_eq!(buf.decode::<u8>(), Ok(0xAB));
    assert_eq!(buf.decode::<i32>(), Ok(-2));
    assert_eq!(buf.decode::<u32>(), Ok(0x12345678));
    assert_eq!(buf.position(), 9);
    // Too few bytes left: nothing is consumed.
    assert_eq!(buf.decode::<u32>(), Err(()));
    assert_eq!(buf.position(), 9);
    assert_eq!(buf.decode::<u8>(), Ok(1));
    assert_eq!(buf.decode::<u8>(), Err(()));
}

#[test]
fn plain_values_are_not_read_inside_a_bit_section() {
    let data = [0xFF, 0x01, 0x02];
    let mut buf = DecoderBuffer::new(&data);
    buf.start_bit_decoding(false).unwrap();
    assert_eq!(buf.decode::<u8>(), Err(()));
    buf.end_bit_decoding();
    assert!(buf.decode::<u8>().is_ok());
}

#[test]
fn plain_value_round_trip_through_buffers() {
    let mut enc = EncoderBuffer::new();
    enc.encode_type(&0x0102_0304u32).unwrap();
    enc.encode_type(&i32::MIN).unwrap();
    enc.encode_type(&7u8).unwrap();
    let bytes = enc.data().to_vec();
    let mut dec = DecoderBuffer::new(&bytes);
    assert_eq!(dec.decode::<u32>(), Ok(0x0102_0304));
    assert_eq!(dec.decode::<i32>(), Ok(i32::MIN));
    assert_eq!(dec.decode::<u8>(), Ok(7));
}
