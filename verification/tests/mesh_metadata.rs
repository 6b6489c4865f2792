use draco_core::decoder_buffer::DecoderBuffer;
use draco_core::error::ErrorCode;
use draco_core::mesh_metadata::skip_metadata;

#[test]
fn skips_a_nested_metadata_block() {
    // One entry "ab" = "xyz", then one sub-block "s" that is empty.
    let data = [1, 2, b'a', b'b', 3, b'x', b'y', b'z', 1, 1, b's', 0, 0, 0xEE];
    let mut buf = DecoderBuffer::new(&data);
    assert!(skip_metadata(&mut buf).is_ok());
    assert_eq!(buf.position(), 13);
    assert_eq!(buf.decode_u8(), Ok(0xEE));
}

#[test]
fn skips_an_empty_block() {
    let data = [0, 0];
    let mut buf = DecoderBuffer::new(&data);
    assert!(skip_metadata(&mut buf).is_ok());
    assert_eq!(buf.position(), 2);
}

#[test]
fn entry_counts_may_take_several_bytes() {
    // 128 entries announced in a two-byte varint, but only one present.
    let data = [0x80, 0x01, 0, 1, 7, 0];
    let mut buf = DecoderBuffer::new(&data);
    let e = skip_metadata(&mut buf).unwrap_err();
    assert_eq!(e.code(), ErrorCode::DracoError);
}

#[test]
fn empty_values_are_refused() {
    let data = [1, 1, b'n', 0, 0];
    let mut buf = DecoderBuffer::new(&data);
    let e = skip_metadata(&mut buf).unwrap_err();
    assert_eq!(e.code(), ErrorCode::DracoError);
    assert_eq!(e.message(), "Invalid metadata entry data size");
}

#[test]
fn truncated_blocks_are_refused() {
    let data = [1, 5, b'a'];
    let mut buf = DecoderBuffer::new(&data);
    assert_eq!(skip_metadata(&mut buf).unwrap_err().message(), "Failed to read metadata entry name");
    let data = [0];
    let mut buf = DecoderBuffer::new(&data);
    assert_eq!(skip_metadata(&mut buf).unwrap_err().message(), "Failed to read sub-metadata count");
    let data: [u8; 0] = [];
    let mut buf = DecoderBuffer::new(&data);
    assert_eq!(skip_metadata(&mut buf).unwrap_err().message(), "Failed to read metadata entries count");
}

#[test]
fn too_many_sub_blocks_are_refused() {
    let data = [0, 5, 0];
    let mut buf = DecoderBuffer::new(&data);
    assert_eq!(skip_metadata(&mut buf).unwrap_err().message(), "Invalid sub-metadata count");
}

#[test]
fn nested_failures_are_passed_on() {
    // A sub-block whose own entry value is empty.
    let data = [0, 1, 1, b's', 1, 1, b'n', 0];
    let mut buf = DecoderBuffer::new(&data);
    assert_eq!(skip_metadata(&mut buf).unwrap_err().message(), "Invalid metadata entry data size");
}

#[test]
fn no_metadata_inside_a_bit_section() {
    let data = [0, 0, 0, 0];
    let mut buf = DecoderBuffer::new(&data);
    buf.start_bit_decoding(false).unwrap();
    assert!(skip_metadata(&mut buf).is_err());
}
