use draco_core::data_buffer::{DataBuffer, DataBufferDescriptor};

#[test]
fn update_grows_and_counts() {
    let mut b = DataBuffer::new();
    assert_eq!(b.data_size(), 0);
    assert_eq!(b.update_count(), 0);
    b.update(&[1, 2, 3], None);
    assert_eq!(b.data(), &[1, 2, 3]);
    assert_eq!(b.update_count(), 1);
    b.update(&[9, 9], Some(4));
    assert_eq!(b.data(), &[1, 2, 3, 0, 9, 9]);
    b.update(&[7], Some(1));
    assert_eq!(b.data(), &[1, 7, 3, 0, 9, 9]);
    assert_eq!(b.update_count(), 3);
}

#[test]
fn write_then_read_gives_the_bytes_back() {
    let mut b = DataBuffer::default();
    b.resize(8);
    b.write(3, &[5, 6, 7]);
    let mut out = [0u8; 3];
    b.read(3, &mut out);
    assert_eq!(out, [5, 6, 7]);
    assert_eq!(b.data(), &[0, 0, 0, 5, 6, 7, 0, 0]);
    b.resize(4);
    assert_eq!(b.data(), &[0, 0, 0, 5]);
    b.data_mut()[0] = 1;
    assert_eq!(b.data()[0], 1);
}

#[test]
fn copy_between_buffers_and_descriptor() {
    let mut src = DataBuffer::new();
    src.update(&[10, 11, 12, 13], None);
    let mut dst = DataBuffer::new();
    dst.update(&[1], None);
    dst.copy(2, &src, 1, 2);
    assert_eq!(dst.data(), &[1, 0, 11, 12]);
    dst.copy(0, &src, 3, 1);
    assert_eq!(dst.data(), &[13, 0, 11, 12]);
    dst.set_buffer_id(42);
    dst.set_update_count(7);
    assert_eq!(dst.buffer_id(), 42);
    assert_eq!(dst.update_count(), 7);
    let d = DataBufferDescriptor::default();
    assert_eq!((d.buffer_id, d.buffer_update_count), (0, 0));
}
