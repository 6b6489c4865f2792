use draco_core::buffer::DataBuffer;
use draco_core::error::ErrorCode;

#[test]
fn test_data_buffer_creation() {
    let buffer = DataBuffer::with_capacity(10);
    assert_eq!(buffer.len(), 0);
    assert!(buffer.is_empty());
    assert_eq!(buffer.position(), 0);
}

#[test]
fn test_data_buffer_from_vec() {
    let data = vec![1, 2, 3, 4, 5];
    let buffer = DataBuffer::from_vec(data.clone());
    assert_eq!(buffer.len(), 5);
    assert_eq!(buffer.as_slice(), &data[..]);
}

#[test]
fn test_data_buffer_operations() {
    let mut buffer = DataBuffer::with_capacity(10);
    buffer.push(1);
    buffer.push(2);
    buffer.extend_from_slice(&[3, 4, 5]);
    assert_eq!(buffer.len(), 5);
    assert_eq!(buffer.as_slice(), &[1, 2, 3, 4, 5]);
}

#[test]
fn test_data_buffer_position() {
    let data = vec![1, 2, 3, 4, 5];
    let mut buffer = DataBuffer::from_vec(data);
    assert_eq!(buffer.position(), 0);
    assert_eq!(buffer.read_byte().unwrap(), 1);
    assert_eq!(buffer.position(), 1);
    assert_eq!(buffer.read_byte().unwrap(), 2);
    assert_eq!(buffer.position(), 2);
}

#[test]
fn test_data_buffer_read_slice() {
    let data = vec![1, 2, 3, 4, 5];
    let mut buffer = DataBuffer::from_vec(data);
    let slice = buffer.read_slice(3).unwrap();
    assert_eq!(slice, &[1, 2, 3]);
    assert_eq!(buffer.position(), 3);
    let remaining = buffer.read_slice(2).unwrap();
    assert_eq!(remaining, &[4, 5]);
    assert_eq!(buffer.position(), 5);
}

#[test]
fn test_data_buffer_read_into() {
    let data = vec![1, 2, 3, 4, 5];
    let mut buffer = DataBuffer::from_vec(data);
    let mut buf = [0u8; 3];
    buffer.read_into(&mut buf).unwrap();
    assert_eq!(buf, [1, 2, 3]);
    assert_eq!(buffer.position(), 3);
}

#[test]
fn test_data_buffer_rewind() {
    let data = vec![1, 2, 3, 4, 5];
    let mut buffer = DataBuffer::from_vec(data);
    buffer.read_byte().unwrap();
    assert_eq!(buffer.position(), 1);
    buffer.rewind();
    assert_eq!(buffer.position(), 0);
}

#[test]
fn test_data_buffer_set_position() {
    let data = vec![1, 2, 3, 4, 5];
    let mut buffer = DataBuffer::from_vec(data);
    assert!(buffer.set_position(3).is_ok());
    assert_eq!(buffer.position(), 3);
    assert!(buffer.set_position(10).is_err());
}

#[test]
fn test_data_buffer_clear() {
    let mut buffer = DataBuffer::from_vec(vec![1, 2, 3, 4, 5]);
    buffer.read_byte().unwrap();
    assert_eq!(buffer.position(), 1);
    buffer.clear();
    assert_eq!(buffer.len(), 0);
    assert_eq!(buffer.position(), 0);
}

#[test]
fn test_data_buffer_error_handling() {
    let mut buffer = DataBuffer::from_vec(vec![1, 2, 3]);
    buffer.read_byte().unwrap();
    buffer.read_byte().unwrap();
    buffer.read_byte().unwrap();
    assert!(buffer.read_byte().is_err());
    assert!(buffer.read_slice(1).is_err());
    let mut buf = [0u8; 1];
    assert!(buffer.read_into(&mut buf).is_err());
}

#[test]
fn data_buffer_errors_are_io_errors_and_keep_position() {
    let mut buffer = DataBuffer::from_vec(vec![7, 8]);
    assert!(buffer.set_position(1).is_ok());
    let err = buffer.read_slice(2).unwrap_err();
    assert_eq!(err.code(), ErrorCode::IoError);
    assert_eq!(buffer.position(), 1);
    let err = buffer.set_position(3).unwrap_err();
    assert_eq!(err.code(), ErrorCode::InvalidParameter);
    assert_eq!(buffer.position(), 1);
}

#[test]
fn data_buffer_from_and_into_vec() {
    let buffer: DataBuffer = DataBuffer::from(vec![9u8, 8, 7]);
    assert_eq!(buffer.position(), 0);
    assert_eq!(buffer.into_vec(), vec![9u8, 8, 7]);
    let mut b = DataBuffer::default();
    b.reserve(16);
    assert!(b.is_empty());
    b.as_mut_slice();
    b.push(1);
    b.as_mut_slice()[0] = 5;
    assert_eq!(b.as_slice(), &[5]);
}
