//! A growable byte buffer with a read position.
use crate::error::{DracoError, ErrorCode, StatusResult};
use vstd::prelude::*;

verus! {

/// Maximum buffer size limit (1 GiB).
pub const BUFFER_SIZE_LIMIT: usize = 0x4000_0000;

/// The message of the error returned when a read position lies past the end
/// of a buffer.
///
/// Formats `position` and `len` with `format!`; its text is not stated.
#[verifier::external_body]
fn position_error_message(position: usize, len: usize) -> (r: String) {
    format!("Position {} exceeds buffer length {}", position, len)
}

/// A byte buffer that can be appended to and read from front to back.
#[derive(Debug, Clone)]
pub struct DataBuffer {
    data: Vec<u8>,
    position: usize,
}

impl DataBuffer {
    /// The bytes held by the buffer.
    pub closed spec fn contents(&self) -> Seq<u8> {
        self.data@
    }

    /// The read position.
    pub closed spec fn read_position(&self) -> usize {
        self.position
    }

    /// Creates an empty buffer with room for `capacity` bytes.
    pub fn with_capacity(capacity: usize) -> (r: Self)
        ensures
            r.contents() == Seq::<u8>::empty(),
            r.read_position() == 0,
    {
        DataBuffer { data: Vec::with_capacity(capacity), position: 0 }
    }

    /// Creates a buffer holding `data`, positioned at its start.
    pub fn from_vec(data: Vec<u8>) -> (r: Self)
        ensures
            r.contents() == data@,
            r.read_position() == 0,
    {
        DataBuffer { data, position: 0 }
    }

    /// Returns the number of bytes in the buffer.
    pub fn len(&self) -> (r: usize)
        ensures
            r == self.contents().len(),
    {
        self.data.len()
    }

    /// Returns true if the buffer holds no bytes.
    pub fn is_empty(&self) -> (r: bool)
        ensures
            r == (self.contents().len() == 0),
    {
        self.data.len() == 0
    }

    /// Returns the read position.
    pub fn position(&self) -> (r: usize)
        ensures
            r == self.read_position(),
    {
        self.position
    }

    /// Moves the read position; a position past the end of the data is an
    /// invalid parameter and leaves the buffer unchanged.
    pub fn set_position(&mut self, position: usize) -> (r: StatusResult<()>)
        ensures
            final(self).contents() == old(self).contents(),
            r is Ok <==> position <= old(self).contents().len(),
            r is Ok ==> final(self).read_position() == position,
            r is Err ==> final(self).read_position() == old(self).read_position(),
            r matches Err(e) ==> e.code_spec() == ErrorCode::InvalidParameter,
    {
        if position > self.data.len() {
            let message = position_error_message(position, self.data.len());
            return Err(DracoError::invalid_parameter(message.as_str()));
        }
        self.position = position;
        Ok(())
    }

    /// Moves the read position back to the start.
    pub fn rewind(&mut self)
        ensures
            final(self).contents() == old(self).contents(),
            final(self).read_position() == 0,
    {
        self.position = 0;
    }

    /// Removes all bytes and moves the read position to the start.
    pub fn clear(&mut self)
        ensures
            final(self).contents() == Seq::<u8>::empty(),
            final(self).read_position() == 0,
    {
        self.position = 0;
        self.data.clear();
    }

    /// Appends one byte.
    pub fn push(&mut self, byte: u8)
        ensures
            final(self).contents() == old(self).contents().push(byte),
            final(self).read_position() == old(self).read_position(),
    {
        self.data.push(byte);
    }

    /// Appends the bytes of `slice`.
    pub fn extend_from_slice(&mut self, slice: &[u8])
        ensures
            final(self).contents() == old(self).contents() + slice@,
            final(self).read_position() == old(self).read_position(),
    {
        self.data.extend_from_slice(slice);
    }

    /// Reserves room for at least `additional` more bytes; the contents do not
    /// change.
    pub fn reserve(&mut self, additional: usize)
        ensures
            final(self).contents() == old(self).contents(),
            final(self).read_position() == old(self).read_position(),
    {
        self.data.reserve(additional);
    }

    /// Returns the bytes of the buffer.
    pub fn as_slice(&self) -> (r: &[u8])
        ensures
            r@ == self.contents(),
    {
        self.data.as_slice()
    }

    /// Returns the bytes of the buffer for modification in place.
    pub fn as_mut_slice(&mut self) -> (r: &mut [u8])
        ensures
            r@ == old(self).contents(),
            final(self).contents() == final(r)@,
            final(self).read_position() == old(self).read_position(),
    {
        self.data.as_mut_slice()
    }

    /// Reads the byte at the read position and moves past it; reading at the
    /// end of the data is an I/O error and leaves the buffer unchanged.
    pub fn read_byte(&mut self) -> (r: StatusResult<u8>)
        ensures
            final(self).contents() == old(self).contents(),
            r is Ok <==> old(self).read_position() < old(self).contents().len(),
            r matches Ok(b) ==> b == old(self).contents()[old(self).read_position() as int]
                && final(self).read_position() == old(self).read_position() + 1,
            r is Err ==> final(self).read_position() == old(self).read_position(),
            r matches Err(e) ==> e.code_spec() == ErrorCode::IoError,
    {
        if self.position >= self.data.len() {
            return Err(DracoError::io_error("Attempted to read past end of buffer"));
        }
        let byte = self.data[self.position];
        self.position = self.position + 1;
        Ok(byte)
    }

    /// Reads the next `len` bytes and moves past them; reading past the end of
    /// the data is an I/O error and leaves the buffer unchanged.
    pub fn read_slice(&mut self, len: usize) -> (r: StatusResult<&[u8]>)
        ensures
            final(self).contents() == old(self).contents(),
            r is Ok <==> old(self).read_position() + len <= old(self).contents().len(),
            r matches Ok(s) ==> s@ == old(self).contents().subrange(
                old(self).read_position() as int,
                old(self).read_position() + len,
            ) && final(self).read_position() == old(self).read_position() + len,
            r is Err ==> final(self).read_position() == old(self).read_position(),
            r matches Err(e) ==> e.code_spec() == ErrorCode::IoError,
    {
        if self.position > self.data.len() || len > self.data.len() - self.position {
            return Err(DracoError::io_error("Attempted to read past end of buffer"));
        }
        let start = self.position;
        self.position = self.position + len;
        let slice = vstd::slice::slice_subrange(self.data.as_slice(), start, start + len);
        Ok(slice)
    }

    /// Fills `buf` with the next `buf.len()` bytes and moves past them;
    /// reading past the end of the data is an I/O error and leaves both the
    /// buffer and `buf` unchanged.
    pub fn read_into(&mut self, buf: &mut [u8]) -> (r: StatusResult<()>)
        ensures
            final(self).contents() == old(self).contents(),
            final(buf)@.len() == old(buf)@.len(),
            r is Ok <==> old(self).read_position() + old(buf)@.len() <= old(self).contents().len(),
            r is Ok ==> final(buf)@ == old(self).contents().subrange(
                old(self).read_position() as int,
                old(self).read_position() + old(buf)@.len(),
            ) && final(self).read_position() == old(self).read_position() + old(buf)@.len(),
            r is Err ==> final(self).read_position() == old(self).read_position() && final(buf)@
                == old(buf)@,
            r matches Err(e) ==> e.code_spec() == ErrorCode::IoError,
    {
        let n = buf.len();
        if self.position > self.data.len() || n > self.data.len() - self.position {
            return Err(DracoError::io_error("Attempted to read past end of buffer"));
        }
        let start = self.position;
        let data = &self.data;
        let end = start + n;
        let mut i: usize = 0;
        while i < n
            invariant
                n == buf@.len(),
                end == start + n,
                start + n <= data@.len(),
                data@ == old(self).data@,
                i <= n,
                forall|j: int| 0 <= j < i ==> #[trigger] buf@[j] == data@[start + j],
            decreases n - i,
        {
            buf[i] = data[start + i];
            i = i + 1;
        }
        proof {
            assert(buf@ =~= self.data@.subrange(start as int, start + n));
        }
        self.position = start + n;
        Ok(())
    }

    /// Consumes the buffer and returns its bytes.
    pub fn into_vec(self) -> (r: Vec<u8>)
        ensures
            r@ == self.contents(),
    {
        self.data
    }
}

impl Default for DataBuffer {
    fn default() -> (r: Self)
        ensures
            r.contents() == Seq::<u8>::empty(),
            r.read_position() == 0,
    {
        Self::with_capacity(0)
    }
}

impl From<Vec<u8>> for DataBuffer {
    /// A buffer holding `data`, positioned at its start.
    fn from(data: Vec<u8>) -> (r: Self) {
        DataBuffer { data, position: 0 }
    }
}

impl vstd::std_specs::convert::FromSpecImpl<Vec<u8>> for DataBuffer {
    open spec fn obeys_from_spec() -> bool {
        true
    }

    closed spec fn from_spec(data: Vec<u8>) -> DataBuffer {
        DataBuffer { data, position: 0 }
    }
}

/// A buffer converted from bytes holds those bytes and is positioned at its
/// start.
pub proof fn lemma_buffer_from_bytes(v: Vec<u8>)
    ensures
        <DataBuffer as vstd::std_specs::convert::FromSpec<Vec<u8>>>::from_spec(v).contents() == v@,
        <DataBuffer as vstd::std_specs::convert::FromSpec<Vec<u8>>>::from_spec(v).read_position() == 0,
{
}

} // verus!
