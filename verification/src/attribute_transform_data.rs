//! Parameters of an attribute transform, stored as bytes.
use crate::attribute_transform::AttributeTransformType;
use crate::data_buffer::{grown, spliced, DataBuffer};
use crate::plain_value::PlainValue;
use vstd::prelude::*;

verus! {

/// The kind of a transform and its parameters.
#[derive(Debug, Clone)]
pub struct AttributeTransformData {
    transform_type: AttributeTransformType,
    buffer: DataBuffer,
}

impl AttributeTransformData {
    /// The kind of transform.
    pub closed spec fn kind(&self) -> AttributeTransformType {
        self.transform_type
    }

    /// The bytes that hold the parameters.
    pub closed spec fn parameter_bytes(&self) -> Seq<u8> {
        self.buffer.bytes()
    }

    /// Creates data of an invalid transform with no parameters.
    pub fn new() -> (r: Self)
        ensures
            r.kind() == AttributeTransformType::InvalidTransform,
            r.parameter_bytes() == Seq::<u8>::empty(),
    {
        AttributeTransformData { transform_type: AttributeTransformType::InvalidTransform, buffer: DataBuffer::new() }
    }

    /// Returns the kind of transform.
    pub fn transform_type(&self) -> (r: AttributeTransformType)
        ensures
            r == self.kind(),
    {
        self.transform_type
    }

    /// Sets the kind of transform.
    pub fn set_transform_type(&mut self, transform_type: AttributeTransformType)
        ensures
            final(self).kind() == transform_type,
            final(self).parameter_bytes() == old(self).parameter_bytes(),
    {
        self.transform_type = transform_type;
    }

    /// Reads the parameter stored at `byte_offset`; `None` if its bytes run
    /// past the stored parameters.
    pub fn get_parameter_value<T: PlainValue>(&self, byte_offset: usize) -> (r: Option<T>)
        requires
            byte_offset + T::size_spec() <= usize::MAX,
        ensures
            r is Some <==> byte_offset + T::size_spec() <= self.parameter_bytes().len(),
            r matches Some(v) ==> v == T::from_bytes_spec(
                self.parameter_bytes().subrange(byte_offset as int, byte_offset + T::size_spec()),
            ),
    {
        let size = T::byte_size();
        if byte_offset + size > self.buffer.data_size() {
            return None;
        }
        let mut bytes: Vec<u8> = Vec::new();
        let mut i: usize = 0;
        while i < size
            invariant
                i <= size,
                bytes@.len() == i,
                forall|j: int| 0 <= j < i ==> #[trigger] bytes@[j] == 0,
            decreases size - i,
        {
            bytes.push(0);
            i = i + 1;
        }
        let out = bytes.as_mut_slice();
        self.buffer.read(byte_offset, out);
        Some(T::from_bytes(out))
    }

    /// Stores `in_data` at `byte_offset`, growing the stored parameters with
    /// zeros as needed.
    pub fn set_parameter_value<T: PlainValue>(&mut self, byte_offset: usize, in_data: T)
        requires
            byte_offset + T::size_spec() <= usize::MAX,
        ensures
            final(self).kind() == old(self).kind(),
            final(self).parameter_bytes() == spliced(
                grown(old(self).parameter_bytes(), (byte_offset + T::size_spec()) as nat),
                byte_offset as int,
                in_data.to_bytes_spec(),
            ),
    {
        let size = T::byte_size();
        if byte_offset + size > self.buffer.data_size() {
            self.buffer.resize(byte_offset + size);
        }
        let bytes = in_data.to_bytes();
        proof {
            in_data.lemma_bytes_round_trip();
        }
        self.buffer.write(byte_offset, bytes.as_slice());
    }

    /// Stores `in_data` after the stored parameters.
    pub fn append_parameter_value<T: PlainValue>(&mut self, in_data: T)
        requires
            old(self).parameter_bytes().len() + T::size_spec() <= usize::MAX,
        ensures
            final(self).kind() == old(self).kind(),
            final(self).parameter_bytes() == old(self).parameter_bytes() + in_data.to_bytes_spec(),
    {
        let ghost before = self.parameter_bytes();
        let offset = self.buffer.data_size();
        self.set_parameter_value(offset, in_data);
        proof {
            in_data.lemma_bytes_round_trip();
            assert(self.parameter_bytes() =~= before + in_data.to_bytes_spec());
        }
    }
}

impl Default for AttributeTransformData {
    fn default() -> (r: Self)
        ensures
            r.kind() == AttributeTransformType::InvalidTransform,
            r.parameter_bytes() == Seq::<u8>::empty(),
    {
        AttributeTransformData::new()
    }
}

/// A parameter stored with `set_parameter_value` (or `append_parameter_value`)
/// is what `get_parameter_value` reads back from the same offset.
pub proof fn lemma_parameter_read_back<T: PlainValue>(s: Seq<u8>, offset: nat, v: T)
    ensures
        ({
            let after = spliced(grown(s, offset + T::size_spec()), offset as int, v.to_bytes_spec());
            &&& offset + T::size_spec() <= after.len()
            &&& T::from_bytes_spec(after.subrange(offset as int, (offset + T::size_spec()) as int)) == v
        }),
{
    v.lemma_bytes_round_trip();
    let g = grown(s, offset + T::size_spec());
    crate::data_buffer::lemma_grown_keeps_bytes(s, offset + T::size_spec());
    crate::data_buffer::lemma_read_after_write(g, offset as int, v.to_bytes_spec());
}

} // verus!
