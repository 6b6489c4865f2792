//! Plain values: integers with a fixed size and a little-endian byte form,
//! as buffers and transform parameters store them.
use crate::decoder_buffer::{le_value, DecoderBuffer};
use crate::encoder_buffer::{le_u32_bytes, EncoderBuffer};
use vstd::prelude::*;

verus! {

/// A plain value: it has a fixed size and a little-endian byte form from
/// which it is read back.
pub trait PlainValue: Copy + Sized {
    /// Number of bytes of the byte form.
    spec fn size_spec() -> nat;

    /// The byte form of a value.
    spec fn to_bytes_spec(self) -> Seq<u8>;

    /// The value held by a byte form.
    spec fn from_bytes_spec(b: Seq<u8>) -> Self;

    /// Returns the number of bytes of the byte form.
    fn byte_size() -> (r: usize)
        ensures
            r == Self::size_spec(),
            r <= 8,
    ;

    /// Returns the byte form of `self`.
    fn to_bytes(self) -> (r: Vec<u8>)
        ensures
            r@ == self.to_bytes_spec(),
    ;

    /// Returns the value held by `b`.
    fn from_bytes(b: &[u8]) -> (r: Self)
        requires
            b@.len() == Self::size_spec(),
        ensures
            r == Self::from_bytes_spec(b@),
    ;

    /// A value is read back from its byte form.
    proof fn lemma_bytes_round_trip(self)
        ensures
            self.to_bytes_spec().len() == Self::size_spec(),
            Self::from_bytes_spec(self.to_bytes_spec()) == self,
    ;
}

impl PlainValue for u8 {
    open spec fn size_spec() -> nat {
        1
    }

    open spec fn to_bytes_spec(self) -> Seq<u8> {
        seq![self]
    }

    open spec fn from_bytes_spec(b: Seq<u8>) -> u8 {
        b[0]
    }

    fn byte_size() -> (r: usize) {
        1
    }

    fn to_bytes(self) -> (r: Vec<u8>) {
        let mut v: Vec<u8> = Vec::new();
        v.push(self);
        proof {
            assert(v@ =~= seq![self]);
        }
        v
    }

    fn from_bytes(b: &[u8]) -> (r: u8) {
        b[0]
    }

    proof fn lemma_bytes_round_trip(self) {
    }
}

/// Little-endian byte form of a 32-bit value, built one byte at a time.
fn u32_le_bytes(v: u32) -> (r: Vec<u8>)
    ensures
        r@ == le_u32_bytes(v),
{
    let mut r: Vec<u8> = Vec::new();
    r.push((v % 256) as u8);
    r.push(((v / 256) % 256) as u8);
    r.push(((v / 65536) % 256) as u8);
    r.push(((v / 16777216) % 256) as u8);
    proof {
        assert(r@ =~= le_u32_bytes(v));
    }
    r
}

/// The 32-bit value of four little-endian bytes.
fn u32_from_le(b: &[u8]) -> (r: u32)
    requires
        b@.len() == 4,
    ensures
        r == le_value(b@, 0, 4),
{
    proof {
        reveal_with_fuel(le_value, 5);
    }
    b[0] as u32 + 256 * (b[1] as u32 + 256 * (b[2] as u32 + 256 * b[3] as u32))
}

impl PlainValue for u32 {
    open spec fn size_spec() -> nat {
        4
    }

    open spec fn to_bytes_spec(self) -> Seq<u8> {
        le_u32_bytes(self)
    }

    open spec fn from_bytes_spec(b: Seq<u8>) -> u32 {
        le_value(b, 0, 4) as u32
    }

    fn byte_size() -> (r: usize) {
        4
    }

    fn to_bytes(self) -> (r: Vec<u8>) {
        u32_le_bytes(self)
    }

    fn from_bytes(b: &[u8]) -> (r: u32) {
        u32_from_le(b)
    }

    proof fn lemma_bytes_round_trip(self) {
        crate::decoder_buffer::lemma_le_u32_read_back(self);
    }
}

impl PlainValue for i32 {
    open spec fn size_spec() -> nat {
        4
    }

    open spec fn to_bytes_spec(self) -> Seq<u8> {
        le_u32_bytes(self as u32)
    }

    open spec fn from_bytes_spec(b: Seq<u8>) -> i32 {
        (le_value(b, 0, 4) as u32) as i32
    }

    fn byte_size() -> (r: usize) {
        4
    }

    fn to_bytes(self) -> (r: Vec<u8>) {
        u32_le_bytes(self as u32)
    }

    fn from_bytes(b: &[u8]) -> (r: i32) {
        u32_from_le(b) as i32
    }

    proof fn lemma_bytes_round_trip(self) {
        crate::decoder_buffer::lemma_le_u32_read_back(self as u32);
        let x = self;
        assert(((x as u32) as i32) == x) by (bit_vector);
    }
}

impl<'a> DecoderBuffer<'a> {
    /// Reads a plain value from its little-endian bytes. Fails, changing
    /// nothing, while a bit-level section is being decoded or when fewer
    /// bytes are left than the value has.
    pub fn decode<T: PlainValue>(&mut self) -> (r: Result<T, ()>)
        ensures
            final(self).same_except_pos(old(self)),
            r is Ok <==> !old(self).bit_decoding() && old(self).pos_spec() + T::size_spec()
                <= old(self).bytes().len(),
            r matches Ok(v) ==> v == T::from_bytes_spec(
                old(self).bytes().subrange(old(self).pos_spec() as int, old(self).pos_spec() + T::size_spec()),
            ) && final(self).pos_spec() == old(self).pos_spec() + T::size_spec(),
            r is Err ==> final(self).pos_spec() == old(self).pos_spec(),
    {
        if self.bit_decoder_active() {
            return Err(());
        }
        let size = T::byte_size();
        match self.decode_slice(size) {
            Ok(bytes) => Ok(T::from_bytes(bytes)),
            Err(e) => Err(e),
        }
    }
}

impl EncoderBuffer {
    /// Appends the little-endian bytes of a plain value. Fails, changing
    /// nothing, while a bit-level section is open.
    pub fn encode_type<T: PlainValue>(&mut self, data: &T) -> (r: Result<(), &'static str>)
        ensures
            r is Err <==> old(self).bit_encoding_active(),
            r is Err ==> *final(self) == *old(self),
            r is Ok ==> final(self).bytes() == old(self).bytes() + data.to_bytes_spec(),
            r is Ok ==> final(self).same_bit_state(old(self)),
    {
        let bytes = data.to_bytes();
        self.encode(bytes.as_slice())
    }
}

/// What `EncoderBuffer::encode_type` appends to some bytes is what
/// `DecoderBuffer::decode` reads back from where it was appended.
pub proof fn lemma_plain_value_read_back<T: PlainValue>(before: Seq<u8>, v: T)
    ensures
        T::from_bytes_spec(
            (before + v.to_bytes_spec()).subrange(before.len() as int, (before.len() + T::size_spec()) as int),
        ) == v,
{
    v.lemma_bytes_round_trip();
    assert((before + v.to_bytes_spec()).subrange(before.len() as int, (before.len() + T::size_spec()) as int)
        =~= v.to_bytes_spec());
}

} // verus!
