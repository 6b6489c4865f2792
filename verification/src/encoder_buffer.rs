//! Encoder buffer: byte-aligned output with an optional bit-level section.
//!
//! Bits are numbered through a byte sequence from the least significant bit
//! of the first byte: bit `k` is bit `k % 8` of byte `k / 8`
//! (`stream_bit`).
use vstd::arithmetic::power2::*;
use vstd::prelude::*;

verus! {

/// Bit `k` of a byte sequence, counting from the least significant bit of
/// the first byte.
pub open spec fn stream_bit(s: Seq<u8>, k: int) -> u8 {
    (s[k / 8] >> ((k % 8) as u8)) & 1u8
}

/// `new` is `old` with the bits `pos .. pos + nbits` replaced by the low
/// `nbits` bits of `value` (bit `pos + i` takes bit `i` of `value`); no other
/// bit changes and the length stays the same.
pub open spec fn bits_written(old: Seq<u8>, new: Seq<u8>, pos: int, value: u32, nbits: int) -> bool {
    &&& new.len() == old.len()
    &&& forall|k: int|
        0 <= k < 8 * new.len() ==> #[trigger] stream_bit(new, k) == if pos <= k < pos + nbits {
            ((value >> ((k - pos) as u32)) & 1u32) as u8
        } else {
            stream_bit(old, k)
        }
}

/// The little-endian bytes of a 32-bit value.
pub open spec fn le_u32_bytes(v: u32) -> Seq<u8> {
    seq![
        (v % 256) as u8,
        ((v / 256) % 256) as u8,
        ((v / 65536) % 256) as u8,
        ((v / 16777216) % 256) as u8,
    ]
}

proof fn lemma_write_bit_in_byte(b: u8, s: u8, v: u8, nb: u8)
    by (bit_vector)
    requires
        s < 8,
        v <= 1,
        nb == (b & !(1u8 << s)) | (v << s),
    ensures
        forall|j: u8| j < 8 ==> #[trigger] ((nb >> j) & 1u8) == if j == s { v } else { (b >> j) & 1u8 },
{
}

/// Sets bit `bit_index` of `buffer` (in `stream_bit` numbering) to `value`.
fn write_bit(buffer: &mut [u8], bit_index: usize, value: u32)
    requires
        value <= 1,
        bit_index / 8 < old(buffer)@.len(),
    ensures
        final(buffer)@.len() == old(buffer)@.len(),
        forall|k: int|
            0 <= k < 8 * old(buffer)@.len() ==> #[trigger] stream_bit(final(buffer)@, k) == if k
                == bit_index {
                value as u8
            } else {
                stream_bit(old(buffer)@, k)
            },
{
    let byte_offset = bit_index / 8;
    let bit_shift = (bit_index % 8) as u8;
    let b = buffer[byte_offset];
    let nb = (b & !(1u8 << bit_shift)) | ((value as u8) << bit_shift);
    proof {
        lemma_write_bit_in_byte(b, bit_shift, value as u8, nb);
    }
    buffer[byte_offset] = nb;
    proof {
        assert forall|k: int| 0 <= k < 8 * old(buffer)@.len() implies #[trigger] stream_bit(buffer@, k)
            == if k == bit_index {
            value as u8
        } else {
            stream_bit(old(buffer)@, k)
        } by {
            if k / 8 == byte_offset {
                assert(((nb >> ((k % 8) as u8)) & 1u8) == if (k % 8) as u8 == bit_shift {
                    value as u8
                } else {
                    (b >> ((k % 8) as u8)) & 1u8
                });
            }
        }
    }
}

/// Writes the low `nbits` bits of `data` into `buffer` at bit `pos`, one bit
/// at a time (bit `i` of `data` goes to bit `pos + i`).
fn write_bits(buffer: &mut [u8], pos: usize, data: u32, nbits: u8)
    requires
        nbits <= 32,
        pos + nbits <= 8 * old(buffer)@.len(),
        pos + nbits <= usize::MAX,
    ensures
        bits_written(old(buffer)@, final(buffer)@, pos as int, data, nbits as int),
{
    let mut bit: u8 = 0;
    while bit < nbits
        invariant
            nbits <= 32,
            bit <= nbits,
            pos + nbits <= 8 * old(buffer)@.len(),
            pos + nbits <= usize::MAX,
            bits_written(old(buffer)@, buffer@, pos as int, data, bit as int),
        decreases nbits - bit,
    {
        let ghost before = buffer@;
        proof {
            crate::bit_utils::lemma_zigzag_bits(data >> bit);
        }
        write_bit(buffer, pos + bit as usize, (data >> bit) & 1);
        proof {
            assert forall|k: int| 0 <= k < 8 * buffer@.len() implies #[trigger] stream_bit(buffer@, k)
                == if pos <= k < pos + bit + 1 {
                ((data >> ((k - pos) as u32)) & 1u32) as u8
            } else {
                stream_bit(old(buffer)@, k)
            } by {
                assert(stream_bit(before, k) == if pos <= k < pos + bit {
                    ((data >> ((k - pos) as u32)) & 1u32) as u8
                } else {
                    stream_bit(old(buffer)@, k)
                });
            }
        }
        bit = bit + 1;
    }
}

/// State of a bit-level section: the number of bits written so far and the
/// byte at which the section starts.
#[derive(Debug, Clone)]
pub struct BitEncoder {
    bit_offset: usize,
    start_byte_offset: usize,
}

impl BitEncoder {
    /// Number of bits written so far.
    pub closed spec fn offset_spec(&self) -> usize {
        self.bit_offset
    }

    /// Byte at which the bit-level section starts.
    pub closed spec fn start_spec(&self) -> usize {
        self.start_byte_offset
    }

    /// Writes the low `nbits` bits of `data` into `buffer` at the current bit
    /// offset (least significant bit first) and moves the offset past them.
    ///
    /// The bits must fit into `buffer` and `nbits` may not exceed 32.
    pub fn put_bits(&mut self, data: u32, nbits: u8, buffer: &mut [u8])
        requires
            nbits <= 32,
            old(self).offset_spec() + nbits <= 8 * old(buffer)@.len(),
            old(self).offset_spec() + nbits <= usize::MAX,
        ensures
            bits_written(old(buffer)@, final(buffer)@, old(self).offset_spec() as int, data, nbits as int),
            final(self).offset_spec() == old(self).offset_spec() + nbits,
            final(self).start_spec() == old(self).start_spec(),
    {
        write_bits(buffer, self.bit_offset, data, nbits);
        self.bit_offset = self.bit_offset + nbits as usize;
    }

    /// Returns the number of bits written so far.
    pub fn bit_offset(&self) -> (r: usize)
        ensures
            r == self.offset_spec(),
    {
        self.bit_offset
    }

    /// Returns the number of bits needed to write `x`: 0 for 0, otherwise the
    /// position of its highest set bit plus one.
    pub fn bits_required(x: u32) -> (r: u32)
        ensures
            r <= 32,
            (x as nat) < pow2(r as nat),
            r > 0 ==> pow2((r - 1) as nat) <= x,
    {
        let ghost orig = x;
        let mut x = x;
        let mut bits: u32 = 0;
        proof {
            lemma2_to64();
            lemma2_to64_rest();
        }
        while x > 0
            invariant
                bits <= 32,
                x as nat == orig as nat / pow2(bits as nat),
                bits > 0 ==> pow2((bits - 1) as nat) <= orig,
                pow2(32) == 0x1_0000_0000,
                pow2(1) == 2,
            decreases x,
        {
            proof {
                lemma_pow2_pos(bits as nat);
                vstd::arithmetic::div_mod::lemma_fundamental_div_mod(orig as int, pow2(bits as nat) as int);
                vstd::arithmetic::div_mod::lemma_mod_bound(orig as int, pow2(bits as nat) as int);
                assert(pow2(bits as nat) <= orig) by (nonlinear_arith)
                    requires
                        orig as int == pow2(bits as nat) * (orig as int / pow2(bits as nat) as int) + orig as int % pow2(bits as nat) as int,
                        orig as int / pow2(bits as nat) as int >= 1,
                        orig as int % pow2(bits as nat) as int >= 0,
                        pow2(bits as nat) > 0,
                ;
                if bits >= 32 {
                    lemma_pow2_strictly_increases(32, bits as nat);
                }
                vstd::bits::lemma_u32_shr_is_div(x, 1);
                lemma_pow2_unfold((bits + 1) as nat);
                vstd::arithmetic::div_mod::lemma_div_denominator(orig as int, pow2(bits as nat) as int, 2);
            }
            bits = bits + 1;
            x = x >> 1;
        }
        proof {
            lemma_pow2_pos(bits as nat);
            vstd::arithmetic::div_mod::lemma_fundamental_div_mod(orig as int, pow2(bits as nat) as int);
            vstd::arithmetic::div_mod::lemma_mod_bound(orig as int, pow2(bits as nat) as int);
            assert(orig as int / pow2(bits as nat) as int == 0);
            assert(pow2(bits as nat) * (orig as int / pow2(bits as nat) as int) == 0) by (nonlinear_arith)
                requires
                    orig as int / pow2(bits as nat) as int == 0,
            ;
            assert(orig as int == orig as int % pow2(bits as nat) as int);
        }
        bits
    }
}

/// Returns the capacity of a byte vector.
///
/// Calls `Vec::capacity`; states only that the capacity is at least the
/// length, as the standard library documents.
#[verifier::external_body]
fn vec_capacity(v: &Vec<u8>) -> (r: usize)
    ensures
        r >= v@.len(),
{
    v.capacity()
}

/// Output buffer of an encoder.
///
/// Data is appended byte by byte; between `start_bit_encoding` and
/// `end_bit_encoding` a reserved section of the buffer is filled bit by bit
/// instead.
#[derive(Debug, Clone)]
pub struct EncoderBuffer {
    buffer: Vec<u8>,
    bit_encoder: Option<BitEncoder>,
    bit_encoder_reserved_bytes: usize,
    encode_bit_sequence_size: bool,
}

impl EncoderBuffer {
    /// The bytes of the buffer.
    pub closed spec fn bytes(&self) -> Seq<u8> {
        self.buffer@
    }

    /// A bit-level section is open.
    pub closed spec fn bit_encoding_active(&self) -> bool {
        self.bit_encoder is Some
    }

    /// Number of bits written into the open bit-level section.
    pub closed spec fn bits_written_count(&self) -> usize {
        match self.bit_encoder {
            Some(e) => e.bit_offset,
            None => 0,
        }
    }

    /// First byte of the open bit-level section.
    pub closed spec fn bit_section_start(&self) -> usize {
        match self.bit_encoder {
            Some(e) => e.start_byte_offset,
            None => 0,
        }
    }

    /// Number of bytes reserved for the open bit-level section.
    pub closed spec fn reserved_bytes(&self) -> usize {
        self.bit_encoder_reserved_bytes
    }

    /// The open bit-level section is preceded by a 4-byte field that receives
    /// its size in bits.
    pub closed spec fn encodes_bit_count(&self) -> bool {
        self.encode_bit_sequence_size
    }

    /// `self` and `other` have the same bit-level section settings.
    pub open spec fn same_bit_state(&self, other: &Self) -> bool {
        &&& self.bit_encoding_active() == other.bit_encoding_active()
        &&& self.bits_written_count() == other.bits_written_count()
        &&& self.bit_section_start() == other.bit_section_start()
        &&& self.reserved_bytes() == other.reserved_bytes()
        &&& self.encodes_bit_count() == other.encodes_bit_count()
    }

    /// No bit-level section is open and the byte data is empty.
    pub open spec fn is_empty_idle(&self) -> bool {
        &&& self.bytes() == Seq::<u8>::empty()
        &&& !self.bit_encoding_active()
        &&& self.reserved_bytes() == 0
        &&& !self.encodes_bit_count()
    }

    /// Creates an empty encoder buffer.
    pub fn new() -> (r: Self)
        ensures
            r.is_empty_idle(),
    {
        EncoderBuffer {
            buffer: Vec::new(),
            bit_encoder: None,
            bit_encoder_reserved_bytes: 0,
            encode_bit_sequence_size: false,
        }
    }

    /// Creates an empty encoder buffer with room for `capacity` bytes.
    pub fn with_capacity(capacity: usize) -> (r: Self)
        ensures
            r.is_empty_idle(),
    {
        EncoderBuffer {
            buffer: Vec::with_capacity(capacity),
            bit_encoder: None,
            bit_encoder_reserved_bytes: 0,
            encode_bit_sequence_size: false,
        }
    }

    /// Removes all data and closes any bit-level section.
    pub fn clear(&mut self)
        ensures
            final(self).is_empty_idle(),
    {
        self.buffer.clear();
        self.bit_encoder = None;
        self.bit_encoder_reserved_bytes = 0;
        self.encode_bit_sequence_size = false;
    }

    /// Resizes the buffer to `nbytes` bytes, padding with zeros.
    pub fn resize(&mut self, nbytes: usize)
        ensures
            final(self).bytes().len() == nbytes,
            forall|i: int| 0 <= i < nbytes ==> #[trigger] final(self).bytes()[i] == if i < old(self).bytes().len() {
                old(self).bytes()[i]
            } else {
                0u8
            },
            final(self).same_bit_state(old(self)),
    {
        self.buffer.resize(nbytes, 0);
    }

    /// Returns the bytes of the buffer.
    pub fn data(&self) -> (r: &[u8])
        ensures
            r@ == self.bytes(),
    {
        self.buffer.as_slice()
    }

    /// Returns the number of bytes in the buffer.
    pub fn size(&self) -> (r: usize)
        ensures
            r == self.bytes().len(),
    {
        self.buffer.len()
    }

    /// Returns the capacity of the buffer, at least its size.
    pub fn capacity(&self) -> (r: usize)
        ensures
            r >= self.bytes().len(),
    {
        vec_capacity(&self.buffer)
    }

    /// Returns the byte vector itself, for modification in place.
    pub fn buffer_mut(&mut self) -> (r: &mut Vec<u8>)
        ensures
            r@ == old(self).bytes(),
            final(self).bytes() == final(r)@,
            final(self).same_bit_state(old(self)),
    {
        &mut self.buffer
    }

    /// Returns true if a bit-level section is open.
    pub fn bit_encoder_active(&self) -> (r: bool)
        ensures
            r == self.bit_encoding_active(),
    {
        self.bit_encoder.is_some()
    }

    /// Opens a bit-level section for up to `required_bits` bits.
    ///
    /// With `encode_size`, four zero bytes are appended first; they receive
    /// the number of written bits when the section ends. Then
    /// `ceil(required_bits / 8)` zero bytes are reserved. Fails if a section
    /// is already open.
    pub fn start_bit_encoding(&mut self, required_bits: usize, encode_size: bool) -> (r: Result<(), &'static str>)
        requires
            old(self).bytes().len() + 4 + required_bits / 8 + 1 <= usize::MAX,
        ensures
            old(self).bit_encoding_active() ==> r is Err && *final(self) == *old(self),
            !old(self).bit_encoding_active() ==> {
                let prefix = if encode_size {
                    old(self).bytes() + seq![0u8, 0u8, 0u8, 0u8]
                } else {
                    old(self).bytes()
                };
                let reserved: int = if required_bits % 8 == 0 {
                    (required_bits / 8) as int
                } else {
                    required_bits / 8 + 1
                };
                &&& r is Ok
                &&& final(self).bytes() == prefix + Seq::new(reserved as nat, |i: int| 0u8)
                &&& final(self).bit_encoding_active()
                &&& final(self).bits_written_count() == 0
                &&& final(self).bit_section_start() == prefix.len()
                &&& final(self).reserved_bytes() == reserved
                &&& final(self).encodes_bit_count() == encode_size
            },
            !old(self).bit_encoding_active() ==> bit_section_opened(*old(self), *final(self), required_bits, encode_size),
    {
        if self.bit_encoder.is_some() {
            return Err("Bit encoder already active");
        }
        let required_bytes = if required_bits % 8 == 0 {
            required_bits / 8
        } else {
            required_bits / 8 + 1
        };
        if encode_size {
            self.buffer.push(0);
            self.buffer.push(0);
            self.buffer.push(0);
            self.buffer.push(0);
        }
        let start_pos = self.buffer.len();
        let ghost before = self.buffer@;
        self.buffer.resize(start_pos + required_bytes, 0);
        proof {
            if required_bytes > 0 {
                assert forall|i: int| start_pos <= i < start_pos + required_bytes implies #[trigger] self.buffer@[i] == 0u8 by {
                    assert(cloned::<u8>(0u8, self.buffer@[i]));
                }
            }
            let prefix = if encode_size {
                old(self).bytes() + seq![0u8, 0u8, 0u8, 0u8]
            } else {
                old(self).bytes()
            };
            assert(before =~= prefix);
            assert forall|i: int| 0 <= i < start_pos implies #[trigger] self.buffer@[i] == before[i] by {
                assert(self.buffer@.subrange(0, start_pos as int)[i] == self.buffer@[i]);
            }
            assert(self.buffer@ =~= prefix + Seq::new(required_bytes as nat, |i: int| 0u8));
        }
        self.bit_encoder = Some(BitEncoder { bit_offset: 0, start_byte_offset: start_pos });
        self.bit_encoder_reserved_bytes = required_bytes;
        self.encode_bit_sequence_size = encode_size;
        Ok(())
    }

    /// Closes the open bit-level section: the buffer is cut after the last
    /// byte that holds written bits and, if requested when the section was
    /// opened, the number of written bits is stored little-endian in the four
    /// bytes before the section. Without an open section only the section
    /// settings are reset.
    pub fn end_bit_encoding(&mut self)
        requires
            old(self).bit_encoding_active() && old(self).encodes_bit_count() ==> 4
                <= old(self).bit_section_start() <= old(self).bytes().len(),
        ensures
            !final(self).bit_encoding_active(),
            final(self).reserved_bytes() == 0,
            !final(self).encodes_bit_count(),
            !old(self).bit_encoding_active() ==> final(self).bytes() == old(self).bytes(),
            old(self).bit_encoding_active() ==> {
                let start = old(self).bit_section_start() as int;
                let used = (old(self).bits_written_count() + 7) / 8;
                let cut = if start + used < old(self).bytes().len() {
                    old(self).bytes().subrange(0, start + used)
                } else {
                    old(self).bytes()
                };
                if old(self).encodes_bit_count() {
                    final(self).bytes() == cut.subrange(0, start - 4) + le_u32_bytes(
                        old(self).bits_written_count() as u32,
                    ) + cut.subrange(start, cut.len() as int)
                } else {
                    final(self).bytes() == cut
                }
            },
            old(self).bit_encoding_active() ==> bit_section_closed(*old(self), *final(self)),
    {
        match &self.bit_encoder {
            Some(encoder) => {
                let bit_offset = encoder.bit_offset;
                let start = encoder.start_byte_offset;
                let actual_bytes = bit_offset / 8 + if bit_offset % 8 == 0 { 0 } else { 1 };
                let ghost cut = if start + (bit_offset + 7) / 8 < self.buffer@.len() {
                    self.buffer@.subrange(0, start + (bit_offset + 7) / 8)
                } else {
                    self.buffer@
                };
                if start <= self.buffer.len() && actual_bytes < self.buffer.len() - start {
                    self.buffer.truncate(start + actual_bytes);
                }
                proof {
                    assert(self.buffer@ =~= cut);
                }
                if self.encode_bit_sequence_size {
                    let v = bit_offset as u32;
                    let size_offset = start - 4;
                    self.buffer.set(size_offset, (v % 256) as u8);
                    self.buffer.set(size_offset + 1, ((v / 256) % 256) as u8);
                    self.buffer.set(size_offset + 2, ((v / 65536) % 256) as u8);
                    self.buffer.set(size_offset + 3, ((v / 16777216) % 256) as u8);
                    proof {
                        assert(self.buffer@ =~= cut.subrange(0, start - 4) + le_u32_bytes(v) + cut.subrange(
                            start as int,
                            cut.len() as int,
                        ));
                    }
                }
            },
            None => {},
        }
        self.bit_encoder = None;
        self.bit_encoder_reserved_bytes = 0;
        self.encode_bit_sequence_size = false;
    }

    /// Writes the low `nbits` bits of `value` into the open bit-level
    /// section, least significant bit first.
    ///
    /// Fails, changing nothing, if `nbits` exceeds 32, if no section is open,
    /// if the bits would not fit into the reserved bytes, or if the buffer no
    /// longer holds the reserved bytes.
    pub fn encode_least_significant_bits_32(&mut self, nbits: u8, value: u32) -> (r: Result<(), &'static str>)
        requires
            old(self).reserved_bytes() * 8 <= usize::MAX,
            old(self).bit_section_start() * 8 + old(self).reserved_bytes() * 8 <= usize::MAX,
        ensures
            r is Err ==> *final(self) == *old(self),
            r is Ok <==> {
                &&& nbits <= 32
                &&& old(self).bit_encoding_active()
                &&& old(self).bits_written_count() + nbits <= old(self).reserved_bytes() * 8
                &&& old(self).bit_section_start() + old(self).reserved_bytes() <= old(self).bytes().len()
            },
            r is Ok ==> {
                &&& bits_written(
                    old(self).bytes(),
                    final(self).bytes(),
                    old(self).bit_section_start() * 8 + old(self).bits_written_count(),
                    value,
                    nbits as int,
                )
                &&& final(self).bit_encoding_active()
                &&& final(self).bits_written_count() == old(self).bits_written_count() + nbits
                &&& final(self).bit_section_start() == old(self).bit_section_start()
                &&& final(self).reserved_bytes() == old(self).reserved_bytes()
                &&& final(self).encodes_bit_count() == old(self).encodes_bit_count()
            },
            r is Ok ==> bits_encoded(*old(self), *final(self), nbits, value),
    {
        if nbits > 32 {
            return Err("Cannot encode more than 32 bits");
        }
        let (bit_offset, start) = match &self.bit_encoder {
            Some(encoder) => (encoder.bit_offset, encoder.start_byte_offset),
            None => {
                return Err("Bit encoder not active");
            },
        };
        let reserved = self.bit_encoder_reserved_bytes;
        if bit_offset > reserved * 8 || nbits as usize > reserved * 8 - bit_offset {
            return Err("Bit sequence exceeds reserved space");
        }
        if start > self.buffer.len() || reserved > self.buffer.len() - start {
            return Err("Buffer too small for bit encoding");
        }
        let ghost before = self.buffer@;
        write_bits(self.buffer.as_mut_slice(), start * 8 + bit_offset, value, nbits);
        self.bit_encoder = Some(BitEncoder { bit_offset: bit_offset + nbits as usize, start_byte_offset: start });
        Ok(())
    }

    /// Appends `data` to the buffer. Fails, changing nothing, while a
    /// bit-level section is open.
    pub fn encode(&mut self, data: &[u8]) -> (r: Result<(), &'static str>)
        ensures
            r is Err <==> old(self).bit_encoding_active(),
            r is Err ==> *final(self) == *old(self),
            r is Ok ==> final(self).bytes() == old(self).bytes() + data@ && final(self).same_bit_state(
                old(self),
            ),
    {
        if self.bit_encoder.is_some() {
            return Err("Cannot encode byte-aligned data during bit encoding");
        }
        self.buffer.extend_from_slice(data);
        Ok(())
    }
}

/// Writing bits at or after bit `8 * s` leaves the first `s` bytes alone.
pub proof fn lemma_write_keeps_bytes_before(before: Seq<u8>, after: Seq<u8>, pos: int, value: u32, nbits: int, s: int)
    requires
        bits_written(before, after, pos, value, nbits),
        0 <= s <= before.len(),
        8 * s <= pos,
    ensures
        after.subrange(0, s) == before.subrange(0, s),
{
    assert forall|i: int| 0 <= i < s implies #[trigger] after[i] == before[i] by {
        let x = after[i];
        let y = before[i];
        assert(stream_bit(after, 8 * i) == stream_bit(before, 8 * i));
        assert(stream_bit(after, 8 * i + 1) == stream_bit(before, 8 * i + 1));
        assert(stream_bit(after, 8 * i + 2) == stream_bit(before, 8 * i + 2));
        assert(stream_bit(after, 8 * i + 3) == stream_bit(before, 8 * i + 3));
        assert(stream_bit(after, 8 * i + 4) == stream_bit(before, 8 * i + 4));
        assert(stream_bit(after, 8 * i + 5) == stream_bit(before, 8 * i + 5));
        assert(stream_bit(after, 8 * i + 6) == stream_bit(before, 8 * i + 6));
        assert(stream_bit(after, 8 * i + 7) == stream_bit(before, 8 * i + 7));
        assert(x == y) by (bit_vector)
            requires
                (x >> 0u8) & 1u8 == (y >> 0u8) & 1u8,
                (x >> 1u8) & 1u8 == (y >> 1u8) & 1u8,
                (x >> 2u8) & 1u8 == (y >> 2u8) & 1u8,
                (x >> 3u8) & 1u8 == (y >> 3u8) & 1u8,
                (x >> 4u8) & 1u8 == (y >> 4u8) & 1u8,
                (x >> 5u8) & 1u8 == (y >> 5u8) & 1u8,
                (x >> 6u8) & 1u8 == (y >> 6u8) & 1u8,
                (x >> 7u8) & 1u8 == (y >> 7u8) & 1u8,
        ;
    }
    assert(after.subrange(0, s) =~= before.subrange(0, s));
}

/// The size of a closed bit-level section: when a section was opened after
/// the bytes `before` (with a 4-byte size field when `encode_size`), holds
/// `reserved` bytes in which `k` bits were written, and was then closed as
/// `EncoderBuffer::end_bit_encoding` closes it, the buffer holds `before`,
/// then the size field with `k` when requested, then `ceil(k / 8)` bytes.
pub proof fn lemma_bit_section_size(
    before: Seq<u8>,
    encode_size: bool,
    reserved: nat,
    k: nat,
    open_bytes: Seq<u8>,
    closed_bytes: Seq<u8>,
)
    requires
        k <= 8 * reserved,
        open_bytes.len() == before.len() + (if encode_size { 4int } else { 0int }) + reserved,
        open_bytes.subrange(0, before.len() as int) == before,
        ({
            let start = before.len() + if encode_size { 4int } else { 0int };
            let used = (k + 7) / 8;
            let cut = if start + used < open_bytes.len() {
                open_bytes.subrange(0, start + used)
            } else {
                open_bytes
            };
            closed_bytes == if encode_size {
                cut.subrange(0, start - 4) + le_u32_bytes(k as u32) + cut.subrange(start, cut.len() as int)
            } else {
                cut
            }
        }),
    ensures
        closed_bytes.len() == before.len() + (if encode_size { 4int } else { 0int }) + (k + 7) / 8,
        closed_bytes.subrange(0, before.len() as int) == before,
        encode_size ==> closed_bytes.subrange(before.len() as int, before.len() + 4int) == le_u32_bytes(k as u32),
{
    let start = before.len() + if encode_size { 4int } else { 0int };
    let used = (k + 7) / 8;
    assert(used <= reserved);
    let cut = if start + used < open_bytes.len() {
        open_bytes.subrange(0, start + used)
    } else {
        open_bytes
    };
    assert(cut.len() == start + used);
    assert(cut.subrange(0, before.len() as int) =~= before);
    if encode_size {
        assert(closed_bytes.subrange(0, before.len() as int) =~= cut.subrange(0, before.len() as int));
        assert(closed_bytes.subrange(before.len() as int, before.len() + 4int) =~= le_u32_bytes(k as u32));
    }
}

/// What a successful `EncoderBuffer::encode_least_significant_bits_32`
/// call with `nbits` and `value` does to the buffer `b0`, giving `b1`.
pub open spec fn bits_encoded(b0: EncoderBuffer, b1: EncoderBuffer, nbits: u8, value: u32) -> bool {
    &&& nbits <= 32
    &&& b0.bit_encoding_active()
    &&& b0.bits_written_count() + nbits <= b0.reserved_bytes() * 8
    &&& b0.bit_section_start() + b0.reserved_bytes() <= b0.bytes().len()
    &&& bits_written(b0.bytes(), b1.bytes(), b0.bit_section_start() * 8 + b0.bits_written_count(), value, nbits as int)
    &&& b1.bit_encoding_active()
    &&& b1.bits_written_count() == b0.bits_written_count() + nbits
    &&& b1.bit_section_start() == b0.bit_section_start()
    &&& b1.reserved_bytes() == b0.reserved_bytes()
    &&& b1.encodes_bit_count() == b0.encodes_bit_count()
}

/// What a successful `EncoderBuffer::start_bit_encoding` call with
/// `required_bits` and `encode_size` does to the buffer `b0`, giving `b1`.
pub open spec fn bit_section_opened(b0: EncoderBuffer, b1: EncoderBuffer, required_bits: usize, encode_size: bool) -> bool {
    let prefix = if encode_size {
        b0.bytes() + seq![0u8, 0u8, 0u8, 0u8]
    } else {
        b0.bytes()
    };
    let reserved: int = if required_bits % 8 == 0 {
        (required_bits / 8) as int
    } else {
        required_bits / 8 + 1
    };
    &&& !b0.bit_encoding_active()
    &&& b1.bytes() == prefix + Seq::new(reserved as nat, |i: int| 0u8)
    &&& b1.bit_encoding_active()
    &&& b1.bits_written_count() == 0
    &&& b1.bit_section_start() == prefix.len()
    &&& b1.reserved_bytes() == reserved
    &&& b1.encodes_bit_count() == encode_size
}

/// What `EncoderBuffer::end_bit_encoding` does to the buffer `b0` with an
/// open section, giving `b1`.
pub open spec fn bit_section_closed(b0: EncoderBuffer, b1: EncoderBuffer) -> bool {
    let start = b0.bit_section_start() as int;
    let used = (b0.bits_written_count() + 7) / 8;
    let cut = if start + used < b0.bytes().len() {
        b0.bytes().subrange(0, start + used)
    } else {
        b0.bytes()
    };
    &&& b0.bit_encoding_active()
    &&& !b1.bit_encoding_active()
    &&& if b0.encodes_bit_count() {
        b1.bytes() == cut.subrange(0, start - 4) + le_u32_bytes(b0.bits_written_count() as u32) + cut.subrange(
            start,
            cut.len() as int,
        )
    } else {
        b1.bytes() == cut
    }
}

/// The number of bits of a sequence of writes.
pub open spec fn bit_total(nbits: Seq<u8>) -> nat
    decreases nbits.len(),
{
    if nbits.len() == 0 {
        0
    } else {
        bit_total(nbits.drop_last()) + nbits.last() as nat
    }
}

/// The bits of a prefix of a sequence of writes are at most all of them.
pub proof fn lemma_bit_total_prefix(nbits: Seq<u8>, i: int)
    requires
        0 <= i <= nbits.len(),
    ensures
        bit_total(nbits.take(i)) <= bit_total(nbits),
    decreases nbits.len() - i,
{
    if i < nbits.len() {
        lemma_bit_total_prefix(nbits, i + 1);
        assert(nbits.take(i + 1).drop_last() =~= nbits.take(i));
    } else {
        assert(nbits.take(i) =~= nbits);
    }
}

/// The buffers after each of a sequence of successful bit writes into a
/// section opened after the bytes of `before` keep those bytes and the
/// section's place, and count every bit written.
pub(crate) proof fn lemma_bit_writes_keep(
    before: EncoderBuffer,
    states: Seq<EncoderBuffer>,
    nbits: Seq<u8>,
    values: Seq<u32>,
    required_bits: usize,
    encode_size: bool,
    i: int,
)
    requires
        bit_section_opened(before, states[0], required_bits, encode_size),
        states.len() == nbits.len() + 1,
        values.len() == nbits.len(),
        forall|j: int| 0 <= j < nbits.len() ==> bits_encoded(#[trigger] states[j], states[j + 1], nbits[j], values[j]),
        0 <= i < states.len(),
    ensures
        states[i].bytes().len() == states[0].bytes().len(),
        states[i].bytes().subrange(0, before.bytes().len() as int) == before.bytes(),
        states[i].bits_written_count() == bit_total(nbits.take(i)),
        states[i].bit_section_start() == states[0].bit_section_start(),
        states[i].reserved_bytes() == states[0].reserved_bytes(),
        states[i].encodes_bit_count() == encode_size,
        states[i].bit_encoding_active(),
    decreases i,
{
    let n0 = before.bytes().len() as int;
    if i == 0 {
        assert(nbits.take(0) =~= Seq::<u8>::empty());
        assert(states[0].bytes().subrange(0, n0) =~= before.bytes());
    } else {
        lemma_bit_writes_keep(before, states, nbits, values, required_bits, encode_size, i - 1);
        let j = i - 1;
        assert(bits_encoded(states[j], states[j + 1], nbits[j], values[j]));
        lemma_write_keeps_bytes_before(
            states[j].bytes(),
            states[i].bytes(),
            states[j].bit_section_start() * 8 + states[j].bits_written_count(),
            values[j],
            nbits[j] as int,
            n0,
        );
        assert(nbits.take(i).drop_last() =~= nbits.take(j));
    }
}

/// A whole bit-level section written by calls: when `states[0]` is what
/// `start_bit_encoding(required_bits, encode_size)` made of `before`, each
/// `states[j + 1]` what a successful
/// `encode_least_significant_bits_32(nbits[j], values[j])` made of
/// `states[j]`, and `closed` what `end_bit_encoding` made of the last, then
/// `closed` holds the bytes of `before`, then the number of bits written as
/// a 32-bit little-endian value when `encode_size`, then as many bytes as
/// the bits fill.
pub proof fn lemma_bit_section_calls(
    before: EncoderBuffer,
    states: Seq<EncoderBuffer>,
    nbits: Seq<u8>,
    values: Seq<u32>,
    closed: EncoderBuffer,
    required_bits: usize,
    encode_size: bool,
)
    requires
        bit_section_opened(before, states[0], required_bits, encode_size),
        states.len() == nbits.len() + 1,
        values.len() == nbits.len(),
        forall|j: int| 0 <= j < nbits.len() ==> bits_encoded(#[trigger] states[j], states[j + 1], nbits[j], values[j]),
        bit_section_closed(states.last(), closed),
    ensures
        closed.bytes().len() == before.bytes().len() + (if encode_size { 4int } else { 0int }) + (bit_total(nbits) + 7)
            / 8,
        closed.bytes().subrange(0, before.bytes().len() as int) == before.bytes(),
        encode_size ==> closed.bytes().subrange(before.bytes().len() as int, before.bytes().len() + 4int)
            == le_u32_bytes(bit_total(nbits) as u32),
{
    let last = states.len() - 1;
    lemma_bit_writes_keep(before, states, nbits, values, required_bits, encode_size, last);
    assert(nbits.take(last) =~= nbits);
    let reserved: nat = states[0].reserved_bytes() as nat;
    let k = bit_total(nbits);
    if last > 0 {
        let j = last - 1;
        assert(bits_encoded(states[j], states[j + 1], nbits[j], values[j]));
        lemma_bit_writes_keep(before, states, nbits, values, required_bits, encode_size, j);
    }
    lemma_bit_section_size(before.bytes(), encode_size, reserved, k, states.last().bytes(), closed.bytes());
}

impl Default for EncoderBuffer {
    fn default() -> (r: Self)
        ensures
            r.is_empty_idle(),
    {
        Self::new()
    }
}

} // verus!
