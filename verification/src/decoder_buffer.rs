//! Decoder buffer: reads byte-aligned values, varints and bit sequences from
//! a borrowed byte slice.
use crate::encoder_buffer::{bits_written, stream_bit};
use vstd::arithmetic::power2::*;
use vstd::prelude::*;
use vstd::utf8::*;

verus! {

/// Major number of the bitstream version assumed until `set_version` is
/// called: the latest mesh format.
pub const DEFAULT_MESH_VERSION_MAJOR: u8 = 2;

/// Minor number of the bitstream version assumed until `set_version` is
/// called.
pub const DEFAULT_MESH_VERSION_MINOR: u8 = 2;

/// The little-endian value of `n` bytes of `s` starting at `p`.
pub open spec fn le_value(s: Seq<u8>, p: int, n: nat) -> nat
    decreases n,
{
    if n == 0 {
        0
    } else {
        s[p] as nat + 256 * le_value(s, p + 1, (n - 1) as nat)
    }
}

/// The value of `n` bits of `s` starting at bit `p`, least significant bit
/// first: the sum of `stream_bit(s, p + i) * 2^i`.
pub open spec fn bits_value(s: Seq<u8>, p: int, n: nat) -> nat
    decreases n,
{
    if n == 0 {
        0
    } else {
        bits_value(s, p, (n - 1) as nat) + stream_bit(s, p + n - 1) as nat * pow2((n - 1) as nat)
    }
}

/// The 7-bit payload of byte `i` of a varint starting at `p`.
pub open spec fn varint_chunk(s: Seq<u8>, p: int, i: int) -> nat {
    (s[p + i] % 128) as nat
}

/// Byte `i` of a varint starting at `p` announces another byte.
pub open spec fn varint_continues(s: Seq<u8>, p: int, i: int) -> bool {
    s[p + i] >= 128
}

/// The base-128 value of the first `n` bytes of a varint starting at `p`,
/// least significant group first.
pub open spec fn varint_sum(s: Seq<u8>, p: int, n: nat) -> nat
    decreases n,
{
    if n == 0 {
        0
    } else {
        varint_sum(s, p, (n - 1) as nat) + varint_chunk(s, p, n - 1) * pow2((7 * (n - 1)) as nat)
    }
}

/// The varint starting at `p` ends with its byte `i`: the byte is present,
/// does not announce another, every earlier byte does, and it is one of the
/// first ten.
pub open spec fn varint_ends_at(s: Seq<u8>, p: int, i: int) -> bool {
    &&& 0 <= i < 10
    &&& 0 <= p
    &&& p + i < s.len()
    &&& !varint_continues(s, p, i)
    &&& forall|j: int| 0 <= j < i ==> #[trigger] varint_continues(s, p, j)
}

/// The varint at `p` of `s`, if it is complete: its value modulo 2^64, and
/// the position after it.
pub open spec fn varint_at(s: Seq<u8>, p: int) -> Option<(u64, int)> {
    if exists|i: int| varint_ends_at(s, p, i) {
        let i = choose|i: int| varint_ends_at(s, p, i);
        Some(((varint_sum(s, p, (i + 1) as nat) % 0x1_0000_0000_0000_0000) as u64, p + i + 1))
    } else {
        None
    }
}

/// Number of bytes left from `p` to the end of `s` (0 past the end).
pub open spec fn bytes_left(s: Seq<u8>, p: int) -> int {
    if p < s.len() {
        s.len() - p
    } else {
        0
    }
}

/// A decoder over a borrowed byte slice.
///
/// Besides the read position it holds the bitstream version, which selects
/// between encodings of some fields, and the state of an optional bit-level
/// section.
pub struct DecoderBuffer<'a> {
    data: &'a [u8],
    pos: usize,
    bit_decoder_active: bool,
    bit_start_pos: usize,
    current_bit_offset: usize,
    bit_stream_end_pos: usize,
    bit_sequence_size_known: bool,
    version_major: u8,
    version_minor: u8,
}

impl<'a> DecoderBuffer<'a> {
    /// Bits are only ever consumed from bytes that exist.
    #[verifier::type_invariant]
    spec fn consumed_bits_in_data(&self) -> bool {
        self.current_bit_offset == 0 || (self.bit_start_pos + (self.current_bit_offset - 1) / 8
            < self.data@.len() && self.bit_start_pos + (self.current_bit_offset - 1) / 8
            < self.bit_stream_end_pos)
    }

    /// The bytes being decoded.
    pub closed spec fn bytes(&self) -> Seq<u8> {
        self.data@
    }

    /// The byte read position.
    pub closed spec fn pos_spec(&self) -> usize {
        self.pos
    }

    /// A bit-level section is being decoded.
    pub closed spec fn bit_decoding(&self) -> bool {
        self.bit_decoder_active
    }

    /// First byte of the bit-level section.
    pub closed spec fn bit_start(&self) -> usize {
        self.bit_start_pos
    }

    /// Number of bits consumed from the bit-level section.
    pub closed spec fn bits_consumed(&self) -> usize {
        self.current_bit_offset
    }

    /// End (exclusive byte position) of the bit-level section.
    pub closed spec fn bit_end(&self) -> usize {
        self.bit_stream_end_pos
    }

    /// The size of the bit-level section was read from the stream.
    pub closed spec fn bit_size_known(&self) -> bool {
        self.bit_sequence_size_known
    }

    /// The bitstream version as one number, `major * 256 + minor`.
    pub open spec fn version(&self) -> int {
        self.major() * 256 + self.minor()
    }

    /// Major number of the bitstream version.
    pub closed spec fn major(&self) -> u8 {
        self.version_major
    }

    /// Minor number of the bitstream version.
    pub closed spec fn minor(&self) -> u8 {
        self.version_minor
    }

    /// `self` equals `other` except possibly for the byte read position.
    pub open spec fn same_except_pos(&self, other: &Self) -> bool {
        &&& self.bytes() == other.bytes()
        &&& self.bit_decoding() == other.bit_decoding()
        &&& self.bit_start() == other.bit_start()
        &&& self.bits_consumed() == other.bits_consumed()
        &&& self.bit_end() == other.bit_end()
        &&& self.bit_size_known() == other.bit_size_known()
        &&& self.major() == other.major()
        &&& self.minor() == other.minor()
    }

    /// End (exclusive byte position) up to which bits can be read: the end of
    /// the bit-level section or of the data, whichever comes first.
    pub open spec fn bit_limit(&self) -> int {
        if self.bit_end() < self.bytes().len() {
            self.bit_end() as int
        } else {
            self.bytes().len() as int
        }
    }

    /// Number of bits that can still be read from the bit-level section.
    pub open spec fn bits_available(&self) -> int {
        if self.bit_start() < self.bit_limit() {
            8 * (self.bit_limit() - self.bit_start()) - self.bits_consumed()
        } else {
            0
        }
    }

    /// Position (in `stream_bit` numbering) of the next bit to be read.
    pub open spec fn next_bit_index(&self) -> int {
        8 * self.bit_start() + self.bits_consumed()
    }

    /// `self` equals `other` except possibly for the number of consumed bits.
    pub open spec fn same_except_bits_consumed(&self, other: &Self) -> bool {
        &&& self.bytes() == other.bytes()
        &&& self.pos_spec() == other.pos_spec()
        &&& self.bit_decoding() == other.bit_decoding()
        &&& self.bit_start() == other.bit_start()
        &&& self.bit_end() == other.bit_end()
        &&& self.bit_size_known() == other.bit_size_known()
        &&& self.major() == other.major()
        &&& self.minor() == other.minor()
    }

    /// `self` has just opened a bit-level section starting at byte `start`
    /// and ending at `end`.
    pub open spec fn opened_bit_section(&self, other: &Self, start: int, end: int, known: bool) -> bool {
        &&& self.bytes() == other.bytes()
        &&& self.major() == other.major()
        &&& self.minor() == other.minor()
        &&& self.pos_spec() == start
        &&& self.bit_decoding()
        &&& self.bit_start() == start
        &&& self.bits_consumed() == 0
        &&& self.bit_end() == end
        &&& self.bit_size_known() == known
    }

    /// Creates a decoder positioned at the start of `data`, assuming the
    /// latest bitstream version.
    pub fn new(data: &'a [u8]) -> (r: Self)
        ensures
            r.bytes() == data@,
            r.pos_spec() == 0,
            !r.bit_decoding(),
            r.bit_start() == 0,
            r.bits_consumed() == 0,
            r.bit_end() == 0,
            !r.bit_size_known(),
            r.major() == DEFAULT_MESH_VERSION_MAJOR,
            r.minor() == DEFAULT_MESH_VERSION_MINOR,
    {
        DecoderBuffer {
            data,
            pos: 0,
            bit_decoder_active: false,
            bit_start_pos: 0,
            current_bit_offset: 0,
            bit_stream_end_pos: 0,
            bit_sequence_size_known: false,
            version_major: DEFAULT_MESH_VERSION_MAJOR,
            version_minor: DEFAULT_MESH_VERSION_MINOR,
        }
    }

    /// Sets the bitstream version.
    pub fn set_version(&mut self, major: u8, minor: u8)
        ensures
            final(self).major() == major,
            final(self).minor() == minor,
            final(self).bytes() == old(self).bytes(),
            final(self).pos_spec() == old(self).pos_spec(),
            final(self).bit_decoding() == old(self).bit_decoding(),
            final(self).bit_start() == old(self).bit_start(),
            final(self).bits_consumed() == old(self).bits_consumed(),
            final(self).bit_end() == old(self).bit_end(),
            final(self).bit_size_known() == old(self).bit_size_known(),
    {
        proof {
            use_type_invariant(&*self);
        }
        self.version_major = major;
        self.version_minor = minor;
    }

    /// Returns the major number of the bitstream version.
    pub fn version_major(&self) -> (r: u8)
        ensures
            r == self.major(),
    {
        self.version_major
    }

    /// Returns the minor number of the bitstream version.
    pub fn version_minor(&self) -> (r: u8)
        ensures
            r == self.minor(),
    {
        self.version_minor
    }

    /// Returns the byte read position.
    pub fn position(&self) -> (r: usize)
        ensures
            r == self.pos_spec(),
    {
        self.pos
    }

    /// Moves the read position. Fails, changing nothing, while a bit-level
    /// section is being decoded or if `pos` lies past the end of the data.
    pub fn set_position(&mut self, pos: usize) -> (r: Result<(), ()>)
        ensures
            r is Ok <==> !old(self).bit_decoding() && pos <= old(self).bytes().len(),
            final(self).same_except_pos(old(self)),
            r is Ok ==> final(self).pos_spec() == pos,
            r is Err ==> final(self).pos_spec() == old(self).pos_spec(),
    {
        proof {
            use_type_invariant(&*self);
        }
        if self.bit_decoder_active {
            return Err(());
        }
        if pos > self.data.len() {
            return Err(());
        }
        self.pos = pos;
        Ok(())
    }

    /// Returns the number of bytes left after the read position (0 when the
    /// position lies past the end).
    pub fn remaining_size(&self) -> (r: usize)
        ensures
            r == bytes_left(self.bytes(), self.pos_spec() as int),
    {
        if self.pos < self.data.len() {
            self.data.len() - self.pos
        } else {
            0
        }
    }

    /// Returns a copy of up to `len` bytes from the read position, without
    /// moving it.
    ///
    /// The read position must lie within the data.
    pub fn peek_bytes(&self, len: usize) -> (r: Vec<u8>)
        requires
            self.pos_spec() <= self.bytes().len(),
            self.pos_spec() + len <= usize::MAX,
        ensures
            r@ == self.bytes().subrange(
                self.pos_spec() as int,
                if self.pos_spec() + len < self.bytes().len() {
                    self.pos_spec() + len
                } else {
                    self.bytes().len() as int
                },
            ),
    {
        let end = if self.pos + len < self.data.len() {
            self.pos + len
        } else {
            self.data.len()
        };
        vstd::slice::slice_to_vec(vstd::slice::slice_subrange(self.data, self.pos, end))
    }

    /// The number of bytes of the data.
    pub(crate) fn data_len(&self) -> (r: usize)
        ensures
            r == self.bytes().len(),
    {
        self.data.len()
    }

    /// Whether a bit-level section is being decoded.
    pub(crate) fn bit_decoder_active(&self) -> (r: bool)
        ensures
            r == self.bit_decoding(),
    {
        self.bit_decoder_active
    }

    /// Reads one byte. Fails, changing nothing, while a bit-level section is
    /// being decoded or at the end of the data.
    pub fn decode_u8(&mut self) -> (r: Result<u8, ()>)
        ensures
            final(self).same_except_pos(old(self)),
            r is Ok <==> !old(self).bit_decoding() && old(self).pos_spec() < old(self).bytes().len(),
            r matches Ok(b) ==> b == old(self).bytes()[old(self).pos_spec() as int]
                && final(self).pos_spec() == old(self).pos_spec() + 1,
            r is Err ==> final(self).pos_spec() == old(self).pos_spec(),
    {
        proof {
            use_type_invariant(&*self);
        }
        if self.bit_decoder_active {
            return Err(());
        }
        if self.pos >= self.data.len() {
            return Err(());
        }
        let b = self.data[self.pos];
        self.pos = self.pos + 1;
        Ok(b)
    }

    /// Fills `out` with the next `out.len()` bytes and moves past them. Fails,
    /// changing nothing, if fewer bytes are left.
    pub fn decode_bytes(&mut self, out: &mut [u8]) -> (r: Result<(), ()>)
        ensures
            final(self).same_except_pos(old(self)),
            final(out)@.len() == old(out)@.len(),
            r is Ok <==> old(self).pos_spec() + old(out)@.len() <= old(self).bytes().len(),
            r is Ok ==> final(out)@ == old(self).bytes().subrange(
                old(self).pos_spec() as int,
                old(self).pos_spec() + old(out)@.len(),
            ) && final(self).pos_spec() == old(self).pos_spec() + old(out)@.len(),
            r is Err ==> final(self).pos_spec() == old(self).pos_spec() && final(out)@ == old(out)@,
    {
        proof {
            use_type_invariant(&*self);
        }
        let size = out.len();
        if self.pos > self.data.len() || size > self.data.len() - self.pos {
            return Err(());
        }
        let start = self.pos;
        let end = start + size;
        let data = self.data;
        let mut i: usize = 0;
        while i < size
            invariant
                size == out@.len(),
                end == start + size,
                end <= data@.len(),
                i <= size,
                forall|j: int| 0 <= j < i ==> #[trigger] out@[j] == data@[start + j],
            decreases size - i,
        {
            out[i] = data[start + i];
            i = i + 1;
        }
        proof {
            assert(out@ =~= data@.subrange(start as int, end as int));
        }
        self.pos = end;
        Ok(())
    }

    /// Reads a little-endian 16-bit value.
    pub fn decode_u16(&mut self) -> (r: Result<u16, ()>)
        ensures
            final(self).same_except_pos(old(self)),
            r is Ok <==> old(self).pos_spec() + 2 <= old(self).bytes().len(),
            r matches Ok(v) ==> v == le_value(old(self).bytes(), old(self).pos_spec() as int, 2)
                && final(self).pos_spec() == old(self).pos_spec() + 2,
            r is Err ==> final(self).pos_spec() == old(self).pos_spec(),
    {
        proof {
            use_type_invariant(&*self);
        }
        let mut bytes = [0u8; 2];
        self.decode_bytes(&mut bytes)?;
        proof {
            reveal_with_fuel(le_value, 3);
        }
        Ok(bytes[0] as u16 + 256 * bytes[1] as u16)
    }

    /// Reads a little-endian 32-bit value.
    pub fn decode_u32(&mut self) -> (r: Result<u32, ()>)
        ensures
            final(self).same_except_pos(old(self)),
            r is Ok <==> old(self).pos_spec() + 4 <= old(self).bytes().len(),
            r matches Ok(v) ==> v == le_value(old(self).bytes(), old(self).pos_spec() as int, 4)
                && final(self).pos_spec() == old(self).pos_spec() + 4,
            r is Err ==> final(self).pos_spec() == old(self).pos_spec(),
    {
        proof {
            use_type_invariant(&*self);
        }
        let mut bytes = [0u8; 4];
        self.decode_bytes(&mut bytes)?;
        proof {
            reveal_with_fuel(le_value, 5);
        }
        Ok(bytes[0] as u32 + 256 * (bytes[1] as u32 + 256 * (bytes[2] as u32 + 256 * bytes[3] as u32)))
    }

    /// Reads a little-endian 64-bit value.
    pub fn decode_u64(&mut self) -> (r: Result<u64, ()>)
        ensures
            final(self).same_except_pos(old(self)),
            r is Ok <==> old(self).pos_spec() + 8 <= old(self).bytes().len(),
            r matches Ok(v) ==> v == le_value(old(self).bytes(), old(self).pos_spec() as int, 8)
                && final(self).pos_spec() == old(self).pos_spec() + 8,
            r is Err ==> final(self).pos_spec() == old(self).pos_spec(),
    {
        proof {
            use_type_invariant(&*self);
        }
        let mut bytes = [0u8; 8];
        self.decode_bytes(&mut bytes)?;
        proof {
            reveal_with_fuel(le_value, 9);
        }
        let lo = bytes[0] as u64 + 256 * (bytes[1] as u64 + 256 * (bytes[2] as u64 + 256 * bytes[3] as u64));
        let hi = bytes[4] as u64 + 256 * (bytes[5] as u64 + 256 * (bytes[6] as u64 + 256 * bytes[7] as u64));
        Ok(lo + 4294967296 * hi)
    }

    /// Returns the data after the read position, which must lie within the
    /// data.
    pub fn remaining_data(&self) -> (r: &'a [u8])
        requires
            self.pos_spec() <= self.bytes().len(),
        ensures
            r@ == self.bytes().subrange(self.pos_spec() as int, self.bytes().len() as int),
    {
        vstd::slice::slice_subrange(self.data, self.pos, self.data.len())
    }

    /// Moves the read position forward by `n` bytes (possibly past the end of
    /// the data).
    pub fn advance(&mut self, n: usize)
        requires
            old(self).pos_spec() + n <= usize::MAX,
        ensures
            final(self).same_except_pos(old(self)),
            final(self).pos_spec() == old(self).pos_spec() + n,
    {
        proof {
            use_type_invariant(&*self);
        }
        self.pos = self.pos + n;
    }

    /// Returns the next `size` bytes and moves past them. Fails, changing
    /// nothing, if fewer bytes are left.
    pub fn decode_slice(&mut self, size: usize) -> (r: Result<&'a [u8], ()>)
        ensures
            final(self).same_except_pos(old(self)),
            r is Ok <==> old(self).pos_spec() + size <= old(self).bytes().len(),
            r matches Ok(s) ==> s@ == old(self).bytes().subrange(
                old(self).pos_spec() as int,
                old(self).pos_spec() + size,
            ) && final(self).pos_spec() == old(self).pos_spec() + size,
            r is Err ==> final(self).pos_spec() == old(self).pos_spec(),
    {
        proof {
            use_type_invariant(&*self);
        }
        if self.pos > self.data.len() || size > self.data.len() - self.pos {
            return Err(());
        }
        let start = self.pos;
        self.pos = start + size;
        Ok(vstd::slice::slice_subrange(self.data, start, start + size))
    }

    /// Reads a varint: base-128 groups, least significant first, each byte
    /// announcing another by its top bit; at most ten bytes, the value taken
    /// modulo 2^64.
    ///
    /// Fails while a bit-level section is being decoded (changing nothing),
    /// at the end of the data (having consumed every byte that was left) and
    /// when ten bytes all announce another (having consumed them).
    pub fn decode_varint(&mut self) -> (r: Result<u64, ()>)
        ensures
            final(self).same_except_pos(old(self)),
            old(self).bit_decoding() ==> r is Err && final(self).pos_spec() == old(self).pos_spec(),
            !old(self).bit_decoding() ==> {
                let s = old(self).bytes();
                let p = old(self).pos_spec() as int;
                &&& r is Ok <==> exists|i: int| varint_ends_at(s, p, i)
                &&& forall|i: int|
                    varint_ends_at(s, p, i) ==> (r matches Ok(v) && v == varint_sum(s, p, (i + 1) as nat)
                        % 0x1_0000_0000_0000_0000 && final(self).pos_spec() == p + i + 1)
                &&& r is Err ==> final(self).pos_spec() == p + if bytes_left(s, p) < 10 {
                    bytes_left(s, p)
                } else {
                    10
                }
            },
    {
        proof {
            use_type_invariant(&*self);
        }
        let ghost s = self.data@;
        let ghost p = self.pos as int;
        if self.bit_decoder_active {
            let r = self.decode_u8();
            proof {
                assert(r is Err);
            }
            return Err(());
        }
        let mut val: u64 = 0;
        let mut shift: u64 = 0;
        let ghost mut i: int = 0;
        proof {
            lemma2_to64();
            lemma2_to64_rest();
        }
        loop
            invariant_except_break
                !old(self).bit_decoding(),
                self.same_except_pos(old(self)),
                s == old(self).bytes(),
                p == old(self).pos_spec(),
                0 <= i < 10,
                shift == 7 * i,
                self.pos == p + i,
                i == 0 || p + i <= s.len(),
                forall|j: int| 0 <= j < i ==> #[trigger] varint_continues(s, p, j),
                val == varint_sum(s, p, i as nat),
                val < pow2((7 * i) as nat),
                pow2(63) == 0x8000_0000_0000_0000,
                pow2(64) == 0x1_0000_0000_0000_0000,
            ensures
                varint_ends_at(s, p, i),
                val == varint_sum(s, p, (i + 1) as nat) % 0x1_0000_0000_0000_0000,
                self.same_except_pos(old(self)),
                self.pos == p + i + 1,
            decreases 10 - i,
        {
            let b = match self.decode_u8() {
                Ok(b) => b,
                Err(e) => {
                    proof {
                        assert(bytes_left(s, p) == i);
                        assert forall|k: int| varint_ends_at(s, p, k) implies false by {
                            if k < i {
                                assert(varint_continues(s, p, k));
                            }
                        }
                    }
                    return Err(e);
                },
            };
            proof {
                lemma_varint_byte(b);
                lemma_pow2_pos((7 * i) as nat);
            }
            let chunk = (b & 0x7F) as u64;
            proof {
                assert(chunk == varint_chunk(s, p, i));
                if i < 9 {
                    lemma_pow2_strictly_increases((7 * i) as nat, 63);
                    lemma_pow2_adds((7 * i) as nat, 7);
                    assert(pow2(7) == 128) by {
                        lemma2_to64();
                    }
                    assert(chunk * pow2((7 * i) as nat) < pow2((7 * i + 7) as nat)) by (nonlinear_arith)
                        requires
                            chunk < 128,
                            pow2((7 * i + 7) as nat) == pow2((7 * i) as nat) * 128,
                            pow2((7 * i) as nat) > 0,
                    ;
                    if 7 * i + 7 < 63 {
                        lemma_pow2_strictly_increases((7 * i + 7) as nat, 63);
                    }
                    vstd::bits::lemma_u64_shl_is_mul(chunk, shift);
                    vstd::bits::lemma_u64_shl_is_mul(1, shift);
                    vstd::bits::lemma_u64_mul_pow2_le_max_iff_max_shr(chunk, shift, u64::MAX);
                    lemma_or_is_plus(val, chunk, shift);
                } else {
                    lemma_shl_63(chunk);
                    vstd::bits::lemma_u64_shl_is_mul(1, shift);
                    lemma_or_is_plus(val, chunk & 1, shift);
                    vstd::bits::lemma_u64_shl_is_mul(chunk & 1, shift);
                }
            }
            let ghost old_val = val;
            val = val | (chunk << shift);
            proof {
                if i < 9 {
                    assert(val == varint_sum(s, p, (i + 1) as nat));
                    assert(val < pow2((7 * i + 7) as nat)) by (nonlinear_arith)
                        requires
                            old_val < pow2((7 * i) as nat),
                            chunk < 128,
                            val == old_val + chunk * pow2((7 * i) as nat),
                            pow2((7 * i + 7) as nat) == pow2((7 * i) as nat) * 128,
                    ;
                    vstd::arithmetic::div_mod::lemma_small_mod(val as nat, 0x1_0000_0000_0000_0000);
                } else {
                    lemma_high_chunk_mod(old_val as int, chunk as int);
                    assert(val == varint_sum(s, p, (i + 1) as nat) % 0x1_0000_0000_0000_0000);
                }
            }
            if (b & 0x80) == 0 {
                proof {
                    assert(!varint_continues(s, p, i));
                }
                break;
            }
            shift = shift + 7;
            if shift >= 64 {
                proof {
                    assert(varint_continues(s, p, i));
                    assert(bytes_left(s, p) >= 10);
                    assert forall|k: int| varint_ends_at(s, p, k) implies false by {
                        assert(varint_continues(s, p, k));
                    }
                }
                return Err(());
            }
            proof {
                i = i + 1;
            }
        }
        proof {
            assert(varint_ends_at(s, p, i));
            assert forall|k: int| varint_ends_at(s, p, k) implies k == i by {
                if k < i {
                    assert(varint_continues(s, p, k));
                } else if k > i {
                    assert(varint_continues(s, p, i));
                }
            }
        }
        Ok(val)
    }

    /// Reads a varint and turns its low 32 bits into a signed value (zigzag
    /// decoding).
    pub fn decode_varint_signed_i32(&mut self) -> (r: Result<i32, ()>)
        ensures
            final(self).same_except_pos(old(self)),
            old(self).bit_decoding() ==> r is Err && final(self).pos_spec() == old(self).pos_spec(),
            !old(self).bit_decoding() ==> {
                let s = old(self).bytes();
                let p = old(self).pos_spec() as int;
                &&& r is Ok <==> exists|i: int| varint_ends_at(s, p, i)
                &&& forall|i: int|
                    varint_ends_at(s, p, i) ==> (r matches Ok(v) && v == crate::bit_utils::zigzag_decode(
                        (varint_sum(s, p, (i + 1) as nat) % 0x1_0000_0000) as int,
                    ) && final(self).pos_spec() == p + i + 1)
                &&& r is Err ==> final(self).pos_spec() == p + if bytes_left(s, p) < 10 {
                    bytes_left(s, p)
                } else {
                    10
                }
            },
    {
        proof {
            use_type_invariant(&*self);
        }
        let v = self.decode_varint()?;
        let symbol = (v % 0x1_0000_0000) as u32;
        proof {
            assert forall|i: int| varint_ends_at(old(self).bytes(), old(self).pos_spec() as int, i) implies symbol
                == varint_sum(old(self).bytes(), old(self).pos_spec() as int, (i + 1) as nat) % 0x1_0000_0000 by {
                vstd::arithmetic::div_mod::lemma_mod_mod(
                    varint_sum(old(self).bytes(), old(self).pos_spec() as int, (i + 1) as nat) as int,
                    0x1_0000_0000,
                    0x1_0000_0000,
                );
            }
        }
        Ok(crate::bit_utils::convert_symbol_to_signed_int_i32(symbol))
    }

    /// Reads the next bit of the bit-level section (whether or not a section
    /// is open). Fails, changing nothing, when no bit is left before the end
    /// of the section or of the data.
    fn get_bit(&mut self) -> (r: Result<u32, ()>)
        requires
            old(self).bits_consumed() < usize::MAX,
        ensures
            final(self).same_except_bits_consumed(old(self)),
            r is Ok <==> old(self).bits_available() > 0,
            r matches Ok(b) ==> b <= 1 && b == stream_bit(old(self).bytes(), old(self).next_bit_index())
                && final(self).bits_consumed() == old(self).bits_consumed() + 1,
            r is Err ==> final(self).bits_consumed() == old(self).bits_consumed(),
    {
        proof {
            use_type_invariant(&*self);
        }
        let total_bit_offset = self.current_bit_offset;
        if self.bit_start_pos >= self.data.len() || self.bit_start_pos >= self.bit_stream_end_pos {
            return Err(());
        }
        let byte_offset = self.bit_start_pos + total_bit_offset / 8;
        let bit_shift = total_bit_offset % 8;
        if byte_offset < self.bit_stream_end_pos && byte_offset < self.data.len() {
            let bit = (self.data[byte_offset] >> bit_shift) & 1;
            proof {
                lemma_low_bit_u8(self.data[byte_offset as int], bit_shift as u8);
            }
            self.current_bit_offset = total_bit_offset + 1;
            proof {
                let k = 8 * self.bit_start_pos + total_bit_offset;
                assert(k / 8 == byte_offset);
                assert(k % 8 == bit_shift);
            }
            Ok(bit as u32)
        } else {
            Err(())
        }
    }

    /// Reads `nbits` bits (at most 32) of the open bit-level section, least
    /// significant bit first.
    ///
    /// Fails, changing nothing, when no section is open. Fails after
    /// consuming every bit that was left when fewer than `nbits` are left.
    pub fn decode_least_significant_bits32(&mut self, nbits: u32) -> (r: Result<u32, ()>)
        requires
            nbits <= 32,
            old(self).bits_consumed() + nbits <= usize::MAX,
        ensures
            final(self).same_except_bits_consumed(old(self)),
            !old(self).bit_decoding() ==> r is Err && final(self).bits_consumed() == old(self).bits_consumed(),
            old(self).bit_decoding() ==> {
                &&& r is Ok <==> nbits <= old(self).bits_available()
                &&& r matches Ok(v) ==> v == bits_value(old(self).bytes(), old(self).next_bit_index(), nbits as nat)
                    && final(self).bits_consumed() == old(self).bits_consumed() + nbits
                &&& r is Err ==> final(self).bits_consumed() == old(self).bits_consumed() + old(self).bits_available()
            },
    {
        proof {
            use_type_invariant(&*self);
        }
        if !self.bit_decoder_active {
            return Err(());
        }
        let ghost start_state = *self;
        let mut value: u32 = 0;
        let mut i: u32 = 0;
        proof {
            lemma2_to64();
        }
        while i < nbits
            invariant
                nbits <= 32,
                i <= nbits,
                old(self).bit_decoding(),
                start_state == *old(self),
                self.same_except_bits_consumed(old(self)),
                self.bits_consumed() == old(self).bits_consumed() + i,
                old(self).bits_consumed() + nbits <= usize::MAX,
                i <= old(self).bits_available(),
                self.bits_available() == old(self).bits_available() - i,
                value == bits_value(old(self).bytes(), old(self).next_bit_index(), i as nat),
                value < pow2(i as nat),
                pow2(32) == 0x1_0000_0000,
            decreases nbits - i,
        {
            let bit = match self.get_bit() {
                Ok(b) => b,
                Err(e) => {
                    return Err(e);
                },
            };
            let ghost old_value = value;
            proof {
                vstd::bits::lemma_u32_pow2_no_overflow(i as nat);
                vstd::bits::lemma_u32_shl_is_mul(1, i);
                assert(bit * pow2(i as nat) <= pow2(i as nat)) by (nonlinear_arith)
                    requires
                        bit <= 1,
                        pow2(i as nat) >= 0,
                ;
                vstd::bits::lemma_u32_shl_is_mul(bit, i);
                lemma_or_is_plus_u32(value, bit, i);
                lemma_pow2_unfold((i + 1) as nat);
            }
            value = value | (bit << i);
            proof {
                assert(value == old_value + bit * pow2(i as nat));
                assert(value < pow2((i + 1) as nat));
            }
            i = i + 1;
        }
        Ok(value)
    }

    /// Opens a bit-level section at the read position.
    ///
    /// With `decode_size`, the section's size in bytes is read first: as a
    /// little-endian 64-bit value for bitstream versions before 2.2, as a
    /// varint from 2.2 on; the section then starts after that field and ends
    /// that many bytes later, and the size is returned. Without it the section
    /// runs to the end of the data and 0 is returned.
    ///
    /// Fails, changing nothing, while a section is open. Fails, having read
    /// what the size field decoding consumed, when the size field cannot be
    /// read or the section's end does not fit in a `usize`.
    pub fn start_bit_decoding(&mut self, decode_size: bool) -> (r: Result<u64, ()>)
        ensures
            old(self).bit_decoding() ==> r is Err && final(self).same_except_pos(old(self))
                && final(self).pos_spec() == old(self).pos_spec(),
            !old(self).bit_decoding() && !decode_size ==> r == Ok::<u64, ()>(0) && final(self).opened_bit_section(
                old(self),
                old(self).pos_spec() as int,
                old(self).bytes().len() as int,
                false,
            ),
            !old(self).bit_decoding() && decode_size && old(self).version() < 0x0202 ==> {
                let s = old(self).bytes();
                let p = old(self).pos_spec() as int;
                if p + 8 <= s.len() {
                    let size = le_value(s, p, 8);
                    if p + 8 + size <= usize::MAX {
                        r == Ok::<u64, ()>(size as u64) && final(self).opened_bit_section(old(self), p + 8, p + 8 + size, true)
                    } else {
                        r is Err && final(self).same_except_pos(old(self)) && final(self).pos_spec() == p + 8
                    }
                } else {
                    r is Err && final(self).same_except_pos(old(self)) && final(self).pos_spec() == p
                }
            },
            !old(self).bit_decoding() && decode_size && old(self).version() >= 0x0202 ==> {
                let s = old(self).bytes();
                let p = old(self).pos_spec() as int;
                &&& (forall|i: int|
                    varint_ends_at(s, p, i) ==> {
                        let size = varint_sum(s, p, (i + 1) as nat) % 0x1_0000_0000_0000_0000;
                        if p + i + 1 + size <= usize::MAX {
                            r == Ok::<u64, ()>(size as u64) && final(self).opened_bit_section(old(self), p + i + 1, p + i + 1 + size, true)
                        } else {
                            r is Err && final(self).same_except_pos(old(self)) && final(self).pos_spec() == p + i + 1
                        }
                    })
                &&& (!exists|i: int| varint_ends_at(s, p, i)) ==> (r is Err && final(self).same_except_pos(old(self))
                    && final(self).pos_spec() == p + if bytes_left(s, p) < 10 {
                        bytes_left(s, p)
                    } else {
                        10
                    })
            },
    {
        proof {
            use_type_invariant(&*self);
        }
        if self.bit_decoder_active {
            return Err(());
        }
        let bitstream_version = self.version_major as u16 * 256 + self.version_minor as u16;
        let mut size_bytes: u64 = 0;
        if decode_size {
            if bitstream_version < 0x0202 {
                size_bytes = self.decode_u64()?;
            } else {
                size_bytes = self.decode_varint()?;
            }
            if size_bytes > (usize::MAX - self.pos) as u64 {
                return Err(());
            }
        }
        self.current_bit_offset = 0;
        self.bit_start_pos = self.pos;
        self.bit_decoder_active = true;
        self.bit_sequence_size_known = decode_size;
        if decode_size {
            self.bit_stream_end_pos = self.bit_start_pos + size_bytes as usize;
        } else {
            self.bit_stream_end_pos = self.data.len();
        }
        Ok(size_bytes)
    }

    /// Closes the bit-level section: the read position moves to the end of
    /// the section when its size was read from the stream, otherwise just
    /// past the last byte from which bits were consumed.
    pub fn end_bit_decoding(&mut self)
        ensures
            !final(self).bit_decoding(),
            final(self).bytes() == old(self).bytes(),
            final(self).bit_start() == old(self).bit_start(),
            final(self).bits_consumed() == old(self).bits_consumed(),
            final(self).bit_end() == old(self).bit_end(),
            final(self).bit_size_known() == old(self).bit_size_known(),
            final(self).major() == old(self).major(),
            final(self).minor() == old(self).minor(),
            final(self).pos_spec() == if old(self).bit_size_known() {
                old(self).bit_end() as int
            } else {
                old(self).bit_start() + (old(self).bits_consumed() + 7) / 8
            },
    {
        proof {
            use_type_invariant(&*self);
        }
        self.bit_decoder_active = false;
        if self.bit_sequence_size_known {
            self.pos = self.bit_stream_end_pos;
        } else {
            let offset = self.current_bit_offset;
            let bytes_consumed = offset / 8 + if offset % 8 == 0 { 0 } else { 1 };
            self.pos = self.bit_start_pos + bytes_consumed;
        }
    }

    /// Reads a string ending with a zero byte (the zero byte is consumed but
    /// not part of the string).
    ///
    /// Fails, changing nothing, while a bit-level section is being decoded;
    /// fails after consuming the rest of the data when no zero byte follows;
    /// fails after consuming the string and its zero byte when they are not
    /// valid UTF-8.
    pub fn decode_string(&mut self) -> (r: Result<String, ()>)
        ensures
            final(self).same_except_pos(old(self)),
            old(self).bit_decoding() ==> r is Err && final(self).pos_spec() == old(self).pos_spec(),
            !old(self).bit_decoding() ==> {
                let s = old(self).bytes();
                let p = old(self).pos_spec() as int;
                &&& forall|z: int|
                    p <= z < s.len() && s[z] == 0 && (forall|j: int| p <= j < z ==> #[trigger] s[j] != 0) ==> {
                        &&& final(self).pos_spec() == z + 1
                        &&& r is Ok <==> valid_utf8(s.subrange(p, z))
                        &&& r matches Ok(t) ==> t@ == decode_utf8(s.subrange(p, z))
                    }
                &&& (forall|j: int| p <= j < s.len() ==> #[trigger] s[j] != 0) ==> r is Err
                    && final(self).pos_spec() == if p < s.len() {
                    s.len() as int
                } else {
                    p
                }
            },
    {
        proof {
            use_type_invariant(&*self);
        }
        let ghost s = self.data@;
        let ghost p = self.pos as int;
        if self.bit_decoder_active {
            return Err(());
        }
        let mut bytes: Vec<u8> = Vec::new();
        loop
            invariant_except_break
                self.same_except_pos(old(self)),
                s == old(self).bytes(),
                p == old(self).pos_spec(),
                !old(self).bit_decoding(),
                p <= self.pos,
                self.pos == p || self.pos <= s.len(),
                bytes@.len() == self.pos - p,
                forall|j: int| 0 <= j < bytes@.len() ==> #[trigger] bytes@[j] == s[p + j],
                forall|j: int| p <= j < self.pos ==> #[trigger] s[j] != 0,
            ensures
                self.same_except_pos(old(self)),
                p < self.pos <= s.len(),
                s[self.pos - 1] == 0,
                bytes@ == s.subrange(p, self.pos - 1),
                forall|j: int| p <= j < self.pos - 1 ==> #[trigger] s[j] != 0,
            decreases s.len() - self.pos,
        {
            let b = match self.decode_u8() {
                Ok(b) => b,
                Err(e) => {
                    proof {
                        if old(self).bit_decoding() {
                        } else {
                            assert forall|z: int| p <= z < s.len() && s[z] == 0 && (forall|j: int| p <= j < z ==> #[trigger] s[j] != 0)
                                implies false by {
                                assert(s[z] != 0);
                            }
                        }
                    }
                    return Err(e);
                },
            };
            if b == 0 {
                break;
            }
            bytes.push(b);
        }
        proof {
            assert(bytes@ =~= s.subrange(p, self.pos - 1));
            let z = self.pos - 1;
            assert forall|z2: int| p <= z2 < s.len() && s[z2] == 0 && (forall|j: int| p <= j < z2 ==> #[trigger] s[j] != 0)
                implies z2 == z by {
                if z2 < z {
                    assert(s[z2] != 0);
                } else if z2 > z {
                    assert(s[z] != 0);
                }
            }
        }
        string_from_utf8(bytes).ok_or(())
    }
}

/// What a bit-level section of an encoder holds is what a decoder reads back:
/// once the low `nbits` bits of `value` have been written at bit `pos` (as
/// `EncoderBuffer::encode_least_significant_bits_32` does), the `nbits` bits
/// read from `pos` (as `DecoderBuffer::decode_least_significant_bits32` reads
/// them) make up `value` modulo `2^nbits`.
pub proof fn lemma_bits_read_back(before: Seq<u8>, after: Seq<u8>, pos: int, value: u32, nbits: nat)
    requires
        bits_written(before, after, pos, value, nbits as int),
        0 <= pos,
        pos + nbits <= 8 * after.len(),
        nbits <= 32,
    ensures
        bits_value(after, pos, nbits) == value as nat % pow2(nbits),
{
    lemma_bits_prefix_read_back(before, after, pos, value, nbits, nbits);
}

/// Where a bit-level section leaves the read position: a section opened at
/// byte `start` and ending at `end` (as `DecoderBuffer::start_bit_decoding`
/// opens it, `known` when its size was read), then read from (which changes
/// only the number of bits consumed, as
/// `DecoderBuffer::decode_least_significant_bits32` does), then closed as
/// `DecoderBuffer::end_bit_decoding` closes it, leaves the position at `end`
/// when the size was read and otherwise just past the last byte with a
/// consumed bit; bit decoding is over, so byte reads work again.
pub proof fn lemma_bit_section_end_position(
    opened: DecoderBuffer,
    reading: DecoderBuffer,
    closed: DecoderBuffer,
    start: int,
    end: int,
    known: bool,
)
    requires
        opened.bit_decoding(),
        opened.bit_start() == start,
        opened.bit_end() == end,
        opened.bit_size_known() == known,
        reading.bytes() == opened.bytes(),
        reading.bit_start() == opened.bit_start(),
        reading.bit_end() == opened.bit_end(),
        reading.bit_size_known() == opened.bit_size_known(),
        !closed.bit_decoding(),
        closed.bytes() == reading.bytes(),
        closed.pos_spec() == if reading.bit_size_known() {
            reading.bit_end() as int
        } else {
            reading.bit_start() + (reading.bits_consumed() + 7) / 8
        },
    ensures
        !closed.bit_decoding(),
        closed.bytes() == opened.bytes(),
        closed.pos_spec() == if known {
            end
        } else {
            start + (reading.bits_consumed() + 7) / 8
        },
{
}

/// A write of bits elsewhere leaves the value of bits `q .. q + n`
/// unchanged.
proof fn lemma_write_keeps_bits(before: Seq<u8>, after: Seq<u8>, pos: int, value: u32, nbits: int, q: int, n: nat)
    requires
        bits_written(before, after, pos, value, nbits),
        0 <= q,
        q + n <= 8 * before.len(),
        q + n <= pos || pos + nbits <= q,
    ensures
        bits_value(after, q, n) == bits_value(before, q, n),
    decreases n,
{
    if n > 0 {
        lemma_write_keeps_bits(before, after, pos, value, nbits, q, (n - 1) as nat);
        assert(stream_bit(after, q + n - 1) == stream_bit(before, q + n - 1));
    }
}

/// Bits written one section after the other each read back as written:
/// when `states[i + 1]` is `states[i]` with the low `widths[i]` bits of
/// `values[i]` written at bit `positions[i]` (as successive calls of
/// `EncoderBuffer::encode_least_significant_bits_32` do, each starting where
/// the one before ended), then in the last state the `widths[k]` bits from
/// `positions[k]` make up `values[k]` modulo `2^widths[k]`, for every `k`.
pub proof fn lemma_bit_sequence_read_back(
    states: Seq<Seq<u8>>,
    positions: Seq<int>,
    values: Seq<u32>,
    widths: Seq<nat>,
    k: int,
)
    requires
        states.len() == values.len() + 1,
        positions.len() == values.len(),
        widths.len() == values.len(),
        0 <= k < values.len(),
        forall|i: int| 0 <= i < values.len() ==> #[trigger] widths[i] <= 32,
        forall|i: int| 0 <= i < values.len() ==> 0 <= #[trigger] positions[i],
        forall|i: int| 0 <= i < values.len() ==> positions[i] + widths[i] <= 8 * #[trigger] states[i + 1].len(),
        forall|i: int| 0 < i < values.len() ==> #[trigger] positions[i] == positions[i - 1] + widths[i - 1],
        forall|i: int|
            0 <= i < values.len() ==> bits_written(
                #[trigger] states[i],
                states[i + 1],
                positions[i],
                values[i],
                widths[i] as int,
            ),
    ensures
        bits_value(states[values.len() as int], positions[k], widths[k]) == values[k] as nat % pow2(widths[k]),
    decreases values.len() - k,
{
    let m = values.len() as int;
    if k == m - 1 {
        assert(bits_written(states[k], states[k + 1], positions[k], values[k], widths[k] as int));
        lemma_bits_read_back(states[k], states[k + 1], positions[k], values[k], widths[k]);
    } else {
        lemma_bit_sequence_read_back(
            states.subrange(0, m),
            positions.subrange(0, m - 1),
            values.subrange(0, m - 1),
            widths.subrange(0, m - 1),
            k,
        );
        assert(states.subrange(0, m)[m - 1] == states[m - 1]);
        lemma_positions_grow(positions, widths, k, m - 1);
        assert(bits_written(states[m - 1], states[m], positions[m - 1], values[m - 1], widths[m - 1] as int));
        assert(states[k + 1].len() == states[m - 1].len()) by {
            lemma_lengths_kept(states, positions, values, widths, k + 1, m - 1);
        }
        lemma_write_keeps_bits(
            states[m - 1],
            states[m],
            positions[m - 1],
            values[m - 1],
            widths[m - 1] as int,
            positions[k],
            widths[k],
        );
    }
}

/// Consecutive sections: each starts at or after the end of any earlier one.
proof fn lemma_positions_grow(positions: Seq<int>, widths: Seq<nat>, k: int, j: int)
    requires
        0 <= k < j < positions.len(),
        widths.len() == positions.len(),
        forall|i: int| 0 < i < positions.len() ==> #[trigger] positions[i] == positions[i - 1] + widths[i - 1],
    ensures
        positions[k] + widths[k] <= positions[j],
    decreases j - k,
{
    if j > k + 1 {
        lemma_positions_grow(positions, widths, k, j - 1);
        assert(positions[j] == positions[j - 1] + widths[j - 1]);
    } else {
        assert(positions[j] == positions[j - 1] + widths[j - 1]);
    }
}

/// Writing bits keeps the length of the bytes.
proof fn lemma_lengths_kept(states: Seq<Seq<u8>>, positions: Seq<int>, values: Seq<u32>, widths: Seq<nat>, i: int, j: int)
    requires
        states.len() == values.len() + 1,
        positions.len() == values.len(),
        widths.len() == values.len(),
        0 <= i <= j <= values.len(),
        forall|x: int|
            0 <= x < values.len() ==> bits_written(
                #[trigger] states[x],
                states[x + 1],
                positions[x],
                values[x],
                widths[x] as int,
            ),
    ensures
        states[i].len() == states[j].len(),
    decreases j - i,
{
    if i < j {
        lemma_lengths_kept(states, positions, values, widths, i, j - 1);
        assert(bits_written(states[j - 1], states[j], positions[j - 1], values[j - 1], widths[j - 1] as int));
    }
}

proof fn lemma_bits_prefix_read_back(before: Seq<u8>, after: Seq<u8>, pos: int, value: u32, nbits: nat, n: nat)
    requires
        bits_written(before, after, pos, value, nbits as int),
        0 <= pos,
        pos + nbits <= 8 * after.len(),
        nbits <= 32,
        n <= nbits,
    ensures
        bits_value(after, pos, n) == value as nat % pow2(n),
    decreases n,
{
    if n == 0 {
        lemma2_to64();
    } else {
        lemma_bits_prefix_read_back(before, after, pos, value, nbits, (n - 1) as nat);
        let k = pos + n - 1;
        let m = (n - 1) as u32;
        assert(stream_bit(after, k) == ((value >> m) & 1u32) as u8);
        vstd::bits::lemma_u32_shr_is_div(value, m);
        crate::bit_utils::lemma_zigzag_bits(value >> m);
        let p = pow2((n - 1) as nat);
        lemma_pow2_pos((n - 1) as nat);
        lemma_pow2_unfold(n);
        vstd::arithmetic::div_mod::lemma_mod_breakdown(value as int, p as int, 2);
        assert(stream_bit(after, k) as nat == (value as nat / p) % 2);
        assert(p * 2 == pow2(n)) by (nonlinear_arith)
            requires
                pow2(n) == 2 * p,
        ;
        assert(stream_bit(after, k) as nat * p == p * ((value as nat / p) % 2)) by (nonlinear_arith)
            requires
                stream_bit(after, k) as nat == (value as nat / p) % 2,
        ;
    }
}

/// The four bytes that `EncoderBuffer::end_bit_encoding` writes for a bit
/// count (`le_u32_bytes`) read back, as `DecoderBuffer::decode_u32` reads
/// them (`le_value`), as that count.
pub proof fn lemma_le_u32_read_back(v: u32)
    ensures
        le_value(crate::encoder_buffer::le_u32_bytes(v), 0, 4) == v,
{
    reveal_with_fuel(le_value, 5);
    assert(v % 256 + 256 * ((v / 256) % 256) + 65536 * ((v / 65536) % 256) + 16777216 * ((v / 16777216)
        % 256) == v) by (bit_vector);
}

proof fn lemma_varint_byte(b: u8)
    by (bit_vector)
    ensures
        (b & 0x7Fu8) == b % 128,
        ((b & 0x80u8) == 0) <==> b < 128,
{
}

proof fn lemma_or_is_plus(a: u64, b: u64, k: u64)
    by (bit_vector)
    requires
        k < 64,
        a < (1u64 << k),
        b <= (0xffff_ffff_ffff_ffffu64 >> k),
    ensures
        a | (b << k) == a + (b << k),
{
}

proof fn lemma_shl_63(b: u64)
    by (bit_vector)
    ensures
        (b << 63u64) == ((b & 1u64) << 63u64),
        b & 1u64 == b % 2,
        0xffff_ffff_ffff_ffffu64 >> 63u64 == 1u64,
{
}

/// The tenth varint group only contributes its lowest bit below 2^64.
proof fn lemma_high_chunk_mod(a: int, c: int)
    requires
        0 <= a < 0x8000_0000_0000_0000,
        0 <= c < 128,
    ensures
        a + (c % 2) * 0x8000_0000_0000_0000 == (a + c * 0x8000_0000_0000_0000) % 0x1_0000_0000_0000_0000,
{
    let m = 0x1_0000_0000_0000_0000int;
    assert(a + c * 0x8000_0000_0000_0000 == (c / 2) * m + (a + (c % 2) * 0x8000_0000_0000_0000));
    vstd::arithmetic::div_mod::lemma_mod_multiples_vanish(c / 2, a + (c % 2) * 0x8000_0000_0000_0000, m);
    vstd::arithmetic::div_mod::lemma_small_mod((a + (c % 2) * 0x8000_0000_0000_0000) as nat, m as nat);
}


proof fn lemma_low_bit_u8(x: u8, k: u8)
    by (bit_vector)
    ensures
        (x >> k) & 1u8 <= 1u8,
{
}

proof fn lemma_or_is_plus_u32(a: u32, b: u32, k: u32)
    by (bit_vector)
    requires
        k < 32,
        a < (1u32 << k),
        b <= 1,
    ensures
        a | (b << k) == a + (b << k),
{
}

/// Decodes `bytes` as UTF-8 text.
///
/// Calls `String::from_utf8`, which fails exactly on byte sequences that are
/// not valid UTF-8 and otherwise holds the characters they encode.
#[verifier::external_body]
fn string_from_utf8(bytes: Vec<u8>) -> (r: Option<String>)
    ensures
        r is Some <==> valid_utf8(bytes@),
        r matches Some(t) ==> t@ == decode_utf8(bytes@),
{
    String::from_utf8(bytes).ok()
}

} // verus!
