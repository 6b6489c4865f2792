//! Metadata blocks of an encoded mesh, which a decoder skips.
//!
//! A block is a varint count of entries, the entries, a varint count of
//! sub-blocks, and the sub-blocks. An entry is a name (a length byte, then
//! that many bytes) and a non-empty value (a varint size, then that many
//! bytes); a sub-block is a name followed by a block.
use crate::decoder_buffer::{bytes_left, varint_at, varint_ends_at, DecoderBuffer};
use crate::error::{DracoError, ErrorCode};
use vstd::prelude::*;

verus! {

/// The position after the metadata entry at `p`, if it is complete and its
/// value is not empty.
pub open spec fn entry_end(s: Seq<u8>, p: int) -> Option<int> {
    if !(0 <= p < s.len()) || bytes_left(s, p + 1) < s[p] {
        None
    } else {
        match varint_at(s, p + 1 + s[p]) {
            None => None,
            Some((size, r)) => if (size as usize) == 0 || bytes_left(s, r) < (size as usize) {
                None
            } else {
                Some(r + (size as usize))
            },
        }
    }
}

/// The position after `k` metadata entries from `p`, if they are all
/// complete.
pub open spec fn entries_end(s: Seq<u8>, p: int, k: nat) -> Option<int>
    decreases k,
{
    if k == 0 {
        Some(p)
    } else {
        match entry_end(s, p) {
            None => None,
            Some(q) => entries_end(s, q, (k - 1) as nat),
        }
    }
}

/// The position after the metadata block at `p`, if it is complete: its
/// counts are taken to 32 bits, and it may not announce more sub-blocks
/// than bytes are left.
pub open spec fn block_end(s: Seq<u8>, p: int) -> Option<int>
    decreases bytes_left(s, p), 0nat,
{
    match varint_at(s, p) {
        None => None,
        Some((num_entries, q)) => match entries_end(s, q, (num_entries as u32) as nat) {
            None => None,
            Some(r) => match varint_at(s, r) {
                None => None,
                Some((num_sub, t)) => if ((num_sub as u32) as usize) > bytes_left(s, t) || t <= p {
                    None
                } else {
                    sub_blocks_end(s, t, (num_sub as u32) as nat)
                },
            },
        },
    }
}

/// The position after `m` named sub-blocks from `p`, if they are all
/// complete.
pub open spec fn sub_blocks_end(s: Seq<u8>, p: int, m: nat) -> Option<int>
    decreases bytes_left(s, p), m,
{
    if m == 0 {
        Some(p)
    } else if !(0 <= p < s.len()) || bytes_left(s, p + 1) < s[p] {
        None
    } else {
        match block_end(s, p + 1 + s[p]) {
            None => None,
            Some(r) => if r <= p {
                None
            } else {
                sub_blocks_end(s, r, (m - 1) as nat)
            },
        }
    }
}

/// A sub-block list that is complete ends at or after its start.
proof fn lemma_sub_blocks_end_after(s: Seq<u8>, p: int, m: nat)
    ensures
        sub_blocks_end(s, p, m) matches Some(r) ==> r >= p,
    decreases bytes_left(s, p), m,
{
    if m > 0 && 0 <= p < s.len() && bytes_left(s, p + 1) >= s[p] {
        match block_end(s, p + 1 + s[p]) {
            None => {},
            Some(r) => {
                if r > p {
                    lemma_sub_blocks_end_after(s, r, (m - 1) as nat);
                }
            },
        }
    }
}

/// A block that is complete ends after its start.
proof fn lemma_block_end_after(s: Seq<u8>, p: int)
    ensures
        block_end(s, p) matches Some(r) ==> r > p,
{
    match varint_at(s, p) {
        None => {},
        Some((num_entries, q)) => match entries_end(s, q, (num_entries as u32) as nat) {
            None => {},
            Some(r) => match varint_at(s, r) {
                None => {},
                Some((num_sub, t)) => {
                    lemma_sub_blocks_end_after(s, t, (num_sub as u32) as nat);
                },
            },
        },
    }
}

/// Reads a varint from `in_buffer`, in the terms of `varint_at`; fails while
/// a bit-level section is open.
pub(crate) fn read_varint(in_buffer: &mut DecoderBuffer) -> (r: Result<u64, ()>)
    ensures
        final(in_buffer).same_except_pos(old(in_buffer)),
        r is Ok <==> !old(in_buffer).bit_decoding() && varint_at(old(in_buffer).bytes(), old(in_buffer).pos_spec() as int) is Some,
        r matches Ok(v) ==> varint_at(old(in_buffer).bytes(), old(in_buffer).pos_spec() as int) == Some(
            (v, final(in_buffer).pos_spec() as int),
        ),
{
    let r = in_buffer.decode_varint();
    proof {
        let s = old(in_buffer).bytes();
        let p = old(in_buffer).pos_spec() as int;
        if exists|i: int| crate::decoder_buffer::varint_ends_at(s, p, i) {
            let i = choose|i: int| crate::decoder_buffer::varint_ends_at(s, p, i);
            assert(crate::decoder_buffer::varint_ends_at(s, p, i));
        }
    }
    r
}

/// Moves past the metadata block at the read position.
///
/// Fails while a bit-level section is being decoded, and when the block is
/// not complete: a count or size is cut short, a name or value runs past the
/// data, a value is empty, or more sub-blocks are announced than bytes are
/// left. Counts are taken to 32 bits.
pub fn skip_metadata(in_buffer: &mut DecoderBuffer) -> (r: Result<(), DracoError>)
    ensures
        final(in_buffer).same_except_pos(old(in_buffer)),
        r is Ok <==> !old(in_buffer).bit_decoding() && block_end(
            old(in_buffer).bytes(),
            old(in_buffer).pos_spec() as int,
        ) is Some,
        r is Ok ==> final(in_buffer).pos_spec() == block_end(
            old(in_buffer).bytes(),
            old(in_buffer).pos_spec() as int,
        )->0,
        r matches Err(e) ==> e.code_spec() == ErrorCode::DracoError,
    decreases bytes_left(old(in_buffer).bytes(), old(in_buffer).pos_spec() as int),
{
    let ghost s = in_buffer.bytes();
    let ghost p0 = in_buffer.pos_spec() as int;
    let data_len = in_buffer.data_len();
    let entries_count = match read_varint(in_buffer) {
        Ok(v) => v,
        Err(_) => {
            return Err(DracoError::error("Failed to read metadata entries count"));
        },
    };
    let num_entries = entries_count as u32;
    let ghost q0 = in_buffer.pos_spec() as int;
    proof {
        let i = choose|i: int| varint_ends_at(s, p0, i);
        assert(varint_ends_at(s, p0, i));
    }
    let mut k: u32 = 0;
    while k < num_entries
        invariant
            in_buffer.same_except_pos(old(in_buffer)),
            s == old(in_buffer).bytes(),
            !old(in_buffer).bit_decoding(),
            p0 == old(in_buffer).pos_spec(),
            varint_at(s, p0) == Some((entries_count, q0)),
            num_entries == entries_count as u32,
            data_len == s.len(),
            p0 < q0 <= in_buffer.pos_spec(),
            p0 < s.len(),
            k <= num_entries,
            entries_end(s, q0, num_entries as nat) == entries_end(
                s,
                in_buffer.pos_spec() as int,
                (num_entries - k) as nat,
            ),
        decreases num_entries - k,
    {
        let name_len = match in_buffer.decode_u8() {
            Ok(b) => b as usize,
            Err(_) => {
                return Err(DracoError::error("Failed to read metadata entry name length"));
            },
        };
        if in_buffer.remaining_size() < name_len {
            return Err(DracoError::error("Failed to read metadata entry name"));
        }
        in_buffer.advance(name_len);
        let data_size = match read_varint(in_buffer) {
            Ok(v) => v as usize,
            Err(_) => {
                return Err(DracoError::error("Failed to read metadata entry data size"));
            },
        };
        if data_size == 0 {
            return Err(DracoError::error("Invalid metadata entry data size"));
        }
        if in_buffer.remaining_size() < data_size {
            return Err(DracoError::error("Failed to read metadata entry value"));
        }
        in_buffer.advance(data_size);
        k = k + 1;
    }
    let ghost r0 = in_buffer.pos_spec() as int;
    let sub_count = match read_varint(in_buffer) {
        Ok(v) => v,
        Err(_) => {
            return Err(DracoError::error("Failed to read sub-metadata count"));
        },
    };
    let num_sub_metadata = sub_count as u32;
    proof {
        let i = choose|i: int| varint_ends_at(s, r0, i);
        assert(varint_ends_at(s, r0, i));
    }
    if num_sub_metadata as usize > in_buffer.remaining_size() {
        return Err(DracoError::error("Invalid sub-metadata count"));
    }
    let ghost t0 = in_buffer.pos_spec() as int;
    let mut j: u32 = 0;
    while j < num_sub_metadata
        invariant
            in_buffer.same_except_pos(old(in_buffer)),
            s == old(in_buffer).bytes(),
            !old(in_buffer).bit_decoding(),
            p0 == old(in_buffer).pos_spec(),
            p0 < t0 <= in_buffer.pos_spec(),
            p0 < s.len(),
            data_len == s.len(),
            block_end(s, p0) == sub_blocks_end(s, t0, num_sub_metadata as nat),
            j <= num_sub_metadata,
            sub_blocks_end(s, t0, num_sub_metadata as nat) == sub_blocks_end(
                s,
                in_buffer.pos_spec() as int,
                (num_sub_metadata - j) as nat,
            ),
        decreases num_sub_metadata - j,
    {
        let ghost pj = in_buffer.pos_spec() as int;
        let name_len = match in_buffer.decode_u8() {
            Ok(b) => b as usize,
            Err(_) => {
                return Err(DracoError::error("Failed to read sub-metadata name length"));
            },
        };
        if in_buffer.remaining_size() < name_len {
            return Err(DracoError::error("Failed to read sub-metadata name"));
        }
        in_buffer.advance(name_len);
        match skip_metadata(in_buffer) {
            Ok(()) => {},
            Err(e) => {
                return Err(e);
            },
        }
        proof {
            lemma_block_end_after(s, pj + 1 + s[pj]);
        }
        j = j + 1;
    }
    Ok(())
}

} // verus!
