//! Reading the Edgebreaker connectivity stream of a mesh: the traversal
//! symbols and the topology split events, and what the decoder keeps for
//! attribute decoding.
use crate::decoder_buffer::{bits_value, bytes_left, le_value, varint_at, DecoderBuffer};
use crate::encoder_buffer::stream_bit;
use crate::error::{DracoError, ErrorCode};
use crate::geometry_indices::{PointIndex, INVALID_INDEX};
use crate::mesh::Mesh;
use crate::mesh_edgebreaker_reconstruction::{face_points_below, rebuilt_mesh, reconstruct_faces};
use crate::mesh_edgebreaker_shared::{EdgeFaceName, TopologySplitEventData};
use crate::mesh_metadata::read_varint;
use vstd::arithmetic::mul::*;
use vstd::arithmetic::power2::*;
use vstd::prelude::*;

verus! {

/// Decoder of the Edgebreaker connectivity of a mesh; it keeps, for the
/// decoding of attributes, the corner of each attribute entry and the seam
/// corners of each attribute.
pub struct MeshEdgebreakerDecoder {
    data_to_corner_map: Option<Vec<u32>>,
    attribute_seam_corners: Vec<Vec<u32>>,
}

impl MeshEdgebreakerDecoder {
    /// The corner of each attribute entry, if known.
    pub closed spec fn data_to_corner_spec(&self) -> Option<Vec<u32>> {
        self.data_to_corner_map
    }

    /// The seam corners of each attribute.
    pub closed spec fn seam_corners_spec(&self) -> Seq<Vec<u32>> {
        self.attribute_seam_corners@
    }

    /// A decoder that keeps nothing yet.
    pub fn new() -> (r: Self)
        ensures
            r.data_to_corner_spec() is None,
            r.seam_corners_spec().len() == 0,
    {
        MeshEdgebreakerDecoder { data_to_corner_map: None, attribute_seam_corners: Vec::new() }
    }

    /// Hands out the corner of each attribute entry, keeping none.
    pub fn take_data_to_corner_map(&mut self) -> (r: Option<Vec<u32>>)
        ensures
            r == old(self).data_to_corner_spec(),
            final(self).data_to_corner_spec() is None,
            final(self).seam_corners_spec() == old(self).seam_corners_spec(),
    {
        self.data_to_corner_map.take()
    }

    /// Hands out the seam corners of every attribute, keeping none.
    pub fn take_attribute_seam_corners(&mut self) -> (r: Vec<Vec<u32>>)
        ensures
            r@ == old(self).seam_corners_spec(),
            final(self).seam_corners_spec().len() == 0,
            final(self).data_to_corner_spec() == old(self).data_to_corner_spec(),
    {
        let mut seams: Vec<Vec<u32>> = Vec::new();
        std::mem::swap(&mut seams, &mut self.attribute_seam_corners);
        seams
    }

    /// The seam corners of attribute `attribute_index`, if there is one.
    pub fn get_attribute_seam_corners(&self, attribute_index: usize) -> (r: Option<&Vec<u32>>)
        ensures
            r == if attribute_index < self.seam_corners_spec().len() {
                Some(&self.seam_corners_spec()[attribute_index as int])
            } else {
                None
            },
    {
        if attribute_index < self.attribute_seam_corners.len() {
            Some(&self.attribute_seam_corners[attribute_index])
        } else {
            None
        }
    }
}

impl Default for MeshEdgebreakerDecoder {
    fn default() -> (r: Self)
        ensures
            r.data_to_corner_spec() is None,
            r.seam_corners_spec().len() == 0,
    {
        Self::new()
    }
}

/// The symbol id of a topology bit pattern: the patterns 0, 1, 3, 5 and 7
/// (C, S, L, R and E) get the ids 0 to 4.
pub open spec fn symbol_of_pattern(topology: u32) -> Option<u32> {
    if topology == 0 {
        Some(0)
    } else if topology == 1 {
        Some(1)
    } else if topology == 3 {
        Some(2)
    } else if topology == 5 {
        Some(3)
    } else if topology == 7 {
        Some(4)
    } else {
        None
    }
}

/// The message of an unsupported traversal decoder type.
#[verifier::external_body]
fn traversal_type_message(traversal_decoder_type: u8) -> (r: String) {
    format!("Unsupported Edgebreaker traversal decoder type: {}", traversal_decoder_type)
}

/// The message of more split events than split symbols.
#[verifier::external_body]
fn split_count_message(num_split_symbols: usize, num_events: usize) -> (r: String) {
    format!(
        "Split event count exceeds split-symbol count (split_symbols={num_split_symbols}, events={})",
        num_events
    )
}

/// The message of an unknown topology bit pattern.
#[verifier::external_body]
fn invalid_pattern_message(topology: u32) -> (r: String) {
    format!("Invalid Edgebreaker topology bit pattern: {topology}")
}

impl MeshEdgebreakerDecoder {
    /// Returns the symbol id of a topology bit pattern; fails on any other
    /// pattern.
    pub fn topology_bit_pattern_to_symbol_id(topology: u32) -> (r: Result<u32, DracoError>)
        ensures
            r is Ok <==> symbol_of_pattern(topology) is Some,
            r matches Ok(id) ==> symbol_of_pattern(topology) == Some(id),
            r matches Err(e) ==> e.code_spec() == ErrorCode::DracoError,
    {
        if topology == 0 {
            Ok(0)
        } else if topology == 1 {
            Ok(1)
        } else if topology == 3 {
            Ok(2)
        } else if topology == 5 {
            Ok(3)
        } else if topology == 7 {
            Ok(4)
        } else {
            let message = invalid_pattern_message(topology);
            Err(DracoError::error(message.as_str()))
        }
    }
}

/// The bit-level section announced by a size field at the read position of
/// `b`: its first and end byte positions. Before bitstream version 2.2 the
/// size is a little-endian 64-bit value, from 2.2 on a varint; the end must
/// fit in a `usize`.
pub open spec fn announced_section(b: &DecoderBuffer) -> Option<(int, int)> {
    announced_section_at(b.bytes(), b.pos_spec() as int, b.version())
}

/// The bit-level section announced by a size field at byte `p` of `s`, in
/// a stream of bitstream version `version` (see `announced_section`).
pub open spec fn announced_section_at(s: Seq<u8>, p: int, version: int) -> Option<(int, int)> {
    if version < 0x0202 {
        if p + 8 <= s.len() && p + 8 + le_value(s, p, 8) <= usize::MAX {
            Some((p + 8, p + 8 + le_value(s, p, 8)))
        } else {
            None
        }
    } else {
        match varint_at(s, p) {
            Some((size, q)) => if q + size <= usize::MAX {
                Some((q, q + size))
            } else {
                None
            },
            None => None,
        }
    }
}

/// The number of bits of a section from byte `start` to byte `end` of data
/// of `len` bytes (the section is cut at the end of the data).
pub open spec fn section_bits(len: int, start: int, end: int) -> int {
    let limit = if end < len {
        end
    } else {
        len
    };
    if start < limit {
        8 * (limit - start)
    } else {
        0
    }
}

/// The `n` traversal symbols coded from bit `k` of `s`, with `avail` bits
/// left: a zero bit codes C (id 0); a one bit followed by two bits holding
/// `v` (least significant first) codes the pattern `1 + 2v`, that is S, L,
/// R or E (ids 1 to 4).
pub open spec fn traversal_symbols(s: Seq<u8>, k: int, avail: int, n: nat) -> Option<Seq<u32>>
    decreases n,
{
    if n == 0 {
        Some(Seq::empty())
    } else if avail < 1 {
        None
    } else if stream_bit(s, k) == 0 {
        match traversal_symbols(s, k + 1, avail - 1, (n - 1) as nat) {
            Some(rest) => Some(seq![0u32] + rest),
            None => None,
        }
    } else if avail < 3 {
        None
    } else {
        let v = stream_bit(s, k + 1) + 2 * stream_bit(s, k + 2);
        match traversal_symbols(s, k + 3, avail - 3, (n - 1) as nat) {
            Some(rest) => Some(seq![(v + 1) as u32] + rest),
            None => None,
        }
    }
}

/// Each stream bit is 0 or 1.
proof fn lemma_stream_bit_is_bit(s: Seq<u8>, k: int)
    ensures
        stream_bit(s, k) <= 1,
{
    let b = s[k / 8];
    let sh = (k % 8) as u8;
    assert((b >> sh) & 1u8 <= 1u8) by (bit_vector);
}

/// `done` followed by what `rest` holds, if anything.
pub open spec fn after(done: Seq<u32>, rest: Option<Seq<u32>>) -> Option<Seq<u32>> {
    match rest {
        Some(r) => Some(done + r),
        None => None,
    }
}

/// The `n` traversal symbols that a size-prefixed bit-level section at the
/// read position of `b` holds from its start, and the end of the section;
/// none while a section is open.
pub open spec fn symbol_stream(b: &DecoderBuffer, n: nat) -> Option<(Seq<u32>, int)> {
    symbol_stream_at(b.bytes(), b.pos_spec() as int, b.bit_decoding(), b.version(), n)
}

/// The `n` traversal symbols of the section announced at byte `p` of `s`
/// (see `symbol_stream`); `bits` tells whether a section is open.
pub open spec fn symbol_stream_at(s: Seq<u8>, p: int, bits: bool, version: int, n: nat) -> Option<(Seq<u32>, int)> {
    if bits {
        None
    } else {
        match announced_section_at(s, p, version) {
            None => None,
            Some((start, end)) => match traversal_symbols(s, 8 * start, section_bits(s.len() as int, start, end), n) {
                Some(v) => Some((v, end)),
                None => None,
            },
        }
    }
}

impl MeshEdgebreakerDecoder {
    /// Reads `num_symbols` traversal symbols from a size-prefixed bit-level
    /// section at the read position, and moves to the end of the section.
    ///
    /// Fails when the section cannot be opened (one is open already, or its
    /// size field is cut short or too large) and when its bits run out
    /// before the last symbol.
    pub fn decode_symbol_stream(in_buffer: &mut DecoderBuffer, num_symbols: usize) -> (r: Result<
        Vec<u32>,
        DracoError,
    >)
        requires
            8 * old(in_buffer).bytes().len() + 8 <= usize::MAX,
        ensures
            final(in_buffer).bytes() == old(in_buffer).bytes(),
            num_symbols == 0 ==> (r matches Ok(v) && v@.len() == 0) && *final(in_buffer) == *old(in_buffer),
            num_symbols > 0 ==> (r is Ok <==> symbol_stream(old(in_buffer), num_symbols as nat) is Some),
            num_symbols > 0 ==> (r matches Ok(v) ==> symbol_stream(old(in_buffer), num_symbols as nat) == Some(
                (v@, final(in_buffer).pos_spec() as int),
            ) && !final(in_buffer).bit_decoding()),
            r matches Err(e) ==> e.code_spec() == ErrorCode::DracoError,
    {
        if num_symbols == 0 {
            return Ok(Vec::new());
        }
        let ghost s = in_buffer.bytes();
        let ghost start_state = *in_buffer;
        if in_buffer.start_bit_decoding(true).is_err() {
            proof {
                let p = start_state.pos_spec() as int;
                if exists|i: int| crate::decoder_buffer::varint_ends_at(s, p, i) {
                    let i = choose|i: int| crate::decoder_buffer::varint_ends_at(s, p, i);
                    assert(crate::decoder_buffer::varint_ends_at(s, p, i));
                }
            }
            return Err(DracoError::error("Failed to start traversal symbol bit decoding"));
        }
        let ghost start = in_buffer.bit_start() as int;
        let ghost end = in_buffer.bit_end() as int;
        proof {
            let p = start_state.pos_spec() as int;
            if start_state.version() >= 0x0202 {
                let i = choose|i: int| crate::decoder_buffer::varint_ends_at(s, p, i);
                assert(crate::decoder_buffer::varint_ends_at(s, p, i));
            }
            assert(announced_section(&start_state) == Some((start, end)));
            lemma2_to64();
        }
        let ghost whole = traversal_symbols(s, 8 * start, section_bits(s.len() as int, start, end), num_symbols as nat);
        let mut symbols: Vec<u32> = Vec::with_capacity(num_symbols);
        let mut i: usize = 0;
        while i < num_symbols
            invariant
                in_buffer.bytes() == s,
                s == old(in_buffer).bytes(),
                in_buffer.bit_decoding(),
                in_buffer.bit_start() == start,
                in_buffer.bit_end() == end,
                in_buffer.bit_size_known(),
                8 * s.len() + 8 <= usize::MAX,
                in_buffer.bits_consumed() <= 8 * s.len(),
                i <= num_symbols,
                symbols@.len() == i,
                whole is Some <==> symbol_stream(old(in_buffer), num_symbols as nat) is Some,
                whole matches Some(v) ==> symbol_stream(old(in_buffer), num_symbols as nat) == Some((v, end)),
                whole == after(
                    symbols@,
                    traversal_symbols(s, in_buffer.next_bit_index(), in_buffer.bits_available(), (num_symbols - i) as nat),
                ),
                pow2(0) == 1,
                pow2(1) == 2,
            decreases num_symbols - i,
        {
            let ghost k = in_buffer.next_bit_index();
            let ghost avail = in_buffer.bits_available();
            let first_bit = match in_buffer.decode_least_significant_bits32(1) {
                Ok(b) => b,
                Err(_) => {
                    return Err(DracoError::error("Failed to read traversal symbol"));
                },
            };
            assert(first_bit == bits_value(s, k, 1));
            assert(first_bit == stream_bit(s, k)) by {
                assert(bits_value(s, k, 1) == bits_value(s, k, 0) + stream_bit(s, k) as nat * pow2(0));
                assert(bits_value(s, k, 0) == 0);
            }
            let topology = if first_bit == 0 {
                0u32
            } else {
                let suffix = match in_buffer.decode_least_significant_bits32(2) {
                    Ok(b) => b,
                    Err(_) => {
                        return Err(DracoError::error("Failed to read traversal symbol suffix"));
                    },
                };
                assert(suffix == bits_value(s, k + 1, 2));
                assert(suffix == stream_bit(s, k + 1) + 2 * stream_bit(s, k + 2)) by {
                    assert(bits_value(s, k + 1, 0) == 0);
                    assert(bits_value(s, k + 1, 1) == bits_value(s, k + 1, 0) + stream_bit(s, k + 1) as nat * pow2(0));
                    assert(bits_value(s, k + 1, 2) == bits_value(s, k + 1, 1) + stream_bit(s, k + 2) as nat * pow2(1));
                }
                proof {
                    lemma_stream_bit_is_bit(s, k + 1);
                    lemma_stream_bit_is_bit(s, k + 2);
                }
                assert(suffix < 4);
                assert(1u32 | (suffix << 1u32) == 1 + 2 * suffix) by (bit_vector)
                    requires
                        suffix < 4,
                ;
                1u32 | (suffix << 1u32)
            };
            let id = match Self::topology_bit_pattern_to_symbol_id(topology) {
                Ok(v) => v,
                Err(e) => {
                    return Err(e);
                },
            };
            let ghost done = symbols@;
            symbols.push(id);
            proof {
                assert(symbols@ == done + seq![id]);
                let rest = traversal_symbols(s, in_buffer.next_bit_index(), in_buffer.bits_available(), (num_symbols - i - 1) as nat);
                assert(after(done, traversal_symbols(s, k, avail, (num_symbols - i) as nat)) == after(symbols@, rest)) by {
                    match rest {
                        Some(r) => {
                            assert(done + (seq![id] + r) =~= (done + seq![id]) + r);
                        },
                        None => {},
                    }
                }
            }
            i = i + 1;
        }
        in_buffer.end_bit_decoding();
        proof {
            assert(symbols@ + Seq::<u32>::empty() =~= symbols@);
        }
        Ok(symbols)
    }
}

/// The edge that a coded bit names: 0 the left edge, 1 the right one.
pub open spec fn edge_of_bit(b: u8) -> EdgeFaceName {
    if b == 0 {
        EdgeFaceName::LeftFaceEdge
    } else {
        EdgeFaceName::RightFaceEdge
    }
}

/// The split event of a (source, split) symbol id pair and an edge.
pub open spec fn split_event(ids: (i32, i32), edge: EdgeFaceName) -> TopologySplitEventData {
    TopologySplitEventData { split_symbol_id: ids.1 as u32, source_symbol_id: ids.0 as u32, source_edge: edge }
}

/// The (source, split) symbol ids of `n` events coded from `p` as pairs of
/// varints: each source id adds its delta to the one before (`last` for the
/// first), each split id is its source id minus its own delta; deltas are
/// taken to 32 bits and the ids wrap around. With `checked`, a split delta
/// above its source id makes the events invalid. The byte position after
/// them comes with the ids.
pub open spec fn delta_coded_ids(s: Seq<u8>, p: int, n: nat, last: i32, checked: bool) -> Option<(Seq<(i32, i32)>, int)>
    decreases n,
{
    if n == 0 {
        Some((Seq::empty(), p))
    } else {
        match varint_at(s, p) {
            None => None,
            Some((d, q)) => {
                let source = last.wrapping_add(d as i32);
                match varint_at(s, q) {
                    None => None,
                    Some((sd, r)) => if checked && (sd as i32) > source {
                        None
                    } else {
                        match delta_coded_ids(s, r, (n - 1) as nat, source, checked) {
                            None => None,
                            Some((rest, e)) => Some((seq![(source, source.wrapping_sub(sd as i32))] + rest, e)),
                        }
                    },
                }
            },
        }
    }
}

/// The events of the id pairs `ids`, each with the edge named by the first
/// of its `w` bits, the bits read from byte `r` on to the end of `s`; and
/// the byte position after the last byte that bits were read from. None if
/// too few bits are left.
pub open spec fn with_edge_bits(s: Seq<u8>, ids: Seq<(i32, i32)>, r: int, w: int) -> Option<(Seq<TopologySplitEventData>, int)> {
    let n = ids.len() as int;
    if n * w > section_bits(s.len() as int, r, s.len() as int) {
        None
    } else {
        Some((Seq::new(ids.len(), |j: int| split_event(ids[j], edge_of_bit(stream_bit(s, 8 * r + j * w)))), r + (n * w + 7) / 8))
    }
}

/// The split events that streams from bitstream version 2.2 on hold inline
/// at the read position of `b` (none before 2.2): a varint count, the
/// delta-coded ids, and then one edge bit per event; with the byte
/// position after them.
pub open spec fn inline_split_events(b: &DecoderBuffer, version: u16) -> Option<(Seq<TopologySplitEventData>, int)> {
    inline_split_events_at(b.bytes(), b.pos_spec() as int, b.bit_decoding(), version)
}

/// The inline split events at byte `p` of `s` (see `inline_split_events`);
/// `bits` tells whether a section is open.
pub open spec fn inline_split_events_at(s: Seq<u8>, p: int, bits: bool, version: u16) -> Option<
    (Seq<TopologySplitEventData>, int),
> {
    if version < 0x0202 {
        Some((Seq::empty(), p))
    } else if bits {
        None
    } else {
        match varint_at(s, p) {
            None => None,
            Some((count, q)) => match delta_coded_ids(s, q, (count as usize) as nat, 0, false) {
                None => None,
                Some((ids, r)) => if ids.len() == 0 {
                    Some((Seq::empty(), r))
                } else {
                    with_edge_bits(s, ids, r, 1)
                },
            },
        }
    }
}

/// Reads `num_events` delta-coded (source, split) id pairs, appending their
/// events (with the left edge) to `events`.
fn read_delta_coded_events(
    in_buffer: &mut DecoderBuffer,
    num_events: usize,
    checked: bool,
    events: &mut Vec<TopologySplitEventData>,
) -> (r: Result<Ghost<Seq<(i32, i32)>>, DracoError>)
    requires
        old(events)@.len() == 0,
    ensures
        final(in_buffer).same_except_pos(old(in_buffer)),
        !old(in_buffer).bit_decoding() || num_events == 0 ==> (r is Ok <==> delta_coded_ids(
            old(in_buffer).bytes(),
            old(in_buffer).pos_spec() as int,
            num_events as nat,
            0,
            checked,
        ) is Some),
        old(in_buffer).bit_decoding() && num_events > 0 ==> r is Err,
        r matches Ok(ids) ==> delta_coded_ids(
            old(in_buffer).bytes(),
            old(in_buffer).pos_spec() as int,
            num_events as nat,
            0,
            checked,
        ) == Some((ids@, final(in_buffer).pos_spec() as int)) && final(events)@ == Seq::new(
            ids@.len(),
            |j: int| split_event(ids@[j], EdgeFaceName::LeftFaceEdge),
        ),
        r matches Err(e) ==> e.code_spec() == ErrorCode::DracoError,
{
    let ghost s = in_buffer.bytes();
    let ghost p0 = in_buffer.pos_spec() as int;
    let ghost mut ids: Seq<(i32, i32)> = Seq::empty();
    let mut last_source_symbol_id: i32 = 0;
    let mut k: usize = 0;
    while k < num_events
        invariant
            in_buffer.same_except_pos(old(in_buffer)),
            s == old(in_buffer).bytes(),
            p0 == old(in_buffer).pos_spec(),
            k <= num_events,
            k > 0 ==> !old(in_buffer).bit_decoding(),
            ids.len() == k,
            events@ == Seq::new(ids.len(), |j: int| split_event(ids[j], EdgeFaceName::LeftFaceEdge)),
            delta_coded_ids(s, p0, num_events as nat, 0, checked) == match delta_coded_ids(
                s,
                in_buffer.pos_spec() as int,
                (num_events - k) as nat,
                last_source_symbol_id,
                checked,
            ) {
                Some((rest, e)) => Some((ids + rest, e)),
                None => None,
            },
        decreases num_events - k,
    {
        let ghost pk = in_buffer.pos_spec() as int;
        let delta = match read_varint(in_buffer) {
            Ok(v) => v as i32,
            Err(_) => {
                return Err(DracoError::error("Failed to read source symbol delta"));
            },
        };
        let source_symbol_id = last_source_symbol_id.wrapping_add(delta);
        let split_delta = match read_varint(in_buffer) {
            Ok(v) => v as i32,
            Err(_) => {
                return Err(DracoError::error("Failed to read split symbol delta"));
            },
        };
        if checked && split_delta > source_symbol_id {
            return Err(DracoError::error("Invalid split symbol delta"));
        }
        let split_symbol_id = source_symbol_id.wrapping_sub(split_delta);
        events.push(
            TopologySplitEventData {
                split_symbol_id: split_symbol_id as u32,
                source_symbol_id: source_symbol_id as u32,
                source_edge: EdgeFaceName::LeftFaceEdge,
            },
        );
        proof {
            let pair = (source_symbol_id, split_symbol_id);
            let old_ids = ids;
            ids = ids.push(pair);
            assert(events@ =~= Seq::new(ids.len(), |j: int| split_event(ids[j], EdgeFaceName::LeftFaceEdge)));
            match delta_coded_ids(s, in_buffer.pos_spec() as int, (num_events - k - 1) as nat, source_symbol_id, checked) {
                Some((rest, e)) => {
                    assert(old_ids + (seq![pair] + rest) =~= ids + rest);
                },
                None => {},
            }
        }
        last_source_symbol_id = source_symbol_id;
        k = k + 1;
    }
    proof {
        assert(ids + Seq::<(i32, i32)>::empty() =~= ids);
    }
    Ok(Ghost(ids))
}

/// Reads the edge of each of `events` from a bit-level section opened at
/// the read position and running to the end of the data, `w` bits per
/// event (the first bit names the edge); then closes the section.
fn read_edge_bits(
    in_buffer: &mut DecoderBuffer,
    events: &mut Vec<TopologySplitEventData>,
    w: u32,
    Ghost(ids): Ghost<Seq<(i32, i32)>>,
) -> (r: Result<(), DracoError>)
    requires
        w == 1 || w == 2,
        !old(in_buffer).bit_decoding(),
        8 * old(in_buffer).bytes().len() + 8 <= usize::MAX,
        old(events)@ == Seq::new(ids.len(), |j: int| split_event(ids[j], EdgeFaceName::LeftFaceEdge)),
    ensures
        final(in_buffer).bytes() == old(in_buffer).bytes(),
        final(in_buffer).major() == old(in_buffer).major(),
        final(in_buffer).minor() == old(in_buffer).minor(),
        r is Ok <==> with_edge_bits(old(in_buffer).bytes(), ids, old(in_buffer).pos_spec() as int, w as int) is Some,
        r is Ok ==> with_edge_bits(old(in_buffer).bytes(), ids, old(in_buffer).pos_spec() as int, w as int) == Some(
            (final(events)@, final(in_buffer).pos_spec() as int),
        ) && !final(in_buffer).bit_decoding(),
        r matches Err(e) ==> e.code_spec() == ErrorCode::DracoError,
{
    let ghost s = in_buffer.bytes();
    let ghost r0 = in_buffer.pos_spec() as int;
    let ghost n = ids.len() as int;
    let ghost total = section_bits(s.len() as int, r0, s.len() as int);
    if in_buffer.start_bit_decoding(false).is_err() {
        return Err(DracoError::error("Failed to start bit decoding for split-event source_edge bits"));
    }
    let ghost wi = w as int;
    proof {
        lemma2_to64();
    }
    let num = events.len();
    let mut j: usize = 0;
    while j < num
        invariant
            in_buffer.bytes() == s,
            s == old(in_buffer).bytes(),
            in_buffer.major() == old(in_buffer).major(),
            in_buffer.minor() == old(in_buffer).minor(),
            in_buffer.bit_decoding(),
            in_buffer.bit_start() == r0,
            in_buffer.bit_end() == s.len(),
            !in_buffer.bit_size_known(),
            w == 1 || w == 2,
            wi == w,
            8 * s.len() + 8 <= usize::MAX,
            r0 == old(in_buffer).pos_spec(),
            total == section_bits(s.len() as int, r0, s.len() as int),
            num == n,
            n == ids.len(),
            j <= num,
            in_buffer.bits_consumed() == j * wi,
            in_buffer.bits_available() == total - j * wi,
            j * wi <= total,
            total <= 8 * s.len(),
            events@.len() == n,
            forall|k: int| 0 <= k < j ==> #[trigger] events@[k] == split_event(ids[k], edge_of_bit(stream_bit(s, 8 * r0 + k * wi))),
            forall|k: int| j <= k < n ==> #[trigger] events@[k] == split_event(ids[k], EdgeFaceName::LeftFaceEdge),
            pow2(0) == 1,
            pow2(1) == 2,
        decreases num - j,
    {
        proof {
            lemma_mul_is_distributive_add_other_way(wi, j as int, 1);
        }
        let ghost k0 = in_buffer.next_bit_index();
        let bits = match in_buffer.decode_least_significant_bits32(w) {
            Ok(b) => b,
            Err(_) => {
                proof {
                    lemma_mul_inequality(j as int + 1, n, wi);
                }
                return Err(DracoError::error("Failed to read split-event source_edge bits"));
            },
        };
        proof {
            lemma_stream_bit_is_bit(s, k0);
            lemma_stream_bit_is_bit(s, k0 + 1);
            assert(bits_value(s, k0, 1) == bits_value(s, k0, 0) + stream_bit(s, k0) as nat * pow2(0));
            assert(bits_value(s, k0, 0) == 0);
            if w == 2 {
                assert(bits_value(s, k0, 2) == bits_value(s, k0, 1) + stream_bit(s, k0 + 1) as nat * pow2(1));
                let b0 = stream_bit(s, k0) as u32;
                let b1 = stream_bit(s, k0 + 1) as u32;
                assert(((b0 + 2 * b1) as u32) & 1u32 == b0) by (bit_vector)
                    requires
                        b0 <= 1,
                        b1 <= 1,
                ;
            } else {
                let b0 = stream_bit(s, k0) as u32;
                assert(b0 & 1u32 == b0) by (bit_vector)
                    requires
                        b0 <= 1,
                ;
            }
            assert((bits & 1) == stream_bit(s, k0));
        }
        let mut event = events[j];
        event.source_edge = if (bits & 1) == 0 {
            EdgeFaceName::LeftFaceEdge
        } else {
            EdgeFaceName::RightFaceEdge
        };
        events.set(j, event);
        j = j + 1;
    }
    in_buffer.end_bit_decoding();
    proof {
        assert(events@ =~= Seq::new(ids.len(), |k: int| split_event(ids[k], edge_of_bit(stream_bit(s, 8 * r0 + k * wi)))));
    }
    Ok(())
}

impl MeshEdgebreakerDecoder {
    /// Reads the split events that streams from bitstream version 2.2 on
    /// hold inline (none before 2.2): a varint count, the delta-coded ids of
    /// each event, and one edge bit per event in a bit-level section that is
    /// closed after the last bit read. Ids wrap around 32 bits.
    ///
    /// Fails when a count or delta is cut short, while a bit-level section
    /// is open, and when the edge bits run out.
    pub fn decode_topology_split_events_inline(in_buffer: &mut DecoderBuffer, bitstream_version: u16) -> (r: Result<
        Vec<TopologySplitEventData>,
        DracoError,
    >)
        requires
            8 * old(in_buffer).bytes().len() + 8 <= usize::MAX,
        ensures
            final(in_buffer).bytes() == old(in_buffer).bytes(),
            final(in_buffer).major() == old(in_buffer).major(),
            final(in_buffer).minor() == old(in_buffer).minor(),
            r is Ok <==> inline_split_events(old(in_buffer), bitstream_version) is Some,
            r matches Ok(events) ==> inline_split_events(old(in_buffer), bitstream_version) == Some(
                (events@, final(in_buffer).pos_spec() as int),
            ),
            r is Ok ==> final(in_buffer).bit_decoding() == (old(in_buffer).bit_decoding() && bitstream_version
                < 0x0202),
            r matches Err(e) ==> e.code_spec() == ErrorCode::DracoError,
    {
        if bitstream_version < 0x0202 {
            return Ok(Vec::new());
        }
        let ghost s = in_buffer.bytes();
        let num_events = match read_varint(in_buffer) {
            Ok(v) => v as usize,
            Err(_) => {
                return Err(DracoError::error("Failed to read split event count"));
            },
        };
        let mut events: Vec<TopologySplitEventData> = Vec::new();
        let ids = match read_delta_coded_events(in_buffer, num_events, false, &mut events) {
            Ok(ids) => ids,
            Err(e) => {
                return Err(e);
            },
        };
        if num_events > 0 {
            match read_edge_bits(in_buffer, &mut events, 1, ids) {
                Ok(()) => {},
                Err(e) => {
                    return Err(e);
                },
            }
        } else {
            proof {
                assert(events@ =~= Seq::<TopologySplitEventData>::empty());
            }
        }
        Ok(events)
    }
}

/// A count at `p`: a little-endian 32-bit value before bitstream version
/// 2.0, from 2.0 on a varint taken to 32 bits (which cannot be read while a
/// bit-level section is open); with the position after it.
pub open spec fn count_at(s: Seq<u8>, p: int, bits: bool, version: u16) -> Option<(u32, int)> {
    if version < 0x0200 {
        if p + 4 <= s.len() {
            Some((le_value(s, p, 4) as u32, p + 4))
        } else {
            None
        }
    } else if bits {
        None
    } else {
        match varint_at(s, p) {
            Some((v, q)) => Some((v as u32, q)),
            None => None,
        }
    }
}

/// `n` split events in the format before bitstream version 1.2, from `p`:
/// each is a 32-bit split id, a 32-bit source id and a byte whose low bit
/// names the edge (which cannot be read while a bit-level section is open);
/// with the position after them.
pub open spec fn legacy_split_events(s: Seq<u8>, p: int, n: nat, bits: bool) -> Option<(Seq<TopologySplitEventData>, int)>
    decreases n,
{
    if n == 0 {
        Some((Seq::empty(), p))
    } else if !bits && 0 <= p && p + 9 <= s.len() {
        let event = TopologySplitEventData {
            split_symbol_id: le_value(s, p, 4) as u32,
            source_symbol_id: le_value(s, p + 4, 4) as u32,
            source_edge: if s[p + 8] & 1u8 == 0 {
                EdgeFaceName::LeftFaceEdge
            } else {
                EdgeFaceName::RightFaceEdge
            },
        };
        match legacy_split_events(s, p + 9, (n - 1) as nat, bits) {
            Some((rest, e)) => Some((seq![event] + rest, e)),
            None => None,
        }
    } else {
        None
    }
}

/// The split events of a stream before bitstream version 2.2, at the read
/// position of `b`: a count, then the events (before version 1.2 in the
/// legacy format; else delta-coded ids whose split deltas may not exceed
/// their source ids, then per event two edge bits before 2.2 and one from
/// 2.2 on, of which the first names the edge); then, before version 2.1, a
/// count of hole events, which must be zero. With the position after them.
pub open spec fn split_and_hole_events(b: &DecoderBuffer, version: u16) -> Option<(Seq<TopologySplitEventData>, int)> {
    split_and_hole_events_at(b.bytes(), b.pos_spec() as int, b.bit_decoding(), version)
}

/// The split and hole events at byte `p` of `s` (see
/// `split_and_hole_events`); `bits` tells whether a section is open.
pub open spec fn split_and_hole_events_at(s: Seq<u8>, p: int, bits: bool, version: u16) -> Option<
    (Seq<TopologySplitEventData>, int),
> {
    match count_at(s, p, bits, version) {
        None => None,
        Some((n, q)) => {
            let events = if n == 0 {
                Some((Seq::<TopologySplitEventData>::empty(), q))
            } else if version < 0x0102 {
                legacy_split_events(s, q, n as nat, bits)
            } else if bits {
                None
            } else {
                match delta_coded_ids(s, q, n as nat, 0, true) {
                    None => None,
                    Some((ids, r)) => with_edge_bits(s, ids, r, if version < 0x0202 { 2 } else { 1 }),
                }
            };
            match events {
                None => None,
                Some((ev, e)) => if version < 0x0201 {
                    match count_at(s, e, bits, version) {
                        None => None,
                        Some((holes, t)) => if holes == 0 {
                            Some((ev, t))
                        } else {
                            None
                        },
                    }
                } else {
                    Some((ev, e))
                },
            }
        },
    }
}

/// Reads a count as `count_at` describes it.
fn read_count(in_buffer: &mut DecoderBuffer, bitstream_version: u16) -> (r: Result<u32, ()>)
    ensures
        final(in_buffer).same_except_pos(old(in_buffer)),
        r is Ok <==> count_at(
            old(in_buffer).bytes(),
            old(in_buffer).pos_spec() as int,
            old(in_buffer).bit_decoding(),
            bitstream_version,
        ) is Some,
        r matches Ok(v) ==> count_at(
            old(in_buffer).bytes(),
            old(in_buffer).pos_spec() as int,
            old(in_buffer).bit_decoding(),
            bitstream_version,
        ) == Some((v, final(in_buffer).pos_spec() as int)),
{
    if bitstream_version < 0x0200 {
        in_buffer.decode_u32()
    } else {
        match read_varint(in_buffer) {
            Ok(v) => Ok(v as u32),
            Err(e) => Err(e),
        }
    }
}

impl MeshEdgebreakerDecoder {
    /// Reads the split events of a stream before bitstream version 2.2
    /// (which come after the traversal symbols) and its hole events, and
    /// returns the events with the position after them. Ids wrap around 32
    /// bits.
    ///
    /// Fails when a count, id or edge is cut short, when a split delta
    /// exceeds its source id, and on any hole event (after reading them).
    pub fn decode_hole_and_topology_split_events(in_buffer: &mut DecoderBuffer, bitstream_version: u16) -> (r: Result<
        (Vec<TopologySplitEventData>, usize),
        DracoError,
    >)
        requires
            8 * old(in_buffer).bytes().len() + 8 <= usize::MAX,
        ensures
            final(in_buffer).bytes() == old(in_buffer).bytes(),
            final(in_buffer).major() == old(in_buffer).major(),
            final(in_buffer).minor() == old(in_buffer).minor(),
            r is Ok <==> split_and_hole_events(old(in_buffer), bitstream_version) is Some,
            r matches Ok((events, pos)) ==> split_and_hole_events(old(in_buffer), bitstream_version) == Some(
                (events@, pos as int),
            ) && final(in_buffer).pos_spec() == pos,
            r matches Err(e) ==> e.code_spec() == ErrorCode::DracoError,
    {
        let ghost s = in_buffer.bytes();
        let ghost bits = in_buffer.bit_decoding();
        let ghost p0 = in_buffer.pos_spec() as int;
        let num_topology_splits = match read_count(in_buffer, bitstream_version) {
            Ok(n) => n,
            Err(_) => {
                return Err(DracoError::error("Failed to read num_topology_splits"));
            },
        };
        let ghost q = in_buffer.pos_spec() as int;
        let mut events: Vec<TopologySplitEventData> = Vec::new();
        if num_topology_splits > 0 {
            if bitstream_version < 0x0102 {
                // Legacy format: absolute ids and an edge byte per event.
                let mut k: u32 = 0;
                while k < num_topology_splits
                    invariant
                        in_buffer.same_except_pos(old(in_buffer)),
                        s == old(in_buffer).bytes(),
                        bits == old(in_buffer).bit_decoding(),
                        p0 == old(in_buffer).pos_spec(),
                        count_at(s, p0, bits, bitstream_version) == Some((num_topology_splits, q)),
                        bitstream_version < 0x0102,
                        num_topology_splits > 0,
                        k <= num_topology_splits,
                        events@.len() == k,
                        legacy_split_events(s, q, num_topology_splits as nat, bits) == match legacy_split_events(
                            s,
                            in_buffer.pos_spec() as int,
                            (num_topology_splits - k) as nat,
                            bits,
                        ) {
                            Some((rest, e)) => Some((events@ + rest, e)),
                            None => None,
                        },
                    decreases num_topology_splits - k,
                {
                    let ghost pk = in_buffer.pos_spec() as int;
                    let split_symbol_id = match in_buffer.decode_u32() {
                        Ok(v) => v,
                        Err(_) => {
                            return Err(DracoError::error("Failed to read split_symbol_id"));
                        },
                    };
                    let source_symbol_id = match in_buffer.decode_u32() {
                        Ok(v) => v,
                        Err(_) => {
                            return Err(DracoError::error("Failed to read source_symbol_id"));
                        },
                    };
                    let edge_data = match in_buffer.decode_u8() {
                        Ok(v) => v,
                        Err(_) => {
                            return Err(DracoError::error("Failed to read source_edge byte"));
                        },
                    };
                    let event = TopologySplitEventData {
                        split_symbol_id,
                        source_symbol_id,
                        source_edge: if (edge_data & 1) == 0 {
                            EdgeFaceName::LeftFaceEdge
                        } else {
                            EdgeFaceName::RightFaceEdge
                        },
                    };
                    let ghost done = events@;
                    events.push(event);
                    proof {
                        match legacy_split_events(s, pk + 9, (num_topology_splits - k - 1) as nat, bits) {
                            Some((rest, e)) => {
                                assert(done + (seq![event] + rest) =~= events@ + rest);
                            },
                            None => {},
                        }
                    }
                    k = k + 1;
                }
                proof {
                    assert(events@ + Seq::<TopologySplitEventData>::empty() =~= events@);
                }
            } else {
                // Delta-coded ids, then the edges as bits.
                let ids = match read_delta_coded_events(in_buffer, num_topology_splits as usize, true, &mut events) {
                    Ok(ids) => ids,
                    Err(e) => {
                        return Err(e);
                    },
                };
                let w: u32 = if bitstream_version < 0x0202 {
                    2
                } else {
                    1
                };
                match read_edge_bits(in_buffer, &mut events, w, ids) {
                    Ok(()) => {},
                    Err(e) => {
                        return Err(e);
                    },
                }
            }
        } else {
            proof {
                assert(events@ =~= Seq::<TopologySplitEventData>::empty());
            }
        }
        let ghost e = in_buffer.pos_spec() as int;
        let mut num_hole_events: u32 = 0;
        if bitstream_version < 0x0201 {
            num_hole_events = match read_count(in_buffer, bitstream_version) {
                Ok(n) => n,
                Err(_) => {
                    return Err(DracoError::error("Failed to read num_hole_events"));
                },
            };
        }
        if num_hole_events > 0 {
            assert(split_and_hole_events(old(in_buffer), bitstream_version) is None);
            // Hole events are read past, but not supported.
            if bitstream_version < 0x0102 {
                let mut k: u32 = 0;
                while k < num_hole_events
                    invariant
                        in_buffer.bytes() == old(in_buffer).bytes(),
                        in_buffer.major() == old(in_buffer).major(),
                        in_buffer.minor() == old(in_buffer).minor(),
                        split_and_hole_events(old(in_buffer), bitstream_version) is None,
                        k <= num_hole_events,
                    decreases num_hole_events - k,
                {
                    if in_buffer.decode::<i32>().is_err() {
                        return Err(DracoError::error("Failed to read hole event"));
                    }
                    k = k + 1;
                }
            } else {
                let mut last_symbol_id: i32 = 0;
                let mut k: u32 = 0;
                while k < num_hole_events
                    invariant
                        in_buffer.bytes() == old(in_buffer).bytes(),
                        in_buffer.major() == old(in_buffer).major(),
                        in_buffer.minor() == old(in_buffer).minor(),
                        split_and_hole_events(old(in_buffer), bitstream_version) is None,
                        k <= num_hole_events,
                    decreases num_hole_events - k,
                {
                    let delta = match read_varint(in_buffer) {
                        Ok(v) => #[verifier::truncate] (v as i32),
                        Err(_) => {
                            return Err(DracoError::error("Failed to read hole event delta"));
                        },
                    };
                    last_symbol_id = last_symbol_id.wrapping_add(delta);
                    k = k + 1;
                }
            }
            return Err(DracoError::error("Unsupported Edgebreaker hole events in legacy bitstream"));
        }
        Ok((events, in_buffer.position()))
    }
}

/// A header field at `p`: a little-endian 32-bit value before bitstream
/// version 2.0, from 2.0 on a varint (which cannot be read while a
/// bit-level section is open); with the position after it.
pub open spec fn field_at(s: Seq<u8>, p: int, bits: bool, version: u16) -> Option<(u64, int)> {
    if version < 0x0200 {
        if p + 4 <= s.len() {
            Some((le_value(s, p, 4) as u64, p + 4))
        } else {
            None
        }
    } else if bits {
        None
    } else {
        varint_at(s, p)
    }
}

/// Reads a header field as `field_at` describes it.
fn read_field(in_buffer: &mut DecoderBuffer, bitstream_version: u16) -> (r: Result<u64, ()>)
    ensures
        final(in_buffer).same_except_pos(old(in_buffer)),
        r is Ok <==> field_at(
            old(in_buffer).bytes(),
            old(in_buffer).pos_spec() as int,
            old(in_buffer).bit_decoding(),
            bitstream_version,
        ) is Some,
        r matches Ok(v) ==> field_at(
            old(in_buffer).bytes(),
            old(in_buffer).pos_spec() as int,
            old(in_buffer).bit_decoding(),
            bitstream_version,
        ) == Some((v, final(in_buffer).pos_spec() as int)),
{
    if bitstream_version < 0x0200 {
        match in_buffer.decode_u32() {
            Ok(v) => Ok(v as u64),
            Err(e) => Err(e),
        }
    } else {
        read_varint(in_buffer)
    }
}

/// The Edgebreaker connectivity header at `p` (a stream of bitstream
/// version `version`; `bits` tells whether a bit-level section is open):
/// the traversal decoder type from version 1.2 on, which must be 0, a
/// count of new vertices before 2.2 (skipped), then the numbers of encoded
/// vertices and faces, a byte with the number of attribute data, and the
/// numbers of symbols and split symbols. With the position after it.
pub open spec fn connectivity_header(s: Seq<u8>, p: int, bits: bool, version: u16) -> Option<
    (u32, u32, u8, usize, usize, int),
> {
    let p1: Option<int> = if version >= 0x0102 {
        if !bits && 0 <= p < s.len() && s[p] == 0 {
            Some(p + 1)
        } else {
            None
        }
    } else {
        Some(p)
    };
    let p2: Option<int> = match p1 {
        None => None,
        Some(q) => if version < 0x0202 {
            match field_at(s, q, bits, version) {
                None => None,
                Some((_, q1)) => Some(q1),
            }
        } else {
            Some(q)
        },
    };
    match p2 {
        None => None,
        Some(q2) => match field_at(s, q2, bits, version) {
            None => None,
            Some((nv, q3)) => match field_at(s, q3, bits, version) {
                None => None,
                Some((nf, q4)) => if bits || !(0 <= q4 < s.len()) {
                    None
                } else {
                    match field_at(s, q4 + 1, bits, version) {
                        None => None,
                        Some((ns, q6)) => match field_at(s, q6, bits, version) {
                            None => None,
                            Some((nss, q7)) => Some((nv as u32, nf as u32, s[q4], ns as usize, nss as usize, q7)),
                        },
                    }
                },
            },
        },
    }
}

/// The topology split events after the header (at `p`): before bitstream
/// version 2.2 a size field, then the traversal data of that size, after
/// which the events are coded; from 2.2 on inline. The events, the
/// position of the traversal data and the number of bytes the events take
/// after it (0 for inline events).
pub open spec fn connectivity_events(s: Seq<u8>, p: int, bits: bool, version: u16) -> Option<
    (Seq<TopologySplitEventData>, int, int),
> {
    if version < 0x0202 {
        match field_at(s, p, bits, version) {
            None => None,
            Some((v, q)) => {
                let size = v as usize;
                if size == 0 || size > bytes_left(s, q) {
                    None
                } else {
                    match split_and_hole_events_at(s.subrange(q + size, s.len() as int), 0, false, version) {
                        None => None,
                        Some((events, e)) => Some((events, q, e)),
                    }
                }
            },
        }
    } else {
        match inline_split_events_at(s, p, bits, version) {
            None => None,
            Some((events, e)) => Some((events, e, 0)),
        }
    }
}

/// Every symbol is one of the five and every event names symbols below
/// their number.
pub open spec fn connectivity_consistent(symbols: Seq<u32>, events: Seq<TopologySplitEventData>) -> bool {
    &&& forall|j: int| 0 <= j < symbols.len() ==> #[trigger] symbols[j] <= 4
    &&& forall|j: int|
        0 <= j < events.len() ==> #[trigger] events[j].source_symbol_id < symbols.len()
            && events[j].split_symbol_id < symbols.len()
}

/// The Edgebreaker connectivity decoded from `s` at `p` (see
/// `MeshEdgebreakerDecoder::decode_connectivity`): the numbers of encoded
/// vertices and of faces, the symbols, the rebuilt mesh (none without
/// symbols) and the position after the connectivity; none when decoding
/// fails.
pub open spec fn decoded_connectivity(
    s: Seq<u8>,
    p: int,
    bits: bool,
    version: u16,
    start_bits: Seq<bool>,
    seam_bits: Seq<Vec<bool>>,
) -> Option<(u32, u32, Seq<u32>, Option<(Seq<[PointIndex; 3]>, nat, Seq<u32>, Seq<Seq<u32>>, usize)>, int)> {
    match connectivity_header(s, p, bits, version) {
        None => None,
        Some((nv, nf, na, ns, nss, q)) => match connectivity_events(s, q, bits, version) {
            None => None,
            Some((events, r, extra)) => if events.len() > nss {
                None
            } else {
                let stream = if ns == 0 {
                    Some((Seq::<u32>::empty(), r))
                } else {
                    symbol_stream_at(s, r, bits, version as int, ns as nat)
                };
                match stream {
                    None => None,
                    Some((symbols, end)) => {
                        let maxv: usize = if nv + nss > usize::MAX {
                            usize::MAX
                        } else {
                            (nv + nss) as usize
                        };
                        let total = nf as usize;
                        let m = if symbols.len() > 0 {
                            rebuilt_mesh(symbols, events, total as nat, maxv as nat, start_bits, seam_bits)
                        } else {
                            None
                        };
                        if symbols.len() > total || total >= 0x5555_5554 || maxv >= 0xFFFF_FFFF || seam_bits.len()
                            != na || !connectivity_consistent(symbols, events) {
                            None
                        } else if symbols.len() > 0 && m is None {
                            None
                        } else if extra > 0 && extra > bytes_left(s, end) {
                            None
                        } else {
                            Some((nv, nf, symbols, m, end + extra))
                        }
                    },
                }
            },
        },
    }
}

/// Reads the connectivity header as `connectivity_header` describes it,
/// setting the number of faces and points of `out_mesh` once the counts
/// are read.
fn read_connectivity_header(in_buffer: &mut DecoderBuffer, out_mesh: &mut Mesh, bitstream_version: u16) -> (r: Result<
    (u32, u32, u8, usize, usize),
    DracoError,
>)
    ensures
        final(in_buffer).same_except_pos(old(in_buffer)),
        ({
            let h = connectivity_header(
                old(in_buffer).bytes(),
                old(in_buffer).pos_spec() as int,
                old(in_buffer).bit_decoding(),
                bitstream_version,
            );
            &&& r is Ok <==> h is Some
            &&& r matches Ok((nv, nf, na, ns, nss)) ==> h == Some(
                (nv, nf, na, ns, nss, final(in_buffer).pos_spec() as int),
            ) && final(out_mesh).faces_spec().len() == nf && final(out_mesh).cloud().num_points_spec() == nv
        }),
{
    let ghost s = in_buffer.bytes();
    let ghost p0 = in_buffer.pos_spec() as int;
    let ghost bits = in_buffer.bit_decoding();
    if bitstream_version >= 0x0102 {
        let traversal_decoder_type = match in_buffer.decode_u8() {
            Ok(t) => t,
            Err(_) => {
                return Err(DracoError::error("Failed to read traversal decoder type"));
            },
        };
        if traversal_decoder_type != 0 {
            return Err(DracoError::error(traversal_type_message(traversal_decoder_type).as_str()));
        }
    }
    if bitstream_version < 0x0202 {
        if read_field(in_buffer, bitstream_version).is_err() {
            return Err(DracoError::error("Failed to read num_new_vertices"));
        }
    }
    let num_encoded_vertices: u32 = match read_field(in_buffer, bitstream_version) {
        Ok(v) => v as u32,
        Err(_) => {
            return Err(DracoError::error("Failed to read num_encoded_vertices"));
        },
    };
    let num_faces: u32 = match read_field(in_buffer, bitstream_version) {
        Ok(v) => v as u32,
        Err(_) => {
            return Err(DracoError::error("Failed to read num_faces"));
        },
    };
    let num_attribute_data = match in_buffer.decode_u8() {
        Ok(v) => v,
        Err(_) => {
            return Err(DracoError::error("Failed to read attribute data count"));
        },
    };
    out_mesh.set_num_faces(num_faces as usize);
    out_mesh.point_cloud_mut().set_num_points(num_encoded_vertices as usize);
    let num_symbols: usize = match read_field(in_buffer, bitstream_version) {
        Ok(v) => v as usize,
        Err(_) => {
            return Err(DracoError::error("Failed to read symbol count"));
        },
    };
    let num_split_symbols: usize = match read_field(in_buffer, bitstream_version) {
        Ok(v) => v as usize,
        Err(_) => {
            return Err(DracoError::error("Failed to read split symbol count"));
        },
    };
    assert(connectivity_header(s, p0, bits, bitstream_version) == Some(
        (
            num_encoded_vertices,
            num_faces,
            num_attribute_data,
            num_symbols,
            num_split_symbols,
            in_buffer.pos_spec() as int,
        ),
    ));
    Ok((num_encoded_vertices, num_faces, num_attribute_data, num_symbols, num_split_symbols))
}

/// Whether `connectivity_consistent` holds.
fn check_consistent(symbols: &Vec<u32>, events: &Vec<TopologySplitEventData>) -> (r: bool)
    ensures
        r == connectivity_consistent(symbols@, events@),
{
    let mut i: usize = 0;
    while i < symbols.len()
        invariant
            i <= symbols@.len(),
            forall|j: int| 0 <= j < i ==> #[trigger] symbols@[j] <= 4,
        decreases symbols@.len() - i,
    {
        if symbols[i] > 4 {
            return false;
        }
        i = i + 1;
    }
    let mut e: usize = 0;
    while e < events.len()
        invariant
            e <= events@.len(),
            forall|j: int|
                0 <= j < e ==> #[trigger] events@[j].source_symbol_id < symbols@.len()
                    && events@[j].split_symbol_id < symbols@.len(),
        decreases events@.len() - e,
    {
        let event = events[e];
        if event.source_symbol_id as usize >= symbols.len() || event.split_symbol_id as usize >= symbols.len() {
            return false;
        }
        e = e + 1;
    }
    true
}

impl MeshEdgebreakerDecoder {
    /// Reads the topology split events after the connectivity header as
    /// `connectivity_events` describes them, moving to the traversal data;
    /// returns them with the number of bytes they take after it.
    fn read_connectivity_events(in_buffer: &mut DecoderBuffer, bitstream_version: u16) -> (r: Result<
        (Vec<TopologySplitEventData>, usize),
        DracoError,
    >)
        requires
            8 * old(in_buffer).bytes().len() + 8 <= usize::MAX,
            bitstream_version == old(in_buffer).version(),
        ensures
            final(in_buffer).bytes() == old(in_buffer).bytes(),
            final(in_buffer).major() == old(in_buffer).major(),
            final(in_buffer).minor() == old(in_buffer).minor(),
            r is Ok ==> final(in_buffer).bit_decoding() == old(in_buffer).bit_decoding(),
            ({
                let e = connectivity_events(
                    old(in_buffer).bytes(),
                    old(in_buffer).pos_spec() as int,
                    old(in_buffer).bit_decoding(),
                    bitstream_version,
                );
                &&& r is Ok <==> e is Some
                &&& r matches Ok((events, extra)) ==> e == Some(
                    (events@, final(in_buffer).pos_spec() as int, extra as int),
                )
            }),
    {
        let ghost s = in_buffer.bytes();
        let ghost bits = in_buffer.bit_decoding();
        let version_major = in_buffer.version_major();
        let version_minor = in_buffer.version_minor();
        let ghost q = in_buffer.pos_spec() as int;
        let mut topology_split_decoded_bytes: usize = 0;
        let topology_split_data: Vec<TopologySplitEventData> = if bitstream_version < 0x0202 {
            let encoded_connectivity_size: usize = match read_field(in_buffer, bitstream_version) {
                Ok(v) => v as usize,
                Err(_) => {
                    return Err(DracoError::error("Failed to read encoded_connectivity_size"));
                },
            };
            if encoded_connectivity_size == 0 || encoded_connectivity_size > in_buffer.remaining_size() {
                return Err(DracoError::error("Invalid encoded_connectivity_size"));
            }
            if in_buffer.position() > in_buffer.data_len() {
                return Err(DracoError::error("Invalid encoded_connectivity_size"));
            }
            let remaining = in_buffer.remaining_data();
            let events_slice = vstd::slice::slice_subrange(remaining, encoded_connectivity_size, remaining.len());
            let mut event_buffer = DecoderBuffer::new(events_slice);
            event_buffer.set_version(version_major, version_minor);
            assert(events_slice@ =~= s.subrange(
                in_buffer.pos_spec() + encoded_connectivity_size,
                s.len() as int,
            ));
            let (events, decoded_bytes) = Self::decode_hole_and_topology_split_events(
                &mut event_buffer,
                bitstream_version,
            )?;
            topology_split_decoded_bytes = decoded_bytes;
            events
        } else {
            Self::decode_topology_split_events_inline(in_buffer, bitstream_version)?
        };
        assert(connectivity_events(s, q, bits, bitstream_version) == Some(
            (topology_split_data@, in_buffer.pos_spec() as int, topology_split_decoded_bytes as int),
        ));
        assert(in_buffer.bit_decoding() == bits);
        Ok((topology_split_data, topology_split_decoded_bytes))
    }
}

impl MeshEdgebreakerDecoder {
    /// Rebuilds the faces of `mesh` from the decoded `symbols`, the topology
    /// split events, the start-face bits and the seam bits of each attribute
    /// (see `reconstruct_faces`), and keeps the corner of each vertex and the
    /// seam corners of each attribute. Returns the number of components
    /// found; with no symbols it does nothing and returns 0. On failure
    /// nothing new is kept.
    pub fn reconstruct_mesh(
        &mut self,
        symbols: &[u32],
        topology_split_data: &[TopologySplitEventData],
        mesh: &mut Mesh,
        total_num_faces: usize,
        max_num_vertices: usize,
        start_face_bits: &[bool],
        seam_bits: &[Vec<bool>],
    ) -> (r: Result<usize, DracoError>)
        requires
            symbols@.len() <= total_num_faces,
            3 * total_num_faces + 3 < INVALID_INDEX,
            max_num_vertices < INVALID_INDEX,
            forall|i: int| 0 <= i < symbols@.len() ==> #[trigger] symbols@[i] <= 4,
            forall|i: int|
                0 <= i < topology_split_data@.len() ==> #[trigger] topology_split_data@[i].source_symbol_id
                    < symbols@.len() && topology_split_data@[i].split_symbol_id < symbols@.len(),
        ensures
            symbols@.len() == 0 ==> r == Ok::<usize, DracoError>(0) && *final(self) == *old(self) && *final(mesh)
                == *old(mesh),
            r is Err ==> *final(self) == *old(self),
            r matches Ok(nc) ==> nc <= 1,
            symbols@.len() > 0 ==> {
                let m = rebuilt_mesh(
                    symbols@,
                    topology_split_data@,
                    total_num_faces as nat,
                    max_num_vertices as nat,
                    start_face_bits@,
                    seam_bits@,
                );
                &&& r is Ok <==> m is Some
                &&& r matches Ok(nc) ==> {
                    let (faces, num_points, corners, seams, components) = m->0;
                    &&& nc == components
                    &&& final(mesh).cloud().num_points_spec() == num_points
                    &&& final(self).data_to_corner_spec() matches Some(d) && d@ == corners
                    &&& final(self).seam_corners_spec().len() == seams.len()
                    &&& forall|a: int|
                        0 <= a < seams.len() ==> #[trigger] final(self).seam_corners_spec()[a]@ == seams[a]
                    &&& forall|f: int| 0 <= f < total_num_faces ==> #[trigger] final(mesh).faces_spec()[f] == faces[f]
                    &&& forall|f: int|
                        total_num_faces <= f < old(mesh).faces_spec().len() ==> #[trigger] final(mesh).faces_spec()[f]
                            == old(mesh).faces_spec()[f]
                }
            },
            r is Ok && symbols@.len() > 0 ==> {
                &&& final(self).data_to_corner_spec() matches Some(m) && m@.len()
                    == final(mesh).cloud().num_points_spec()
                &&& final(self).seam_corners_spec().len() == seam_bits@.len()
                &&& final(mesh).faces_spec().len() == if old(mesh).faces_spec().len() < total_num_faces {
                    total_num_faces as int
                } else {
                    old(mesh).faces_spec().len() as int
                }
                &&& forall|f: int|
                    0 <= f < total_num_faces ==> face_points_below(
                        #[trigger] final(mesh).faces_spec()[f],
                        final(mesh).cloud().num_points_spec(),
                    )
            },
    {
        let rec = reconstruct_faces(
            symbols,
            topology_split_data,
            mesh,
            total_num_faces,
            max_num_vertices,
            start_face_bits,
            seam_bits,
        )?;
        if symbols.len() == 0 {
            return Ok(0);
        }
        self.attribute_seam_corners = rec.seam_corners;
        self.data_to_corner_map = Some(rec.data_to_corner_map);
        Ok(rec.num_components)
    }

    /// Decodes the Edgebreaker connectivity of a mesh from `in_buffer` into
    /// `out_mesh`: the header (traversal decoder type from version 1.2 on,
    /// the vertex, face, attribute, symbol and split symbol counts, as 32-bit
    /// values before version 2.0 and varints after), the topology split
    /// events (inline from version 2.2 on, else after the traversal data,
    /// whose size is given), the traversal symbols, and then the faces. The
    /// start-face bits and the seam bits of each attribute, entropy coded in
    /// the stream, are taken as `start_face_bits` and `seam_bits`.
    ///
    /// Fails on an unreadable or inconsistent header, on more split events
    /// than split symbols, on unreadable events or symbols, on connectivity
    /// data that the rebuilding cannot take (more symbols than faces, too
    /// many corners or vertices for 32-bit indices, events naming symbols
    /// past the last, or as many seam bit sequences as attributes not given),
    /// and when the rebuilding fails.
    pub fn decode_connectivity(
        &mut self,
        in_buffer: &mut DecoderBuffer,
        out_mesh: &mut Mesh,
        start_face_bits: &[bool],
        seam_bits: &[Vec<bool>],
    ) -> (r: Result<(), DracoError>)
        requires
            8 * old(in_buffer).bytes().len() + 8 <= usize::MAX,
        ensures
            final(in_buffer).bytes() == old(in_buffer).bytes(),
            ({
                let d = decoded_connectivity(
                    old(in_buffer).bytes(),
                    old(in_buffer).pos_spec() as int,
                    old(in_buffer).bit_decoding(),
                    old(in_buffer).version() as u16,
                    start_face_bits@,
                    seam_bits@,
                );
                &&& r is Ok <==> d is Some
                &&& r is Ok ==> {
                    let (nv, nf, symbols, m, end) = d->0;
                    &&& final(in_buffer).pos_spec() == end
                    &&& final(out_mesh).faces_spec().len() == nf
                    &&& symbols.len() == 0 ==> final(out_mesh).cloud().num_points_spec() == nv
                        && final(self).data_to_corner_spec() is None
                    &&& symbols.len() > 0 ==> m is Some
                    &&& symbols.len() > 0 ==> {
                        let (faces, num_points, corners, seams, components) = m->0;
                        &&& final(out_mesh).cloud().num_points_spec() == num_points
                        &&& final(self).data_to_corner_spec() matches Some(c) && c@ == corners
                        &&& final(self).seam_corners_spec().len() == seams.len()
                        &&& forall|a: int|
                            0 <= a < seams.len() ==> #[trigger] final(self).seam_corners_spec()[a]@ == seams[a]
                        &&& forall|f: int| 0 <= f < nf ==> #[trigger] final(out_mesh).faces_spec()[f] == faces[f]
                    }
                }
            }),
            r is Ok && final(self).data_to_corner_spec() is Some ==> {
                &&& final(self).data_to_corner_spec()->0@.len() == final(out_mesh).cloud().num_points_spec()
                &&& final(self).seam_corners_spec().len() == seam_bits@.len()
                &&& forall|f: int|
                    0 <= f < final(out_mesh).faces_spec().len() ==> face_points_below(
                        #[trigger] final(out_mesh).faces_spec()[f],
                        final(out_mesh).cloud().num_points_spec(),
                    )
            },
    {
        self.data_to_corner_map = None;
        let version_major = in_buffer.version_major();
        let version_minor = in_buffer.version_minor();
        let bitstream_version: u16 = version_major as u16 * 256 + version_minor as u16;
        assert(bitstream_version == old(in_buffer).version() as u16);
        let (num_encoded_vertices, num_faces, num_attribute_data, num_symbols, num_split_symbols) =
            read_connectivity_header(in_buffer, out_mesh, bitstream_version)?;
        let (topology_split_data, topology_split_decoded_bytes) = Self::read_connectivity_events(
            in_buffer,
            bitstream_version,
        )?;
        if topology_split_data.len() > num_split_symbols {
            return Err(DracoError::error(split_count_message(num_split_symbols, topology_split_data.len()).as_str()));
        }
        let symbols = Self::decode_symbol_stream(in_buffer, num_symbols)?;
        let max_num_vertices = (num_encoded_vertices as usize).saturating_add(num_split_symbols);
        let total_num_faces = num_faces as usize;
        if symbols.len() > total_num_faces || total_num_faces >= 0x5555_5554 || max_num_vertices >= 0xFFFF_FFFF
            || seam_bits.len() != num_attribute_data as usize {
            return Err(DracoError::error("Invalid Edgebreaker connectivity data"));
        }
        if !check_consistent(&symbols, &topology_split_data) {
            return Err(DracoError::error("Invalid Edgebreaker connectivity data"));
        }
        let ghost mesh_before = *out_mesh;
        self.reconstruct_mesh(
            symbols.as_slice(),
            topology_split_data.as_slice(),
            out_mesh,
            total_num_faces,
            max_num_vertices,
            start_face_bits,
            seam_bits,
        )?;
        assert(mesh_before.faces_spec().len() == total_num_faces);
        if topology_split_decoded_bytes > 0 {
            if topology_split_decoded_bytes > in_buffer.remaining_size() {
                return Err(DracoError::error("Invalid topology split decoded byte count"));
            }
            in_buffer.advance(topology_split_decoded_bytes);
        }
        Ok(())
    }
}

} // verus!
