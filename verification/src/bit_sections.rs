//! Bit-level sections written by an encoder and read back by a decoder.
use crate::decoder_buffer::{bits_value, lemma_bit_sequence_read_back, DecoderBuffer};
use crate::encoder_buffer::{
    bit_section_closed, bit_section_opened, bit_total, bits_encoded, bits_written, lemma_bit_total_prefix,
    lemma_bit_writes_keep, stream_bit, EncoderBuffer,
};
use vstd::arithmetic::power2::*;
use vstd::prelude::*;

verus! {

/// Write `i` of a section, at the bit where it starts.
proof fn lemma_section_write_at(
    before: EncoderBuffer,
    states: Seq<EncoderBuffer>,
    nbits: Seq<u8>,
    values: Seq<u32>,
    required_bits: usize,
    i: int,
)
    requires
        bit_section_opened(before, states[0], required_bits, false),
        states.len() == nbits.len() + 1,
        values.len() == nbits.len(),
        forall|j: int| 0 <= j < nbits.len() ==> #[trigger] bits_encoded(states[j], states[j + 1], nbits[j], values[j]),
        0 <= i < nbits.len(),
    ensures
        ({
            let p = 8 * states[0].bit_section_start() + bit_total(nbits.take(i));
            &&& bits_written(states[i].bytes(), states[i + 1].bytes(), p, values[i], nbits[i] as int)
            &&& p + nbits[i] <= 8 * states[i + 1].bytes().len()
            &&& nbits[i] <= 32
        }),
{
    lemma_bit_writes_keep(before, states, nbits, values, required_bits, false, i);
    assert(bits_encoded(states[i], states[i + 1], nbits[i], values[i]));
}

/// The writes of a section, as byte sequences at the bit positions where
/// they start.
proof fn lemma_section_writes(
    before: EncoderBuffer,
    states: Seq<EncoderBuffer>,
    nbits: Seq<u8>,
    values: Seq<u32>,
    required_bits: usize,
    bytes: Seq<Seq<u8>>,
    positions: Seq<int>,
    widths: Seq<nat>,
)
    requires
        bit_section_opened(before, states[0], required_bits, false),
        states.len() == nbits.len() + 1,
        values.len() == nbits.len(),
        forall|j: int| 0 <= j < nbits.len() ==> #[trigger] bits_encoded(states[j], states[j + 1], nbits[j], values[j]),
        bytes == Seq::new(states.len(), |i: int| states[i].bytes()),
        positions == Seq::new(
            nbits.len(),
            |i: int| 8 * states[0].bit_section_start() + bit_total(nbits.take(i)),
        ),
        widths == Seq::new(nbits.len(), |i: int| nbits[i] as nat),
    ensures
        bytes.len() == values.len() + 1,
        positions.len() == values.len(),
        widths.len() == values.len(),
        forall|i: int| 0 <= i < values.len() ==> #[trigger] widths[i] <= 32,
        forall|i: int| 0 <= i < values.len() ==> 0 <= #[trigger] positions[i],
        forall|i: int| 0 <= i < values.len() ==> positions[i] + widths[i] <= 8 * #[trigger] bytes[i + 1].len(),
        forall|i: int| 0 < i < values.len() ==> #[trigger] positions[i] == positions[i - 1] + widths[i - 1],
        forall|i: int|
            0 <= i < values.len() ==> bits_written(
                #[trigger] bytes[i],
                bytes[i + 1],
                positions[i],
                values[i],
                widths[i] as int,
            ),
{
    let m = nbits.len() as int;
    assert forall|i: int| 0 <= i < m implies bits_written(
        #[trigger] bytes[i],
        bytes[i + 1],
        positions[i],
        values[i],
        widths[i] as int,
    ) by {
        lemma_section_write_at(before, states, nbits, values, required_bits, i);
    }
    assert forall|i: int| 0 <= i < m implies #[trigger] widths[i] <= 32 by {
        lemma_section_write_at(before, states, nbits, values, required_bits, i);
    }
    assert forall|i: int| 0 <= i < m implies positions[i] + widths[i] <= 8 * #[trigger] bytes[i + 1].len() by {
        lemma_section_write_at(before, states, nbits, values, required_bits, i);
    }
    assert forall|i: int| 0 < i < m implies #[trigger] positions[i] == positions[i - 1] + widths[i - 1] by {
        assert(nbits.take(i).drop_last() =~= nbits.take(i - 1));
    }
}

/// Bits read from the first `len` bytes of `s` are the bits of `s`.
proof fn lemma_bits_value_prefix(s: Seq<u8>, len: int, p: int, n: nat)
    requires
        0 <= len <= s.len(),
        0 <= p,
        p + n <= 8 * len,
    ensures
        bits_value(s.subrange(0, len), p, n) == bits_value(s, p, n),
    decreases n,
{
    if n > 0 {
        lemma_bits_value_prefix(s, len, p, (n - 1) as nat);
        let q = p + n - 1;
        assert(s.subrange(0, len)[q / 8] == s[q / 8]);
    }
}

/// What a bit-level section written by calls holds, read back: when
/// `states[0]` is what `EncoderBuffer::start_bit_encoding(required_bits,
/// false)` made of `before`, each `states[j + 1]` what a successful
/// `encode_least_significant_bits_32(nbits[j], values[j])` made of
/// `states[j]`, and `closed` what `end_bit_encoding` made of the last, then
/// the `nbits[k]` bits of `closed` from bit `8 * before.len()` plus the bits
/// written before them (where a decoder that starts a section without a
/// size at byte `before.len()` reads them, least significant first, in the
/// order they were written) make up `values[k]` modulo `2^nbits[k]`.
pub proof fn lemma_bit_section_read_back(
    before: EncoderBuffer,
    states: Seq<EncoderBuffer>,
    nbits: Seq<u8>,
    values: Seq<u32>,
    closed: EncoderBuffer,
    required_bits: usize,
    k: int,
)
    requires
        bit_section_opened(before, states[0], required_bits, false),
        states.len() == nbits.len() + 1,
        values.len() == nbits.len(),
        forall|j: int| 0 <= j < nbits.len() ==> #[trigger] bits_encoded(states[j], states[j + 1], nbits[j], values[j]),
        bit_section_closed(states.last(), closed),
        0 <= k < nbits.len(),
    ensures
        bits_value(closed.bytes(), (8 * before.bytes().len() + bit_total(nbits.take(k))) as int, nbits[k] as nat)
            == values[k] as nat % pow2(nbits[k] as nat),
{
    let m = nbits.len() as int;
    let start = states[0].bit_section_start() as int;
    let bytes = Seq::new(states.len(), |i: int| states[i].bytes());
    let positions = Seq::new(m as nat, |i: int| 8 * start + bit_total(nbits.take(i)));
    let widths = Seq::new(m as nat, |i: int| nbits[i] as nat);
    lemma_section_writes(before, states, nbits, values, required_bits, bytes, positions, widths);
    lemma_bit_sequence_read_back(bytes, positions, values, widths, k);
    // The section is cut after its last written bit, which keeps every bit
    // read here.
    lemma_bit_writes_keep(before, states, nbits, values, required_bits, false, m);
    assert(nbits.take(m) =~= nbits);
    let last = states.last();
    let used = (last.bits_written_count() + 7) / 8;
    assert(nbits.take(k + 1).drop_last() =~= nbits.take(k));
    lemma_bit_total_prefix(nbits, k + 1);
    assert(positions[k] + widths[k] <= 8 * (start + used));
    if start + used < last.bytes().len() {
        lemma_bits_value_prefix(last.bytes(), start + used, positions[k], widths[k]);
    }
}

/// What a successful `DecoderBuffer::decode_least_significant_bits32(nbits)`
/// call that returned `value` does to the decoder `b0`, giving `b1`.
pub open spec fn bits_decoded(b0: DecoderBuffer, b1: DecoderBuffer, nbits: u32, value: u32) -> bool {
    &&& b0.bit_decoding()
    &&& b1.same_except_bits_consumed(&b0)
    &&& value == bits_value(b0.bytes(), b0.next_bit_index(), nbits as nat)
    &&& b1.bits_consumed() == b0.bits_consumed() + nbits
}

/// What `DecoderBuffer::end_bit_decoding` does to the decoder `b0`, giving
/// `b1`.
pub open spec fn bit_decoding_ended(b0: DecoderBuffer, b1: DecoderBuffer) -> bool {
    &&& !b1.bit_decoding()
    &&& b1.bytes() == b0.bytes()
    &&& b1.pos_spec() == if b0.bit_size_known() {
        b0.bit_end() as int
    } else {
        b0.bit_start() + (b0.bits_consumed() + 7) / 8
    }
}

/// The number of bits of a sequence of reads.
pub open spec fn read_total(widths: Seq<u32>) -> nat
    decreases widths.len(),
{
    if widths.len() == 0 {
        0
    } else {
        read_total(widths.drop_last()) + widths.last() as nat
    }
}

/// The decoders after each of a sequence of successful reads from a
/// section that `opened` opened at byte `start` keep the section and count
/// the bits read.
proof fn lemma_bit_reads_keep(
    before: DecoderBuffer,
    reads: Seq<DecoderBuffer>,
    widths: Seq<u32>,
    values: Seq<u32>,
    start: int,
    end: int,
    known: bool,
    i: int,
)
    requires
        reads[0].opened_bit_section(&before, start, end, known),
        reads.len() == widths.len() + 1,
        values.len() == widths.len(),
        forall|j: int| 0 <= j < widths.len() ==> #[trigger] bits_decoded(reads[j], reads[j + 1], widths[j], values[j]),
        0 <= i < reads.len(),
    ensures
        reads[i].bytes() == before.bytes(),
        reads[i].bit_decoding(),
        reads[i].bit_start() == start,
        reads[i].bit_end() == end,
        reads[i].bit_size_known() == known,
        reads[i].bits_consumed() == read_total(widths.take(i)),
    decreases i,
{
    if i == 0 {
        assert(widths.take(0) =~= Seq::<u32>::empty());
    } else {
        lemma_bit_reads_keep(before, reads, widths, values, start, end, known, i - 1);
        let j = i - 1;
        assert(bits_decoded(reads[j], reads[j + 1], widths[j], values[j]));
        assert(widths.take(i).drop_last() =~= widths.take(i - 1));
    }
}

/// A bit-level section read by calls: when `reads[0]` is what a successful
/// `DecoderBuffer::start_bit_decoding` made of `before` (a section from byte
/// `start` to `end`, `known` when its size was read), each `reads[j + 1]`
/// what a successful `decode_least_significant_bits32(widths[j])` returning
/// `values[j]` made of `reads[j]`, and `closed` what `end_bit_decoding`
/// made of the last, then the reads take the bits of the section one after
/// the other, least significant first, and `closed` is past the section
/// when its size was read and otherwise just past the last byte with a bit
/// read; bit decoding is over, so byte reads work again.
pub proof fn lemma_bit_section_reads(
    before: DecoderBuffer,
    reads: Seq<DecoderBuffer>,
    widths: Seq<u32>,
    values: Seq<u32>,
    closed: DecoderBuffer,
    start: int,
    end: int,
    known: bool,
)
    requires
        reads[0].opened_bit_section(&before, start, end, known),
        reads.len() == widths.len() + 1,
        values.len() == widths.len(),
        forall|j: int| 0 <= j < widths.len() ==> #[trigger] bits_decoded(reads[j], reads[j + 1], widths[j], values[j]),
        bit_decoding_ended(reads.last(), closed),
    ensures
        !closed.bit_decoding(),
        closed.bytes() == before.bytes(),
        closed.pos_spec() == if known {
            end
        } else {
            start + (read_total(widths) + 7) / 8
        },
        forall|k: int|
            0 <= k < widths.len() ==> #[trigger] values[k] == bits_value(
                before.bytes(),
                8 * start + read_total(widths.take(k)),
                widths[k] as nat,
            ),
{
    let m = widths.len() as int;
    lemma_bit_reads_keep(before, reads, widths, values, start, end, known, m);
    assert(widths.take(m) =~= widths);
    assert forall|k: int| 0 <= k < m implies #[trigger] values[k] == bits_value(
        before.bytes(),
        8 * start + read_total(widths.take(k)),
        widths[k] as nat,
    ) by {
        lemma_bit_reads_keep(before, reads, widths, values, start, end, known, k);
        assert(bits_decoded(reads[k], reads[k + 1], widths[k], values[k]));
    }
}

/// Widths read that match widths written add up alike.
proof fn lemma_totals_agree(nbits: Seq<u8>, widths: Seq<u32>, k: int)
    requires
        nbits.len() == widths.len(),
        forall|j: int| 0 <= j < widths.len() ==> #[trigger] widths[j] == nbits[j] as u32,
        0 <= k <= widths.len(),
    ensures
        read_total(widths.take(k)) == bit_total(nbits.take(k)),
    decreases k,
{
    if k > 0 {
        lemma_totals_agree(nbits, widths, k - 1);
        assert(widths.take(k).drop_last() =~= widths.take(k - 1));
        assert(nbits.take(k).drop_last() =~= nbits.take(k - 1));
    }
}

/// Bits come back in the order they were written: when an encoder wrote a
/// section without a size by calls (as `lemma_bit_section_read_back` takes
/// them) after the bytes of `enc_before`, and a decoder over the encoder's
/// bytes opened a section without a size at byte `enc_before.len()` and read
/// it with the same widths by calls (as `lemma_bit_section_reads` takes
/// them), then read `k` gives `values[k]` modulo `2^nbits[k]`.
pub proof fn lemma_bit_round_trip(
    enc_before: EncoderBuffer,
    states: Seq<EncoderBuffer>,
    nbits: Seq<u8>,
    values: Seq<u32>,
    enc_closed: EncoderBuffer,
    required_bits: usize,
    dec_before: DecoderBuffer,
    reads: Seq<DecoderBuffer>,
    widths: Seq<u32>,
    read_values: Seq<u32>,
    end: int,
    k: int,
)
    requires
        bit_section_opened(enc_before, states[0], required_bits, false),
        states.len() == nbits.len() + 1,
        values.len() == nbits.len(),
        forall|j: int| 0 <= j < nbits.len() ==> #[trigger] bits_encoded(states[j], states[j + 1], nbits[j], values[j]),
        bit_section_closed(states.last(), enc_closed),
        dec_before.bytes() == enc_closed.bytes(),
        reads[0].opened_bit_section(&dec_before, enc_before.bytes().len() as int, end, false),
        reads.len() == widths.len() + 1,
        read_values.len() == widths.len(),
        forall|j: int|
            0 <= j < widths.len() ==> #[trigger] bits_decoded(reads[j], reads[j + 1], widths[j], read_values[j]),
        widths.len() == nbits.len(),
        forall|j: int| 0 <= j < widths.len() ==> #[trigger] widths[j] == nbits[j] as u32,
        0 <= k < nbits.len(),
    ensures
        read_values[k] as nat == values[k] as nat % pow2(nbits[k] as nat),
{
    lemma_bit_section_read_back(enc_before, states, nbits, values, enc_closed, required_bits, k);
    lemma_bit_reads_keep(
        dec_before,
        reads,
        widths,
        read_values,
        enc_before.bytes().len() as int,
        end,
        false,
        k,
    );
    assert(bits_decoded(reads[k], reads[k + 1], widths[k], read_values[k]));
    lemma_totals_agree(nbits, widths, k);
    assert(widths[k] == nbits[k] as u32);
}

} // verus!
