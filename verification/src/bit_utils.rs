//! Bit manipulation utilities used by the compression algorithms.
//!
//! Every operation is specified bit by bit: `bit32(n, i)` (and `bit64`) is the
//! value (0 or 1) of bit `i` of `n`, counting from the least significant bit.
use vstd::arithmetic::power2::*;
use vstd::bits::*;
use vstd::prelude::*;
use vstd::std_specs::bits::*;

verus! {

/// Value (0 or 1) of bit `i` of a 32-bit word.
pub open spec fn bit32(n: u32, i: u32) -> u32 {
    (n >> i) & 1
}

/// Value (0 or 1) of bit `i` of a 64-bit word.
pub open spec fn bit64(n: u64, i: u64) -> u64 {
    (n >> i) & 1
}

/// Number of set bits among the eight bits `k .. k + 8` of a 32-bit word.
pub open spec fn popcount32_byte(n: u32, k: u32) -> int {
    bit32(n, k) + bit32(n, (k + 1) as u32) + bit32(n, (k + 2) as u32) + bit32(n, (k + 3) as u32)
        + bit32(n, (k + 4) as u32) + bit32(n, (k + 5) as u32) + bit32(n, (k + 6) as u32) + bit32(
        n,
        (k + 7) as u32,
    )
}

/// Number of set bits of a 32-bit word.
pub open spec fn popcount32(n: u32) -> int {
    popcount32_byte(n, 0) + popcount32_byte(n, 8) + popcount32_byte(n, 16) + popcount32_byte(n, 24)
}

/// Number of set bits among the eight bits `k .. k + 8` of a 64-bit word.
pub open spec fn popcount64_byte(n: u64, k: u64) -> int {
    bit64(n, k) + bit64(n, (k + 1) as u64) + bit64(n, (k + 2) as u64) + bit64(n, (k + 3) as u64)
        + bit64(n, (k + 4) as u64) + bit64(n, (k + 5) as u64) + bit64(n, (k + 6) as u64) + bit64(
        n,
        (k + 7) as u64,
    )
}

/// Number of set bits of a 64-bit word.
pub open spec fn popcount64(n: u64) -> int {
    popcount64_byte(n, 0) + popcount64_byte(n, 8) + popcount64_byte(n, 16) + popcount64_byte(n, 24)
        + popcount64_byte(n, 32) + popcount64_byte(n, 40) + popcount64_byte(n, 48)
        + popcount64_byte(n, 56)
}

/// `r` holds the bits of `n` in reverse order.
pub open spec fn is_bit_reversal32(n: u32, r: u32) -> bool {
    forall|i: u32| i < 32 ==> #[trigger] bit32(r, i) == bit32(n, (31 - i) as u32)
}

/// `r` holds the bits of `n` in reverse order (64-bit words).
pub open spec fn is_bit_reversal64(n: u64, r: u64) -> bool {
    forall|i: u64| i < 64 ==> #[trigger] bit64(r, i) == bit64(n, (63 - i) as u64)
}

/// `copied` is `orig` with the `nbits` bits at `dst_offset` replaced by the `nbits`
/// bits of `src` at `src_offset`; every other bit of `old` is kept.
pub open spec fn bits_copied32(orig: u32, copied: u32, dst_offset: u32, src: u32, src_offset: u32, nbits: u32) -> bool {
    forall|i: u32|
        i < 32 ==> #[trigger] bit32(copied, i) == if dst_offset <= i && ((i - dst_offset) as u32) < nbits {
            bit32(src, (src_offset + (i - dst_offset)) as u32)
        } else {
            bit32(orig, i)
        }
}

/// 64-bit counterpart of `bits_copied32`.
pub open spec fn bits_copied64(orig: u64, copied: u64, dst_offset: u64, src: u64, src_offset: u64, nbits: u64) -> bool {
    forall|i: u64|
        i < 64 ==> #[trigger] bit64(copied, i) == if dst_offset <= i && ((i - dst_offset) as u64) < nbits {
            bit64(src, (src_offset + (i - dst_offset)) as u64)
        } else {
            bit64(orig, i)
        }
}

/// Zigzag mapping of a signed value onto the naturals: 0, -1, 1, -2, 2, ...
/// become 0, 1, 2, 3, 4, ...
pub open spec fn zigzag_encode(v: int) -> int {
    if v >= 0 {
        2 * v
    } else {
        -2 * v - 1
    }
}

/// Inverse of `zigzag_encode`: even symbols are non-negative values, odd
/// symbols negative ones.
pub open spec fn zigzag_decode(s: int) -> int {
    if s % 2 == 0 {
        s / 2
    } else {
        -(s / 2) - 1
    }
}

proof fn lemma_count_ones_32_steps(n: u32, n1: u32, n2: u32, n3: u32)
    by (bit_vector)
    requires
        n1 == (n - ((n >> 1) & 0x55555555u32)) as u32,
        n2 == ((n1 & 0x33333333u32) + ((n1 >> 2) & 0x33333333u32)) as u32,
        n3 == ((n2 + (n2 >> 4)) as u32) & 0x0F0F0F0Fu32,
    ensures
        (n >> 1) & 0x55555555u32 <= n,
        (n1 & 0x33333333u32) + ((n1 >> 2) & 0x33333333u32) <= 0xffffffffu32,
        n2 + (n2 >> 4) <= 0xffffffffu32,
        ((((n3 * 0x01010101u32) % 0x1_0000_0000int) as u32) >> 24u32) == popcount32(n),
{
}

/// Returns the number of '1' bits within the input 32 bit integer.
pub fn count_ones_32(n: u32) -> (r: u32)
    ensures
        r == popcount32(n),
{
    let ghost g1 = (n - ((n >> 1) & 0x55555555u32)) as u32;
    let ghost g2 = ((g1 & 0x33333333u32) + ((g1 >> 2) & 0x33333333u32)) as u32;
    let ghost g3 = ((g2 + (g2 >> 4)) as u32) & 0x0F0F0F0Fu32;
    proof {
        lemma_count_ones_32_steps(n, g1, g2, g3);
    }
    let n1 = n - ((n >> 1) & 0x55555555);
    let n2 = (n1 & 0x33333333) + ((n1 >> 2) & 0x33333333);
    let n3 = (n2 + (n2 >> 4)) & 0x0F0F0F0F;
    n3.wrapping_mul(0x01010101) >> 24
}

proof fn lemma_count_ones_64_steps(n: u64, n1: u64, n2: u64, n3: u64)
    by (bit_vector)
    requires
        n1 == (n - ((n >> 1) & 0x5555555555555555u64)) as u64,
        n2 == ((n1 & 0x3333333333333333u64) + ((n1 >> 2) & 0x3333333333333333u64)) as u64,
        n3 == ((n2 + (n2 >> 4)) as u64) & 0x0F0F0F0F0F0F0F0Fu64,
    ensures
        (n >> 1) & 0x5555555555555555u64 <= n,
        (n1 & 0x3333333333333333u64) + ((n1 >> 2) & 0x3333333333333333u64) <= 0xffffffffffffffffu64,
        n2 + (n2 >> 4) <= 0xffffffffffffffffu64,
        (((((n3 * 0x0101010101010101u64) % 0x1_0000_0000_0000_0000int) as u64) >> 56u64) & 0xFFu64)
            == popcount64(n),
{
}

/// Returns the number of '1' bits within the input 64 bit integer.
pub fn count_ones_64(n: u64) -> (r: u64)
    ensures
        r == popcount64(n),
{
    let ghost g1 = (n - ((n >> 1) & 0x5555555555555555u64)) as u64;
    let ghost g2 = ((g1 & 0x3333333333333333u64) + ((g1 >> 2) & 0x3333333333333333u64)) as u64;
    let ghost g3 = ((g2 + (g2 >> 4)) as u64) & 0x0F0F0F0F0F0F0F0Fu64;
    proof {
        lemma_count_ones_64_steps(n, g1, g2, g3);
    }
    let n1 = n - ((n >> 1) & 0x5555555555555555);
    let n2 = (n1 & 0x3333333333333333) + ((n1 >> 2) & 0x3333333333333333);
    let n3 = (n2 + (n2 >> 4)) & 0x0F0F0F0F0F0F0F0F;
    (n3.wrapping_mul(0x0101010101010101) >> 56) & 0xFF
}

proof fn lemma_reverse_bits_32(n: u32, a: u32, b: u32, c: u32, d: u32, r: u32)
    by (bit_vector)
    requires
        a == ((n >> 1) & 0x55555555u32) | ((n & 0x55555555u32) << 1),
        b == ((a >> 2) & 0x33333333u32) | ((a & 0x33333333u32) << 2),
        c == ((b >> 4) & 0x0F0F0F0Fu32) | ((b & 0x0F0F0F0Fu32) << 4),
        d == ((c >> 8) & 0x00FF00FFu32) | ((c & 0x00FF00FFu32) << 8),
        r == (d >> 16) | (d << 16),
    ensures
        is_bit_reversal32(n, r),
{
}

/// Reverses the bits of a 32-bit integer.
pub fn reverse_bits_32(n: u32) -> (r: u32)
    ensures
        is_bit_reversal32(n, r),
{
    let a = ((n >> 1) & 0x55555555) | ((n & 0x55555555) << 1);
    let b = ((a >> 2) & 0x33333333) | ((a & 0x33333333) << 2);
    let c = ((b >> 4) & 0x0F0F0F0F) | ((b & 0x0F0F0F0F) << 4);
    let d = ((c >> 8) & 0x00FF00FF) | ((c & 0x00FF00FF) << 8);
    let r = (d >> 16) | (d << 16);
    proof {
        lemma_reverse_bits_32(n, a, b, c, d, r);
    }
    r
}

proof fn lemma_reverse_bits_64(n: u64, a: u64, b: u64, c: u64, d: u64, e: u64, r: u64)
    by (bit_vector)
    requires
        a == ((n >> 1) & 0x5555555555555555u64) | ((n & 0x5555555555555555u64) << 1),
        b == ((a >> 2) & 0x3333333333333333u64) | ((a & 0x3333333333333333u64) << 2),
        c == ((b >> 4) & 0x0F0F0F0F0F0F0F0Fu64) | ((b & 0x0F0F0F0F0F0F0F0Fu64) << 4),
        d == ((c >> 8) & 0x00FF00FF00FF00FFu64) | ((c & 0x00FF00FF00FF00FFu64) << 8),
        e == ((d >> 16) & 0x0000FFFF0000FFFFu64) | ((d & 0x0000FFFF0000FFFFu64) << 16),
        r == (e >> 32) | (e << 32),
    ensures
        is_bit_reversal64(n, r),
{
}

/// Reverses the bits of a 64-bit integer.
pub fn reverse_bits_64(n: u64) -> (r: u64)
    ensures
        is_bit_reversal64(n, r),
{
    let a = ((n >> 1) & 0x5555555555555555) | ((n & 0x5555555555555555) << 1);
    let b = ((a >> 2) & 0x3333333333333333) | ((a & 0x3333333333333333) << 2);
    let c = ((b >> 4) & 0x0F0F0F0F0F0F0F0F) | ((b & 0x0F0F0F0F0F0F0F0F) << 4);
    let d = ((c >> 8) & 0x00FF00FF00FF00FF) | ((c & 0x00FF00FF00FF00FF) << 8);
    let e = ((d >> 16) & 0x0000FFFF0000FFFF) | ((d & 0x0000FFFF0000FFFF) << 16);
    let r = (e >> 32) | (e << 32);
    proof {
        lemma_reverse_bits_64(n, a, b, c, d, e, r);
    }
    r
}

/// Bit reversal is symmetric: if `r` is the reversal of `n`, then `n` is the
/// reversal of `r`.
pub proof fn lemma_bit_reversal32_symmetric(n: u32, r: u32)
    requires
        is_bit_reversal32(n, r),
    ensures
        is_bit_reversal32(r, n),
{
    assert forall|i: u32| i < 32 implies #[trigger] bit32(n, i) == bit32(r, (31 - i) as u32) by {
        assert(bit32(r, (31 - i) as u32) == bit32(n, (31 - (31 - i)) as u32));
    }
}

/// Bit reversal of 64-bit words is symmetric.
pub proof fn lemma_bit_reversal64_symmetric(n: u64, r: u64)
    requires
        is_bit_reversal64(n, r),
    ensures
        is_bit_reversal64(r, n),
{
    assert forall|i: u64| i < 64 implies #[trigger] bit64(n, i) == bit64(r, (63 - i) as u64) by {
        assert(bit64(r, (63 - i) as u64) == bit64(n, (63 - (63 - i)) as u64));
    }
}

/// A 32-bit word is determined by its bits.
proof fn lemma_bits_determine32(a: u32, b: u32)
    by (bit_vector)
    requires
        bit32(a, 0) == bit32(b, 0),
        bit32(a, 1) == bit32(b, 1),
        bit32(a, 2) == bit32(b, 2),
        bit32(a, 3) == bit32(b, 3),
        bit32(a, 4) == bit32(b, 4),
        bit32(a, 5) == bit32(b, 5),
        bit32(a, 6) == bit32(b, 6),
        bit32(a, 7) == bit32(b, 7),
        bit32(a, 8) == bit32(b, 8),
        bit32(a, 9) == bit32(b, 9),
        bit32(a, 10) == bit32(b, 10),
        bit32(a, 11) == bit32(b, 11),
        bit32(a, 12) == bit32(b, 12),
        bit32(a, 13) == bit32(b, 13),
        bit32(a, 14) == bit32(b, 14),
        bit32(a, 15) == bit32(b, 15),
        bit32(a, 16) == bit32(b, 16),
        bit32(a, 17) == bit32(b, 17),
        bit32(a, 18) == bit32(b, 18),
        bit32(a, 19) == bit32(b, 19),
        bit32(a, 20) == bit32(b, 20),
        bit32(a, 21) == bit32(b, 21),
        bit32(a, 22) == bit32(b, 22),
        bit32(a, 23) == bit32(b, 23),
        bit32(a, 24) == bit32(b, 24),
        bit32(a, 25) == bit32(b, 25),
        bit32(a, 26) == bit32(b, 26),
        bit32(a, 27) == bit32(b, 27),
        bit32(a, 28) == bit32(b, 28),
        bit32(a, 29) == bit32(b, 29),
        bit32(a, 30) == bit32(b, 30),
        bit32(a, 31) == bit32(b, 31),
    ensures
        a == b,
{
}

/// Reversing the bits of a 32-bit word twice gives the word back.
pub proof fn lemma_bit_reversal32_involution(n: u32, r: u32, s: u32)
    requires
        is_bit_reversal32(n, r),
        is_bit_reversal32(r, s),
    ensures
        s == n,
{
    assert forall|i: u32| i < 32 implies #[trigger] bit32(s, i) == bit32(n, i) by {
        assert(bit32(r, (31 - i) as u32) == bit32(n, (31 - (31 - i)) as u32));
    }
    lemma_bits_determine32(s, n);
}

/// A 64-bit word is determined by its bits.
proof fn lemma_bits_determine64(a: u64, b: u64)
    by (bit_vector)
    requires
        bit64(a, 0) == bit64(b, 0),
        bit64(a, 1) == bit64(b, 1),
        bit64(a, 2) == bit64(b, 2),
        bit64(a, 3) == bit64(b, 3),
        bit64(a, 4) == bit64(b, 4),
        bit64(a, 5) == bit64(b, 5),
        bit64(a, 6) == bit64(b, 6),
        bit64(a, 7) == bit64(b, 7),
        bit64(a, 8) == bit64(b, 8),
        bit64(a, 9) == bit64(b, 9),
        bit64(a, 10) == bit64(b, 10),
        bit64(a, 11) == bit64(b, 11),
        bit64(a, 12) == bit64(b, 12),
        bit64(a, 13) == bit64(b, 13),
        bit64(a, 14) == bit64(b, 14),
        bit64(a, 15) == bit64(b, 15),
        bit64(a, 16) == bit64(b, 16),
        bit64(a, 17) == bit64(b, 17),
        bit64(a, 18) == bit64(b, 18),
        bit64(a, 19) == bit64(b, 19),
        bit64(a, 20) == bit64(b, 20),
        bit64(a, 21) == bit64(b, 21),
        bit64(a, 22) == bit64(b, 22),
        bit64(a, 23) == bit64(b, 23),
        bit64(a, 24) == bit64(b, 24),
        bit64(a, 25) == bit64(b, 25),
        bit64(a, 26) == bit64(b, 26),
        bit64(a, 27) == bit64(b, 27),
        bit64(a, 28) == bit64(b, 28),
        bit64(a, 29) == bit64(b, 29),
        bit64(a, 30) == bit64(b, 30),
        bit64(a, 31) == bit64(b, 31),
        bit64(a, 32) == bit64(b, 32),
        bit64(a, 33) == bit64(b, 33),
        bit64(a, 34) == bit64(b, 34),
        bit64(a, 35) == bit64(b, 35),
        bit64(a, 36) == bit64(b, 36),
        bit64(a, 37) == bit64(b, 37),
        bit64(a, 38) == bit64(b, 38),
        bit64(a, 39) == bit64(b, 39),
        bit64(a, 40) == bit64(b, 40),
        bit64(a, 41) == bit64(b, 41),
        bit64(a, 42) == bit64(b, 42),
        bit64(a, 43) == bit64(b, 43),
        bit64(a, 44) == bit64(b, 44),
        bit64(a, 45) == bit64(b, 45),
        bit64(a, 46) == bit64(b, 46),
        bit64(a, 47) == bit64(b, 47),
        bit64(a, 48) == bit64(b, 48),
        bit64(a, 49) == bit64(b, 49),
        bit64(a, 50) == bit64(b, 50),
        bit64(a, 51) == bit64(b, 51),
        bit64(a, 52) == bit64(b, 52),
        bit64(a, 53) == bit64(b, 53),
        bit64(a, 54) == bit64(b, 54),
        bit64(a, 55) == bit64(b, 55),
        bit64(a, 56) == bit64(b, 56),
        bit64(a, 57) == bit64(b, 57),
        bit64(a, 58) == bit64(b, 58),
        bit64(a, 59) == bit64(b, 59),
        bit64(a, 60) == bit64(b, 60),
        bit64(a, 61) == bit64(b, 61),
        bit64(a, 62) == bit64(b, 62),
        bit64(a, 63) == bit64(b, 63),
    ensures
        a == b,
{
}

/// Reversing the bits of a 64-bit word twice gives the word back.
pub proof fn lemma_bit_reversal64_involution(n: u64, r: u64, s: u64)
    requires
        is_bit_reversal64(n, r),
        is_bit_reversal64(r, s),
    ensures
        s == n,
{
    assert forall|i: u64| i < 64 implies #[trigger] bit64(s, i) == bit64(n, i) by {
        assert(bit64(r, (63 - i) as u64) == bit64(n, (63 - (63 - i)) as u64));
    }
    lemma_bits_determine64(s, n);
}

// The parameters carry the names of `bits_copied32`'s own parameters.
proof fn lemma_copy_bits_32(orig: u32, dst_offset: u32, src: u32, src_offset: u32, nbits: u32, mask: u32, copied: u32)
    by (bit_vector)
    requires
        dst_offset + nbits <= 32,
        src_offset + nbits <= 32,
        0 < nbits,
        mask == if nbits == 32 { 0xFFFFFFFFu32 } else { (((1u32 << nbits) - 1) as u32) << dst_offset },
        copied == (orig & !mask) | (((src >> src_offset) << dst_offset) & mask),
    ensures
        nbits < 32 ==> 1u32 << nbits >= 1,
        bits_copied32(orig, copied, dst_offset, src, src_offset, nbits),
{
}

/// Copies `nbits` bits from `src` (starting at bit `src_offset`) into `dst`
/// (starting at bit `dst_offset`); the other bits of `dst` are kept.
///
/// A bit range that does not fit into 32 bits is a caller error.
pub fn copy_bits_32(dst: &mut u32, dst_offset: u32, src: u32, src_offset: u32, nbits: u32)
    requires
        dst_offset + nbits <= 32,
        src_offset + nbits <= 32,
    ensures
        bits_copied32(*old(dst), *final(dst), dst_offset, src, src_offset, nbits),
{
    // Verified callers meet `requires`; a caller from unverified code that
    // passes a range wider than 32 bits stops here with the panic that the
    // function documents.
    if dst_offset > 32 || nbits > 32 - dst_offset {
        None::<u32>.expect("Destination bit range exceeds 32 bits");
    }
    if src_offset > 32 || nbits > 32 - src_offset {
        None::<u32>.expect("Source bit range exceeds 32 bits");
    }
    if nbits == 0 {
        return;
    }
    let ghost mask_spec = if nbits == 32 { 0xFFFFFFFFu32 } else { (((1u32 << nbits) - 1) as u32) << dst_offset };
    let ghost r_spec = (*dst & !mask_spec) | (((src >> src_offset) << dst_offset) & mask_spec);
    proof {
        lemma_copy_bits_32(*dst, dst_offset, src, src_offset, nbits, mask_spec, r_spec);
    }
    let mask = if nbits == 32 {
        0xFFFFFFFF
    } else {
        ((1u32 << nbits) - 1) << dst_offset
    };
    *dst = (*dst & !mask) | (((src >> src_offset) << dst_offset) & mask);
}

// The parameters carry the names of `bits_copied64`'s own parameters.
#[verifier::rlimit(100)]
proof fn lemma_copy_bits_64(orig: u64, dst_offset: u64, src: u64, src_offset: u64, nbits: u64, mask: u64, copied: u64)
    by (bit_vector)
    requires
        dst_offset + nbits <= 64,
        src_offset + nbits <= 64,
        0 < nbits,
        mask == if nbits == 64 { 0xFFFFFFFFFFFFFFFFu64 } else { (((1u64 << nbits) - 1) as u64) << dst_offset },
        copied == (orig & !mask) | (((src >> src_offset) << dst_offset) & mask),
    ensures
        nbits < 64 ==> 1u64 << nbits >= 1,
        bits_copied64(orig, copied, dst_offset, src, src_offset, nbits),
{
}

/// Copies `nbits` bits from `src` (starting at bit `src_offset`) into `dst`
/// (starting at bit `dst_offset`); the other bits of `dst` are kept.
///
/// A bit range that does not fit into 64 bits is a caller error.
pub fn copy_bits_64(dst: &mut u64, dst_offset: u32, src: u64, src_offset: u32, nbits: u32)
    requires
        dst_offset + nbits <= 64,
        src_offset + nbits <= 64,
    ensures
        bits_copied64(*old(dst), *final(dst), dst_offset as u64, src, src_offset as u64, nbits as u64),
{
    if dst_offset > 64 || nbits > 64 - dst_offset {
        None::<u64>.expect("Destination bit range exceeds 64 bits");
    }
    if src_offset > 64 || nbits > 64 - src_offset {
        None::<u64>.expect("Source bit range exceeds 64 bits");
    }
    if nbits == 0 {
        return;
    }
    let ghost mask_spec = if nbits == 64 { 0xFFFFFFFFFFFFFFFFu64 } else { (((1u64 << (nbits as u64)) - 1) as u64) << (dst_offset as u64) };
    let ghost r_spec = (*dst & !mask_spec) | (((src >> (src_offset as u64)) << (dst_offset as u64)) & mask_spec);
    proof {
        lemma_copy_bits_64(*dst, dst_offset as u64, src, src_offset as u64, nbits as u64, mask_spec, r_spec);
    }
    let mask = if nbits == 64 {
        0xFFFFFFFFFFFFFFFF
    } else {
        ((1u64 << nbits) - 1) << dst_offset
    };
    *dst = (*dst & !mask) | (((src >> src_offset) << dst_offset) & mask);
}

pub(crate) proof fn lemma_top_bit32(n: u32, k: u32)
    by (bit_vector)
    requires
        k < 32,
        (n >> k) & 1 != 0,
        k == 31 || n >> ((k + 1) as u32) == 0,
    ensures
        n >> k == 1,
{
}

/// Returns the position of the most significant set bit of `n`, or
/// `u32::MAX` when `n` is zero.
pub fn most_significant_bit(n: u32) -> (r: u32)
    ensures
        n == 0 ==> r == u32::MAX,
        n != 0 ==> r < 32 && n >> r == 1,
{
    if n == 0 {
        return u32::MAX;
    }
    let lz = n.leading_zeros();
    proof {
        axiom_u32_leading_zeros(n);
        lemma_top_bit32(n, (31 - lz) as u32);
    }
    31 - lz
}

proof fn lemma_top_bit64(n: u64, k: u64)
    by (bit_vector)
    requires
        k < 64,
        (n >> k) & 1 != 0,
        k == 63 || n >> ((k + 1) as u64) == 0,
    ensures
        n >> k == 1,
{
}

/// Returns the position of the most significant set bit of `n`, or
/// `u32::MAX` when `n` is zero.
pub fn most_significant_bit_64(n: u64) -> (r: u32)
    ensures
        n == 0 ==> r == u32::MAX,
        n != 0 ==> r < 64 && n >> (r as u64) == 1,
{
    if n == 0 {
        return u32::MAX;
    }
    let lz = n.leading_zeros();
    proof {
        axiom_u64_leading_zeros(n);
        lemma_top_bit64(n, (63 - lz) as u64);
    }
    63 - lz
}

pub(crate) proof fn lemma_zigzag_bits(x: u32)
    by (bit_vector)
    ensures
        x & 1 == x % 2,
        x < 0x80000000u32 ==> x << 1 == 2 * x,
        x < 0x80000000u32 ==> (x << 1) | 1 == 2 * x + 1,
        (x & 1 == 0) <==> x % 2 == 0,
        x >> 1 == x / 2,
{
}

/// Converts a signed value into an unsigned symbol (zigzag encoding), the
/// form in which the entropy coders store signed data.
pub fn convert_signed_int_to_symbol_i32(val: i32) -> (r: u32)
    ensures
        r == zigzag_encode(val as int),
{
    if val >= 0 {
        proof {
            lemma_zigzag_bits(val as u32);
        }
        (val as u32) << 1
    } else {
        let neg_val = -(val + 1);
        proof {
            lemma_zigzag_bits(neg_val as u32);
        }
        ((neg_val as u32) << 1) | 1
    }
}

/// Converts an unsigned symbol back into the signed value it encodes
/// (inverse of `convert_signed_int_to_symbol_i32`).
pub fn convert_symbol_to_signed_int_i32(val: u32) -> (r: i32)
    ensures
        r == zigzag_decode(val as int),
{
    proof {
        lemma_zigzag_bits(val);
    }
    let is_positive = (val & 1) == 0;
    let half = val >> 1;
    if is_positive {
        half as i32
    } else {
        -(half as i32) - 1
    }
}

/// Zigzag decoding undoes zigzag encoding for every signed value.
pub proof fn lemma_zigzag_decode_encode(v: int)
    ensures
        zigzag_decode(zigzag_encode(v)) == v,
{
}

/// Zigzag encoding undoes zigzag decoding for every symbol.
pub proof fn lemma_zigzag_encode_decode(s: int)
    requires
        s >= 0,
    ensures
        zigzag_encode(zigzag_decode(s)) == s,
{
}

/// Converts each signed value of `input` into its symbol in `output`.
///
/// The two slices must have the same length.
pub fn convert_signed_ints_to_symbols(input: &[i32], output: &mut [u32])
    requires
        input.len() == old(output).len(),
    ensures
        final(output)@.len() == input@.len(),
        forall|i: int| 0 <= i < input@.len() ==> #[trigger] final(output)@[i] == zigzag_encode(input@[i] as int),
{
    if input.len() != output.len() {
        None::<u32>.expect("Input and output arrays must have the same length");
    }
    let n = input.len();
    let mut i: usize = 0;
    while i < n
        invariant
            n == input@.len(),
            output@.len() == n,
            i <= n,
            forall|j: int| 0 <= j < i ==> #[trigger] output@[j] == zigzag_encode(input@[j] as int),
        decreases n - i,
    {
        output[i] = convert_signed_int_to_symbol_i32(input[i]);
        i = i + 1;
    }
}

/// Converts each symbol of `input` back into its signed value in `output`.
///
/// The two slices must have the same length.
pub fn convert_symbols_to_signed_ints(input: &[u32], output: &mut [i32])
    requires
        input.len() == old(output).len(),
    ensures
        final(output)@.len() == input@.len(),
        forall|i: int| 0 <= i < input@.len() ==> #[trigger] final(output)@[i] == zigzag_decode(input@[i] as int),
{
    if input.len() != output.len() {
        None::<u32>.expect("Input and output arrays must have the same length");
    }
    let n = input.len();
    let mut i: usize = 0;
    while i < n
        invariant
            n == input@.len(),
            output@.len() == n,
            i <= n,
            forall|j: int| 0 <= j < i ==> #[trigger] output@[j] == zigzag_decode(input@[j] as int),
        decreases n - i,
    {
        output[i] = convert_symbol_to_signed_int_i32(input[i]);
        i = i + 1;
    }
}

/// Converting values to symbols and the symbols back gives the values again.
pub proof fn lemma_symbol_arrays_round_trip(values: Seq<i32>, symbols: Seq<u32>, restored: Seq<i32>)
    requires
        symbols.len() == values.len(),
        restored.len() == values.len(),
        forall|i: int| 0 <= i < values.len() ==> #[trigger] symbols[i] == zigzag_encode(values[i] as int),
        forall|i: int| 0 <= i < values.len() ==> #[trigger] restored[i] == zigzag_decode(symbols[i] as int),
    ensures
        restored == values,
{
    assert forall|i: int| 0 <= i < values.len() implies #[trigger] restored[i] == values[i] by {
        lemma_zigzag_decode_encode(values[i] as int);
    }
    assert(restored =~= values);
}

proof fn lemma_single_bit_ops(value: u32, bit: u32)
    by (bit_vector)
    requires
        bit < 32,
    ensures
        ((value & (1u32 << bit)) != 0) == (((value >> bit) & 1) == 1),
        forall|i: u32| i < 32 ==> #[trigger] (((value | (1u32 << bit)) >> i) & 1) == if i == bit { 1u32 } else { (value >> i) & 1 },
        forall|i: u32| i < 32 ==> #[trigger] (((value & !(1u32 << bit)) >> i) & 1) == if i == bit { 0u32 } else { (value >> i) & 1 },
        forall|i: u32| i < 32 ==> #[trigger] (((value ^ (1u32 << bit)) >> i) & 1) == if i == bit { (1 - ((value >> i) & 1)) as u32 } else { (value >> i) & 1 },
{
}

/// Returns true if the bit at position `bit` is set in `value`.
pub fn is_bit_set_32(value: u32, bit: u32) -> (r: bool)
    requires
        bit < 32,
    ensures
        r == (bit32(value, bit) == 1),
{
    proof {
        lemma_single_bit_ops(value, bit);
    }
    (value & (1u32 << bit)) != 0
}

/// Returns `value` with the bit at position `bit` set.
pub fn set_bit_32(value: u32, bit: u32) -> (r: u32)
    requires
        bit < 32,
    ensures
        forall|i: u32| i < 32 ==> #[trigger] bit32(r, i) == if i == bit { 1 } else { bit32(value, i) },
{
    proof {
        lemma_single_bit_ops(value, bit);
    }
    value | (1u32 << bit)
}

/// Returns `value` with the bit at position `bit` cleared.
pub fn clear_bit_32(value: u32, bit: u32) -> (r: u32)
    requires
        bit < 32,
    ensures
        forall|i: u32| i < 32 ==> #[trigger] bit32(r, i) == if i == bit { 0 } else { bit32(value, i) },
{
    proof {
        lemma_single_bit_ops(value, bit);
    }
    value & !(1u32 << bit)
}

/// Returns `value` with the bit at position `bit` flipped.
pub fn toggle_bit_32(value: u32, bit: u32) -> (r: u32)
    requires
        bit < 32,
    ensures
        forall|i: u32| i < 32 ==> #[trigger] bit32(r, i) == if i == bit { (1 - bit32(value, i)) as u32 } else { bit32(value, i) },
{
    proof {
        lemma_single_bit_ops(value, bit);
    }
    value ^ (1u32 << bit)
}

/// Extracts the `count` bits of `value` that start at bit `position`.
///
/// Taking no bits gives 0 whatever `position` is; otherwise `position` must
/// be a valid bit position (a shift by 32 or more is an error); a `count`
/// of 32 or more takes every bit from `position` upwards.
pub fn extract_bits_32(value: u32, position: u32, count: u32) -> (r: u32)
    requires
        count == 0 || position < 32,
    ensures
        r as nat == (value as nat / pow2(position as nat)) % pow2(if count < 32 { count as nat } else { 32 }),
{
    if count == 0 {
        proof {
            lemma2_to64();
            assert((value as nat / pow2(position as nat)) % 1 == 0);
        }
        return 0;
    }
    proof {
        lemma_u32_shr_is_div(value, position);
        lemma_pow2_pos(position as nat);
        lemma2_to64();
    }
    if count == 0 {
        return 0;
    }
    let shifted = value >> position;
    if count >= 32 {
        proof {
            vstd::arithmetic::div_mod::lemma_small_mod(shifted as nat, pow2(32));
        }
        return shifted;
    }
    proof {
        lemma_u32_pow2_no_overflow(count as nat);
        lemma_u32_shl_is_mul(1u32, count);
        lemma_u32_low_bits_mask_is_mod(shifted, count as nat);
    }
    let mask = (1u32 << count) - 1;
    shifted & mask
}

/// Extracts the `count` bits of `value` that start at bit `position`.
///
/// Taking no bits gives 0 whatever `position` is; otherwise `position` must
/// be a valid bit position (a shift by 64 or more is an error); a `count`
/// of 64 or more takes every bit from `position` upwards.
pub fn extract_bits_64(value: u64, position: u32, count: u32) -> (r: u64)
    requires
        count == 0 || position < 64,
    ensures
        r as nat == (value as nat / pow2(position as nat)) % pow2(if count < 64 { count as nat } else { 64 }),
{
    if count == 0 {
        proof {
            lemma2_to64();
            assert((value as nat / pow2(position as nat)) % 1 == 0);
        }
        return 0;
    }
    proof {
        lemma_u64_shr_is_div(value, position as u64);
        lemma_pow2_pos(position as nat);
        lemma2_to64();
        lemma2_to64_rest();
    }
    if count == 0 {
        return 0;
    }
    let shifted = value >> position;
    if count >= 64 {
        proof {
            vstd::arithmetic::div_mod::lemma_small_mod(shifted as nat, pow2(64));
        }
        return shifted;
    }
    proof {
        lemma_u64_pow2_no_overflow(count as nat);
        lemma_u64_shl_is_mul(1u64, count as u64);
        lemma_u64_low_bits_mask_is_mod(shifted, count as nat);
    }
    let mask = (1u64 << count) - 1;
    shifted & mask
}

} // verus!
