//! Integer arithmetic used throughout the library: a deterministic integer
//! square root, wrapping and checked 32-bit operations, gcd/lcm and powers of
//! two.
use vstd::arithmetic::div_mod::*;
use vstd::arithmetic::power2::*;
use core::cmp::Ordering;
use vstd::prelude::*;
use vstd::std_specs::bits::*;
use vstd::std_specs::cmp::PartialOrdSpec;

verus! {

/// `r` is the integer square root of `n`: the largest value whose square
/// does not exceed `n`.
pub open spec fn is_int_sqrt(n: int, r: int) -> bool {
    &&& r >= 0
    &&& r * r <= n
    &&& n < (r + 1) * (r + 1)
}

/// One Newton step `(x + n / x) / 2` never lands below the integer square
/// root: the square of its successor exceeds `n`.
proof fn lemma_newton_step_lower(x: int, n: int)
    requires
        x >= 1,
        n >= 0,
    ensures
        ((x + n / x) / 2 + 1) * ((x + n / x) / 2 + 1) > n,
{
    let q = n / x;
    let r = n % x;
    let t = (x + q) / 2;
    let s = t + 1;
    lemma_fundamental_div_mod(n, x);
    lemma_mod_bound(n, x);
    if s * s <= n {
        assert(x + q <= 2 * s - 1);
        assert(x * (x + q + 1) <= 2 * s * x) by (nonlinear_arith)
            requires
                x >= 1,
                x + q + 1 <= 2 * s,
        ;
        assert(x * x + n < x * (x + q + 1)) by (nonlinear_arith)
            requires
                n == x * q + r,
                r < x,
        ;
        assert(false) by (nonlinear_arith)
            requires
                x * x + n < 2 * s * x,
                s * s <= n,
        ;
    }
}

/// While its square exceeds `n`, a Newton step strictly decreases the
/// estimate.
proof fn lemma_newton_step_decreases(x: int, n: int)
    requires
        x >= 1,
        n >= 0,
        x * x > n,
    ensures
        (x + n / x) / 2 < x,
{
    let q = n / x;
    lemma_fundamental_div_mod(n, x);
    lemma_mod_bound(n, x);
    assert(q < x) by (nonlinear_arith)
        requires
            x * q <= n,
            n < x * x,
            x >= 1,
    ;
}

/// Returns floor(sqrt(number)).
///
/// The result is computed with integer operations only, so it is the same on
/// every platform: a power-of-two first estimate refined by Newton's method.
pub fn int_sqrt(number: u64) -> (r: u64)
    ensures
        is_int_sqrt(number as int, r as int),
{
    if number == 0 {
        return 0;
    }
    proof {
        lemma2_to64();
        lemma2_to64_rest();
    }
    // First estimate: the smallest power of two whose square reaches half of
    // |number|.
    let mut act_number = number;
    let mut square_root: u64 = 1;
    let ghost mut k: nat = 0;
    assert(number as int / (1int * 1int) == number);
    while act_number >= 2
        invariant
            number >= 1,
            square_root == pow2(k),
            k <= 32,
            act_number == number as int / (square_root as int * square_root as int),
            pow2(32) == 0x1_0000_0000,
            pow2(31) == 0x8000_0000,
        decreases act_number,
    {
        let ghost sq = square_root as int * square_root as int;
        proof {
            lemma_pow2_pos(k);
            assert(sq > 0) by (nonlinear_arith)
                requires
                    square_root >= 1,
                    sq == square_root as int * square_root as int,
            ;
            lemma_fundamental_div_mod(number as int, sq);
            lemma_mod_bound(number as int, sq);
            assert(2 * sq <= number as int) by (nonlinear_arith)
                requires
                    number as int == sq * (number as int / sq) + (number as int % sq),
                    number as int / sq >= 2,
                    number as int % sq >= 0,
                    sq > 0,
            ;
            if k >= 32 {
                lemma_pow2_strictly_increases(32, k);
                assert(sq >= 0x1_0000_0000 * 0x1_0000_0000) by (nonlinear_arith)
                    requires
                        square_root >= 0x1_0000_0000,
                        sq == square_root as int * square_root as int,
                ;
            }
            if k < 31 {
                lemma_pow2_strictly_increases(k, 31);
            }
            lemma_pow2_unfold(k + 1);
            lemma_div_denominator(number as int, sq, 4);
            assert((2 * square_root as int) * (2 * square_root as int) == sq * 4) by (nonlinear_arith)
                requires
                    sq == square_root as int * square_root as int,
            ;
        }
        square_root = square_root * 2;
        act_number = act_number / 4;
        proof {
            k = k + 1;
        }
    }
    // After the loop |number| < 2 * square_root^2.
    let ghost sq = square_root as int * square_root as int;
    proof {
        lemma_pow2_pos(k);
        assert(sq > 0) by (nonlinear_arith)
            requires
                square_root >= 1,
                sq == square_root as int * square_root as int,
        ;
        lemma_fundamental_div_mod(number as int, sq);
        lemma_mod_bound(number as int, sq);
        assert(number < 2 * sq) by (nonlinear_arith)
            requires
                number as int == sq * (number as int / sq) + (number as int % sq),
                number as int / sq <= 1,
                number as int % sq < sq,
                sq > 0,
        ;
        let q = number as int / square_root as int;
        lemma_fundamental_div_mod(number as int, square_root as int);
        lemma_mod_bound(number as int, square_root as int);
        assert(q < 2 * square_root) by (nonlinear_arith)
            requires
                number as int == square_root * q + (number as int % square_root as int),
                number as int % square_root as int >= 0,
                number < 2 * sq,
                sq == square_root as int * square_root as int,
                square_root >= 1,
        ;
        if k < 32 {
            if k < 31 {
                lemma_pow2_strictly_increases(k, 31);
            }
        } else {
            assert(q < 0x1_0000_0000) by (nonlinear_arith)
                requires
                    number as int == square_root * q + (number as int % square_root as int),
                    number as int % square_root as int >= 0,
                    square_root == 0x1_0000_0000,
                    number <= 0xffff_ffff_ffff_ffff,
            ;
        }
        lemma_newton_step_lower(square_root as int, number as int);
    }
    // Newton (Babylonian) iterations. The first one already gives an estimate
    // that is at least the square root; the following ones decrease it until
    // its square no longer exceeds |number|.
    let mut square_root = (square_root + number / square_root) / 2;
    proof {
        if square_root == 0 {
            assert(number < 1);
        }
        assert(square_root * square_root < 0x1_0000_0000_0000_0000) by (nonlinear_arith)
            requires
                1 <= square_root < 0x1_0000_0000,
        ;
    }
    while square_root * square_root > number
        invariant
            number >= 1,
            1 <= square_root < 0x1_0000_0000,
            square_root * square_root < 0x1_0000_0000_0000_0000,
            (square_root + 1) * (square_root + 1) > number,
        decreases square_root,
    {
        proof {
            lemma_newton_step_decreases(square_root as int, number as int);
            lemma_newton_step_lower(square_root as int, number as int);
        }
        square_root = (square_root + number / square_root) / 2;
        proof {
            if square_root == 0 {
                assert(number < 1);
            }
            assert(square_root * square_root < 0x1_0000_0000_0000_0000) by (nonlinear_arith)
                requires
                    1 <= square_root < 0x1_0000_0000,
            ;
        }
    }
    square_root
}

/// 32-bit version of `int_sqrt`.
pub fn int_sqrt_32(number: u32) -> (r: u32)
    ensures
        is_int_sqrt(number as int, r as int),
{
    let r = int_sqrt(number as u64);
    proof {
        if r >= 0x10000 {
            assert(r * r >= 0x10000 * 0x10000) by (nonlinear_arith)
                requires
                    r >= 0x10000,
            ;
        }
    }
    r as u32
}

/// Performs 32-bit addition, wrapping around on overflow.
pub fn add_wrapping_u32(a: u32, b: u32) -> (r: u32)
    ensures
        r == (a + b) % 0x1_0000_0000,
{
    a.wrapping_add(b)
}

/// Performs 32-bit subtraction, wrapping around on underflow.
pub fn sub_wrapping_u32(a: u32, b: u32) -> (r: u32)
    ensures
        r == (a - b + 0x1_0000_0000) % 0x1_0000_0000,
{
    a.wrapping_sub(b)
}

/// Performs 32-bit multiplication, wrapping around on overflow.
pub fn mul_wrapping_u32(a: u32, b: u32) -> (r: u32)
    ensures
        r == (a * b) % 0x1_0000_0000,
{
    a.wrapping_mul(b)
}

/// Performs 32-bit addition, returning `None` on overflow.
pub fn add_checked_u32(a: u32, b: u32) -> (r: Option<u32>)
    ensures
        r == if a + b <= u32::MAX { Some((a + b) as u32) } else { None::<u32> },
{
    a.checked_add(b)
}

/// Performs 32-bit subtraction, returning `None` on underflow.
pub fn sub_checked_u32(a: u32, b: u32) -> (r: Option<u32>)
    ensures
        r == if a >= b { Some((a - b) as u32) } else { None::<u32> },
{
    a.checked_sub(b)
}

/// Performs 32-bit multiplication, returning `None` on overflow.
pub fn mul_checked_u32(a: u32, b: u32) -> (r: Option<u32>)
    ensures
        r == if a * b <= u32::MAX { Some((a * b) as u32) } else { None::<u32> },
{
    a.checked_mul(b)
}

/// Adds two signed values as if they were unsigned: the sum wraps around
/// modulo 2^32 instead of overflowing.
pub fn add_as_unsigned_i32(a: i32, b: i32) -> (r: i32)
    ensures
        r == if a + b > i32::MAX {
            a + b - 0x1_0000_0000
        } else if a + b < i32::MIN {
            a + b + 0x1_0000_0000
        } else {
            a + b
        },
{
    a.wrapping_add(b)
}

/// `d` divides `x` (both taken as integers, `d` positive).
pub open spec fn divides(d: int, x: int) -> bool {
    x % d == 0
}

/// `g` is the greatest common divisor of the non-negative `a` and `b`: it
/// divides both, and every positive common divisor divides it. (The gcd of
/// 0 and 0 is 0.)
pub open spec fn is_gcd(a: int, b: int, g: int) -> bool {
    &&& g >= 0
    &&& (g == 0 ==> a == 0 && b == 0)
    &&& (g > 0 ==> divides(g, a) && divides(g, b))
    &&& forall|d: int| d > 0 && #[trigger] divides(d, a) && #[trigger] divides(d, b) ==> divides(d, g)
}

/// Absolute value of an integer.
pub open spec fn abs_int(x: int) -> int {
    if x < 0 {
        -x
    } else {
        x
    }
}

/// With `d` dividing `b`, `d` divides `a` exactly when it divides `a % b`.
proof fn lemma_divides_mod(a: int, b: int, d: int)
    requires
        a >= 0,
        b > 0,
        d > 0,
        divides(d, b),
    ensures
        divides(d, a) <==> divides(d, a % b),
{
    lemma_fundamental_div_mod(a, b);
    let q = a / b;
    let r = a % b;
    let k = b / d;
    lemma_fundamental_div_mod(b, d);
    assert(a == d * (k * q) + r) by (nonlinear_arith)
        requires
            a == b * q + r,
            b == d * k,
    ;
    lemma_mod_multiples_vanish(k * q, r, d);
}

/// Returns the greatest common divisor of `a` and `b` (Euclid's algorithm on
/// their absolute values).
///
/// `i32::MIN` has no absolute value in `i32` and is not accepted.
pub fn gcd_i32(a: i32, b: i32) -> (r: i32)
    requires
        a != i32::MIN,
        b != i32::MIN,
    ensures
        is_gcd(abs_int(a as int), abs_int(b as int), r as int),
{
    let a0 = if a < 0 { -a } else { a };
    let b0 = if b < 0 { -b } else { b };
    let mut a = a0;
    let mut b = b0;
    while b != 0
        invariant
            a >= 0,
            b >= 0,
            a0 >= 0,
            b0 >= 0,
            forall|d: int|
                d > 0 ==> ((#[trigger] divides(d, a as int) && divides(d, b as int)) <==> (divides(d, a0 as int)
                    && divides(d, b0 as int))),
        decreases b,
    {
        let temp = b;
        proof {
            lemma_mod_bound(a as int, b as int);
            assert forall|d: int| d > 0 implies ((#[trigger] divides(d, b as int) && divides(d, (a % b) as int))
                <==> (divides(d, a as int) && divides(d, b as int))) by {
                if divides(d, b as int) {
                    lemma_divides_mod(a as int, b as int, d);
                }
            }
        }
        let ghost old_a = a;
        b = a % b;
        a = temp;
        proof {
            assert forall|d: int| d > 0 implies ((#[trigger] divides(d, a as int) && divides(d, b as int)) <==> (
            divides(d, a0 as int) && divides(d, b0 as int))) by {
                assert(divides(d, old_a as int) && divides(d, a as int) <==> divides(d, a0 as int) && divides(d, b0 as int));
            }
        }
    }
    proof {
        assert forall|d: int| d > 0 && #[trigger] divides(d, a0 as int) && #[trigger] divides(d, b0 as int)
            implies divides(d, a as int) by {
            assert(divides(d, a as int) && divides(d, b as int));
        }
        if a > 0 {
            assert(divides(a as int, a as int) && divides(a as int, 0));
            assert(divides(a as int, a0 as int) && divides(a as int, b0 as int));
        } else {
            assert(divides(a0 + 1, 0));
            assert(divides(b0 + 1, 0));
            lemma_small_mod(a0 as nat, (a0 + 1) as nat);
            lemma_small_mod(b0 as nat, (b0 + 1) as nat);
            assert(divides(a0 + 1, a0 as int));
            assert(divides(b0 + 1, b0 as int));
        }
    }
    a
}

/// Two values that are both a greatest common divisor of `a` and `b` are
/// equal: the gcd is unique.
pub proof fn lemma_gcd_unique(a: int, b: int, g1: int, g2: int)
    requires
        a >= 0,
        b >= 0,
        is_gcd(a, b, g1),
        is_gcd(a, b, g2),
    ensures
        g1 == g2,
{
    if g1 == 0 || g2 == 0 {
        // Then a == b == 0, every positive value divides both, and so the
        // other candidate is divisible by its own successor.
        assert(divides(g1 + 1, a) && divides(g1 + 1, b));
        assert(divides(g2 + 1, a) && divides(g2 + 1, b));
        lemma_small_mod(g1 as nat, (g1 + 1) as nat);
        lemma_small_mod(g2 as nat, (g2 + 1) as nat);
    } else {
        assert(divides(g1, g2));
        assert(divides(g2, g1));
        lemma_fundamental_div_mod(g2, g1);
        lemma_fundamental_div_mod(g1, g2);
        let k1 = g2 / g1;
        let k2 = g1 / g2;
        assert(g1 == g2) by (nonlinear_arith)
            requires
                g2 == g1 * k1,
                g1 == g2 * k2,
                g1 > 0,
                g2 > 0,
        ;
    }
}

/// The gcd does not depend on the order of its arguments.
pub proof fn lemma_gcd_commutative(a: int, b: int, g: int)
    requires
        a >= 0,
        b >= 0,
        is_gcd(a, b, g),
    ensures
        is_gcd(b, a, g),
{
}

/// Computes the least common multiple of `a` and `b`: 0 when either is 0,
/// otherwise `|a| / gcd(a, b) * |b|`.
///
/// `i32::MIN` is not accepted, nor a pair whose least common multiple does
/// not fit in an `i32`.
pub fn lcm_i32(a: i32, b: i32) -> (r: i32)
    requires
        a != i32::MIN,
        b != i32::MIN,
        a != 0 && b != 0 ==> forall|g: int|
            #[trigger] is_gcd(abs_int(a as int), abs_int(b as int), g) ==> (abs_int(a as int) / g) * abs_int(b as int)
                <= i32::MAX,
    ensures
        a == 0 || b == 0 ==> r == 0,
        a != 0 && b != 0 ==> exists|g: int|
            #[trigger] is_gcd(abs_int(a as int), abs_int(b as int), g) && r == (abs_int(a as int) / g) * abs_int(b as int),
{
    if a == 0 || b == 0 {
        return 0;
    }
    let g = gcd_i32(a, b);
    let abs_a = if a < 0 { -a } else { a };
    let abs_b = if b < 0 { -b } else { b };
    proof {
        assert(is_gcd(abs_int(a as int), abs_int(b as int), g as int));
        assert(g > 0);
        lemma_div_is_ordered_by_denominator(abs_a as int, 1, g as int);
        assert((abs_a / g) * abs_b <= i32::MAX);
        assert((abs_a / g) * abs_b >= 0) by (nonlinear_arith)
            requires
                abs_a / g >= 0,
                abs_b >= 0,
        ;
    }
    (abs_a / g) * abs_b
}

/// The least common multiple computed by `lcm_i32` is a multiple of both
/// arguments.
pub proof fn lemma_lcm_is_common_multiple(a: int, b: int, g: int)
    requires
        a > 0,
        b > 0,
        is_gcd(a, b, g),
    ensures
        divides(a, (a / g) * b),
        divides(b, (a / g) * b),
{
    assert(g > 0);
    lemma_fundamental_div_mod(a, g);
    lemma_fundamental_div_mod(b, g);
    let ka = a / g;
    let kb = b / g;
    assert((a / g) * b == a * kb) by (nonlinear_arith)
        requires
            a == g * ka,
            b == g * kb,
            g > 0,
    ;
    lemma_mod_multiples_basic(kb, a);
    assert(a * kb == kb * a) by (nonlinear_arith);
    lemma_mod_multiples_basic(ka, b);
}

/// Clamps `value` into the range `[min, max]` by the type's own ordering.
pub fn clamp<T: PartialOrd>(value: T, min: T, max: T) -> (r: T)
    ensures
        T::obeys_partial_cmp_spec() ==> r == if value.partial_cmp_spec(&min) == Some(Ordering::Less) {
            min
        } else if value.partial_cmp_spec(&max) == Some(Ordering::Greater) {
            max
        } else {
            value
        },
{
    if value < min {
        min
    } else if value > max {
        max
    } else {
        value
    }
}

/// `x` is a power of two: exactly one of its bits is set.
pub open spec fn is_pow2_u32(x: u32) -> bool {
    exists|k: u32| k < 32 && x == #[trigger] (1u32 << k)
}

proof fn lemma_pow2_bits(x: u32, k: u32)
    by (bit_vector)
    requires
        k < 32,
    ensures
        x >> k == 1 ==> ((x != 0 && x & sub1_u32(x) == 0) <==> x == 1u32 << k),
        x == 1u32 << k ==> x != 0 && x & sub1_u32(x) == 0,
{
}

/// `x - 1` on 32-bit words, wrapping at zero.
pub open spec fn sub1_u32(x: u32) -> u32 {
    if x == 0 {
        0xffff_ffffu32
    } else {
        (x - 1) as u32
    }
}

/// Returns true if `n` is a power of two.
pub fn is_power_of_two_u32(n: u32) -> (r: bool)
    ensures
        r == is_pow2_u32(n),
{
    let r = n != 0 && (n & (n - 1)) == 0;
    proof {
        if n != 0 {
            let lz = u32_leading_zeros(n);
            axiom_u32_leading_zeros(n);
            let k = (31 - lz) as u32;
            assert((n >> k) & 1 != 0);
            assert(k == 31 || n >> ((k + 1) as u32) == 0);
            crate::bit_utils::lemma_top_bit32(n, k);
            lemma_pow2_bits(n, k);
            if r {
                assert(n == 1u32 << k);
            }
        }
        if is_pow2_u32(n) {
            let k = choose|k: u32| k < 32 && n == #[trigger] (1u32 << k);
            lemma_pow2_bits(n, k);
        }
    }
    r
}

proof fn lemma_next_pow2_bits(n: u32, m: u32, r: u32)
    by (bit_vector)
    requires
        2 <= n <= 0x8000_0000u32,
        ({
            let m0 = (n - 1) as u32;
            let m1 = m0 | (m0 >> 1);
            let m2 = m1 | (m1 >> 2);
            let m3 = m2 | (m2 >> 4);
            let m4 = m3 | (m3 >> 8);
            m == m4 | (m4 >> 16)
        }),
        r == (m + 1) as u32,
    ensures
        m < 0xffff_ffffu32,
        r != 0 && r & sub1_u32(r) == 0,
        r >= n,
        r >> 1 < n,
{
}

/// Returns the smallest power of two that is greater than or equal to `n`
/// (1 for 0 and 1).
///
/// The result must fit in 32 bits: `n` may not exceed 2^31.
pub fn next_power_of_two_u32(n: u32) -> (r: u32)
    requires
        n <= 0x8000_0000,
    ensures
        is_pow2_u32(r),
        r >= n,
        r == 1 || r >> 1 < n,
{
    if n <= 1 {
        proof {
            lemma_pow2_bits(1, 0);
            assert(1u32 == 1u32 << 0u32) by (bit_vector);
        }
        return 1;
    }
    let mut m = n - 1;
    m = m | (m >> 1);
    m = m | (m >> 2);
    m = m | (m >> 4);
    m = m | (m >> 8);
    m = m | (m >> 16);
    proof {
        lemma_next_pow2_bits(n, m, (m + 1) as u32);
    }
    let r = m + 1;
    proof {
        let lz = u32_leading_zeros(r);
        axiom_u32_leading_zeros(r);
        let k = (31 - lz) as u32;
        crate::bit_utils::lemma_top_bit32(r, k);
        lemma_pow2_bits(r, k);
    }
    r
}

/// Returns the absolute difference of two values.
pub fn abs_diff_u32(a: u32, b: u32) -> (r: u32)
    ensures
        r == if a > b { a - b } else { b - a },
{
    if a > b {
        a - b
    } else {
        b - a
    }
}

/// The absolute difference does not depend on the order of its arguments.
pub proof fn lemma_abs_diff_symmetric(a: u32, b: u32)
    ensures
        (if a > b { a - b } else { b - a }) == (if b > a { b - a } else { a - b }),
{
}

} // verus!
