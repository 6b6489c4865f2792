use draco_core::math_utils::{
    abs_diff_u32, add_as_unsigned_i32, add_checked_u32, add_wrapping_u32, clamp, gcd_i32, int_sqrt, int_sqrt_32,
    is_power_of_two_u32, lcm_i32, mul_checked_u32, mul_wrapping_u32, next_power_of_two_u32, sub_checked_u32,
    sub_wrapping_u32,
};

#[test]
fn test_int_sqrt() {
    assert_eq!(int_sqrt(0), 0);
    assert_eq!(int_sqrt(1), 1);
    assert_eq!(int_sqrt(4), 2);
    assert_eq!(int_sqrt(9), 3);
    assert_eq!(int_sqrt(16), 4);
    assert_eq!(int_sqrt(25), 5);
    assert_eq!(int_sqrt(36), 6);
    assert_eq!(int_sqrt(49), 7);
    assert_eq!(int_sqrt(64), 8);
    assert_eq!(int_sqrt(81), 9);
    assert_eq!(int_sqrt(100), 10);

    assert_eq!(int_sqrt(2), 1);
    assert_eq!(int_sqrt(3), 1);
    assert_eq!(int_sqrt(15), 3);
    assert_eq!(int_sqrt(24), 4);
    assert_eq!(int_sqrt(35), 5);

    assert_eq!(int_sqrt(10000), 100);
    assert_eq!(int_sqrt(99999), 316);
    assert_eq!(int_sqrt(u64::MAX), 4294967295);
}

#[test]
fn test_int_sqrt_32() {
    assert_eq!(int_sqrt_32(0), 0);
    assert_eq!(int_sqrt_32(1), 1);
    assert_eq!(int_sqrt_32(4), 2);
    assert_eq!(int_sqrt_32(9), 3);
    assert_eq!(int_sqrt_32(15), 3);
    assert_eq!(int_sqrt_32(16), 4);
    assert_eq!(int_sqrt_32(100), 10);
    assert_eq!(int_sqrt_32(u32::MAX), 65535);
}

#[test]
fn test_add_as_unsigned() {
    let result = add_as_unsigned_i32(100i32, 50i32);
    assert_eq!(result, 150i32);

    let result = add_as_unsigned_i32(20000i32, 15000i32);
    assert_eq!(result, 35000i32);

    let result = add_as_unsigned_i32(-5i32, 10i32);
    assert_eq!(result, 5i32);
}

#[test]
fn test_wrapping_operations() {
    assert_eq!(add_wrapping_u32(200, 100), 300);
    assert_eq!(add_wrapping_u32(u32::MAX - 1, 2), 0);
    assert_eq!(sub_wrapping_u32(50, 100), u32::MAX - 49);
    assert_eq!(mul_wrapping_u32(100, 3), 300);
    assert_eq!(mul_wrapping_u32(u32::MAX / 2 + 1, 2), 0);
}

#[test]
fn test_checked_operations() {
    assert_eq!(add_checked_u32(100, 50), Some(150));
    assert_eq!(add_checked_u32(u32::MAX - 1, 2), None);

    assert_eq!(sub_checked_u32(100, 50), Some(50));
    assert_eq!(sub_checked_u32(50, 100), None);

    assert_eq!(mul_checked_u32(100, 2), Some(200));
    assert_eq!(mul_checked_u32(u32::MAX / 2 + 1, 2), None);
}

#[test]
fn test_gcd() {
    assert_eq!(gcd_i32(48, 18), 6);
    assert_eq!(gcd_i32(18, 48), 6);
    assert_eq!(gcd_i32(17, 13), 1);
    assert_eq!(gcd_i32(0, 5), 5);
    assert_eq!(gcd_i32(5, 0), 5);
    assert_eq!(gcd_i32(0, 0), 0);
    assert_eq!(gcd_i32(-12, 18), 6);
    assert_eq!(gcd_i32(12, -18), 6);
    assert_eq!(gcd_i32(-12, -18), 6);
}

#[test]
fn test_lcm() {
    assert_eq!(lcm_i32(12, 18), 36);
    assert_eq!(lcm_i32(5, 7), 35);
    assert_eq!(lcm_i32(0, 5), 0);
    assert_eq!(lcm_i32(5, 0), 0);
    assert_eq!(lcm_i32(0, 0), 0);
}

#[test]
fn test_clamp() {
    assert_eq!(clamp(5, 0, 10), 5);
    assert_eq!(clamp(-5, 0, 10), 0);
    assert_eq!(clamp(15, 0, 10), 10);
    assert_eq!(clamp(0, 0, 10), 0);
    assert_eq!(clamp(10, 0, 10), 10);
}

#[test]
fn test_next_power_of_two() {
    assert_eq!(next_power_of_two_u32(0), 1);
    assert_eq!(next_power_of_two_u32(1), 1);
    assert_eq!(next_power_of_two_u32(2), 2);
    assert_eq!(next_power_of_two_u32(3), 4);
    assert_eq!(next_power_of_two_u32(5), 8);
    assert_eq!(next_power_of_two_u32(16), 16);
    assert_eq!(next_power_of_two_u32(17), 32);
}

#[test]
fn test_is_power_of_two() {
    assert!(is_power_of_two_u32(1));
    assert!(is_power_of_two_u32(2));
    assert!(is_power_of_two_u32(4));
    assert!(is_power_of_two_u32(8));
    assert!(is_power_of_two_u32(16));
    assert!(!is_power_of_two_u32(3));
    assert!(!is_power_of_two_u32(5));
    assert!(!is_power_of_two_u32(0));
}

#[test]
fn test_abs_diff() {
    assert_eq!(abs_diff_u32(10, 5), 5);
    assert_eq!(abs_diff_u32(5, 10), 5);
    assert_eq!(abs_diff_u32(10, 10), 0);
}

#[test]
fn test_large_numbers() {
    let large_num = u64::MAX / 4;
    let sqrt_result = int_sqrt(large_num);
    assert!(sqrt_result * sqrt_result <= large_num);
    assert!((sqrt_result + 1) * (sqrt_result + 1) > large_num);
}

#[test]
fn gcd_and_lcm_laws_on_values() {
    for (a, b) in [(48, 18), (-7, 21), (0, 9), (100, 75)] {
        assert_eq!(gcd_i32(a, b), gcd_i32(b, a));
        let g = gcd_i32(a, b);
        if g != 0 {
            assert_eq!(a % g, 0);
            assert_eq!(b % g, 0);
        }
        let l = lcm_i32(a, b);
        if a != 0 && b != 0 {
            assert_eq!(l % a, 0);
            assert_eq!(l % b, 0);
        }
    }
    assert_eq!(lcm_i32(-4, 6), 12);
}

#[test]
fn next_power_of_two_at_the_top() {
    assert_eq!(next_power_of_two_u32(0x8000_0000), 0x8000_0000);
    assert_eq!(next_power_of_two_u32(0x4000_0001), 0x8000_0000);
    assert_eq!(int_sqrt(1u64 << 62), 1u64 << 31);
    assert_eq!(int_sqrt((1u64 << 62) - 1), (1u64 << 31) - 1);
}
